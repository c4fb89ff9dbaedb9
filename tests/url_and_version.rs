use federation_specs::error::FederationError;
use federation_specs::url::{decimal_text, Url};
use federation_specs::version::{Identity, Version};

fn url(domain: &str, name: &str, major: u32, minor: u32) -> Url {
    Url {
        identity: Identity { domain: domain.to_string(), name: name.to_string() },
        version: Version { major, minor },
    }
}

#[test]
fn url_text_round_trips() {
    let cases = vec![
        url("https://specs.apollo.dev", "cost", 0, 1),
        url("https://specs.apollo.dev", "connect", 12, 345),
        url("https://example.com/nested/path", "my_spec", 4294967295, 0),
        url("", "x", 0, 0),
    ];
    for u in cases {
        let text = u.to_text();
        let back = Url::parse(&text).unwrap();
        assert_eq!(back.identity.domain, u.identity.domain);
        assert_eq!(back.identity.name, u.identity.name);
        assert_eq!(back.version, u.version);
    }
}

#[test]
fn url_text_form() {
    assert_eq!(url("https://specs.apollo.dev", "cost", 0, 1).to_text(), "https://specs.apollo.dev/cost/v0.1");
    assert_eq!(url("https://a.b", "n", 10, 205).to_text(), "https://a.b/n/v10.205");
}

#[test]
fn url_parses_parts() {
    let u = Url::parse("https://specs.apollo.dev/connect/v0.1").unwrap();
    assert_eq!(u.identity.domain, "https://specs.apollo.dev");
    assert_eq!(u.identity.name, "connect");
    assert_eq!(u.version, Version { major: 0, minor: 1 });
    let leading_zero = Url::parse("https://x.y/s/v01.007").unwrap();
    assert_eq!(leading_zero.version, Version { major: 1, minor: 7 });
}

#[test]
fn malformed_urls_are_refused() {
    for text in [
        "https://specs.apollo.dev/cost",
        "https://specs.apollo.dev/cost/",
        "https://specs.apollo.dev/cost/0.1",
        "https://specs.apollo.dev/cost/v1",
        "https://specs.apollo.dev/cost/v1.",
        "https://specs.apollo.dev/cost/v.1",
        "https://specs.apollo.dev/cost/v1.x",
        "https://specs.apollo.dev/cost/v-1.0",
        "https://specs.apollo.dev/cost/v4294967296.0",
        "https://specs.apollo.dev//v1.0",
        "cost/v1.0",
        "",
    ] {
        assert_eq!(Url::parse(text).unwrap_err(), FederationError::MalformedSpecUrl, "{}", text);
    }
}

#[test]
fn decimal_text_of_numbers() {
    assert_eq!(decimal_text(0), "0");
    assert_eq!(decimal_text(7), "7");
    assert_eq!(decimal_text(10), "10");
    assert_eq!(decimal_text(4294967295), "4294967295");
}

#[test]
fn satisfies_examples() {
    let v = |major, minor| Version { major, minor };
    assert!(v(1, 2).satisfies(&v(1, 1)));
    assert!(!v(1, 1).satisfies(&v(1, 2)));
    assert!(!v(2, 0).satisfies(&v(1, 0)));
    assert!(!v(1, 0).satisfies(&v(2, 0)));
    for x in [v(0, 0), v(0, 1), v(2, 9), v(u32::MAX, u32::MAX)] {
        assert!(x.satisfies(&x));
    }
}

#[test]
fn identities_compare_by_domain_and_name() {
    let a = Identity::cost_identity();
    let b = Identity { domain: "https://specs.apollo.dev".to_string(), name: "cost".to_string() };
    let c = Identity::connect_identity();
    assert!(a.same_as(&b));
    assert!(!a.same_as(&c));
    assert_eq!(c.name, "connect");
}
