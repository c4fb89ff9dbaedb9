use federation_specs::connect::{connect_versions, ConnectSpecDefinition};
use federation_specs::directive::{Argument, Directive};
use federation_specs::error::FederationError;
use federation_specs::link::{Import, Link, LinksMetadata};
use federation_specs::schema::FederationSchema;
use federation_specs::spec_definition::SpecDefinition;
use federation_specs::url::Url;
use federation_specs::version::{Identity, Version};

fn link_directive(args: Vec<Argument>) -> Directive {
    Directive { name: "link".to_string(), arguments: args }
}

fn connect_link(minor: u32, spec_alias: Option<&str>, imports: Vec<Import>) -> Link {
    Link {
        url: Url { identity: Identity::connect_identity(), version: Version { major: 0, minor } },
        spec_alias: spec_alias.map(|s| s.to_string()),
        imports,
    }
}

fn schema_with(links: Vec<Link>) -> FederationSchema {
    FederationSchema {
        metadata: Some(LinksMetadata { links }),
        directive_definitions: vec![],
        type_definitions: vec![],
        enum_types: vec![],
    }
}

#[test]
fn from_directive_without_url_is_none() {
    let reg = connect_versions();
    assert!(ConnectSpecDefinition::from_directive(&link_directive(vec![]), &reg).unwrap().is_none());
    let not_string = link_directive(vec![Argument::new("url", "3")]);
    assert!(ConnectSpecDefinition::from_directive(&not_string, &reg).unwrap().is_none());
}

#[test]
fn from_directive_with_bad_url_is_an_error() {
    let reg = connect_versions();
    let d = link_directive(vec![Argument::string("url", "https://specs.apollo.dev/connect/vx")]);
    assert_eq!(
        ConnectSpecDefinition::from_directive(&d, &reg).err(),
        Some(FederationError::MalformedSpecUrl)
    );
}

#[test]
fn from_directive_finds_registered_versions_only() {
    let reg = connect_versions();
    let known = link_directive(vec![
        Argument::string("import", "@connect"),
        Argument::string("url", "https://specs.apollo.dev/connect/v0.1"),
    ]);
    let found = ConnectSpecDefinition::from_directive(&known, &reg).unwrap().unwrap();
    assert_eq!(found.url().version, Version { major: 0, minor: 1 });
    let unknown = link_directive(vec![Argument::string("url", "https://specs.apollo.dev/connect/v9.9")]);
    assert!(ConnectSpecDefinition::from_directive(&unknown, &reg).unwrap().is_none());
}

#[test]
fn schema_lookup_finds_linked_version() {
    let reg = connect_versions();
    let schema = schema_with(vec![connect_link(1, None, vec![])]);
    let d = ConnectSpecDefinition::get_from_federation_schema(&schema, &reg).unwrap();
    assert_eq!(d.url().identity.name, "connect");
    let (d2, link) = ConnectSpecDefinition::get_from_schema(&schema, &reg).unwrap();
    assert_eq!(d2.url().version, Version { major: 0, minor: 1 });
    assert_eq!(link.url.version, Version { major: 0, minor: 1 });
    let newer = schema_with(vec![connect_link(2, None, vec![])]);
    assert!(ConnectSpecDefinition::get_from_federation_schema(&newer, &reg).is_none());
    let none = schema_with(vec![]);
    assert!(ConnectSpecDefinition::get_from_schema(&none, &reg).is_none());
}

#[test]
fn directive_names_follow_the_link() {
    let plain = connect_link(1, None, vec![]);
    assert_eq!(ConnectSpecDefinition::connect_directive_name(&plain), "connect");
    assert_eq!(ConnectSpecDefinition::source_directive_name(&plain), "connect__source");
    let renamed = connect_link(1, Some("c"), vec![Import::new("source", true, Some("src"))]);
    assert_eq!(ConnectSpecDefinition::source_directive_name(&renamed), "src");
    assert_eq!(ConnectSpecDefinition::connect_directive_name(&renamed), "connect");
}

#[test]
fn check_or_add_adds_missing_definitions_once() {
    let mut schema = schema_with(vec![connect_link(
        1,
        None,
        vec![Import::new("connect", true, None), Import::new("JSONSelection", false, Some("Sel"))],
    )]);
    schema.type_definitions.push("connect__URLTemplate".to_string());
    ConnectSpecDefinition::check_or_add(&mut schema).unwrap();
    assert_eq!(schema.directive_definitions, vec!["connect__source".to_string(), "connect".to_string()]);
    assert_eq!(
        schema.type_definitions,
        vec![
            "connect__URLTemplate".to_string(),
            "Sel".to_string(),
            "connect__HTTPHeaderMapping".to_string(),
            "connect__ConnectHTTP".to_string(),
            "connect__SourceHTTP".to_string(),
        ]
    );
    ConnectSpecDefinition::check_or_add(&mut schema).unwrap();
    assert_eq!(schema.directive_definitions.len(), 2);
    assert_eq!(schema.type_definitions.len(), 5);
}

#[test]
fn check_or_add_without_link_does_nothing() {
    let mut schema = schema_with(vec![]);
    ConnectSpecDefinition::check_or_add(&mut schema).unwrap();
    assert!(schema.directive_definitions.is_empty());
    assert!(schema.type_definitions.is_empty());
}

#[test]
fn check_or_add_reports_invalid_names() {
    let mut schema = schema_with(vec![connect_link(1, Some("my-connect"), vec![])]);
    assert_eq!(ConnectSpecDefinition::check_or_add(&mut schema), Err(FederationError::SchemaMutationFailure));
    assert!(schema.directive_definitions.is_empty());
    assert!(schema.type_definitions.is_empty());
}
