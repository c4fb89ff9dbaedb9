use vstd::prelude::*;
use vstd::string::*;

use crate::directive::{argument_named, is_graphql_name, is_valid_name, Directive};
use crate::error::FederationError;
use crate::link::{link_directive_name, link_type_name, Link};
use crate::schema::{enum_views, schema_link, FederationSchema};
use crate::spec_definition::{spec_find, SpecDefinition, SpecDefinitions};
use crate::url::{parse_url_text, Url};
use crate::version::{Identity, Version, APOLLO_SPEC_DOMAIN};

verus! {

pub const CONNECT_DIRECTIVE_NAME_IN_SPEC: &'static str = "connect";

pub const SOURCE_DIRECTIVE_NAME_IN_SPEC: &'static str = "source";

/// One released version of the connectors specification.
#[derive(Debug)]
pub struct ConnectSpecDefinition {
    pub url: Url,
    pub minimum_federation_version: Option<Version>,
}

/// The string given as `url` argument, where there is one.
pub open spec fn link_url_argument(d: Directive) -> Option<Seq<char>> {
    match argument_named(d@.1, "url"@) {
        Some(v) => if v.0 {
            Some(v.1)
        } else {
            None
        },
        None => None,
    }
}

pub open spec fn names_view(v: Seq<String>) -> Seq<Seq<char>> {
    v.map_values(|s: String| s@)
}

/// `have` with each name of `want` that it lacks appended, in order.
pub open spec fn add_missing(have: Seq<Seq<char>>, want: Seq<Seq<char>>) -> Seq<Seq<char>>
    decreases want.len(),
{
    if want.len() == 0 {
        have
    } else {
        let h = if have.contains(want[0]) {
            have
        } else {
            have.push(want[0])
        };
        add_missing(h, want.drop_first())
    }
}

/// The directives that a schema linking the specification through `l` must define.
pub open spec fn required_directives(l: Link) -> Seq<Seq<char>> {
    seq![link_directive_name(l, "source"@), link_directive_name(l, "connect"@)]
}

/// The types that a schema linking the specification through `l` must define.
pub open spec fn required_types(l: Link) -> Seq<Seq<char>> {
    seq![
        link_type_name(l, "URLTemplate"@),
        link_type_name(l, "JSONSelection"@),
        link_type_name(l, "HTTPHeaderMapping"@),
        link_type_name(l, "ConnectHTTP"@),
        link_type_name(l, "SourceHTTP"@),
    ]
}

pub open spec fn all_names_valid(names: Seq<Seq<char>>) -> bool {
    forall|i: int| 0 <= i < names.len() ==> is_graphql_name(#[trigger] names[i])
}

fn add_missing_names(have: &mut Vec<String>, want: &Vec<String>)
    ensures
        names_view(final(have)@) == add_missing(names_view(old(have)@), names_view(want@)),
{
    let mut i: usize = 0;
    assert(names_view(want@).subrange(0, names_view(want@).len() as int) =~= names_view(want@));
    while i < want.len()
        invariant
            i <= want@.len(),
            add_missing(names_view(old(have)@), names_view(want@)) == add_missing(
                names_view(have@),
                names_view(want@).subrange(i as int, want@.len() as int),
            ),
        decreases want@.len() - i,
    {
        let ghost rest = names_view(want@).subrange(i as int, want@.len() as int);
        assert(rest.drop_first() =~= names_view(want@).subrange(i as int + 1, want@.len() as int));
        assert(rest[0] == want@[i as int]@);
        let ghost before = names_view(have@);
        let mut present = false;
        let mut k: usize = 0;
        while k < have.len()
            invariant
                i < want@.len(),
                k <= have@.len(),
                before == names_view(have@),
                !present ==> forall|j: int| 0 <= j < k ==> before[j] != want@[i as int]@,
                present ==> before.contains(want@[i as int]@),
            decreases have@.len() - k,
        {
            if have[k] == want[i] {
                present = true;
                assert(before[k as int] == want@[i as int]@);
            }
            k = k + 1;
        }
        if !present {
            have.push(want[i].clone());
            assert(names_view(have@) =~= before.push(want@[i as int]@));
        }
        i = i + 1;
    }
    assert(names_view(want@).subrange(i as int, want@.len() as int) =~= Seq::<Seq<char>>::empty());
}

fn all_valid(names: &Vec<String>) -> (r: bool)
    ensures
        r == all_names_valid(names_view(names@)),
{
    let mut i: usize = 0;
    while i < names.len()
        invariant
            i <= names@.len(),
            forall|j: int| 0 <= j < i ==> is_graphql_name(#[trigger] names_view(names@)[j]),
        decreases names@.len() - i,
    {
        if !is_valid_name(names[i].as_str()) {
            assert(!is_graphql_name(names_view(names@)[i as int]));
            return false;
        }
        i = i + 1;
    }
    true
}

impl ConnectSpecDefinition {
    pub fn new(version: Version, minimum_federation_version: Option<Version>) -> (r: Self)
        ensures
            r.url@ == (APOLLO_SPEC_DOMAIN@, "connect"@, version),
            r.minimum_federation_version == minimum_federation_version,
    {
        ConnectSpecDefinition { url: Url { identity: Self::identity(), version }, minimum_federation_version }
    }

    pub fn identity() -> (r: Identity)
        ensures
            r@ == (APOLLO_SPEC_DOMAIN@, "connect"@),
    {
        Identity::connect_identity()
    }

    /// The connectors version that a `@link` application names: none where it
    /// has no string `url` argument, or where the version is not registered; an
    /// error where the url does not parse.
    pub fn from_directive<'a>(
        directive: &Directive,
        versions: &'a SpecDefinitions<ConnectSpecDefinition>,
    ) -> (r: Result<Option<&'a ConnectSpecDefinition>, FederationError>)
        requires
            versions.wf(),
        ensures
            match link_url_argument(*directive) {
                None => r is Ok && r->Ok_0 is None,
                Some(t) => match parse_url_text(t) {
                    None => r == Err::<Option<&ConnectSpecDefinition>, FederationError>(
                        FederationError::MalformedSpecUrl,
                    ),
                    Some(u) => r is Ok && match spec_find(versions.definitions@, u.2) {
                        Some(d) => r->Ok_0 is Some && *r->Ok_0->0 == d,
                        None => r->Ok_0 is None,
                    },
                },
            },
    {
        let text = match directive.argument_by_name("url") {
            Some(v) => match v.as_str() {
                Some(s) => s,
                None => return Ok(None),
            },
            None => return Ok(None),
        };
        let url = match Url::parse(text.as_str()) {
            Ok(u) => u,
            Err(e) => return Err(e),
        };
        Ok(versions.find(&url.version))
    }

    /// The registered connectors version that `schema` links, and the link.
    pub fn get_from_schema<'a, 'b>(
        schema: &'b FederationSchema,
        versions: &'a SpecDefinitions<ConnectSpecDefinition>,
    ) -> (r: Option<(&'a ConnectSpecDefinition, &'b Link)>)
        requires
            versions.wf(),
        ensures
            match schema_link(*schema, (APOLLO_SPEC_DOMAIN@, "connect"@)) {
                None => r is None,
                Some(l) => match spec_find(versions.definitions@, l.url.version) {
                    None => r is None,
                    Some(d) => r is Some && *(r->0).0 == d && *(r->0).1 == l,
                },
            },
    {
        match schema.link_for(&Self::identity()) {
            None => None,
            Some(link) => match versions.find(&link.url.version) {
                None => None,
                Some(d) => Some((d, link)),
            },
        }
    }

    /// The registered connectors version that `schema` links.
    pub fn get_from_federation_schema<'a>(
        schema: &FederationSchema,
        versions: &'a SpecDefinitions<ConnectSpecDefinition>,
    ) -> (r: Option<&'a ConnectSpecDefinition>)
        requires
            versions.wf(),
        ensures
            match schema_link(*schema, (APOLLO_SPEC_DOMAIN@, "connect"@)) {
                None => r is None,
                Some(l) => match spec_find(versions.definitions@, l.url.version) {
                    None => r is None,
                    Some(d) => r is Some && *r->0 == d,
                },
            },
    {
        match schema.link_for(&Self::identity()) {
            None => None,
            Some(link) => versions.find(&link.url.version),
        }
    }

    /// Where `schema` links the connectors specification, adds the definitions
    /// of its directives and types that the schema lacks, under the names that
    /// the link gives them; nothing that is there is changed. A name that is
    /// not a valid GraphQL name is reported, and the schema is left as it was.
    pub fn check_or_add(schema: &mut FederationSchema) -> (r: Result<(), FederationError>)
        ensures
            final(schema).metadata == old(schema).metadata,
            enum_views(final(schema).enum_types@) == enum_views(old(schema).enum_types@),
            match schema_link(*old(schema), (APOLLO_SPEC_DOMAIN@, "connect"@)) {
                None => r is Ok && *final(schema) == *old(schema),
                Some(l) => if all_names_valid(required_directives(l)) && all_names_valid(
                    required_types(l),
                ) {
                    r is Ok && names_view(final(schema).directive_definitions@) == add_missing(
                        names_view(old(schema).directive_definitions@),
                        required_directives(l),
                    ) && names_view(final(schema).type_definitions@) == add_missing(
                        names_view(old(schema).type_definitions@),
                        required_types(l),
                    )
                } else {
                    r == Err::<(), FederationError>(FederationError::SchemaMutationFailure)
                        && *final(schema) == *old(schema)
                },
            },
    {
        proof {
            reveal_strlit("source");
            reveal_strlit("connect");
            reveal_strlit("URLTemplate");
            reveal_strlit("JSONSelection");
            reveal_strlit("HTTPHeaderMapping");
            reveal_strlit("ConnectHTTP");
            reveal_strlit("SourceHTTP");
        }
        let (directives, types) = match schema.link_for(&Self::identity()) {
            None => return Ok(()),
            Some(link) => {
                let mut directives: Vec<String> = Vec::new();
                directives.push(Self::source_directive_name(link));
                directives.push(Self::connect_directive_name(link));
                let mut types: Vec<String> = Vec::new();
                types.push(link.type_name_in_schema(&String::from_str("URLTemplate")));
                types.push(link.type_name_in_schema(&String::from_str("JSONSelection")));
                types.push(link.type_name_in_schema(&String::from_str("HTTPHeaderMapping")));
                types.push(link.type_name_in_schema(&String::from_str("ConnectHTTP")));
                types.push(link.type_name_in_schema(&String::from_str("SourceHTTP")));
                assert(names_view(directives@) =~= required_directives(*link));
                assert(names_view(types@) =~= required_types(*link));
                (directives, types)
            },
        };
        if !all_valid(&directives) || !all_valid(&types) {
            return Err(FederationError::SchemaMutationFailure);
        }
        add_missing_names(&mut schema.directive_definitions, &directives);
        add_missing_names(&mut schema.type_definitions, &types);
        Ok(())
    }

    /// The name of `@source` in a schema that holds `link`.
    pub fn source_directive_name(link: &Link) -> (r: String)
        ensures
            r@ == link_directive_name(*link, "source"@),
    {
        link.directive_name_in_schema(&String::from_str(SOURCE_DIRECTIVE_NAME_IN_SPEC))
    }

    /// The name of `@connect` in a schema that holds `link`.
    pub fn connect_directive_name(link: &Link) -> (r: String)
        ensures
            r@ == link_directive_name(*link, "connect"@),
    {
        link.directive_name_in_schema(&String::from_str(CONNECT_DIRECTIVE_NAME_IN_SPEC))
    }
}

impl SpecDefinition for ConnectSpecDefinition {
    open spec fn spec_url(&self) -> Url {
        self.url
    }

    open spec fn spec_minimum_federation_version(&self) -> Option<Version> {
        self.minimum_federation_version
    }

    fn url(&self) -> (r: &Url) {
        &self.url
    }

    fn minimum_federation_version(&self) -> (r: Option<Version>) {
        self.minimum_federation_version
    }
}

/// Every version of the connectors specification that this library knows.
pub fn connect_versions() -> (r: SpecDefinitions<ConnectSpecDefinition>)
    ensures
        r.wf(),
        r.identity@ == (APOLLO_SPEC_DOMAIN@, "connect"@),
        r.definitions@.len() == 1,
        r.definitions@[0].url@ == (APOLLO_SPEC_DOMAIN@, "connect"@, Version { major: 0, minor: 1 }),
        r.definitions@[0].minimum_federation_version == Some(Version { major: 2, minor: 8 }),
{
    let mut definitions = SpecDefinitions::new(ConnectSpecDefinition::identity());
    let _ = definitions.add(
        ConnectSpecDefinition::new(Version { major: 0, minor: 1 }, Some(Version { major: 2, minor: 8 })),
    );
    definitions
}

} // verus!
