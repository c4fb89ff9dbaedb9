use vstd::prelude::*;
use vstd::string::*;

use crate::directive::{
    arguments_view, duplicate_arguments, ArgumentView, first_named, is_graphql_name, is_valid_name, Argument,
    Directive, DirectiveList, DirectiveView,
};
use crate::error::FederationError;
use crate::schema::{enum_index, has_named, schema_link, enum_insert, enum_views, EnumType, EnumTypeDefinitionPosition, EnumView, FederationSchema};
use crate::spec_definition::{
    spec_directive_name_in_schema, SpecDefinition, SpecDefinitions,
};
use crate::url::Url;
use crate::version::{Identity, Version};

verus! {

pub const COST_DIRECTIVE_NAME_IN_SPEC: &'static str = "cost";

pub const COST_DIRECTIVE_NAME_DEFAULT: &'static str = "federation__cost";

pub const LIST_SIZE_DIRECTIVE_NAME_IN_SPEC: &'static str = "listSize";

pub const LIST_SIZE_DIRECTIVE_NAME_DEFAULT: &'static str = "federation__listSize";

/// One released version of the cost specification.
#[derive(Debug)]
pub struct CostSpecDefinition {
    pub url: Url,
    pub minimum_federation_version: Option<Version>,
}

/// The name under which the source document wrote `canonical`: its entry in the
/// rename table (the first one), else `canonical` itself.
pub open spec fn source_name(renames: Seq<(String, String)>, canonical: Seq<char>) -> Seq<char>
    decreases renames.len(),
{
    if renames.len() == 0 {
        canonical
    } else if renames[0].0@ == canonical {
        renames[0].1@
    } else {
        source_name(renames.drop_first(), canonical)
    }
}

/// The name of `canonical` in `schema`, or `default` where the specification is not linked.
pub open spec fn resolved_name(
    schema: FederationSchema,
    id: (Seq<char>, Seq<char>),
    canonical: Seq<char>,
    default: Seq<char>,
) -> Seq<char> {
    match spec_directive_name_in_schema(schema, id, canonical) {
        Some(n) => n,
        None => default,
    }
}

/// The directive `canonical` built for `schema` with `args`, where its name is a valid name.
pub open spec fn built_directive(
    schema: FederationSchema,
    id: (Seq<char>, Seq<char>),
    canonical: Seq<char>,
    default: Seq<char>,
    args: Seq<ArgumentView>,
) -> Result<DirectiveView, FederationError> {
    let n = resolved_name(schema, id, canonical, default);
    if is_graphql_name(n) {
        Ok((n, args))
    } else {
        Err(FederationError::DirectiveNameResolutionFailure)
    }
}

/// The application of `canonical` that `source` carries, renamed for `schema`:
/// none where the source carries none.
pub open spec fn carried_application(
    schema: FederationSchema,
    id: (Seq<char>, Seq<char>),
    source: Seq<DirectiveView>,
    renames: Seq<(String, String)>,
    canonical: Seq<char>,
    default: Seq<char>,
) -> Result<Option<DirectiveView>, FederationError> {
    match first_named(source, source_name(renames, canonical)) {
        None => Ok(None),
        Some(d) => match built_directive(schema, id, canonical, default, d.1) {
            Ok(nd) => Ok(Some(nd)),
            Err(e) => Err(e),
        },
    }
}

pub open spec fn append_new(dest: Seq<DirectiveView>, d: Option<DirectiveView>) -> Seq<DirectiveView> {
    match d {
        Some(x) => if dest.contains(x) {
            dest
        } else {
            dest.push(x)
        },
        None => dest,
    }
}

/// `dest` after the cost and list-size applications of `source` are carried over.
pub open spec fn propagated_list(
    schema: FederationSchema,
    id: (Seq<char>, Seq<char>),
    source: Seq<DirectiveView>,
    renames: Seq<(String, String)>,
    dest: Seq<DirectiveView>,
) -> Result<Seq<DirectiveView>, FederationError> {
    match carried_application(schema, id, source, renames, "cost"@, "federation__cost"@) {
        Err(e) => Err(e),
        Ok(c) => match carried_application(schema, id, source, renames, "listSize"@, "federation__listSize"@) {
            Err(e) => Err(e),
            Ok(l) => Ok(append_new(append_new(dest, c), l)),
        },
    }
}

pub open spec fn enum_step(ev: Seq<EnumView>, ty: Seq<char>, t: Result<Option<DirectiveView>, FederationError>) -> Result<
    Seq<EnumView>,
    FederationError,
> {
    match t {
        Err(e) => Err(e),
        Ok(None) => Ok(ev),
        Ok(Some(d)) => enum_insert(ev, ty, d),
    }
}

/// The enum types after the cost and list-size applications of `source` are
/// applied to the enum type `ty`, in that order, and the outcome: where the
/// second fails, the first stays applied.
pub open spec fn propagated_enum(
    schema: FederationSchema,
    id: (Seq<char>, Seq<char>),
    source: Seq<DirectiveView>,
    renames: Seq<(String, String)>,
    ty: Seq<char>,
) -> (Seq<EnumView>, Result<(), FederationError>) {
    let ev0 = enum_views(schema.enum_types@);
    match enum_step(ev0, ty, carried_application(schema, id, source, renames, "cost"@, "federation__cost"@)) {
        Err(e) => (ev0, Err(e)),
        Ok(ev1) => match enum_step(
            ev1,
            ty,
            carried_application(schema, id, source, renames, "listSize"@, "federation__listSize"@),
        ) {
            Err(e) => (ev1, Err(e)),
            Ok(ev2) => (ev2, Ok(())),
        },
    }
}

fn source_name_of(renames: &Vec<(String, String)>, canonical: &String) -> (r: String)
    ensures
        r@ == source_name(renames@, canonical@),
{
    let mut i: usize = 0;
    assert(renames@.subrange(0, renames@.len() as int) =~= renames@);
    while i < renames.len()
        invariant
            i <= renames@.len(),
            source_name(renames@, canonical@) == source_name(
                renames@.subrange(i as int, renames@.len() as int),
                canonical@,
            ),
        decreases renames@.len() - i,
    {
        let ghost rest = renames@.subrange(i as int, renames@.len() as int);
        assert(rest.drop_first() =~= renames@.subrange(i as int + 1, renames@.len() as int));
        if renames[i].0 == *canonical {
            return renames[i].1.clone();
        }
        i = i + 1;
    }
    canonical.clone()
}

impl CostSpecDefinition {
    pub fn new(version: Version, minimum_federation_version: Option<Version>) -> (r: Self)
        ensures
            r.url@ == (crate::version::APOLLO_SPEC_DOMAIN@, "cost"@, version),
            r.minimum_federation_version == minimum_federation_version,
    {
        CostSpecDefinition {
            url: Url { identity: Identity::cost_identity(), version },
            minimum_federation_version,
        }
    }

    fn named_directive(
        &self,
        schema: &FederationSchema,
        canonical: &str,
        default: &str,
        arguments: Vec<Argument>,
    ) -> (r: Result<Directive, FederationError>)
        ensures
            match built_directive(
                *schema,
                self.url.identity@,
                canonical@,
                default@,
                arguments_view(arguments@),
            ) {
                Ok(d) => r is Ok && r->Ok_0@ == d,
                Err(e) => r == Err::<Directive, FederationError>(e),
            },
    {
        let name = match self.directive_name_in_schema(schema, &String::from_str(canonical)) {
            Some(n) => n,
            None => String::from_str(default),
        };
        if !is_valid_name(name.as_str()) {
            return Err(FederationError::DirectiveNameResolutionFailure);
        }
        Ok(Directive { name, arguments })
    }

    /// A `@cost` application for `schema`, under the name that the schema gives it.
    pub fn cost_directive(&self, schema: &FederationSchema, arguments: Vec<Argument>) -> (r: Result<
        Directive,
        FederationError,
    >)
        ensures
            match built_directive(
                *schema,
                self.url.identity@,
                "cost"@,
                "federation__cost"@,
                arguments_view(arguments@),
            ) {
                Ok(d) => r is Ok && r->Ok_0@ == d,
                Err(e) => r == Err::<Directive, FederationError>(e),
            },
    {
        self.named_directive(schema, COST_DIRECTIVE_NAME_IN_SPEC, COST_DIRECTIVE_NAME_DEFAULT, arguments)
    }

    /// A `@listSize` application for `schema`, under the name that the schema gives it.
    pub fn list_size_directive(&self, schema: &FederationSchema, arguments: Vec<Argument>) -> (r:
        Result<Directive, FederationError>)
        ensures
            match built_directive(
                *schema,
                self.url.identity@,
                "listSize"@,
                "federation__listSize"@,
                arguments_view(arguments@),
            ) {
                Ok(d) => r is Ok && r->Ok_0@ == d,
                Err(e) => r == Err::<Directive, FederationError>(e),
            },
    {
        self.named_directive(
            schema,
            LIST_SIZE_DIRECTIVE_NAME_IN_SPEC,
            LIST_SIZE_DIRECTIVE_NAME_DEFAULT,
            arguments,
        )
    }

    fn carry_application(
        &self,
        schema: &FederationSchema,
        source: &DirectiveList,
        renames: &Vec<(String, String)>,
        canonical: &str,
        default: &str,
    ) -> (r: Result<Option<Directive>, FederationError>)
        ensures
            match carried_application(*schema, self.url.identity@, source@, renames@, canonical@, default@) {
                Ok(Some(d)) => r is Ok && r->Ok_0 is Some && r->Ok_0->0@ == d,
                Ok(None) => r is Ok && r->Ok_0 is None,
                Err(e) => r == Err::<Option<Directive>, FederationError>(e),
            },
    {
        let name = source_name_of(renames, &String::from_str(canonical));
        match source.get(name.as_str()) {
            None => Ok(None),
            Some(d) => {
                let args = duplicate_arguments(&d.arguments);
                match self.named_directive(schema, canonical, default, args) {
                    Ok(nd) => Ok(Some(nd)),
                    Err(e) => Err(e),
                }
            },
        }
    }

    /// Carries the `@cost` and `@listSize` applications of `source`, found under
    /// the names that `original_directive_names` gives them there, over to
    /// `dest`, under the names that `subgraph_schema` gives them. An equal
    /// application already in `dest` is not added again; on failure `dest` is
    /// left as it was.
    pub fn propagate_demand_control_directives(
        &self,
        subgraph_schema: &FederationSchema,
        source: &DirectiveList,
        dest: &mut DirectiveList,
        original_directive_names: &Vec<(String, String)>,
    ) -> (r: Result<(), FederationError>)
        ensures
            match propagated_list(
                *subgraph_schema,
                self.url.identity@,
                source@,
                original_directive_names@,
                old(dest)@,
            ) {
                Ok(d) => r is Ok && final(dest)@ == d,
                Err(e) => r == Err::<(), FederationError>(e) && final(dest)@ == old(dest)@,
            },
    {
        proof {
            reveal_strlit("cost");
            reveal_strlit("listSize");
        }
        let cost = match self.carry_application(
            subgraph_schema,
            source,
            original_directive_names,
            COST_DIRECTIVE_NAME_IN_SPEC,
            COST_DIRECTIVE_NAME_DEFAULT,
        ) {
            Ok(c) => c,
            Err(e) => return Err(e),
        };
        let list_size = match self.carry_application(
            subgraph_schema,
            source,
            original_directive_names,
            LIST_SIZE_DIRECTIVE_NAME_IN_SPEC,
            LIST_SIZE_DIRECTIVE_NAME_DEFAULT,
        ) {
            Ok(l) => l,
            Err(e) => return Err(e),
        };
        if let Some(c) = cost {
            if !dest.contains(&c) {
                dest.push(c);
            }
        }
        if let Some(l) = list_size {
            if !dest.contains(&l) {
                dest.push(l);
            }
        }
        Ok(())
    }

    /// Applies the `@cost` and `@listSize` applications of the enum type
    /// `source` to the enum type at `dest`, under the names that
    /// `subgraph_schema` gives them. An application that conflicts with one
    /// already there is refused, and that one stays as it was.
    pub fn propagate_demand_control_directives_for_enum(
        &self,
        subgraph_schema: &mut FederationSchema,
        source: &EnumType,
        dest: &EnumTypeDefinitionPosition,
        original_directive_names: &Vec<(String, String)>,
    ) -> (r: Result<(), FederationError>)
        ensures
            final(subgraph_schema).metadata == old(subgraph_schema).metadata,
            final(subgraph_schema).directive_definitions == old(subgraph_schema).directive_definitions,
            final(subgraph_schema).type_definitions == old(subgraph_schema).type_definitions,
            enum_views(final(subgraph_schema).enum_types@) == propagated_enum(
                *old(subgraph_schema),
                self.url.identity@,
                source.directives@,
                original_directive_names@,
                dest.enum_name@,
            ).0,
            r == propagated_enum(
                *old(subgraph_schema),
                self.url.identity@,
                source.directives@,
                original_directive_names@,
                dest.enum_name@,
            ).1,
    {
        proof {
            reveal_strlit("cost");
            reveal_strlit("listSize");
        }
        let ghost before = *subgraph_schema;
        let cost = self.carry_application(
            subgraph_schema,
            &source.directives,
            original_directive_names,
            COST_DIRECTIVE_NAME_IN_SPEC,
            COST_DIRECTIVE_NAME_DEFAULT,
        );
        match cost {
            Err(e) => return Err(e),
            Ok(None) => {},
            Ok(Some(c)) => {
                match dest.insert_directive(subgraph_schema, c) {
                    Ok(()) => {},
                    Err(e) => return Err(e),
                }
            },
        }
        // The links are untouched, so the list-size name resolves as it did before.
        let ghost mid = *subgraph_schema;
        assert(carried_application(mid, self.url.identity@, source.directives@, original_directive_names@,
            "listSize"@, "federation__listSize"@) == carried_application(before, self.url.identity@,
            source.directives@, original_directive_names@, "listSize"@, "federation__listSize"@));
        let list_size = self.carry_application(
            subgraph_schema,
            &source.directives,
            original_directive_names,
            LIST_SIZE_DIRECTIVE_NAME_IN_SPEC,
            LIST_SIZE_DIRECTIVE_NAME_DEFAULT,
        );
        match list_size {
            Err(e) => Err(e),
            Ok(None) => Ok(()),
            Ok(Some(l)) => dest.insert_directive(subgraph_schema, l),
        }
    }
}

impl SpecDefinition for CostSpecDefinition {
    open spec fn spec_url(&self) -> Url {
        self.url
    }

    open spec fn spec_minimum_federation_version(&self) -> Option<Version> {
        self.minimum_federation_version
    }

    fn url(&self) -> (r: &Url) {
        &self.url
    }

    fn minimum_federation_version(&self) -> (r: Option<Version>) {
        self.minimum_federation_version
    }
}

/// Every version of the cost specification that this library knows.
pub fn cost_versions() -> (r: SpecDefinitions<CostSpecDefinition>)
    ensures
        r.wf(),
        r.identity@ == (crate::version::APOLLO_SPEC_DOMAIN@, "cost"@),
        r.definitions@.len() == 1,
        r.definitions@[0].url@ == (
            crate::version::APOLLO_SPEC_DOMAIN@,
            "cost"@,
            Version { major: 0, minor: 1 },
        ),
        r.definitions@[0].minimum_federation_version == Some(Version { major: 2, minor: 9 }),
{
    let mut definitions = SpecDefinitions::new(Identity::cost_identity());
    let _ = definitions.add(
        CostSpecDefinition::new(Version { major: 0, minor: 1 }, Some(Version { major: 2, minor: 9 })),
    );
    definitions
}

/// Where the source carries neither a cost nor a list-size application,
/// propagation succeeds and changes nothing.
pub proof fn lemma_absent_directives_change_nothing(
    schema: FederationSchema,
    id: (Seq<char>, Seq<char>),
    source: Seq<DirectiveView>,
    renames: Seq<(String, String)>,
    dest: Seq<DirectiveView>,
    ty: Seq<char>,
)
    requires
        first_named(source, source_name(renames, "cost"@)) is None,
        first_named(source, source_name(renames, "listSize"@)) is None,
    ensures
        propagated_list(schema, id, source, renames, dest) == Ok::<
            Seq<DirectiveView>,
            FederationError,
        >(dest),
        propagated_enum(schema, id, source, renames, ty) == (
            enum_views(schema.enum_types@),
            Ok::<(), FederationError>(()),
        ),
{
}

/// A cost application that the source wrote under its own alias reaches a
/// destination whose schema does not link the specification as
/// `@federation__cost`, with its arguments unchanged.
pub proof fn lemma_cost_keeps_arguments_across_renames(
    schema: FederationSchema,
    id: (Seq<char>, Seq<char>),
    source: Seq<DirectiveView>,
    renames: Seq<(String, String)>,
    dest: Seq<DirectiveView>,
)
    requires
        schema_link(schema, id) is None,
        first_named(source, source_name(renames, "cost"@)) is Some,
        first_named(source, source_name(renames, "listSize"@)) is None,
    ensures
        propagated_list(schema, id, source, renames, dest) == Ok::<
            Seq<DirectiveView>,
            FederationError,
        >(
            append_new(
                dest,
                Some(
                    ("federation__cost"@, (first_named(source, source_name(renames, "cost"@))->0).1),
                ),
            ),
        ),
{
    reveal_strlit("federation__cost");
    assert(is_graphql_name("federation__cost"@));
}

/// A cost application that meets a different application of the same name on
/// the destination enum type is refused as a conflict, and the enum types stay
/// as they were.
pub proof fn lemma_enum_conflict_is_refused(
    schema: FederationSchema,
    id: (Seq<char>, Seq<char>),
    source: Seq<DirectiveView>,
    renames: Seq<(String, String)>,
    ty: Seq<char>,
    cost: DirectiveView,
)
    requires
        carried_application(schema, id, source, renames, "cost"@, "federation__cost"@) == Ok::<
            Option<DirectiveView>,
            FederationError,
        >(Some(cost)),
        enum_index(enum_views(schema.enum_types@), ty) >= 0,
        has_named(enum_views(schema.enum_types@)[enum_index(enum_views(schema.enum_types@), ty)].1, cost.0),
        !enum_views(schema.enum_types@)[enum_index(enum_views(schema.enum_types@), ty)].1.contains(cost),
    ensures
        propagated_enum(schema, id, source, renames, ty) == (
            enum_views(schema.enum_types@),
            Err::<(), FederationError>(FederationError::ConflictingDirectiveInsertion),
        ),
{
}

} // verus!
