use federation_specs::cost::{cost_versions, CostSpecDefinition};
use federation_specs::directive::{Argument, Directive, DirectiveList, Value};
use federation_specs::error::FederationError;
use federation_specs::link::{Import, Link, LinksMetadata};
use federation_specs::schema::{EnumType, EnumTypeDefinitionPosition, FederationSchema};
use federation_specs::spec_definition::{directive_name_in_schema, SpecDefinition};
use federation_specs::url::Url;
use federation_specs::version::{Identity, Version};

fn schema_with(links: Vec<Link>) -> FederationSchema {
    FederationSchema {
        metadata: if links.is_empty() { None } else { Some(LinksMetadata { links }) },
        directive_definitions: vec![],
        type_definitions: vec![],
        enum_types: vec![],
    }
}

fn cost_link(spec_alias: Option<&str>, imports: Vec<Import>) -> Link {
    Link {
        url: Url { identity: Identity::cost_identity(), version: Version { major: 0, minor: 1 } },
        spec_alias: spec_alias.map(|s| s.to_string()),
        imports,
    }
}

fn cost() -> CostSpecDefinition {
    CostSpecDefinition::new(Version { major: 0, minor: 1 }, Some(Version { major: 2, minor: 9 }))
}

fn directive(name: &str, args: Vec<Argument>) -> Directive {
    Directive { name: name.to_string(), arguments: args }
}

fn describe(d: &Directive) -> String {
    let args: Vec<String> = d
        .arguments
        .iter()
        .map(|a| match &a.value {
            Value::String(s) => format!("{}: \"{}\"", a.name, s),
            Value::Other(s) => format!("{}: {}", a.name, s),
        })
        .collect();
    format!("@{}({})", d.name, args.join(", "))
}

fn describe_list(l: &DirectiveList) -> Vec<String> {
    l.directives.iter().map(describe).collect()
}

fn renames(pairs: &[(&str, &str)]) -> Vec<(String, String)> {
    pairs.iter().map(|(a, b)| (a.to_string(), b.to_string())).collect()
}

#[test]
fn unlinked_schema_resolves_to_no_name() {
    let schema = schema_with(vec![]);
    let id = Identity::cost_identity();
    assert_eq!(directive_name_in_schema(&id, &schema, &"cost".to_string()), None);
    let d = cost().cost_directive(&schema, vec![]).unwrap();
    assert_eq!(d.name, "federation__cost");
    let l = cost().list_size_directive(&schema, vec![]).unwrap();
    assert_eq!(l.name, "federation__listSize");
}

#[test]
fn linked_schema_without_import_uses_spec_name_or_prefix() {
    let id = Identity::cost_identity();
    let schema = schema_with(vec![cost_link(None, vec![])]);
    assert_eq!(directive_name_in_schema(&id, &schema, &"cost".to_string()), Some("cost".to_string()));
    assert_eq!(
        directive_name_in_schema(&id, &schema, &"listSize".to_string()),
        Some("cost__listSize".to_string())
    );
    let aliased = schema_with(vec![cost_link(Some("dc"), vec![])]);
    assert_eq!(
        directive_name_in_schema(&id, &aliased, &"listSize".to_string()),
        Some("dc__listSize".to_string())
    );
}

#[test]
fn linked_schema_with_import_uses_rename() {
    let id = Identity::cost_identity();
    let schema = schema_with(vec![cost_link(
        Some("dc"),
        vec![Import::new("cost", true, Some("myCost")), Import::new("listSize", true, None)],
    )]);
    assert_eq!(directive_name_in_schema(&id, &schema, &"cost".to_string()), Some("myCost".to_string()));
    assert_eq!(
        directive_name_in_schema(&id, &schema, &"listSize".to_string()),
        Some("listSize".to_string())
    );
    assert_eq!(cost().cost_directive(&schema, vec![]).unwrap().name, "myCost");
}

#[test]
fn type_imports_do_not_rename_directives() {
    let id = Identity::cost_identity();
    let schema = schema_with(vec![cost_link(None, vec![Import::new("listSize", false, Some("LS"))])]);
    assert_eq!(
        directive_name_in_schema(&id, &schema, &"listSize".to_string()),
        Some("cost__listSize".to_string())
    );
}

#[test]
fn invalid_resolved_name_is_reported() {
    let schema = schema_with(vec![cost_link(None, vec![Import::new("cost", true, Some("my-cost"))])]);
    assert_eq!(
        cost().cost_directive(&schema, vec![]).unwrap_err(),
        FederationError::DirectiveNameResolutionFailure
    );
    let mut dest = DirectiveList::new();
    let source = DirectiveList { directives: vec![directive("cost", vec![Argument::new("weight", "1")])] };
    assert_eq!(
        cost().propagate_demand_control_directives(&schema, &source, &mut dest, &vec![]),
        Err(FederationError::DirectiveNameResolutionFailure)
    );
    assert_eq!(dest.len(), 0);
}

#[test]
fn propagation_translates_aliases() {
    let schema = schema_with(vec![]);
    let source = DirectiveList { directives: vec![directive("myCost", vec![Argument::new("weight", "5")])] };
    let mut dest = DirectiveList::new();
    cost()
        .propagate_demand_control_directives(&schema, &source, &mut dest, &renames(&[("cost", "myCost")]))
        .unwrap();
    assert_eq!(describe_list(&dest), vec!["@federation__cost(weight: 5)".to_string()]);
}

#[test]
fn propagation_carries_both_directives() {
    let schema = schema_with(vec![cost_link(None, vec![Import::new("listSize", true, Some("size"))])]);
    let source = DirectiveList {
        directives: vec![
            directive("other", vec![]),
            directive(
                "ls",
                vec![Argument::new("assumedSize", "10"), Argument::string("note", "x")],
            ),
            directive("cost", vec![Argument::new("weight", "3")]),
        ],
    };
    let mut dest = DirectiveList { directives: vec![directive("keep", vec![])] };
    cost()
        .propagate_demand_control_directives(&schema, &source, &mut dest, &renames(&[("listSize", "ls")]))
        .unwrap();
    assert_eq!(
        describe_list(&dest),
        vec![
            "@keep()".to_string(),
            "@cost(weight: 3)".to_string(),
            "@size(assumedSize: 10, note: \"x\")".to_string(),
        ]
    );
    cost()
        .propagate_demand_control_directives(&schema, &source, &mut dest, &renames(&[("listSize", "ls")]))
        .unwrap();
    assert_eq!(dest.len(), 3);
}

#[test]
fn propagation_without_directives_changes_nothing() {
    let schema = schema_with(vec![]);
    let source = DirectiveList { directives: vec![directive("cost", vec![Argument::new("weight", "5")])] };
    let mut dest = DirectiveList { directives: vec![directive("keep", vec![])] };
    cost()
        .propagate_demand_control_directives(&schema, &source, &mut dest, &renames(&[("cost", "myCost")]))
        .unwrap();
    assert_eq!(describe_list(&dest), vec!["@keep()".to_string()]);
    let empty = DirectiveList::new();
    cost().propagate_demand_control_directives(&schema, &empty, &mut dest, &vec![]).unwrap();
    assert_eq!(describe_list(&dest), vec!["@keep()".to_string()]);
}

fn enum_schema(existing: Vec<Directive>) -> FederationSchema {
    let mut s = schema_with(vec![]);
    s.enum_types.push(EnumType { name: "Color".to_string(), directives: DirectiveList { directives: existing } });
    s
}

fn enum_source(dirs: Vec<Directive>) -> EnumType {
    EnumType { name: "Color".to_string(), directives: DirectiveList { directives: dirs } }
}

#[test]
fn enum_propagation_adds_directives() {
    let mut schema = enum_schema(vec![]);
    let source = enum_source(vec![
        directive("cost", vec![Argument::new("weight", "5")]),
        directive("listSize", vec![Argument::new("assumedSize", "2")]),
    ]);
    let pos = EnumTypeDefinitionPosition { enum_name: "Color".to_string() };
    cost().propagate_demand_control_directives_for_enum(&mut schema, &source, &pos, &vec![]).unwrap();
    assert_eq!(
        describe_list(&schema.enum_types[0].directives),
        vec!["@federation__cost(weight: 5)".to_string(), "@federation__listSize(assumedSize: 2)".to_string()]
    );
    cost().propagate_demand_control_directives_for_enum(&mut schema, &source, &pos, &vec![]).unwrap();
    assert_eq!(schema.enum_types[0].directives.len(), 2);
}

#[test]
fn enum_propagation_refuses_conflicts() {
    let mut schema = enum_schema(vec![directive("federation__cost", vec![Argument::new("weight", "10")])]);
    let source = enum_source(vec![directive("cost", vec![Argument::new("weight", "5")])]);
    let pos = EnumTypeDefinitionPosition { enum_name: "Color".to_string() };
    assert_eq!(
        cost().propagate_demand_control_directives_for_enum(&mut schema, &source, &pos, &vec![]),
        Err(FederationError::ConflictingDirectiveInsertion)
    );
    assert_eq!(
        describe_list(&schema.enum_types[0].directives),
        vec!["@federation__cost(weight: 10)".to_string()]
    );
}

#[test]
fn enum_propagation_needs_the_enum() {
    let mut schema = enum_schema(vec![]);
    let source = enum_source(vec![directive("cost", vec![Argument::new("weight", "5")])]);
    let pos = EnumTypeDefinitionPosition { enum_name: "Shape".to_string() };
    assert_eq!(
        cost().propagate_demand_control_directives_for_enum(&mut schema, &source, &pos, &vec![]),
        Err(FederationError::SchemaMutationFailure)
    );
    let absent = enum_source(vec![]);
    assert_eq!(cost().propagate_demand_control_directives_for_enum(&mut schema, &absent, &pos, &vec![]), Ok(()));
    assert_eq!(schema.enum_types[0].directives.len(), 0);
}

#[test]
fn registered_cost_definition_builds_directives() {
    let reg = cost_versions();
    let d = reg.find(&Version { major: 0, minor: 1 }).unwrap();
    let schema = schema_with(vec![]);
    let built = d.cost_directive(&schema, vec![Argument::new("weight", "1")]).unwrap();
    assert_eq!(describe(&built), "@federation__cost(weight: 1)");
}

#[test]
fn spec_definitions_resolve_names_through_their_identity() {
    let schema = schema_with(vec![cost_link(None, vec![Import::new("cost", true, Some("price"))])]);
    assert_eq!(cost().directive_name_in_schema(&schema, &"cost".to_string()), Some("price".to_string()));
    assert_eq!(
        cost().directive_name_in_schema(&schema, &"listSize".to_string()),
        Some("cost__listSize".to_string())
    );
    let unlinked = schema_with(vec![]);
    assert_eq!(cost().directive_name_in_schema(&unlinked, &"cost".to_string()), None);
}
