use vstd::prelude::*;

use crate::directive::{first_named, Directive, DirectiveList, DirectiveView};
use crate::error::FederationError;
use crate::link::{link_for, Link, LinksMetadata};
use crate::version::Identity;

verus! {

/// An enum type of a schema, with the directives applied to it.
#[derive(Debug)]
pub struct EnumType {
    pub name: String,
    pub directives: DirectiveList,
}

pub type EnumView = (Seq<char>, Seq<DirectiveView>);

impl View for EnumType {
    type V = EnumView;

    open spec fn view(&self) -> EnumView {
        (self.name@, self.directives@)
    }
}

/// The parts of a schema that this library reads and changes.
#[derive(Debug)]
pub struct FederationSchema {
    pub metadata: Option<LinksMetadata>,
    pub directive_definitions: Vec<String>,
    pub type_definitions: Vec<String>,
    pub enum_types: Vec<EnumType>,
}

/// Where an enum type stands in a schema: its name.
#[derive(Debug)]
pub struct EnumTypeDefinitionPosition {
    pub enum_name: String,
}

pub open spec fn enum_views(s: Seq<EnumType>) -> Seq<EnumView> {
    s.map_values(|e: EnumType| e@)
}

/// The link of `schema` to the specification `id`.
pub open spec fn schema_link(schema: FederationSchema, id: (Seq<char>, Seq<char>)) -> Option<Link> {
    match schema.metadata {
        Some(m) => link_for(m.links@, id),
        None => None,
    }
}

/// Index of the first enum type named `name`, or -1.
pub open spec fn enum_index(ev: Seq<EnumView>, name: Seq<char>) -> int
    decreases ev.len(),
{
    if ev.len() == 0 {
        -1
    } else if ev[0].0 == name {
        0
    } else {
        let k = enum_index(ev.drop_first(), name);
        if k < 0 {
            -1
        } else {
            k + 1
        }
    }
}

pub open spec fn has_named(dirs: Seq<DirectiveView>, name: Seq<char>) -> bool {
    exists|k: int| 0 <= k < dirs.len() && (#[trigger] dirs[k]).0 == name
}

/// Adding `d` to `dirs`: nothing changes where an equal application is there;
/// another application of the same name is a conflict; else `d` is appended.
pub open spec fn insert_outcome(dirs: Seq<DirectiveView>, d: DirectiveView) -> Result<
    Seq<DirectiveView>,
    FederationError,
> {
    if dirs.contains(d) {
        Ok(dirs)
    } else if has_named(dirs, d.0) {
        Err(FederationError::ConflictingDirectiveInsertion)
    } else {
        Ok(dirs.push(d))
    }
}

/// Adding `d` to the enum type named `ty`.
pub open spec fn enum_insert(ev: Seq<EnumView>, ty: Seq<char>, d: DirectiveView) -> Result<
    Seq<EnumView>,
    FederationError,
> {
    let idx = enum_index(ev, ty);
    if idx < 0 {
        Err(FederationError::SchemaMutationFailure)
    } else {
        match insert_outcome(ev[idx].1, d) {
            Ok(ds) => Ok(ev.update(idx, (ev[idx].0, ds))),
            Err(e) => Err(e),
        }
    }
}

pub proof fn lemma_enum_index(ev: Seq<EnumView>, name: Seq<char>)
    ensures
        -1 <= enum_index(ev, name) < ev.len(),
        enum_index(ev, name) >= 0 ==> ev[enum_index(ev, name)].0 == name,
    decreases ev.len(),
{
    if ev.len() > 0 && ev[0].0 != name {
        lemma_enum_index(ev.drop_first(), name);
    }
}

pub proof fn lemma_first_named(l: Seq<DirectiveView>, name: Seq<char>)
    ensures
        first_named(l, name) is Some <==> has_named(l, name),
        match first_named(l, name) {
            Some(d) => d.0 == name,
            None => true,
        },
    decreases l.len(),
{
    if l.len() > 0 && l[0].0 != name {
        let t = l.drop_first();
        lemma_first_named(t, name);
        if has_named(l, name) {
            let k = choose|k: int| 0 <= k < l.len() && (#[trigger] l[k]).0 == name;
            assert(t[k - 1] == l[k]);
        }
        if has_named(t, name) {
            let k = choose|k: int| 0 <= k < t.len() && (#[trigger] t[k]).0 == name;
            assert(l[k + 1] == t[k]);
        }
    } else if l.len() > 0 {
        assert(l[0].0 == name);
    }
}

impl FederationSchema {
    /// The link of this schema to the specification `id`.
    pub fn link_for(&self, id: &Identity) -> (r: Option<&Link>)
        ensures
            match schema_link(*self, id@) {
                Some(l) => r is Some && *r->0 == l,
                None => r is None,
            },
    {
        match &self.metadata {
            Some(m) => m.for_identity(id),
            None => None,
        }
    }
}

impl EnumTypeDefinitionPosition {
    fn index_in(&self, schema: &FederationSchema) -> (r: Option<usize>)
        ensures
            match r {
                Some(i) => i as int == enum_index(enum_views(schema.enum_types@), self.enum_name@),
                None => enum_index(enum_views(schema.enum_types@), self.enum_name@) < 0,
            },
    {
        let ghost ev = enum_views(schema.enum_types@);
        let mut i: usize = 0;
        assert(ev.subrange(0, ev.len() as int) =~= ev);
        while i < schema.enum_types.len()
            invariant
                i <= ev.len() == schema.enum_types@.len(),
                ev == enum_views(schema.enum_types@),
                enum_index(ev, self.enum_name@) == if enum_index(
                    ev.subrange(i as int, ev.len() as int),
                    self.enum_name@,
                ) < 0 {
                    -1
                } else {
                    enum_index(ev.subrange(i as int, ev.len() as int), self.enum_name@) + i
                },
            decreases ev.len() - i,
        {
            let ghost rest = ev.subrange(i as int, ev.len() as int);
            assert(rest.drop_first() =~= ev.subrange(i as int + 1, ev.len() as int));
            assert(rest[0] == schema.enum_types@[i as int]@);
            if schema.enum_types[i].name == self.enum_name {
                return Some(i);
            }
            i = i + 1;
        }
        None
    }

    /// Applies `directive` to this enum type: a no-op where an equal application
    /// is there, a conflict where another application of that name is.
    pub fn insert_directive(&self, schema: &mut FederationSchema, directive: Directive) -> (r: Result<
        (),
        FederationError,
    >)
        ensures
            final(schema).metadata == old(schema).metadata,
            final(schema).directive_definitions == old(schema).directive_definitions,
            final(schema).type_definitions == old(schema).type_definitions,
            match enum_insert(enum_views(old(schema).enum_types@), self.enum_name@, directive@) {
                Ok(ev) => r == Ok::<(), FederationError>(()) && enum_views(final(schema).enum_types@) == ev,
                Err(e) => r == Err::<(), FederationError>(e) && enum_views(
                    final(schema).enum_types@,
                ) == enum_views(old(schema).enum_types@),
            },
    {
        let ghost ev = enum_views(schema.enum_types@);
        proof {
            lemma_enum_index(ev, self.enum_name@);
        }
        let idx = match self.index_in(schema) {
            Some(i) => i,
            None => return Err(FederationError::SchemaMutationFailure),
        };
        assert(ev[idx as int] == schema.enum_types@[idx as int]@);
        if schema.enum_types[idx].directives.contains(&directive) {
            return Ok(());
        }
        proof {
            lemma_first_named(schema.enum_types@[idx as int].directives@, directive@.0);
        }
        if schema.enum_types[idx].directives.get(directive.name.as_str()).is_some() {
            return Err(FederationError::ConflictingDirectiveInsertion);
        }
        let mut e = schema.enum_types.remove(idx);
        e.directives.push(directive);
        schema.enum_types.insert(idx, e);
        assert(enum_views(schema.enum_types@) =~= ev.update(idx as int, (ev[idx as int].0, ev[idx as int].1.push(directive@))));
        Ok(())
    }
}

} // verus!
