use vstd::prelude::*;

use crate::error::FederationError;
use crate::link::{find_import, link_directive_name, qualified, spec_prefix};
use crate::schema::{schema_link, FederationSchema};
use crate::url::Url;
use crate::version::{Identity, Version};

verus! {

/// What every released version of a specification provides.
pub trait SpecDefinition {
    spec fn spec_url(&self) -> Url;

    spec fn spec_minimum_federation_version(&self) -> Option<Version>;

    fn url(&self) -> (r: &Url)
        ensures
            *r == self.spec_url(),
    ;

    fn minimum_federation_version(&self) -> (r: Option<Version>)
        ensures
            r == self.spec_minimum_federation_version(),
    ;

    /// The name that this specification's directive `name` carries inside
    /// `schema`, or none where the schema does not link the specification.
    fn directive_name_in_schema(&self, schema: &FederationSchema, name: &String) -> (r: Option<String>)
        ensures
            opt_view(r) == spec_directive_name_in_schema(*schema, self.spec_url().identity@, name@),
    {
        directive_name_in_schema(&self.url().identity, schema, name)
    }
}

pub open spec fn opt_view(o: Option<String>) -> Option<Seq<char>> {
    match o {
        Some(s) => Some(s@),
        None => None,
    }
}

/// The name of the directive `name` of the specification `id` inside `schema`:
/// none where the schema does not link the specification.
pub open spec fn spec_directive_name_in_schema(
    schema: FederationSchema,
    id: (Seq<char>, Seq<char>),
    name: Seq<char>,
) -> Option<Seq<char>> {
    match schema_link(schema, id) {
        Some(l) => Some(link_directive_name(l, name)),
        None => None,
    }
}

/// The name that the directive `name` of the specification `identity` carries
/// inside `schema`, or none where the schema does not link that specification
/// (the caller then picks its default).
pub fn directive_name_in_schema(identity: &Identity, schema: &FederationSchema, name: &String) -> (r:
    Option<String>)
    ensures
        opt_view(r) == spec_directive_name_in_schema(*schema, identity@, name@),
{
    match schema.link_for(identity) {
        Some(link) => Some(link.directive_name_in_schema(name)),
        None => None,
    }
}

/// Every released version of one specification.
pub struct SpecDefinitions<T> {
    pub identity: Identity,
    pub definitions: Vec<T>,
}

pub open spec fn has_version<T: SpecDefinition>(defs: Seq<T>, v: Version) -> bool {
    exists|i: int| 0 <= i < defs.len() && (#[trigger] defs[i]).spec_url().version == v
}

/// The definition of version `v`.
pub open spec fn spec_find<T: SpecDefinition>(defs: Seq<T>, v: Version) -> Option<T> {
    if has_version(defs, v) {
        let i = choose|i: int| 0 <= i < defs.len() && (#[trigger] defs[i]).spec_url().version == v;
        Some(defs[i])
    } else {
        None
    }
}

pub open spec fn versions_unique<T: SpecDefinition>(defs: Seq<T>) -> bool {
    forall|i: int, j: int|
        0 <= i < defs.len() && 0 <= j < defs.len() && i != j ==> (#[trigger] defs[i]).spec_url().version
            != (#[trigger] defs[j]).spec_url().version
}

/// The definition of version `v`, where `v` is registered, is the one at `i`.
pub proof fn lemma_find_at<T: SpecDefinition>(defs: Seq<T>, v: Version, i: int)
    requires
        versions_unique(defs),
        0 <= i < defs.len(),
        defs[i].spec_url().version == v,
    ensures
        spec_find(defs, v) == Some(defs[i]),
{
    assert(has_version(defs, v));
}

impl<T: SpecDefinition> SpecDefinitions<T> {
    /// All entries are of the registry's identity, one per version.
    pub open spec fn wf(&self) -> bool {
        &&& forall|i: int|
            0 <= i < self.definitions@.len() ==> (#[trigger] self.definitions@[i]).spec_url().identity@
                == self.identity@
        &&& versions_unique(self.definitions@)
    }

    pub fn new(identity: Identity) -> (r: SpecDefinitions<T>)
        ensures
            r.wf(),
            r.identity == identity,
            r.definitions@.len() == 0,
    {
        SpecDefinitions { identity, definitions: Vec::new() }
    }

    /// Registers one more version; a definition of another identity, or of a
    /// version already held, is refused and nothing changes.
    pub fn add(&mut self, definition: T) -> (r: Result<(), FederationError>)
        requires
            old(self).wf(),
        ensures
            final(self).wf(),
            final(self).identity == old(self).identity,
            r is Ok <==> (definition.spec_url().identity@ == old(self).identity@ && !has_version(
                old(self).definitions@,
                definition.spec_url().version,
            )),
            r is Ok ==> final(self).definitions@ == old(self).definitions@.push(definition),
            r is Err ==> r == Err::<(), FederationError>(FederationError::InvalidSpecRegistration)
                && final(self).definitions@ == old(self).definitions@,
    {
        let url = definition.url();
        if !url.identity.same_as(&self.identity) {
            return Err(FederationError::InvalidSpecRegistration);
        }
        if self.find(&url.version).is_some() {
            return Err(FederationError::InvalidSpecRegistration);
        }
        let ghost v = url.version;
        self.definitions.push(definition);
        assert forall|i: int|
            0 <= i < self.definitions@.len() - 1 implies (#[trigger] self.definitions@[i]).spec_url().version
            != v by {
            assert(old(self).definitions@[i] == self.definitions@[i]);
        }
        Ok(())
    }

    /// The definition of exactly `version`.
    pub fn find(&self, version: &Version) -> (r: Option<&T>)
        requires
            self.wf(),
        ensures
            match spec_find(self.definitions@, *version) {
                Some(d) => r is Some && *r->0 == d,
                None => r is None,
            },
    {
        let mut i: usize = 0;
        while i < self.definitions.len()
            invariant
                self.wf(),
                i <= self.definitions@.len(),
                forall|k: int| 0 <= k < i ==> (#[trigger] self.definitions@[k]).spec_url().version != *version,
            decreases self.definitions@.len() - i,
        {
            let d = &self.definitions[i];
            if d.url().version == *version {
                proof {
                    lemma_find_at(self.definitions@, *version, i as int);
                }
                return Some(d);
            }
            i = i + 1;
        }
        None
    }

    /// The highest registered version that satisfies `required`.
    pub fn find_satisfying(&self, required: &Version) -> (r: Option<&T>)
        requires
            self.wf(),
        ensures
            r is None <==> forall|i: int|
                0 <= i < self.definitions@.len() ==> !(#[trigger] self.definitions@[i]).spec_url().version.spec_satisfies(*required),
            r is Some ==> self.definitions@.contains(*r->0) && r->0.spec_url().version.spec_satisfies(*required),
            r is Some ==> forall|i: int|
                0 <= i < self.definitions@.len() && (#[trigger] self.definitions@[i]).spec_url().version.spec_satisfies(*required)
                    ==> self.definitions@[i].spec_url().version.minor <= r->0.spec_url().version.minor,
    {
        let mut best: Option<&T> = None;
        let mut i: usize = 0;
        while i < self.definitions.len()
            invariant
                i <= self.definitions@.len(),
                best is None ==> forall|k: int|
                    0 <= k < i ==> !(#[trigger] self.definitions@[k]).spec_url().version.spec_satisfies(*required),
                best is Some ==> self.definitions@.contains(*best->0) && best->0.spec_url().version.spec_satisfies(*required),
                best is Some ==> forall|k: int|
                    0 <= k < i && (#[trigger] self.definitions@[k]).spec_url().version.spec_satisfies(*required)
                        ==> self.definitions@[k].spec_url().version.minor <= best->0.spec_url().version.minor,
            decreases self.definitions@.len() - i,
        {
            let d = &self.definitions[i];
            let v = d.url().version;
            if v.satisfies(required) {
                let better = match best {
                    Some(b) => b.url().version.minor < v.minor,
                    None => true,
                };
                if better {
                    best = Some(d);
                }
            }
            i = i + 1;
        }
        best
    }
}

/// A version once registered is found, as the same definition, in every
/// registry grown from it by further additions: adding versions never changes
/// what an earlier lookup returned.
pub proof fn lemma_registered_version_is_stable<T: SpecDefinition>(
    earlier: SpecDefinitions<T>,
    later: SpecDefinitions<T>,
    v: Version,
)
    requires
        earlier.wf(),
        later.wf(),
        earlier.definitions@.is_prefix_of(later.definitions@),
        has_version(earlier.definitions@, v),
    ensures
        spec_find(later.definitions@, v) == spec_find(earlier.definitions@, v),
        spec_find(later.definitions@, v) is Some,
{
    let e = earlier.definitions@;
    let i = choose|i: int| 0 <= i < e.len() && (#[trigger] e[i]).spec_url().version == v;
    assert(later.definitions@[i] == e[i]);
    lemma_find_at(e, v, i);
    lemma_find_at(later.definitions@, v, i);
}

/// The three tiers of name resolution: a schema that does not link the
/// specification gives no name (the caller's default applies); one that links
/// it gives the explicit rename of the directive where there is one, the name
/// itself where it is imported without rename or is the specification's own
/// name, and else the name qualified by the specification's prefix.
pub proof fn lemma_name_resolution_tiers(
    schema: FederationSchema,
    id: (Seq<char>, Seq<char>),
    name: Seq<char>,
)
    ensures
        schema_link(schema, id) is None ==> spec_directive_name_in_schema(schema, id, name) is None,
        schema_link(schema, id) is Some ==> ({
            let l = schema_link(schema, id)->0;
            spec_directive_name_in_schema(schema, id, name) == Some(
                match find_import(l.imports@, name, true) {
                    Some(imp) => match imp.alias {
                        Some(alias) => alias@,
                        None => name,
                    },
                    None => if name == l.url.identity.name@ {
                        name
                    } else {
                        qualified(spec_prefix(l), name)
                    },
                },
            )
        }),
{
}

} // verus!
