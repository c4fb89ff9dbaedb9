use vstd::prelude::*;
use vstd::string::*;

verus! {

/// A release of a specification.
#[derive(Clone, Copy, Debug, PartialEq, Eq, Structural)]
pub struct Version {
    pub major: u32,
    pub minor: u32,
}

impl Version {
    pub open spec fn spec_satisfies(self, required: Version) -> bool {
        self.major == required.major && self.minor >= required.minor
    }

    /// Whether this version can stand where `required` is asked for: same
    /// major, and a minor at least as high.
    pub fn satisfies(&self, required: &Version) -> (r: bool)
        ensures
            r == self.spec_satisfies(*required),
    {
        self.major == required.major && self.minor >= required.minor
    }
}

/// `satisfies` is reflexive.
pub proof fn lemma_satisfies_reflexive(v: Version)
    ensures
        v.spec_satisfies(v),
{
}

/// A higher minor of the same major satisfies whatever a lower one does; no
/// other major ever does.
pub proof fn lemma_satisfies_monotonic_in_minor(v: Version, w: Version, required: Version)
    requires
        v.spec_satisfies(required),
        w.major == v.major,
        w.minor >= v.minor,
    ensures
        w.spec_satisfies(required),
        forall|u: Version| u.major != required.major ==> !(#[trigger] u.spec_satisfies(required)),
{
}

/// `satisfies` is transitive, and never crosses a major version.
pub proof fn lemma_satisfies_transitive(a: Version, b: Version, c: Version)
    requires
        a.spec_satisfies(b),
        b.spec_satisfies(c),
    ensures
        a.spec_satisfies(c),
        a.major == c.major,
{
}

/// The namespace of a specification.
#[derive(Debug)]
pub struct Identity {
    pub domain: String,
    pub name: String,
}

impl View for Identity {
    type V = (Seq<char>, Seq<char>);

    open spec fn view(&self) -> (Seq<char>, Seq<char>) {
        (self.domain@, self.name@)
    }
}

/// The origin of the specifications that the federation itself publishes.
pub const APOLLO_SPEC_DOMAIN: &'static str = "https://specs.apollo.dev";

impl Identity {
    /// The identity of the cost specification.
    pub fn cost_identity() -> (r: Identity)
        ensures
            r@ == (APOLLO_SPEC_DOMAIN@, "cost"@),
    {
        Identity { domain: String::from_str(APOLLO_SPEC_DOMAIN), name: String::from_str("cost") }
    }

    /// The identity of the connectors specification.
    pub fn connect_identity() -> (r: Identity)
        ensures
            r@ == (APOLLO_SPEC_DOMAIN@, "connect"@),
    {
        Identity { domain: String::from_str(APOLLO_SPEC_DOMAIN), name: String::from_str("connect") }
    }

    pub fn same_as(&self, other: &Identity) -> (r: bool)
        ensures
            r == (self@ == other@),
    {
        self.domain == other.domain && self.name == other.name
    }
}

} // verus!
