use vstd::prelude::*;

verus! {

/// What can go wrong in this library; every failure is reported, none aborts.
#[derive(Clone, Copy, Debug, PartialEq, Eq, Structural)]
pub enum FederationError {
    /// A `@link` url does not have the form `<domain>/<name>/v<major>.<minor>`.
    MalformedSpecUrl,
    /// A directive's name in a schema cannot be formed.
    DirectiveNameResolutionFailure,
    /// The destination already carries a different application of the directive.
    ConflictingDirectiveInsertion,
    /// The destination schema cannot take the change (for instance, a missing type).
    SchemaMutationFailure,
    /// A registry was given a definition of another identity, or of a version it holds.
    InvalidSpecRegistration,
}

} // verus!
