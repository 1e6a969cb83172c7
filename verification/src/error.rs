use vstd::prelude::*;

verus! {

/// The failure kinds that the library's operations report.
#[derive(Clone, Copy, Debug, PartialEq, Eq, Structural)]
pub enum PkgError {
    /// A dependency name, or the package record itself, was not found.
    NotFound,
    /// An added dependency's name collides, or a record already exists at `init`.
    AlreadyExists,
    /// A constraint string is not a parseable semantic-version range.
    InvalidConstraint,
    /// A constraint that is not a range matched no branch either.
    UnresolvableConstraint,
    /// A well-formed range matched no available tag.
    NoMatchingVersion,
    /// A clone, fetch, checkout or tag enumeration failed.
    SourceControlFailure,
    /// A create, remove, rename or copy on the filesystem failed.
    FilesystemFailure,
    /// The discovery service refused the call because of rate limiting.
    RateLimited,
    /// The discovery call failed for another reason.
    RemoteServiceFailure,
    /// The package record could not be parsed or written.
    PersistenceFailure,
    /// A constraint removal found no constraint to remove.
    MissingConstraint,
}

} // verus!
