use vstd::prelude::*;

verus! {

/// Every failure a query can report.  Each public operation says in its
/// contract exactly which of these it returns, and on which inputs.
#[derive(Clone, Copy, Debug, PartialEq, Eq, Structural)]
pub enum FsError {
    /// The path names no entity in the snapshot.
    NotFound,
    /// A listing was asked of something that is not a directory.
    NotADirectory,
    /// A single-entity query was asked of a directory.
    WrongEntityKind,
    /// The caller's ambient privileges do not allow the underlying read.
    /// Never produced by the model itself; reserved for callers that map
    /// operating-system failures into this type.
    PermissionDenied,
    /// The permission decoder was given a string it cannot decode.
    MalformedModeString,
    /// Any other failure of the underlying metadata source.
    Other,
}

} // verus!
