use vstd::prelude::*;

verus! {

/// The failure modes the storage layer surfaces. A multi-table mutation
/// either fully applies or reports one of these with prior state intact.
#[derive(Clone, Copy, Debug, PartialEq, Eq, Structural)]
pub enum StorageError {
    /// A lookup missed; the caller decides whether that is fatal.
    NotFound,
    /// A duplicate insert or position-assignment race.
    PositionConflict,
    /// A stored record does not match the expected byte layout.
    CorruptRecord,
    /// Another writer holds the single write slot.
    Conflict,
    /// The underlying medium failed; the in-flight transaction is discarded.
    IoFailure,
}

} // verus!
