//! The failures that the library reports.

use vstd::prelude::*;

verus! {

/// What a lookup in the history did not find.
#[derive(Clone, Copy, Debug, PartialEq, Eq, Structural)]
pub enum Missing {
    /// Nothing has been recorded at all.
    AnyHistory,
    /// Nothing has been recorded for the image asked for.
    Image,
    /// No snapshot of the image was taken at a commit with the given prefix.
    Commit,
    /// No snapshot of the image was taken on the given branch.
    Branch,
}

/// A failure of the history store or of a query over it.
#[derive(Clone, Copy, Debug, PartialEq, Eq, Structural)]
pub enum HistoryError {
    /// No snapshot matches the query.
    NotFound(Missing),
    /// The stored history cannot be read as a list of snapshots.
    Corrupt,
    /// Fewer snapshots are recorded than the operation needs.
    InsufficientHistory,
}

} // verus!
