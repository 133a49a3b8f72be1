//! The failures that queue operations report.

use vstd::prelude::*;

verus! {

/// What a queue operation reports in place of a result.
#[derive(Debug, Clone, Copy, PartialEq, Eq, Structural)]
pub enum QueueError {
    /// There is no pending entry, or none at the position named.
    EmptyQueue,
    /// The history is empty.
    EmptyPlayed,
    /// The cursor has left the last pending entry, which is in the history
    /// now: nothing is left to play.
    NoNext,
    /// The position `index` lies beyond what a queue of `len` pending
    /// entries allows.
    OutOfBounds { index: usize, len: usize },
    /// The operation met a group where it needs a single item: groups are
    /// not played yet.
    Unsupported,
}

} // verus!
