//! Clocks: the logical position and authoring epoch of a log entry.

use vstd::prelude::*;

verus! {

/// Election epoch. Never decreases over the life of a cluster.
pub type Term = u64;

/// Position in the log. Index 0 is the baseline that stands before the log.
pub type Index = u64;

/// Identifier of a cluster node.
pub type NodeId = u64;

/// The pair `(term, index)` that identifies an entry.
#[derive(Clone, Copy, Debug, PartialEq, Eq, Structural)]
pub struct Clock {
    pub term: Term,
    pub index: Index,
}

impl Clock {
    /// The clock of the baseline: term 0 at index 0.
    pub open spec fn baseline() -> Clock {
        Clock { term: 0, index: 0 }
    }

    /// Builds a clock from its two parts.
    pub fn new(term: Term, index: Index) -> (clock: Clock)
        ensures
            clock.term == term,
            clock.index == index,
    {
        Clock { term, index }
    }
}

} // verus!
