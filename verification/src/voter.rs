//! The voter: the authority on whether this node may accept writes.

use vstd::prelude::*;

verus! {

/// What the election layer lets this node do.
///
/// The election itself happens elsewhere; the voter only carries its
/// verdict to those who queue commands.
#[derive(Clone, Copy, Debug)]
pub struct Voter {
    safe_leader: bool,
}

impl Voter {
    /// Whether the node may currently accept new write commands.
    pub closed spec fn allows(&self) -> bool {
        self.safe_leader
    }

    /// A voter with the given verdict.
    pub fn new(safe_leader: bool) -> (voter: Voter)
        ensures
            voter.allows() == safe_leader,
    {
        Voter { safe_leader }
    }

    /// Records a new verdict of the election layer: `true` only while the
    /// node safely leads.
    pub fn set_safe_leader(&mut self, safe_leader: bool)
        ensures
            final(self).allows() == safe_leader,
    {
        self.safe_leader = safe_leader;
    }

    /// Whether the node may currently accept new write commands.
    pub fn allow_queue_entry(&self) -> (allowed: bool)
        ensures
            allowed == self.allows(),
    {
        self.safe_leader
    }
}

} // verus!
