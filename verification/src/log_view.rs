//! The mathematical model of the command log.
//!
//! A log is a sequence of entries in which the position of an entry is its
//! index. Position 0 always holds the baseline entry, so a log without
//! commands has length 1 and its last index is 0.

use vstd::prelude::*;
use crate::clock::Clock;
use crate::command_log::TryInsertResult;
use crate::entry::Completion;
use crate::entry::EntryView;
use crate::entry::ResolutionView;

verus! {

/// The abstract state of a command log.
pub struct LogView {
    /// The entries, each at the position of its index.
    pub entries: Seq<EntryView>,
    /// Highest index known to be durable on a quorum.
    pub committed: int,
    /// Highest index applied to the state machine.
    pub applied: int,
    /// The completions that wait, by index.
    pub completions: Map<int, Completion>,
    /// The resolutions that were produced and not yet taken, oldest first.
    pub resolved: Seq<ResolutionView>,
}

/// The aborted resolutions of the completions registered at the indices
/// `lo <= k < hi`, in ascending order of index.
pub open spec fn aborted_range(completions: Map<int, Completion>, lo: int, hi: int) -> Seq<
    ResolutionView,
>
    decreases hi - lo,
{
    if lo >= hi {
        Seq::empty()
    } else if completions.dom().contains(hi - 1) {
        aborted_range(completions, lo, hi - 1).push(
            ResolutionView::aborted(hi - 1, completions[hi - 1]),
        )
    } else {
        aborted_range(completions, lo, hi - 1)
    }
}

impl LogView {
    /// A log that holds the baseline entry and nothing else.
    pub open spec fn empty() -> LogView {
        LogView {
            entries: seq![EntryView::baseline()],
            committed: 0,
            applied: 0,
            completions: Map::empty(),
            resolved: Seq::empty(),
        }
    }

    /// The index of the last entry.
    pub open spec fn last_index(self) -> int {
        self.entries.len() - 1
    }

    /// Whether the log holds an entry at `index`.
    pub open spec fn has_entry(self, index: int) -> bool {
        0 <= index < self.entries.len()
    }

    /// The clock of the last entry.
    pub open spec fn tail_clock(self) -> Clock {
        self.entries[self.last_index()].this_clock
    }

    /// Whether an entry waits to be applied at `index`.
    pub open spec fn is_pending(self, index: int) -> bool {
        self.applied < index <= self.last_index()
    }

    /// The invariant of every log.
    ///
    /// Entries sit at their index without gaps from the baseline, each names
    /// its predecessor's clock, the cursors are ordered, and a completion
    /// waits only on an entry that is not applied yet.
    pub open spec fn wf(self) -> bool {
        &&& self.entries.len() >= 1
        &&& self.entries[0] == EntryView::baseline()
        &&& forall|i: int|
            0 <= i < self.entries.len() ==> (#[trigger] self.entries[i]).this_clock.index == i
        &&& forall|i: int|
            1 <= i < self.entries.len() ==> (#[trigger] self.entries[i]).prev_clock
                == self.entries[i - 1].this_clock
        &&& 0 <= self.applied <= self.committed <= self.last_index()
        &&& forall|k: int| #[trigger] self.completions.dom().contains(k) ==> self.is_pending(k)
    }

    /// Whether the log's own predecessor of `entry` carries the clock that
    /// `entry` names. The baseline index has no predecessor to check.
    pub open spec fn predecessor_matches(self, entry: EntryView) -> bool {
        let i = entry.this_clock.index as int;
        i == 0 || (self.has_entry(i - 1) && self.entries[i - 1].this_clock == entry.prev_clock)
    }

    /// Whether `entry` meets a different entry at its index.
    pub open spec fn conflicts_with(self, entry: EntryView) -> bool {
        let i = entry.this_clock.index as int;
        self.has_entry(i) && self.entries[i].this_clock != entry.this_clock
    }

    /// The outcome of offering `entry` to the log.
    pub open spec fn insert_outcome(self, entry: EntryView) -> TryInsertResult {
        let i = entry.this_clock.index as int;
        if !self.predecessor_matches(entry) {
            TryInsertResult::InconsistencyDetected
        } else if !self.has_entry(i) {
            TryInsertResult::Inserted
        } else if self.entries[i].this_clock == entry.this_clock {
            TryInsertResult::SkippedInsertion
        } else if i <= self.committed {
            TryInsertResult::InconsistencyDetected
        } else {
            TryInsertResult::Inserted
        }
    }

    /// The log with every entry at `index` and above discarded and their
    /// completions resolved as aborted.
    pub open spec fn truncate_from(self, index: int) -> LogView {
        LogView {
            entries: self.entries.take(index),
            committed: self.committed,
            applied: self.applied,
            completions: self.completions.restrict(Set::new(|k: int| k < index)),
            resolved: self.resolved + aborted_range(
                self.completions,
                index,
                self.entries.len() as int,
            ),
        }
    }

    /// The log with `entry` added behind the last entry.
    pub open spec fn push(self, entry: EntryView) -> LogView {
        LogView { entries: self.entries.push(entry), ..self }
    }

    /// The log after `entry` was offered to it.
    pub open spec fn insert(self, entry: EntryView) -> LogView {
        if self.insert_outcome(entry) == TryInsertResult::Inserted {
            self.truncate_from(entry.this_clock.index as int).push(entry)
        } else {
            self
        }
    }

    /// The entry that a leader appends for `command`: next index, the given
    /// term or else the term of the tail, and the tail as predecessor.
    pub open spec fn next_entry(self, command: Seq<u8>, term: Option<u64>) -> EntryView {
        EntryView {
            prev_clock: self.tail_clock(),
            this_clock: Clock {
                term: match term {
                    Some(t) => t,
                    None => self.tail_clock().term,
                },
                index: (self.last_index() + 1) as u64,
            },
            command,
        }
    }

    /// The log after a leader appended `command`.
    pub open spec fn append(self, command: Seq<u8>, term: Option<u64>) -> LogView {
        self.push(self.next_entry(command, term))
    }

    /// The log after `completion` was registered at `index`.
    ///
    /// On an index that is pending the completion waits there, and one that
    /// waited there before is resolved as aborted. On any other index no
    /// entry can ever answer, so the completion itself is resolved as
    /// aborted at once.
    pub open spec fn register(self, index: int, completion: Completion) -> LogView {
        if !self.is_pending(index) {
            LogView { resolved: self.resolved.push(ResolutionView::aborted(index, completion)), ..self }
        } else if self.completions.dom().contains(index) {
            LogView {
                completions: self.completions.insert(index, completion),
                resolved: self.resolved.push(
                    ResolutionView::aborted(index, self.completions[index]),
                ),
                ..self
            }
        } else {
            LogView { completions: self.completions.insert(index, completion), ..self }
        }
    }

    /// The log after the commit cursor was raised towards `index`: never
    /// lowered, and never beyond the last entry.
    pub open spec fn commit(self, index: int) -> LogView {
        let reach = if index <= self.last_index() {
            index
        } else {
            self.last_index()
        };
        if reach > self.committed {
            LogView { committed: reach, ..self }
        } else {
            self
        }
    }

    /// Whether an entry is committed and not applied yet.
    pub open spec fn has_work(self) -> bool {
        self.applied < self.committed
    }

    /// The log after the state machine answered `message` for the entry
    /// behind the apply cursor.
    pub open spec fn apply(self, message: Seq<u8>) -> LogView {
        let index = self.applied + 1;
        LogView {
            applied: index,
            completions: self.completions.remove(index),
            resolved: if self.completions.dom().contains(index) {
                self.resolved.push(
                    ResolutionView::applied(index, self.completions[index], message),
                )
            } else {
                self.resolved
            },
            ..self
        }
    }

    /// The log after its pending resolutions were taken out.
    pub open spec fn drained(self) -> LogView {
        LogView { resolved: Seq::empty(), ..self }
    }
}

} // verus!
