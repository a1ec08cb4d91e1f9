//! Entries of the log and the completions that wait on them.

use vstd::prelude::*;
use crate::clock::Clock;
use crate::clock::Index;

verus! {

/// A clocked command record.
///
/// `prev_clock` is the clock that the author of the entry believed to come
/// immediately before it; the log checks it against its own predecessor.
#[derive(Debug, PartialEq, Eq)]
pub struct Entry {
    pub prev_clock: Clock,
    pub this_clock: Clock,
    pub command: Vec<u8>,
}

/// The mathematical value of an [`Entry`].
pub struct EntryView {
    pub prev_clock: Clock,
    pub this_clock: Clock,
    pub command: Seq<u8>,
}

impl View for Entry {
    type V = EntryView;

    open spec fn view(&self) -> EntryView {
        EntryView {
            prev_clock: self.prev_clock,
            this_clock: self.this_clock,
            command: self.command@,
        }
    }
}

impl EntryView {
    /// The entry that stands at index 0 of every log.
    pub open spec fn baseline() -> EntryView {
        EntryView {
            prev_clock: Clock::baseline(),
            this_clock: Clock::baseline(),
            command: Seq::empty(),
        }
    }

    /// Two entries agree when equal clocks imply equal commands.
    pub open spec fn agrees_with(self, other: EntryView) -> bool {
        self.this_clock == other.this_clock ==> self.command == other.command
    }
}

impl Entry {
    /// Builds an entry from its parts.
    pub fn new(prev_clock: Clock, this_clock: Clock, command: Vec<u8>) -> (entry: Entry)
        ensures
            entry@ == (EntryView { prev_clock, this_clock, command: command@ }),
    {
        Entry { prev_clock, this_clock, command }
    }
}

/// A ticket for one pending result.
///
/// Whoever waits for the outcome of a command keeps the receiving side under
/// this ticket; the log only routes the ticket to a resolution.
#[derive(Clone, Copy, Debug, PartialEq, Eq, Structural)]
pub struct Completion {
    pub ticket: u64,
}

/// How a completion ended.
#[derive(Debug, PartialEq, Eq)]
pub enum CompletionResult {
    /// The entry was applied; the bytes are the state machine's answer.
    Applied(Vec<u8>),
    /// The entry was discarded, or could never be applied.
    Aborted,
}

/// The mathematical value of a [`CompletionResult`].
pub enum CompletionResultView {
    Applied(Seq<u8>),
    Aborted,
}

impl View for CompletionResult {
    type V = CompletionResultView;

    open spec fn view(&self) -> CompletionResultView {
        match self {
            CompletionResult::Applied(message) => CompletionResultView::Applied(message@),
            CompletionResult::Aborted => CompletionResultView::Aborted,
        }
    }
}

/// A completion together with its outcome, ready to be delivered.
#[derive(Debug, PartialEq, Eq)]
pub struct Resolution {
    pub index: Index,
    pub completion: Completion,
    pub result: CompletionResult,
}

/// The mathematical value of a [`Resolution`].
pub struct ResolutionView {
    pub index: int,
    pub completion: Completion,
    pub result: CompletionResultView,
}

impl View for Resolution {
    type V = ResolutionView;

    open spec fn view(&self) -> ResolutionView {
        ResolutionView {
            index: self.index as int,
            completion: self.completion,
            result: self.result@,
        }
    }
}

impl ResolutionView {
    /// The resolution that tells `completion`, registered at `index`, that
    /// its entry is gone.
    pub open spec fn aborted(index: int, completion: Completion) -> ResolutionView {
        ResolutionView { index, completion, result: CompletionResultView::Aborted }
    }

    /// The resolution that hands `message` to `completion`.
    pub open spec fn applied(index: int, completion: Completion, message: Seq<u8>) -> ResolutionView {
        ResolutionView { index, completion, result: CompletionResultView::Applied(message) }
    }
}

} // verus!
