//! The command log: the ordered entries of one node, the commit and apply
//! cursors, and the completions that wait on entries.

use vstd::prelude::*;
use crate::clock::Clock;
use crate::clock::Index;
use crate::clock::NodeId;
use crate::clock::Term;
use crate::entry::Completion;
use crate::entry::CompletionResult;
use crate::entry::Entry;
use crate::entry::EntryView;
use crate::entry::Resolution;
use crate::entry::ResolutionView;
use crate::log_view::aborted_range;
use crate::log_view::LogView;

verus! {

/// What an insertion attempt did.
#[derive(Clone, Copy, Debug, PartialEq, Eq, Structural)]
pub enum TryInsertResult {
    /// The entry was stored.
    Inserted,
    /// An entry with the same clock was already there; nothing changed.
    SkippedInsertion,
    /// The sender and this log diverge before the entry; nothing changed.
    InconsistencyDetected,
}

/// What one step of the applier did.
#[derive(Clone, Copy, Debug, PartialEq, Eq, Structural)]
pub enum Advance {
    /// One entry was applied and the apply cursor moved past it.
    Applied,
    /// No committed entry waits to be applied.
    NoWork,
}

/// The state machine failed to apply a command.
#[derive(Clone, Copy, Debug, PartialEq, Eq, Structural)]
pub struct ApplyFault {
    /// The state machine's own code for what went wrong.
    pub code: u64,
}

/// The application state machine that committed commands are applied to.
///
/// Nothing is assumed of an implementation: whatever `process_write`
/// returns, the log handles it.
pub trait StateMachine {
    /// Applies the command of the entry at `index` and returns the answer
    /// for whoever submitted it.
    fn process_write(&mut self, command: &Vec<u8>, index: Index) -> Result<Vec<u8>, ApplyFault>;
}

/// The log of one node.
///
/// The log is a single owned value: every operation that changes it takes it
/// by `&mut`, so two operations never interleave.
pub struct CommandLog {
    entries: Vec<Entry>,
    waiting: Vec<Option<Completion>>,
    committed_index: Index,
    applied_index: Index,
    resolved: Vec<Resolution>,
}

impl View for CommandLog {
    type V = LogView;

    closed spec fn view(&self) -> LogView {
        LogView {
            entries: self.entries@.map_values(|e: Entry| e@),
            committed: self.committed_index as int,
            applied: self.applied_index as int,
            completions: Map::new(
                |k: int| 0 <= k < self.waiting.len() && self.waiting[k] is Some,
                |k: int| self.waiting[k]->0,
            ),
            resolved: self.resolved@.map_values(|r: Resolution| r@),
        }
    }
}

impl CommandLog {
    /// The invariant of the log: its model is well formed.
    pub closed spec fn wf(&self) -> bool {
        &&& self.waiting.len() == self.entries.len()
        &&& self@.wf()
    }

    /// A well-formed log has a well-formed model.
    pub proof fn lemma_view_wf(&self)
        requires
            self.wf(),
        ensures
            self@.wf(),
    {
    }

    /// A log that holds only the baseline entry.
    pub fn new() -> (log: CommandLog)
        ensures
            log.wf(),
            log@ == LogView::empty(),
    {
        let mut entries: Vec<Entry> = Vec::new();
        entries.push(
            Entry {
                prev_clock: Clock { term: 0, index: 0 },
                this_clock: Clock { term: 0, index: 0 },
                command: Vec::new(),
            },
        );
        let mut waiting: Vec<Option<Completion>> = Vec::new();
        waiting.push(None);
        let log = CommandLog {
            entries,
            waiting,
            committed_index: 0,
            applied_index: 0,
            resolved: Vec::new(),
        };
        assert(log@.entries =~= seq![EntryView::baseline()]);
        assert(log@.completions =~= Map::empty());
        assert(log@.resolved =~= Seq::empty());
        log
    }

    /// Resolves as aborted every completion that waits at `at` or above and
    /// discards the entries there.
    fn discard_from(&mut self, at: usize)
        requires
            old(self).wf(),
            old(self)@.committed < at <= old(self)@.last_index(),
        ensures
            final(self).waiting.len() == final(self).entries.len(),
            final(self)@ == old(self)@.truncate_from(at as int),
    {
        let len = self.waiting.len();
        let ghost before = self@;
        let mut k: usize = at;
        while k < len
            invariant
                at <= k <= len,
                len == self.waiting.len(),
                self.waiting == old(self).waiting,
                self.entries == old(self).entries,
                self.committed_index == old(self).committed_index,
                self.applied_index == old(self).applied_index,
                before == old(self)@,
                self@.resolved == before.resolved + aborted_range(
                    before.completions,
                    at as int,
                    k as int,
                ),
            decreases len - k,
        {
            let ghost prior = self.resolved@.map_values(|r: Resolution| r@);
            match self.waiting[k] {
                Some(completion) => {
                    self.resolved.push(
                        Resolution {
                            index: k as u64,
                            completion,
                            result: CompletionResult::Aborted,
                        },
                    );
                    assert(self.resolved@.map_values(|r: Resolution| r@) =~= prior.push(
                        ResolutionView::aborted(k as int, completion),
                    ));
                },
                None => {},
            }
            k = k + 1;
            assert(self@.resolved =~= before.resolved + aborted_range(
                before.completions,
                at as int,
                k as int,
            ));
        }
        self.entries.truncate(at);
        self.waiting.truncate(at);
        assert(self@.entries =~= before.entries.take(at as int));
        assert(self@.completions =~= before.completions.restrict(Set::new(|j: int| j < at)));
    }

    /// Offers `entry`, received from `sender_id`, to the log.
    ///
    /// The entry is refused when the log's own entry just before it does not
    /// carry the clock that the entry names as its predecessor, and when it
    /// would replace a committed entry. An entry that is already there under
    /// the same clock is skipped. Otherwise it is stored at its index; every
    /// entry that stood at that index or above is discarded first and the
    /// completions that waited on them are resolved as aborted.
    #[allow(unused_variables)]
    pub fn try_insert_entry(&mut self, entry: Entry, sender_id: NodeId) -> (outcome:
        TryInsertResult)
        requires
            old(self).wf(),
        ensures
            final(self).wf(),
            outcome == old(self)@.insert_outcome(entry@),
            final(self)@ == old(self)@.insert(entry@),
    {
        let index = entry.this_clock.index;
        let len = self.entries.len();
        if index > 0 {
            let before = index - 1;
            if before >= len as u64 {
                return TryInsertResult::InconsistencyDetected;
            }
            if !(self.entries[before as usize].this_clock == entry.prev_clock) {
                return TryInsertResult::InconsistencyDetected;
            }
        }
        if index < len as u64 {
            if self.entries[index as usize].this_clock == entry.this_clock {
                return TryInsertResult::SkippedInsertion;
            }
            if index <= self.committed_index {
                return TryInsertResult::InconsistencyDetected;
            }
            self.discard_from(index as usize);
        } else {
            assert(self@.entries.take(index as int) =~= self@.entries);
            assert(self@.completions.restrict(Set::new(|k: int| k < index)) =~= self@.completions);
            assert(self@.resolved + aborted_range(self@.completions, index as int, len as int)
                =~= self@.resolved);
        }
        let ghost cut = self@;
        assert(cut == old(self)@.truncate_from(index as int));
        let ghost stored = entry@;
        self.entries.push(entry);
        self.waiting.push(None);
        assert(self@.entries =~= cut.entries.push(stored));
        assert(self@.completions =~= cut.completions);
        TryInsertResult::Inserted
    }
    /// The index of the last entry; 0 while the log holds no command.
    pub fn last_index(&self) -> (index: Index)
        requires
            self.wf(),
        ensures
            index == self@.last_index(),
    {
        (self.entries.len() - 1) as u64
    }

    /// The highest index known to be durable on a quorum.
    pub fn committed_index(&self) -> (index: Index)
        ensures
            index == self@.committed,
    {
        self.committed_index
    }

    /// The highest index applied to the state machine.
    pub fn applied_index(&self) -> (index: Index)
        ensures
            index == self@.applied,
    {
        self.applied_index
    }

    /// The entry at `index`, if the log holds one there.
    pub fn get_entry(&self, index: Index) -> (found: Option<&Entry>)
        requires
            self.wf(),
        ensures
            match found {
                Some(entry) => self@.has_entry(index as int) && entry@ == self@.entries[index as int],
                None => !self@.has_entry(index as int),
            },
    {
        if index < self.entries.len() as u64 {
            Some(&self.entries[index as usize])
        } else {
            None
        }
    }

    /// Appends `command` behind the last entry, as the leader does, and
    /// returns its index.
    ///
    /// The new entry names the tail as its predecessor. Its term is `term`,
    /// or the term of the tail where none is given.
    pub fn append_new_entry(&mut self, command: Vec<u8>, term: Option<Term>) -> (index: Index)
        requires
            old(self).wf(),
        ensures
            final(self).wf(),
            index == old(self)@.last_index() + 1,
            final(self)@ == old(self)@.append(command@, term),
    {
        let len = self.entries.len();
        let tail = self.entries[len - 1].this_clock;
        let index = len as u64;
        let this_term = match term {
            Some(t) => t,
            None => tail.term,
        };
        let entry = Entry {
            prev_clock: tail,
            this_clock: Clock { term: this_term, index },
            command,
        };
        let ghost before = self@;
        let ghost stored = entry@;
        self.entries.push(entry);
        self.waiting.push(None);
        assert(self@.entries =~= before.entries.push(stored));
        assert(self@.completions =~= before.completions);
        index
    }

    /// Registers `completion` to receive the outcome of the entry at
    /// `index`.
    ///
    /// Register before the entry can be applied or discarded: a completion
    /// registered on an index that holds no entry waiting to be applied is
    /// resolved as aborted at once, and so is a completion that an index
    /// loses to a later registration.
    pub fn register_completion(&mut self, index: Index, completion: Completion)
        requires
            old(self).wf(),
        ensures
            final(self).wf(),
            final(self)@ == old(self)@.register(index as int, completion),
    {
        let ghost before = self@;
        let ghost prior = self.resolved@.map_values(|r: Resolution| r@);
        if index > self.applied_index && index < self.entries.len() as u64 {
            let at = index as usize;
            match self.waiting[at] {
                Some(displaced) => {
                    self.resolved.push(
                        Resolution {
                            index,
                            completion: displaced,
                            result: CompletionResult::Aborted,
                        },
                    );
                    assert(self.resolved@.map_values(|r: Resolution| r@) =~= prior.push(
                        ResolutionView::aborted(index as int, displaced),
                    ));
                },
                None => {},
            }
            self.waiting.set(at, Some(completion));
            assert(self@.completions =~= before.completions.insert(index as int, completion));
        } else {
            self.resolved.push(
                Resolution { index, completion, result: CompletionResult::Aborted },
            );
            assert(self.resolved@.map_values(|r: Resolution| r@) =~= prior.push(
                ResolutionView::aborted(index as int, completion),
            ));
            assert(self@.completions =~= before.completions);
        }
    }

    /// Raises the commit cursor to `index`, which the replication layer
    /// found durable on a quorum. The cursor never moves back and never
    /// passes the last entry.
    pub fn advance_commit_index(&mut self, index: Index)
        requires
            old(self).wf(),
        ensures
            final(self).wf(),
            final(self)@ == old(self)@.commit(index as int),
    {
        let last = (self.entries.len() - 1) as u64;
        let reach = if index <= last {
            index
        } else {
            last
        };
        if reach > self.committed_index {
            self.committed_index = reach;
        }
        assert(self@.entries =~= old(self)@.entries);
        assert(self@.completions =~= old(self)@.completions);
    }

    /// The entry that the state machine has to apply next, if one is
    /// committed and not applied yet.
    pub fn next_apply(&self) -> (next: Option<&Entry>)
        requires
            self.wf(),
        ensures
            match next {
                Some(entry) => self@.has_work() && entry@ == self@.entries[self@.applied + 1],
                None => !self@.has_work(),
            },
    {
        if self.applied_index < self.committed_index {
            Some(&self.entries[(self.applied_index + 1) as usize])
        } else {
            None
        }
    }

    /// Records what the state machine answered for the entry that
    /// [`CommandLog::next_apply`] named.
    ///
    /// With an answer the apply cursor moves past the entry and the
    /// completion that waits on it is resolved with the answer. With a fault
    /// nothing changes and the fault is handed on: an entry is never marked
    /// applied without having been applied. While nothing waits to be
    /// applied nothing changes either.
    pub fn complete_apply(&mut self, answer: Result<Vec<u8>, ApplyFault>) -> (outcome: Result<
        Advance,
        ApplyFault,
    >)
        requires
            old(self).wf(),
        ensures
            final(self).wf(),
            !old(self)@.has_work() ==> outcome == Ok::<Advance, ApplyFault>(Advance::NoWork)
                && final(self)@ == old(self)@,
            old(self)@.has_work() ==> match answer {
                Ok(message) => outcome == Ok::<Advance, ApplyFault>(Advance::Applied)
                    && final(self)@ == old(self)@.apply(message@),
                Err(fault) => outcome == Err::<Advance, ApplyFault>(fault) && final(self)@ == old(
                    self,
                )@,
            },
    {
        if self.applied_index >= self.committed_index {
            return Ok(Advance::NoWork);
        }
        match answer {
            Err(fault) => Err(fault),
            Ok(message) => {
                let ghost before = self@;
                let ghost prior = self.resolved@.map_values(|r: Resolution| r@);
                let ghost answered = message@;
                let index = self.applied_index + 1;
                let at = index as usize;
                match self.waiting[at] {
                    Some(completion) => {
                        self.resolved.push(
                            Resolution {
                                index,
                                completion,
                                result: CompletionResult::Applied(message),
                            },
                        );
                        assert(self.resolved@.map_values(|r: Resolution| r@) =~= prior.push(
                            ResolutionView::applied(index as int, completion, answered),
                        ));
                    },
                    None => {},
                }
                self.waiting.set(at, None);
                self.applied_index = index;
                assert(self@.completions =~= before.completions.remove(index as int));
                Ok(Advance::Applied)
            },
        }
    }

    /// Applies exactly one entry, the one behind the apply cursor, to
    /// `state_machine`, provided that it is committed.
    ///
    /// Returns `Advance::NoWork`, with nothing changed and without a call
    /// to the state machine, when no committed entry waits. When the state
    /// machine fails, its fault is returned and the entry stays unapplied.
    pub fn advance_kern_process<S: StateMachine>(&mut self, state_machine: &mut S) -> (outcome:
        Result<Advance, ApplyFault>)
        requires
            old(self).wf(),
        ensures
            final(self).wf(),
            !old(self)@.has_work() ==> outcome == Ok::<Advance, ApplyFault>(Advance::NoWork)
                && final(self)@ == old(self)@ && *final(state_machine) == *old(state_machine),
            old(self)@.has_work() ==> match outcome {
                Ok(advance) => advance == Advance::Applied && exists|message: Seq<u8>|
                    final(self)@ == #[trigger] old(self)@.apply(message),
                Err(_) => final(self)@ == old(self)@,
            },
    {
        let answer = match self.next_apply() {
            None => {
                return Ok(Advance::NoWork);
            },
            Some(entry) => state_machine.process_write(&entry.command, entry.this_clock.index),
        };
        self.complete_apply(answer)
    }

    /// Takes out the resolutions produced so far, oldest first, for
    /// delivery to those who wait.
    pub fn take_resolutions(&mut self) -> (taken: Vec<Resolution>)
        requires
            old(self).wf(),
        ensures
            final(self).wf(),
            taken@.map_values(|r: Resolution| r@) == old(self)@.resolved,
            final(self)@ == old(self)@.drained(),
    {
        let mut taken: Vec<Resolution> = Vec::new();
        std::mem::swap(&mut taken, &mut self.resolved);
        assert(self@.resolved =~= Seq::empty());
        assert(self@.entries =~= old(self)@.entries);
        assert(self@.completions =~= old(self)@.completions);
        taken
    }
}

} // verus!
