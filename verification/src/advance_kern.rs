//! The background applier: the task that drains committed entries into the
//! state machine, apart from any request.
//!
//! The applier keeps no state of its own: everything it works on lives in
//! the command log, so it can be stopped between two applications and
//! started again at any time.

use vstd::prelude::*;
use crate::command_log::Advance;
use crate::command_log::ApplyFault;
use crate::command_log::CommandLog;
use crate::command_log::StateMachine;
use crate::log_view::LogView;
use crate::voter::Voter;

verus! {

/// The time between two ticks of the applier, in milliseconds.
pub const TICK_MILLIS: u64 = 100;

/// What the applier does before its next attempt.
#[derive(Clone, Copy, Debug, PartialEq, Eq, Structural)]
pub enum Pause {
    /// Let other activities run, then go on at once: more may wait.
    Yield,
    /// Wait for the next tick.
    AwaitTick,
}

/// What one tick of the applier did.
#[derive(Clone, Copy, Debug)]
pub struct Tick {
    /// How many entries were applied.
    pub applied: u64,
    /// The fault that ended the tick, if the state machine failed.
    pub fault: Option<ApplyFault>,
}

/// The pause that follows an attempt that ended in `outcome`: after an
/// application the applier only yields, after anything else it waits for
/// the next tick.
pub open spec fn pause_for(outcome: Result<Advance, ApplyFault>) -> Pause {
    if outcome == Ok::<Advance, ApplyFault>(Advance::Applied) {
        Pause::Yield
    } else {
        Pause::AwaitTick
    }
}

/// Decides what the applier does after an attempt that ended in `outcome`.
pub fn pause_after(outcome: &Result<Advance, ApplyFault>) -> (pause: Pause)
    ensures
        pause == pause_for(*outcome),
{
    match outcome {
        Ok(Advance::Applied) => Pause::Yield,
        Ok(Advance::NoWork) => Pause::AwaitTick,
        Err(_) => Pause::AwaitTick,
    }
}

impl LogView {
    /// The log after the state machine answered `messages`, one for each
    /// of the next entries in turn.
    pub open spec fn apply_all(self, messages: Seq<Seq<u8>>) -> LogView
        decreases messages.len(),
    {
        if messages.len() == 0 {
            self
        } else {
            self.apply_all(messages.drop_last()).apply(messages.last())
        }
    }
}

/// The applier of one node.
pub struct Thread {
    command_log: CommandLog,
    voter: Voter,
}

impl View for Thread {
    type V = LogView;

    closed spec fn view(&self) -> LogView {
        self.command_log@
    }
}

/// Makes the applier of the log `command_log` on the node of `voter`.
pub fn new(command_log: CommandLog, voter: Voter) -> (thread: Thread)
    requires
        command_log.wf(),
    ensures
        thread.wf(),
        thread@ == command_log@,
        thread.voter_view() == voter,
{
    Thread { command_log, voter }
}

impl Thread {
    /// The invariant of the applier: its log is well formed.
    pub closed spec fn wf(&self) -> bool {
        self.command_log.wf()
    }

    /// The voter that the applier was made with.
    pub closed spec fn voter_view(&self) -> Voter {
        self.voter
    }

    /// A well-formed applier has a well-formed log.
    pub proof fn lemma_view_wf(&self)
        requires
            self.wf(),
        ensures
            self@.wf(),
    {
        self.command_log.lemma_view_wf();
    }

    /// Applies one entry to `state_machine` if one is committed and not
    /// applied yet. Without such an entry the state machine gets no call.
    pub fn advance_once<S: StateMachine>(&mut self, state_machine: &mut S) -> (outcome: Result<
        Advance,
        ApplyFault,
    >)
        requires
            old(self).wf(),
        ensures
            final(self).wf(),
            !old(self)@.has_work() ==> outcome == Ok::<Advance, ApplyFault>(Advance::NoWork)
                && final(self)@ == old(self)@ && *final(state_machine) == *old(state_machine),
            old(self)@.has_work() ==> match outcome {
                Ok(advance) => advance == Advance::Applied && exists|message: Seq<u8>|
                    final(self)@ == #[trigger] old(self)@.apply(message),
                Err(_) => final(self)@ == old(self)@,
            },
    {
        self.command_log.advance_kern_process(state_machine)
    }

    /// Runs one tick: applies entry after entry until nothing committed is
    /// left to apply or the state machine fails.
    ///
    /// The state machine answered for each of the `tick.applied` entries
    /// behind the apply cursor. Without a fault the backlog is drained;
    /// with one, the entry that failed is the next to apply. On a log
    /// without a backlog the tick does nothing and the state machine gets
    /// no call.
    pub fn run_tick<S: StateMachine>(&mut self, state_machine: &mut S) -> (tick: Tick)
        requires
            old(self).wf(),
        ensures
            final(self).wf(),
            exists|messages: Seq<Seq<u8>>|
                messages.len() == tick.applied && final(self)@ == #[trigger] old(self)@.apply_all(
                    messages,
                ),
            final(self)@.applied == old(self)@.applied + tick.applied,
            tick.fault is None ==> !final(self)@.has_work(),
            tick.fault is Some ==> final(self)@.has_work(),
            !old(self)@.has_work() ==> tick.applied == 0 && tick.fault is None && final(self)@
                == old(self)@ && *final(state_machine) == *old(state_machine),
    {
        let mut applied: u64 = 0;
        let ghost mut messages: Seq<Seq<u8>> = Seq::empty();
        proof {
            self.lemma_view_wf();
            assert(self@.entries[self@.last_index()].this_clock.index == self@.last_index());
        }
        loop
            invariant
                self.wf(),
                self@.wf(),
                messages.len() == applied,
                self@ == old(self)@.apply_all(messages),
                self@.applied == old(self)@.applied + applied,
                self@.committed <= u64::MAX,
                old(self)@.applied >= 0,
                !old(self)@.has_work() ==> applied == 0 && *state_machine == *old(state_machine),
            decreases self@.committed - self@.applied,
        {
            let ghost before = self@;
            match self.advance_once(state_machine) {
                Ok(Advance::Applied) => {
                    proof {
                        self.lemma_view_wf();
                        let message = choose|message: Seq<u8>| self@ == before.apply(message);
                        let grown = messages.push(message);
                        assert(grown.drop_last() =~= messages);
                        messages = grown;
                        assert(self@.applied == before.applied + 1);
                    }
                    applied = applied + 1;
                },
                Ok(Advance::NoWork) => {
                    return Tick { applied, fault: None };
                },
                Err(fault) => {
                    return Tick { applied, fault: Some(fault) };
                },
            }
        }
    }

    /// The command log of the applier.
    pub fn command_log(&self) -> (log: &CommandLog)
        requires
            self.wf(),
        ensures
            log.wf(),
            log@ == self@,
    {
        &self.command_log
    }

    /// The command log of the applier, to work on.
    pub fn command_log_mut(&mut self) -> (log: &mut CommandLog)
        requires
            old(self).wf(),
        ensures
            log.wf(),
            log@ == old(self)@,
            final(self)@ == final(log)@,
            final(self).voter_view() == old(self).voter_view(),
            final(log).wf() ==> final(self).wf(),
    {
        &mut self.command_log
    }

    /// The voter of the node.
    pub fn voter(&self) -> (voter: &Voter)
        ensures
            *voter == self.voter_view(),
    {
        &self.voter
    }

    /// Takes the applier apart again.
    pub fn into_parts(self) -> (parts: (CommandLog, Voter))
        requires
            self.wf(),
        ensures
            parts.0.wf(),
            parts.0@ == self@,
            parts.1 == self.voter_view(),
    {
        (self.command_log, self.voter)
    }
}

} // verus!
