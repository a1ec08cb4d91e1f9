//! The process of one node: the entry point for client writes and for the
//! entries that a peer replicates to this node.
//!
//! A configuration change takes effect when its entry enters the log, on
//! the leader at append time and on a follower at insertion time, before
//! the entry commits. It is not undone when a later truncation discards
//! the entry: the membership stays until the next change that enters the
//! log replaces it, which the stream that caused the truncation brings if
//! the leader changed the membership since. The configuration names the
//! index of the entry that installed it, so that the owner of the process
//! can tell whether that entry is still the one in the log.

use vstd::prelude::*;
use crate::clock::Clock;
use crate::clock::Index;
use crate::clock::NodeId;
use crate::command_log::CommandLog;
use crate::configuration::parse_configuration_command;
use crate::configuration::Configuration;
use crate::configuration::ConfigurationView;
use crate::entry::Completion;
use crate::entry::Entry;
use crate::entry::EntryView;
use crate::log_view::LogView;
use crate::command_log::TryInsertResult;
use crate::voter::Voter;

verus! {

/// Why a command was not queued.
#[derive(Clone, Copy, Debug, PartialEq, Eq, Structural)]
pub enum QueueError {
    /// The node does not safely lead, so it may not accept writes. Nothing
    /// is retried here; finding the leader is the caller's business.
    NotLeader,
}

/// One element of a replication stream: an entry without its predecessor
/// clock, which the receiver reconstructs.
#[derive(Debug, PartialEq, Eq)]
pub struct LogStreamElem {
    pub this_clock: Clock,
    pub command: Vec<u8>,
}

/// The mathematical value of a [`LogStreamElem`].
pub struct LogStreamElemView {
    pub this_clock: Clock,
    pub command: Seq<u8>,
}

impl View for LogStreamElem {
    type V = LogStreamElemView;

    open spec fn view(&self) -> LogStreamElemView {
        LogStreamElemView { this_clock: self.this_clock, command: self.command@ }
    }
}

impl LogStreamElemView {
    /// The entry that the element stands for behind `prev_clock`.
    pub open spec fn entry(self, prev_clock: Clock) -> EntryView {
        EntryView { prev_clock, this_clock: self.this_clock, command: self.command }
    }
}

/// The entries that a peer replicates, in transmission order, with the
/// clock that the sender believes to precede the first of them.
#[derive(Debug, PartialEq, Eq)]
pub struct LogStream {
    pub sender_id: NodeId,
    pub prev_clock: Clock,
    pub entries: Vec<LogStreamElem>,
}

impl LogStream {
    /// The elements of the stream, as mathematical values.
    pub open spec fn elems(&self) -> Seq<LogStreamElemView> {
        self.entries@.map_values(|e: LogStreamElem| e@)
    }
}

/// How far a replication stream has come: what the receiver carries from
/// one element to the next while the elements arrive.
#[derive(Clone, Copy, Debug)]
pub struct StreamState {
    sender_id: NodeId,
    prev_clock: Clock,
    n_inserted: u64,
    accepted: bool,
}

/// The mathematical value of a [`StreamState`].
pub struct StreamView {
    /// The node that sends the stream.
    pub sender_id: NodeId,
    /// The clock behind which the next element is offered.
    pub prev_clock: Clock,
    /// How many elements the log inserted.
    pub inserted: nat,
    /// Whether no element was found inconsistent so far.
    pub accepted: bool,
}

impl View for StreamState {
    type V = StreamView;

    closed spec fn view(&self) -> StreamView {
        StreamView {
            sender_id: self.sender_id,
            prev_clock: self.prev_clock,
            inserted: self.n_inserted as nat,
            accepted: self.accepted,
        }
    }
}

impl StreamState {
    /// The state at the start of a stream from `sender_id` whose first
    /// element comes behind `prev_clock`.
    pub fn new(sender_id: NodeId, prev_clock: Clock) -> (stream: StreamState)
        ensures
            stream@ == (StreamView { sender_id, prev_clock, inserted: 0, accepted: true }),
    {
        StreamState { sender_id, prev_clock, n_inserted: 0, accepted: true }
    }

    /// What to answer the sender: whether the stream was accepted so far,
    /// and how many of its elements the log inserted.
    pub fn result(&self) -> (done: (bool, u64))
        ensures
            done.0 == self@.accepted,
            done.1 == self@.inserted,
    {
        (self.accepted, self.n_inserted)
    }
}

/// The process of one node.
pub struct RaftProcess {
    command_log: CommandLog,
    voter: Voter,
    configuration: Configuration,
}

/// The mathematical value of a [`RaftProcess`].
pub struct ProcessView {
    /// The command log.
    pub log: LogView,
    /// Whether the voter lets the node accept writes.
    pub allows: bool,
    /// The membership of the cluster.
    pub configuration: ConfigurationView,
}

/// What became of a replication stream.
pub struct Received {
    /// The process after the stream.
    pub process: ProcessView,
    /// Whether the whole stream was consistent with the log.
    pub accepted: bool,
    /// How many elements were looked at and found consistent before the
    /// stream ended or was rejected, inserted or skipped.
    pub handled: nat,
    /// How many of those the log inserted.
    pub inserted: nat,
}

impl ProcessView {
    /// The process after it queued `command` for a client that waits on
    /// `completion`: the command is appended, the completion registered at
    /// its index, and a configuration change takes effect at once.
    pub open spec fn queue(self, command: Seq<u8>, completion: Completion) -> ProcessView {
        let index = self.log.last_index() + 1;
        ProcessView {
            log: self.log.append(command, None).register(index, completion),
            configuration: self.configuration.process(command, index),
            ..self
        }
    }

    /// What the log answers when `elem` is offered behind `prev_clock`.
    pub open spec fn receive_outcome(
        self,
        prev_clock: Clock,
        elem: LogStreamElemView,
    ) -> TryInsertResult {
        self.log.insert_outcome(elem.entry(prev_clock))
    }

    /// The process after `elem` was offered behind `prev_clock`: a
    /// configuration change takes effect if, and only if, the entry was
    /// inserted.
    pub open spec fn receive_one(self, prev_clock: Clock, elem: LogStreamElemView) -> ProcessView {
        let entry = elem.entry(prev_clock);
        ProcessView {
            log: self.log.insert(entry),
            configuration: if self.log.insert_outcome(entry) == TryInsertResult::Inserted {
                self.configuration.process(entry.command, entry.this_clock.index as int)
            } else {
                self.configuration
            },
            ..self
        }
    }

    /// What becomes of the stream `elems` that starts behind `prev_clock`.
    ///
    /// Each element is offered behind the clock of the element before it,
    /// whether the log inserted that one or skipped it. The first element
    /// that the log finds inconsistent ends the stream, and nothing after
    /// it is looked at. Only the elements that the log inserted are counted
    /// as inserted: one that it skipped changed nothing.
    pub open spec fn receive(self, prev_clock: Clock, elems: Seq<LogStreamElemView>) -> Received
        decreases elems.len(),
    {
        if elems.len() == 0 {
            Received { process: self, accepted: true, handled: 0, inserted: 0 }
        } else if self.receive_outcome(prev_clock, elems[0])
            == TryInsertResult::InconsistencyDetected {
            Received { process: self, accepted: false, handled: 0, inserted: 0 }
        } else {
            let rest = self.receive_one(prev_clock, elems[0]).receive(
                elems[0].this_clock,
                elems.drop_first(),
            );
            Received {
                handled: rest.handled + 1,
                inserted: if self.receive_outcome(prev_clock, elems[0])
                    == TryInsertResult::Inserted {
                    rest.inserted + 1
                } else {
                    rest.inserted
                },
                ..rest
            }
        }
    }
}

impl View for RaftProcess {
    type V = ProcessView;

    closed spec fn view(&self) -> ProcessView {
        ProcessView {
            log: self.command_log@,
            allows: self.voter.allows(),
            configuration: self.configuration@,
        }
    }
}

impl RaftProcess {
    /// The invariant of the process: its log is well formed.
    pub closed spec fn wf(&self) -> bool {
        self.command_log.wf()
    }

    /// A well-formed process has a well-formed log.
    pub proof fn lemma_view_wf(&self)
        requires
            self.wf(),
        ensures
            self@.log.wf(),
    {
        self.command_log.lemma_view_wf();
    }

    /// Puts a process together from its parts.
    pub fn new(command_log: CommandLog, voter: Voter, configuration: Configuration) -> (process:
        RaftProcess)
        requires
            command_log.wf(),
        ensures
            process.wf(),
            process@ == (ProcessView {
                log: command_log@,
                allows: voter.allows(),
                configuration: configuration@,
            }),
    {
        RaftProcess { command_log, voter, configuration }
    }

    /// Looks at `command`, the command of the entry at `index`, and
    /// installs the membership it names if it is a configuration change.
    pub fn process_configuration_command(&mut self, command: &Vec<u8>, index: Index)
        requires
            old(self).wf(),
        ensures
            final(self).wf(),
            final(self)@ == (ProcessView {
                configuration: old(self)@.configuration.process(command@, index as int),
                ..old(self)@
            }),
    {
        match parse_configuration_command(command) {
            Some(membership) => {
                self.configuration.set_membership(membership, index);
            },
            None => {},
        }
    }

    /// Queues `command` for a client that waits on `completion`, and
    /// returns the index of the new entry.
    ///
    /// Fails, with nothing changed, while the voter does not let the node
    /// accept writes. Otherwise the command is appended, the completion is
    /// registered before the index is returned, and a configuration change
    /// takes effect at once, not when the entry commits.
    pub fn queue_new_entry(&mut self, command: Vec<u8>, completion: Completion) -> (queued: Result<
        Index,
        QueueError,
    >)
        requires
            old(self).wf(),
        ensures
            final(self).wf(),
            !old(self)@.allows ==> queued == Err::<Index, QueueError>(QueueError::NotLeader)
                && final(self)@ == old(self)@,
            old(self)@.allows ==> queued == Ok::<Index, QueueError>(
                (old(self)@.log.last_index() + 1) as u64,
            ) && final(self)@ == old(self)@.queue(command@, completion),
    {
        if !self.voter.allow_queue_entry() {
            return Err(QueueError::NotLeader);
        }
        let kept = command.clone();
        assert(kept@ =~= command@);
        let append_index = self.command_log.append_new_entry(command, None);
        self.command_log.register_completion(append_index, completion);
        self.process_configuration_command(&kept, append_index);
        Ok(append_index)
    }

    /// Handles one element of a replication stream from `sender_id`.
    ///
    /// The element is completed to an entry with `prev_clock`, the clock of
    /// the element before it, and offered to the log. If the log inserts
    /// it, a configuration change in it takes effect.
    pub fn receive_entry(&mut self, prev_clock: Clock, elem: &LogStreamElem, sender_id: NodeId) -> (outcome:
        TryInsertResult)
        requires
            old(self).wf(),
        ensures
            final(self).wf(),
            outcome == old(self)@.receive_outcome(prev_clock, elem@),
            final(self)@ == old(self)@.receive_one(prev_clock, elem@),
    {
        let command = elem.command.clone();
        assert(command@ =~= elem.command@);
        let entry = Entry { prev_clock, this_clock: elem.this_clock, command };
        let insert_index = entry.this_clock.index;
        let outcome = self.command_log.try_insert_entry(entry, sender_id);
        match outcome {
            TryInsertResult::Inserted => {
                self.process_configuration_command(&elem.command, insert_index);
            },
            TryInsertResult::SkippedInsertion => {},
            TryInsertResult::InconsistencyDetected => {},
        }
        outcome
    }

    /// Handles the next element of a replication stream as it arrives, and
    /// returns whether the stream goes on.
    ///
    /// On a stream that was rejected before nothing happens. Otherwise the
    /// element is offered behind the clock that `stream` carries. If the
    /// log finds it inconsistent the stream is rejected and nothing else
    /// changes; if not, its clock is carried on to the next element, and it
    /// is counted if the log inserted it.
    pub fn receive_next(&mut self, stream: &mut StreamState, elem: &LogStreamElem) -> (more: bool)
        requires
            old(self).wf(),
            old(stream)@.inserted < u64::MAX,
        ensures
            final(self).wf(),
            more == final(stream)@.accepted,
            final(stream)@.sender_id == old(stream)@.sender_id,
            !old(stream)@.accepted ==> final(self)@ == old(self)@ && final(stream)@ == old(stream)@,
            old(stream)@.accepted ==> match old(self)@.receive_outcome(
                old(stream)@.prev_clock,
                elem@,
            ) {
                TryInsertResult::InconsistencyDetected => final(self)@ == old(self)@
                    && final(stream)@ == (StreamView { accepted: false, ..old(stream)@ }),
                TryInsertResult::SkippedInsertion => final(self)@ == old(self)@.receive_one(
                    old(stream)@.prev_clock,
                    elem@,
                ) && final(stream)@ == (StreamView { prev_clock: elem.this_clock, ..old(stream)@ }),
                TryInsertResult::Inserted => final(self)@ == old(self)@.receive_one(
                    old(stream)@.prev_clock,
                    elem@,
                ) && final(stream)@ == (StreamView {
                    prev_clock: elem.this_clock,
                    inserted: old(stream)@.inserted + 1,
                    ..old(stream)@
                }),
            },
    {
        if !stream.accepted {
            return false;
        }
        let ghost before = self@;
        match self.receive_entry(stream.prev_clock, elem, stream.sender_id) {
            TryInsertResult::Inserted => {
                stream.n_inserted = stream.n_inserted + 1;
            },
            TryInsertResult::SkippedInsertion => {},
            TryInsertResult::InconsistencyDetected => {
                assert(self@ == before);
                stream.accepted = false;
                return false;
            },
        }
        stream.prev_clock = elem.this_clock;
        true
    }

    /// Handles a replication stream: returns whether the whole stream was
    /// accepted, and how many of its elements were inserted.
    ///
    /// The elements are offered to the log strictly in order, each behind
    /// the clock of the one before, the first behind the clock that the
    /// stream names. The first inconsistency ends the stream with `false`:
    /// the sender has to start again from an earlier index. An element that
    /// the log skips is not counted, and the stream goes on behind its
    /// clock.
    pub fn queue_received_entry(&mut self, req: LogStream) -> (done: (bool, u64))
        requires
            old(self).wf(),
        ensures
            final(self).wf(),
            done.0 == old(self)@.receive(req.prev_clock, req.elems()).accepted,
            done.1 == old(self)@.receive(req.prev_clock, req.elems()).inserted,
            final(self)@ == old(self)@.receive(req.prev_clock, req.elems()).process,
    {
        let ghost elems = req.elems();
        let ghost whole = self@.receive(req.prev_clock, elems);
        let mut stream = StreamState::new(req.sender_id, req.prev_clock);
        let mut i: usize = 0;
        assert(elems.skip(0) =~= elems);
        while i < req.entries.len()
            invariant
                self.wf(),
                elems == req.elems(),
                whole == old(self)@.receive(req.prev_clock, elems),
                0 <= i <= req.entries.len(),
                stream@.inserted <= i,
                stream@.accepted,
                whole == (Received {
                    handled: self@.receive(stream@.prev_clock, elems.skip(i as int)).handled
                        + i as nat,
                    inserted: self@.receive(stream@.prev_clock, elems.skip(i as int)).inserted
                        + stream@.inserted,
                    ..self@.receive(stream@.prev_clock, elems.skip(i as int))
                }),
            decreases req.entries.len() - i,
        {
            let elem = &req.entries[i];
            proof {
                let rest = elems.skip(i as int);
                assert(rest[0] == elem@);
                assert(rest.drop_first() =~= elems.skip(i + 1));
            }
            if !self.receive_next(&mut stream, elem) {
                return stream.result();
            }
            i = i + 1;
        }
        stream.result()
    }

    /// The command log of the process.
    pub fn command_log(&self) -> (log: &CommandLog)
        requires
            self.wf(),
        ensures
            log.wf(),
            log@ == self@.log,
    {
        &self.command_log
    }

    /// The command log of the process, to work on: to raise the commit
    /// cursor, to apply entries, and to take out resolutions.
    pub fn command_log_mut(&mut self) -> (log: &mut CommandLog)
        requires
            old(self).wf(),
        ensures
            log.wf(),
            log@ == old(self)@.log,
            final(self)@ == (ProcessView { log: final(log)@, ..old(self)@ }),
            final(log).wf() ==> final(self).wf(),
    {
        &mut self.command_log
    }

    /// The membership of the cluster as the process sees it.
    pub fn configuration(&self) -> (configuration: &Configuration)
        ensures
            configuration@ == self@.configuration,
    {
        &self.configuration
    }

    /// The voter of the process, for the election layer to record its
    /// verdict.
    pub fn voter_mut(&mut self) -> (voter: &mut Voter)
        ensures
            voter.allows() == old(self)@.allows,
            final(self)@ == (ProcessView { allows: final(voter).allows(), ..old(self)@ }),
            final(self).wf() == old(self).wf(),
    {
        &mut self.voter
    }

    /// The voter of the process.
    pub fn voter(&self) -> (voter: &Voter)
        ensures
            voter.allows() == self@.allows,
    {
        &self.voter
    }
}

} // verus!
