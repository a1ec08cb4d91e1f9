use lolraft::clock::Clock;
use lolraft::command_log::Advance;
use lolraft::command_log::CommandLog;
use lolraft::configuration::configuration_command;
use lolraft::configuration::Configuration;
use lolraft::entry::Completion;
use lolraft::entry::CompletionResult;
use lolraft::entry::Entry;
use lolraft::command_log::TryInsertResult;
use lolraft::raft_process::LogStream;
use lolraft::raft_process::LogStreamElem;
use lolraft::raft_process::QueueError;
use lolraft::raft_process::RaftProcess;
use lolraft::raft_process::StreamState;
use lolraft::voter::Voter;

fn leader() -> RaftProcess {
    RaftProcess::new(CommandLog::new(), Voter::new(true), Configuration::new())
}

/// A follower whose log holds C0 = (1,1) "c0" and C1 = (1,2) "c1".
fn follower() -> RaftProcess {
    let mut log = CommandLog::new();
    assert_eq!(
        log.try_insert_entry(
            Entry::new(Clock::new(0, 0), Clock::new(1, 1), b"c0".to_vec()),
            1
        ),
        TryInsertResult::Inserted
    );
    assert_eq!(
        log.try_insert_entry(
            Entry::new(Clock::new(1, 1), Clock::new(1, 2), b"c1".to_vec()),
            1
        ),
        TryInsertResult::Inserted
    );
    RaftProcess::new(log, Voter::new(false), Configuration::new())
}

fn elem(term: u64, index: u64, command: &[u8]) -> LogStreamElem {
    LogStreamElem { this_clock: Clock::new(term, index), command: command.to_vec() }
}

#[test]
fn queue_new_entry_appends_and_registers() {
    let mut process = leader();
    assert_eq!(process.queue_new_entry(b"A".to_vec(), Completion { ticket: 1 }), Ok(1));
    assert_eq!(process.queue_new_entry(b"B".to_vec(), Completion { ticket: 2 }), Ok(2));
    assert_eq!(process.command_log().last_index(), 2);
    assert_eq!(process.command_log().get_entry(1).unwrap().command, b"A".to_vec());
    assert_eq!(process.command_log().get_entry(2).unwrap().command, b"B".to_vec());
    assert_eq!(process.command_log().get_entry(2).unwrap().prev_clock, Clock::new(0, 1));
    // Nothing is resolved before the entries are applied.
    assert!(process.command_log_mut().take_resolutions().is_empty());
    process.command_log_mut().advance_commit_index(2);
    assert_eq!(process.command_log_mut().complete_apply(Ok(b"a".to_vec())), Ok(Advance::Applied));
    let resolved = process.command_log_mut().take_resolutions();
    assert_eq!(resolved.len(), 1);
    assert_eq!(resolved[0].completion, Completion { ticket: 1 });
    assert_eq!(resolved[0].result, CompletionResult::Applied(b"a".to_vec()));
}

#[test]
fn queue_new_entry_is_refused_without_leadership() {
    let mut process =
        RaftProcess::new(CommandLog::new(), Voter::new(false), Configuration::new());
    assert_eq!(
        process.queue_new_entry(configuration_command(&vec![1]), Completion { ticket: 1 }),
        Err(QueueError::NotLeader)
    );
    assert_eq!(process.command_log().last_index(), 0);
    assert!(process.configuration().membership().is_empty());
    assert!(process.command_log_mut().take_resolutions().is_empty());
    assert!(!process.voter().allow_queue_entry());
}

#[test]
fn stream_with_wrong_baseline_is_rejected_before_anything_is_inserted() {
    let mut process = follower();
    let stream = LogStream {
        sender_id: 3,
        prev_clock: Clock::new(9, 1),
        entries: vec![elem(2, 2, b"cmdX"), elem(2, 3, b"cmdY")],
    };
    assert_eq!(process.queue_received_entry(stream), (false, 0));
    assert_eq!(process.command_log().last_index(), 2);
    assert_eq!(process.command_log().get_entry(2).unwrap().this_clock, Clock::new(1, 2));
    assert_eq!(process.command_log().get_entry(2).unwrap().command, b"c1".to_vec());
}

#[test]
fn conflicting_entry_in_a_stream_replaces_and_aborts() {
    let mut process = follower();
    process.command_log_mut().register_completion(2, Completion { ticket: 77 });
    let stream = LogStream {
        sender_id: 3,
        prev_clock: Clock::new(1, 1),
        entries: vec![elem(2, 2, b"cmdX")],
    };
    assert_eq!(process.queue_received_entry(stream), (true, 1));
    let stored = process.command_log().get_entry(2).unwrap();
    assert_eq!(stored.this_clock, Clock::new(2, 2));
    assert_eq!(stored.prev_clock, Clock::new(1, 1));
    assert_eq!(stored.command, b"cmdX".to_vec());
    let resolved = process.command_log_mut().take_resolutions();
    assert_eq!(resolved.len(), 1);
    assert_eq!(resolved[0].index, 2);
    assert_eq!(resolved[0].completion, Completion { ticket: 77 });
    assert_eq!(resolved[0].result, CompletionResult::Aborted);
}

#[test]
fn configuration_changes_take_effect_at_append_in_order() {
    let mut process = leader();
    let first = configuration_command(&vec![1, 2]);
    let second = configuration_command(&vec![1, 2, 3]);
    assert_eq!(process.queue_new_entry(first, Completion { ticket: 1 }), Ok(1));
    assert_eq!(process.configuration().membership(), &vec![1, 2]);
    assert_eq!(process.configuration().index(), 1);
    assert_eq!(process.queue_new_entry(second, Completion { ticket: 2 }), Ok(2));
    assert_eq!(process.configuration().membership(), &vec![1, 2, 3]);
    assert_eq!(process.configuration().index(), 2);
    // Neither entry is committed.
    assert_eq!(process.command_log().committed_index(), 0);
    assert_eq!(process.command_log().applied_index(), 0);
}

#[test]
fn ordinary_command_leaves_the_configuration() {
    let mut process = leader();
    assert_eq!(process.queue_new_entry(configuration_command(&vec![5]), Completion { ticket: 1 }), Ok(1));
    assert_eq!(process.queue_new_entry(b"write".to_vec(), Completion { ticket: 2 }), Ok(2));
    assert_eq!(process.configuration().membership(), &vec![5]);
    assert_eq!(process.configuration().index(), 1);
    process.process_configuration_command(&b"write".to_vec(), 2);
    assert_eq!(process.configuration().index(), 1);
    process.process_configuration_command(&configuration_command(&vec![6, 7]), 2);
    assert_eq!(process.configuration().membership(), &vec![6, 7]);
    assert_eq!(process.configuration().index(), 2);
}

#[test]
fn stream_rechains_clocks_and_counts_only_inserted_elements() {
    let mut process = follower();
    let stream = LogStream {
        sender_id: 3,
        prev_clock: Clock::new(0, 0),
        entries: vec![
            elem(1, 1, b"c0"),
            elem(1, 2, b"c1"),
            elem(1, 3, b"c2"),
            elem(2, 4, b"c3"),
        ],
    };
    // The first two elements are already there and are skipped.
    assert_eq!(process.queue_received_entry(stream), (true, 2));
    let log = process.command_log();
    assert_eq!(log.last_index(), 4);
    assert_eq!(log.get_entry(3).unwrap().prev_clock, Clock::new(1, 2));
    assert_eq!(log.get_entry(4).unwrap().prev_clock, Clock::new(1, 3));
    assert_eq!(log.get_entry(4).unwrap().this_clock, Clock::new(2, 4));
    assert_eq!(log.get_entry(4).unwrap().command, b"c3".to_vec());
}

#[test]
fn stream_stops_at_the_first_inconsistency() {
    let mut process = follower();
    let stream = LogStream {
        sender_id: 3,
        prev_clock: Clock::new(1, 2),
        entries: vec![
            elem(1, 3, b"c2"),
            // Leaves a gap: index 4 is missing.
            elem(1, 5, b"c4"),
            elem(1, 4, &configuration_command(&vec![9])),
        ],
    };
    assert_eq!(process.queue_received_entry(stream), (false, 1));
    assert_eq!(process.command_log().last_index(), 3);
    assert!(process.configuration().membership().is_empty());
}

#[test]
fn empty_stream_is_accepted() {
    let mut process = follower();
    let stream = LogStream { sender_id: 3, prev_clock: Clock::new(5, 5), entries: vec![] };
    assert_eq!(process.queue_received_entry(stream), (true, 0));
    assert_eq!(process.command_log().last_index(), 2);
}

#[test]
fn received_configuration_change_takes_effect_only_when_inserted() {
    let mut process = follower();
    let change = configuration_command(&vec![1, 2]);
    let stream = LogStream {
        sender_id: 3,
        prev_clock: Clock::new(1, 2),
        entries: vec![elem(1, 3, &change)],
    };
    assert_eq!(process.queue_received_entry(stream), (true, 1));
    assert_eq!(process.configuration().membership(), &vec![1, 2]);
    assert_eq!(process.configuration().index(), 3);
    // A later change, then the first one delivered again: skipped, so the
    // configuration stays.
    process.process_configuration_command(&configuration_command(&vec![8]), 3);
    let again = LogStream {
        sender_id: 3,
        prev_clock: Clock::new(1, 2),
        entries: vec![elem(1, 3, &change)],
    };
    assert_eq!(process.queue_received_entry(again), (true, 0));
    assert_eq!(process.configuration().membership(), &vec![8]);
}

#[test]
fn receive_entry_handles_one_element() {
    let mut process = follower();
    let next = elem(1, 3, b"c2");
    assert_eq!(
        process.receive_entry(Clock::new(1, 2), &next, 3),
        TryInsertResult::Inserted
    );
    assert_eq!(
        process.receive_entry(Clock::new(1, 2), &next, 3),
        TryInsertResult::SkippedInsertion
    );
    assert_eq!(
        process.receive_entry(Clock::new(7, 2), &next, 3),
        TryInsertResult::InconsistencyDetected
    );
    assert_eq!(process.command_log().last_index(), 3);
}

#[test]
fn stream_state_carries_clock_and_count_between_elements() {
    let mut process = follower();
    let mut stream = StreamState::new(3, Clock::new(1, 2));
    assert_eq!(stream.result(), (true, 0));
    assert!(process.receive_next(&mut stream, &elem(1, 3, b"c2")));
    assert_eq!(stream.result(), (true, 1));
    // Offered behind (1,3), the clock of the element before.
    assert!(process.receive_next(&mut stream, &elem(2, 4, b"c3")));
    assert_eq!(stream.result(), (true, 2));
    assert_eq!(process.command_log().get_entry(4).unwrap().prev_clock, Clock::new(1, 3));
    // A gap ends the stream.
    assert!(!process.receive_next(&mut stream, &elem(2, 6, b"c5")));
    assert_eq!(stream.result(), (false, 2));
    // Nothing after the rejection is looked at, even what would fit.
    assert!(!process.receive_next(&mut stream, &elem(2, 5, b"c4")));
    assert_eq!(stream.result(), (false, 2));
    assert_eq!(process.command_log().last_index(), 4);
}

#[test]
fn voter_verdict_opens_and_closes_the_queue() {
    let mut process = follower();
    assert_eq!(
        process.queue_new_entry(b"w".to_vec(), Completion { ticket: 1 }),
        Err(QueueError::NotLeader)
    );
    process.voter_mut().set_safe_leader(true);
    assert_eq!(process.queue_new_entry(b"w".to_vec(), Completion { ticket: 1 }), Ok(3));
    // Without a term of its own the entry has the term of the tail.
    assert_eq!(process.command_log().get_entry(3).unwrap().this_clock, Clock::new(1, 3));
    assert_eq!(process.command_log().get_entry(3).unwrap().prev_clock, Clock::new(1, 2));
    process.voter_mut().set_safe_leader(false);
    assert_eq!(
        process.queue_new_entry(b"w".to_vec(), Completion { ticket: 2 }),
        Err(QueueError::NotLeader)
    );
    assert_eq!(process.command_log().last_index(), 3);
}

#[test]
fn stream_that_only_repeats_stored_entries_inserts_nothing() {
    let mut process = follower();
    let stream = LogStream {
        sender_id: 3,
        prev_clock: Clock::new(1, 1),
        entries: vec![elem(1, 2, b"c1")],
    };
    assert_eq!(process.queue_received_entry(stream), (true, 0));
    assert_eq!(process.command_log().last_index(), 2);
    assert_eq!(process.command_log().get_entry(2).unwrap().command, b"c1".to_vec());
}

#[test]
fn rejected_stream_reports_what_it_inserted_before() {
    let mut process = follower();
    let stream = LogStream {
        sender_id: 3,
        prev_clock: Clock::new(1, 1),
        entries: vec![
            // Skipped.
            elem(1, 2, b"c1"),
            // Inserted, behind the clock of the skipped element.
            elem(1, 3, b"c2"),
            // Does not follow (1,3).
            elem(1, 5, b"c4"),
            elem(1, 4, b"c3"),
        ],
    };
    assert_eq!(process.queue_received_entry(stream), (false, 1));
    assert_eq!(process.command_log().last_index(), 3);
    assert_eq!(process.command_log().get_entry(3).unwrap().prev_clock, Clock::new(1, 2));
}

#[test]
fn skipped_element_is_not_counted_but_carries_its_clock() {
    let mut process = follower();
    let mut stream = StreamState::new(3, Clock::new(0, 0));
    assert!(process.receive_next(&mut stream, &elem(1, 1, b"c0")));
    assert_eq!(stream.result(), (true, 0));
    assert!(process.receive_next(&mut stream, &elem(1, 2, b"c1")));
    assert_eq!(stream.result(), (true, 0));
    assert!(process.receive_next(&mut stream, &elem(1, 3, b"c2")));
    assert_eq!(stream.result(), (true, 1));
    assert_eq!(process.command_log().get_entry(3).unwrap().prev_clock, Clock::new(1, 2));
}
