use lolraft::advance_kern::new;
use lolraft::advance_kern::pause_after;
use lolraft::advance_kern::Pause;
use lolraft::advance_kern::TICK_MILLIS;
use lolraft::clock::Index;
use lolraft::command_log::Advance;
use lolraft::command_log::ApplyFault;
use lolraft::command_log::CommandLog;
use lolraft::command_log::StateMachine;
use lolraft::entry::Completion;
use lolraft::entry::CompletionResult;
use lolraft::voter::Voter;

/// Answers each command with the command in upper case, and fails on "bad".
struct Shout {
    seen: Vec<(Index, Vec<u8>)>,
}

impl StateMachine for Shout {
    fn process_write(&mut self, command: &Vec<u8>, index: Index) -> Result<Vec<u8>, ApplyFault> {
        if command == b"bad" {
            return Err(ApplyFault { code: index });
        }
        self.seen.push((index, command.clone()));
        Ok(command.to_ascii_uppercase())
    }
}

#[test]
fn both_completions_are_resolved_in_one_tick() {
    let mut log = CommandLog::new();
    assert_eq!(log.append_new_entry(b"a".to_vec(), Some(1)), 1);
    log.register_completion(1, Completion { ticket: 100 });
    assert_eq!(log.append_new_entry(b"b".to_vec(), None), 2);
    log.register_completion(2, Completion { ticket: 200 });
    log.advance_commit_index(2);
    let mut thread = new(log, Voter::new(true));
    let mut machine = Shout { seen: vec![] };
    let tick = thread.run_tick(&mut machine);
    assert_eq!(tick.applied, 2);
    assert_eq!(tick.fault, None);
    assert_eq!(machine.seen, vec![(1, b"a".to_vec()), (2, b"b".to_vec())]);
    assert_eq!(thread.command_log().applied_index(), 2);
    let resolved = thread.command_log_mut().take_resolutions();
    assert_eq!(resolved.len(), 2);
    assert_eq!(resolved[0].index, 1);
    assert_eq!(resolved[0].completion, Completion { ticket: 100 });
    assert_eq!(resolved[0].result, CompletionResult::Applied(b"A".to_vec()));
    assert_eq!(resolved[1].index, 2);
    assert_eq!(resolved[1].completion, Completion { ticket: 200 });
    assert_eq!(resolved[1].result, CompletionResult::Applied(b"B".to_vec()));
    // The next tick finds nothing to do.
    let tick = thread.run_tick(&mut machine);
    assert_eq!(tick.applied, 0);
    assert_eq!(tick.fault, None);
}

#[test]
fn advance_once_applies_exactly_one_entry() {
    let mut log = CommandLog::new();
    log.append_new_entry(b"a".to_vec(), None);
    log.append_new_entry(b"b".to_vec(), None);
    log.append_new_entry(b"c".to_vec(), None);
    log.advance_commit_index(2);
    let mut thread = new(log, Voter::new(false));
    let mut machine = Shout { seen: vec![] };
    assert_eq!(thread.advance_once(&mut machine), Ok(Advance::Applied));
    assert_eq!(thread.command_log().applied_index(), 1);
    assert_eq!(thread.advance_once(&mut machine), Ok(Advance::Applied));
    assert_eq!(thread.command_log().applied_index(), 2);
    // The third entry is not committed.
    assert_eq!(thread.advance_once(&mut machine), Ok(Advance::NoWork));
    assert_eq!(thread.command_log().applied_index(), 2);
    assert_eq!(machine.seen.len(), 2);
    assert!(!thread.voter().allow_queue_entry());
}

#[test]
fn tick_stops_at_a_fault_and_does_not_skip_the_entry() {
    let mut log = CommandLog::new();
    log.append_new_entry(b"a".to_vec(), None);
    log.append_new_entry(b"bad".to_vec(), None);
    log.append_new_entry(b"c".to_vec(), None);
    log.register_completion(2, Completion { ticket: 2 });
    log.advance_commit_index(3);
    let mut thread = new(log, Voter::new(true));
    let mut machine = Shout { seen: vec![] };
    let tick = thread.run_tick(&mut machine);
    assert_eq!(tick.applied, 1);
    assert_eq!(tick.fault, Some(ApplyFault { code: 2 }));
    assert_eq!(thread.command_log().applied_index(), 1);
    let tick = thread.run_tick(&mut machine);
    assert_eq!(tick.applied, 0);
    assert_eq!(tick.fault, Some(ApplyFault { code: 2 }));
    assert_eq!(thread.command_log().applied_index(), 1);
    assert_eq!(thread.command_log().next_apply().unwrap().command, b"bad".to_vec());
    assert!(thread.command_log_mut().take_resolutions().is_empty());
    let (log, voter) = thread.into_parts();
    assert_eq!(log.committed_index(), 3);
    assert!(voter.allow_queue_entry());
}

#[test]
fn applier_yields_after_an_application_and_waits_otherwise() {
    assert_eq!(pause_after(&Ok(Advance::Applied)), Pause::Yield);
    assert_eq!(pause_after(&Ok(Advance::NoWork)), Pause::AwaitTick);
    assert_eq!(pause_after(&Err(ApplyFault { code: 1 })), Pause::AwaitTick);
    assert_eq!(TICK_MILLIS, 100);
}

#[test]
fn voter_verdict_can_change() {
    let mut voter = Voter::new(false);
    assert!(!voter.allow_queue_entry());
    voter.set_safe_leader(true);
    assert!(voter.allow_queue_entry());
}

#[test]
fn idle_applier_does_not_call_the_state_machine() {
    let mut log = CommandLog::new();
    log.append_new_entry(b"a".to_vec(), None);
    // Nothing is committed.
    let mut thread = new(log, Voter::new(true));
    let mut machine = Shout { seen: vec![] };
    assert_eq!(thread.advance_once(&mut machine), Ok(Advance::NoWork));
    let tick = thread.run_tick(&mut machine);
    assert_eq!(tick.applied, 0);
    assert_eq!(tick.fault, None);
    assert!(machine.seen.is_empty());
    let mut log = thread.into_parts().0;
    assert_eq!(log.advance_kern_process(&mut machine), Ok(Advance::NoWork));
    assert!(machine.seen.is_empty());
    assert_eq!(log.applied_index(), 0);
}
