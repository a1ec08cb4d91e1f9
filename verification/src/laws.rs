//! Laws of the command log, stated over its model.

use vstd::prelude::*;
use crate::entry::Completion;
use crate::entry::EntryView;
use crate::entry::ResolutionView;
use crate::log_view::aborted_range;
use crate::log_view::LogView;
use crate::clock::Clock;
use crate::command_log::TryInsertResult;
use crate::raft_process::LogStreamElemView;
use crate::raft_process::ProcessView;

verus! {

/// One operation on a log.
pub enum LogOp {
    /// A replicated entry is offered.
    Insert(EntryView),
    /// The leader appends a command, with a term of its own or the tail's.
    /// A log whose last index is the largest index there is cannot grow.
    Append(Seq<u8>, Option<u64>),
    /// A completion is registered at an index.
    Register(int, Completion),
    /// The commit cursor is raised towards an index.
    Commit(int),
    /// The state machine answered for the next entry.
    Apply(Seq<u8>),
    /// The state machine failed on the next entry.
    Fault,
    /// The pending resolutions are taken out.
    Drain,
}

impl LogView {
    /// The log after `op`.
    pub open spec fn step(self, op: LogOp) -> LogView {
        match op {
            LogOp::Insert(entry) => self.insert(entry),
            LogOp::Append(command, term) => if self.last_index() < u64::MAX {
                self.append(command, term)
            } else {
                self
            },
            LogOp::Register(index, completion) => self.register(index, completion),
            LogOp::Commit(index) => self.commit(index),
            LogOp::Apply(message) => if self.has_work() {
                self.apply(message)
            } else {
                self
            },
            LogOp::Fault => self,
            LogOp::Drain => self.drained(),
        }
    }

    /// The log after the operations `ops`, first to last.
    pub open spec fn run(self, ops: Seq<LogOp>) -> LogView
        decreases ops.len(),
    {
        if ops.len() == 0 {
            self
        } else {
            self.run(ops.drop_last()).step(ops.last())
        }
    }

    /// The log after the entries `offers` were offered to it, first to last.
    pub open spec fn replay(self, offers: Seq<EntryView>) -> LogView
        decreases offers.len(),
    {
        if offers.len() == 0 {
            self
        } else {
            self.replay(offers.drop_last()).insert(offers.last())
        }
    }

    /// Those of the entries `offers`, offered first to last, that the log
    /// inserted, in the order in which it did.
    pub open spec fn accepted(self, offers: Seq<EntryView>) -> Seq<EntryView>
        decreases offers.len(),
    {
        if offers.len() == 0 {
            Seq::empty()
        } else if self.replay(offers.drop_last()).insert_outcome(offers.last())
            == TryInsertResult::Inserted {
            self.accepted(offers.drop_last()).push(offers.last())
        } else {
            self.accepted(offers.drop_last())
        }
    }

    /// Whether every entry of the log is one of `pool`.
    pub open spec fn drawn_from(self, pool: Seq<EntryView>) -> bool {
        forall|i: int| 0 <= i < self.entries.len() ==> pool.contains(#[trigger] self.entries[i])
    }
}

/// Whether any two entries of `pool` with the same clock hold the same
/// command.
pub open spec fn agree_all(pool: Seq<EntryView>) -> bool {
    forall|j: int, k: int|
        0 <= j < pool.len() && 0 <= k < pool.len() ==> (#[trigger] pool[j]).agrees_with(
            #[trigger] pool[k],
        )
}

/// Offering an entry to a well-formed log leaves it well formed.
pub proof fn lemma_insert_wf(log: LogView, entry: EntryView)
    requires
        log.wf(),
    ensures
        log.insert(entry).wf(),
{
    if log.insert_outcome(entry) == TryInsertResult::Inserted {
        let i = entry.this_clock.index as int;
        let after = log.insert(entry);
        assert(after.entries =~= log.entries.take(i).push(entry));
        assert forall|k: int| #[trigger] after.completions.dom().contains(k) implies after.is_pending(
            k,
        ) by {
            assert(log.completions.dom().contains(k));
        }
    }
}

/// Every operation leaves a well-formed log well formed.
pub proof fn lemma_step_wf(log: LogView, op: LogOp)
    requires
        log.wf(),
    ensures
        log.step(op).wf(),
{
    let after = log.step(op);
    match op {
        LogOp::Insert(entry) => {
            lemma_insert_wf(log, entry);
        },
        LogOp::Append(command, term) => {
            if log.last_index() < u64::MAX {
                assert(after.entries =~= log.entries.push(log.next_entry(command, term)));
            }
        },
        LogOp::Register(index, completion) => {
            assert forall|k: int| #[trigger]
                after.completions.dom().contains(k) implies after.is_pending(k) by {
                if k != index {
                    assert(log.completions.dom().contains(k));
                }
            }
        },
        LogOp::Commit(index) => {},
        LogOp::Apply(message) => {
            if log.has_work() {
                assert forall|k: int| #[trigger]
                    after.completions.dom().contains(k) implies after.is_pending(k) by {
                    assert(log.completions.dom().contains(k));
                }
            }
        },
        LogOp::Fault => {},
        LogOp::Drain => {},
    }
}

/// Every sequence of operations leaves a well-formed log well formed.
pub proof fn lemma_run_wf(log: LogView, ops: Seq<LogOp>)
    requires
        log.wf(),
    ensures
        log.run(ops).wf(),
    decreases ops.len(),
{
    if ops.len() > 0 {
        lemma_run_wf(log, ops.drop_last());
        lemma_step_wf(log.run(ops.drop_last()), ops.last());
    }
}

/// Apply monotonicity, for one operation: no operation moves the apply
/// cursor or the commit cursor back, and the apply cursor never passes the
/// commit cursor.
pub proof fn lemma_step_cursors(log: LogView, op: LogOp)
    requires
        log.wf(),
    ensures
        log.applied <= log.step(op).applied,
        log.committed <= log.step(op).committed,
        log.step(op).applied <= log.step(op).committed,
{
    lemma_step_wf(log, op);
}

/// Apply monotonicity, over time: along any history of operations the apply
/// cursor at an earlier moment is at most the apply cursor at a later one,
/// and at every moment it is at most the commit cursor.
pub proof fn lemma_apply_monotonic(log: LogView, ops: Seq<LogOp>, earlier: int, later: int)
    requires
        log.wf(),
        0 <= earlier <= later <= ops.len(),
    ensures
        log.run(ops.take(earlier)).applied <= log.run(ops.take(later)).applied,
        log.run(ops.take(later)).applied <= log.run(ops.take(later)).committed,
    decreases later - earlier,
{
    lemma_run_wf(log, ops.take(later));
    if earlier < later {
        let shorter = ops.take(later - 1);
        assert(ops.take(later).drop_last() =~= shorter);
        lemma_apply_monotonic(log, ops, earlier, later - 1);
        lemma_run_wf(log, shorter);
        lemma_step_cursors(log.run(shorter), ops.take(later).last());
    }
}

/// Idempotence: offering again an entry that the log already holds at its
/// index is skipped and changes nothing.
pub proof fn lemma_reinsert_is_skipped(log: LogView, index: int)
    requires
        log.wf(),
        log.has_entry(index),
    ensures
        log.insert_outcome(log.entries[index]) == TryInsertResult::SkippedInsertion,
        log.insert(log.entries[index]) == log,
{
}

/// Consistency rejection: an entry that names a predecessor clock other
/// than the clock of the log's entry just before it is refused, and the
/// log does not change.
pub proof fn lemma_predecessor_mismatch_is_rejected(log: LogView, entry: EntryView)
    requires
        log.wf(),
        entry.this_clock.index >= 1,
        log.has_entry(entry.this_clock.index - 1),
        log.entries[entry.this_clock.index - 1].this_clock != entry.prev_clock,
    ensures
        log.insert_outcome(entry) == TryInsertResult::InconsistencyDetected,
        log.insert(entry) == log,
{
}

/// An entry behind a gap is refused as well: the log has nothing to check
/// its predecessor against.
pub proof fn lemma_gap_is_rejected(log: LogView, entry: EntryView)
    requires
        log.wf(),
        entry.this_clock.index > log.last_index() + 1,
    ensures
        log.insert_outcome(entry) == TryInsertResult::InconsistencyDetected,
        log.insert(entry) == log,
{
}

/// Whether `aborted` resolves each completion that waits at an index
/// `lo <= k < hi` exactly once, as aborted, and resolves nothing else: every
/// element is the aborted resolution of such a completion, the indices are
/// strictly ascending, so none occurs twice, and none is left out.
pub open spec fn aborts_exactly_once(
    aborted: Seq<ResolutionView>,
    completions: Map<int, Completion>,
    lo: int,
    hi: int,
) -> bool {
    &&& forall|j: int|
        0 <= j < aborted.len() ==> {
            let r = #[trigger] aborted[j];
            &&& lo <= r.index < hi
            &&& completions.dom().contains(r.index)
            &&& r == ResolutionView::aborted(r.index, completions[r.index])
        }
    &&& forall|j: int, k: int|
        0 <= j < k < aborted.len() ==> (#[trigger] aborted[j]).index < (#[trigger] aborted[k]).index
    &&& forall|index: int|
        lo <= index < hi && #[trigger] completions.dom().contains(index) ==> aborted.contains(
            ResolutionView::aborted(index, completions[index]),
        )
}

/// The resolutions of a discarded range resolve each completion of the
/// range exactly once.
pub proof fn lemma_aborted_range(completions: Map<int, Completion>, lo: int, hi: int)
    ensures
        aborts_exactly_once(aborted_range(completions, lo, hi), completions, lo, hi),
    decreases hi - lo,
{
    if lo < hi {
        lemma_aborted_range(completions, lo, hi - 1);
        let shorter = aborted_range(completions, lo, hi - 1);
        let whole = aborted_range(completions, lo, hi);
        assert forall|index: int|
            lo <= index < hi && #[trigger] completions.dom().contains(index) implies whole.contains(
            ResolutionView::aborted(index, completions[index]),
        ) by {
            let wanted = ResolutionView::aborted(index, completions[index]);
            if index == hi - 1 {
                assert(whole[whole.len() - 1] == wanted);
            } else {
                let j = choose|j: int| 0 <= j < shorter.len() && shorter[j] == wanted;
                assert(whole[j] == wanted);
            }
        }
    }
}

/// Truncation correctness: an entry that passes the predecessor check and
/// meets a different entry at its index, above the commit cursor, is
/// stored there as the last entry. Every entry that stood at that index or
/// above is gone and the entries below stay. The completions that waited
/// at or above the index no longer wait: each of them is resolved as
/// aborted exactly once, and nothing else is resolved.
pub proof fn lemma_conflict_truncates(log: LogView, entry: EntryView)
    requires
        log.wf(),
        log.predecessor_matches(entry),
        log.conflicts_with(entry),
        entry.this_clock.index > log.committed,
    ensures
        log.insert_outcome(entry) == TryInsertResult::Inserted,
        log.insert(entry).entries == log.entries.take(entry.this_clock.index as int).push(entry),
        log.insert(entry).last_index() == entry.this_clock.index,
        log.insert(entry).completions == log.completions.restrict(
            Set::new(|k: int| k < entry.this_clock.index),
        ),
        forall|k: int|
            log.insert(entry).completions.dom().contains(k) <==> k < entry.this_clock.index
                && log.completions.dom().contains(k),
        exists|aborted: Seq<ResolutionView>|
            #![trigger log.resolved + aborted]
            log.insert(entry).resolved == log.resolved + aborted && aborts_exactly_once(
                aborted,
                log.completions,
                entry.this_clock.index as int,
                log.entries.len() as int,
            ),
        log.insert(entry).committed == log.committed,
        log.insert(entry).applied == log.applied,
{
    let index = entry.this_clock.index as int;
    lemma_aborted_range(log.completions, index, log.entries.len() as int);
    let aborted = aborted_range(log.completions, index, log.entries.len() as int);
    assert(log.insert(entry).resolved == log.resolved + aborted);
}

/// Whether the step from `before` to `after` settles completions
/// properly: the resolutions grow by `added`, every completion that waited
/// before either still waits or is resolved by exactly one element of
/// `added`, and `added` resolves nothing else.
pub open spec fn settles(before: LogView, after: LogView, added: Seq<ResolutionView>) -> bool {
    &&& after.resolved == before.resolved + added
    &&& forall|j: int|
        0 <= j < added.len() ==> {
            let r = #[trigger] added[j];
            &&& before.completions.dom().contains(r.index)
            &&& !after.completions.dom().contains(r.index)
            &&& r.completion == before.completions[r.index]
        }
    &&& forall|j: int, k: int|
        0 <= j < k < added.len() ==> (#[trigger] added[j]).index != (#[trigger] added[k]).index
    &&& forall|index: int| #[trigger]
        before.completions.dom().contains(index) ==> if after.completions.dom().contains(index) {
            after.completions[index] == before.completions[index]
        } else {
            exists|j: int| 0 <= j < added.len() && #[trigger] added[j].index == index
        }
    &&& forall|index: int| #[trigger]
        after.completions.dom().contains(index) ==> before.completions.dom().contains(index)
}

/// Exactly-once resolution: whatever is offered, appended, committed or
/// applied, a completion that waits keeps waiting or is resolved exactly
/// once, and no completion appears that was not registered. A completion
/// leaves the log only through a resolution.
pub proof fn lemma_step_settles(log: LogView, op: LogOp)
    requires
        log.wf(),
        !(op is Register),
        !(op is Drain),
    ensures
        exists|added: Seq<ResolutionView>| #[trigger] settles(log, log.step(op), added),
{
    let after = log.step(op);
    let nothing = Seq::<ResolutionView>::empty();
    match op {
        LogOp::Insert(entry) => {
            if log.insert_outcome(entry) == TryInsertResult::Inserted {
                let index = entry.this_clock.index as int;
                let added = aborted_range(log.completions, index, log.entries.len() as int);
                lemma_aborted_range(log.completions, index, log.entries.len() as int);
                assert forall|k: int| #[trigger]
                    log.completions.dom().contains(k) && !after.completions.dom().contains(
                        k,
                    ) implies exists|j: int| 0 <= j < added.len() && #[trigger] added[j].index == k by {
                    let wanted = ResolutionView::aborted(k, log.completions[k]);
                    assert(added.contains(wanted));
                    let j = choose|j: int| 0 <= j < added.len() && added[j] == wanted;
                    assert(added[j].index == k);
                }
                assert(settles(log, after, added));
            } else {
                assert(log.resolved + nothing =~= log.resolved);
                assert(settles(log, after, nothing));
            }
        },
        LogOp::Apply(message) => {
            let index = log.applied + 1;
            if log.has_work() && log.completions.dom().contains(index) {
                let added = seq![ResolutionView::applied(index, log.completions[index], message)];
                assert(log.resolved + added =~= log.resolved.push(added[0]));
                assert(added[0].index == index);
                assert(settles(log, after, added));
            } else {
                assert(log.resolved + nothing =~= log.resolved);
                if log.has_work() {
                    assert(after.completions =~= log.completions);
                }
                assert(settles(log, after, nothing));
            }
        },
        _ => {
            assert(log.resolved + nothing =~= log.resolved);
            assert(settles(log, after, nothing));
        },
    }
}

/// Registration never loses a completion: afterwards the new completion
/// waits at its index or is resolved as aborted, and a completion that it
/// displaced is resolved as aborted. Every other completion waits as
/// before.
pub proof fn lemma_register_settles(log: LogView, index: int, completion: Completion)
    requires
        log.wf(),
    ensures
        log.is_pending(index) ==> log.register(index, completion).completions.dom().contains(index)
            && log.register(index, completion).completions[index] == completion,
        !log.is_pending(index) ==> log.register(index, completion).completions == log.completions
            && log.register(index, completion).resolved == log.resolved.push(
            ResolutionView::aborted(index, completion),
        ),
        log.is_pending(index) && log.completions.dom().contains(index) ==> log.register(
            index,
            completion,
        ).resolved == log.resolved.push(ResolutionView::aborted(index, log.completions[index])),
        log.is_pending(index) && !log.completions.dom().contains(index) ==> log.register(
            index,
            completion,
        ).resolved == log.resolved,
        forall|k: int|
            k != index ==> (log.register(index, completion).completions.dom().contains(k)
                <==> log.completions.dom().contains(k)),
        forall|k: int|
            k != index && #[trigger] log.completions.dom().contains(k) ==> log.register(
                index,
                completion,
            ).completions[k] == log.completions[k],
{
}

/// The entries of a log after a replay are entries of the log before or
/// entries that it inserted on the way.
pub proof fn lemma_replay_drawn_from(log: LogView, offers: Seq<EntryView>)
    requires
        log.wf(),
    ensures
        log.replay(offers).wf(),
        log.replay(offers).drawn_from(log.entries + log.accepted(offers)),
    decreases offers.len(),
{
    let pool = log.entries + log.accepted(offers);
    if offers.len() == 0 {
        assert forall|i: int| 0 <= i < log.entries.len() implies pool.contains(
            #[trigger] log.entries[i],
        ) by {
            assert(pool[i] == log.entries[i]);
        }
    } else {
        let shorter = offers.drop_last();
        let before = log.replay(shorter);
        let after = log.replay(offers);
        lemma_replay_drawn_from(log, shorter);
        lemma_insert_wf(before, offers.last());
        assert forall|i: int| 0 <= i < after.entries.len() implies pool.contains(
            #[trigger] after.entries[i],
        ) by {
            if before.insert_outcome(offers.last()) == TryInsertResult::Inserted && i
                == offers.last().this_clock.index {
                assert(pool[pool.len() - 1] == offers.last());
            } else {
                assert(after.entries[i] == before.entries[i]);
                let smaller = log.entries + log.accepted(shorter);
                let j = choose|j: int| 0 <= j < smaller.len() && smaller[j] == before.entries[i];
                assert(pool[j] == smaller[j]);
            }
        }
    }
}

/// What a log inserted of the first `earlier` offers it also inserted of
/// the first `later` ones.
pub proof fn lemma_accepted_grows(log: LogView, offers: Seq<EntryView>, earlier: int, later: int)
    requires
        0 <= earlier <= later <= offers.len(),
    ensures
        log.accepted(offers.take(earlier)).len() <= log.accepted(offers.take(later)).len(),
        forall|j: int|
            0 <= j < log.accepted(offers.take(earlier)).len() ==> #[trigger] log.accepted(
                offers.take(later),
            )[j] == log.accepted(offers.take(earlier))[j],
    decreases later - earlier,
{
    if earlier < later {
        assert(offers.take(later).drop_last() =~= offers.take(later - 1));
        lemma_accepted_grows(log, offers, earlier, later - 1);
    }
}

/// Log matching, for one insertion: where the log holds an entry at an
/// index before and after an offer, and the two carry the same clock, they
/// are the same entry.
pub proof fn lemma_insert_keeps_clocked_entries(log: LogView, entry: EntryView, index: int)
    requires
        log.wf(),
        log.has_entry(index),
        log.insert(entry).has_entry(index),
        log.entries[index].this_clock == log.insert(entry).entries[index].this_clock,
    ensures
        log.insert(entry).entries[index] == log.entries[index],
{
}

/// Log matching, between two logs: let two logs each be offered a sequence
/// of entries. If among the entries that the logs held before and those
/// that they inserted equal clocks come with equal commands, then two
/// entries that the logs hold at one index afterwards and that share their
/// clock share their command.
pub proof fn lemma_log_matching(
    first: LogView,
    first_offers: Seq<EntryView>,
    second: LogView,
    second_offers: Seq<EntryView>,
    index: int,
)
    requires
        first.wf(),
        second.wf(),
        agree_all(
            first.entries + first.accepted(first_offers) + second.entries + second.accepted(
                second_offers,
            ),
        ),
        first.replay(first_offers).has_entry(index),
        second.replay(second_offers).has_entry(index),
    ensures
        first.replay(first_offers).entries[index].agrees_with(
            second.replay(second_offers).entries[index],
        ),
{
    let left = first.entries + first.accepted(first_offers);
    let right = second.entries + second.accepted(second_offers);
    let pool = left + right;
    assert(pool =~= first.entries + first.accepted(first_offers) + second.entries
        + second.accepted(second_offers));
    lemma_replay_drawn_from(first, first_offers);
    lemma_replay_drawn_from(second, second_offers);
    let a = first.replay(first_offers).entries[index];
    let b = second.replay(second_offers).entries[index];
    let j = choose|j: int| 0 <= j < left.len() && left[j] == a;
    let k = choose|k: int| 0 <= k < right.len() && right[k] == b;
    assert(pool[j] == a);
    assert(pool[left.len() + k] == b);
}

/// Log matching, over time: along the history of one log that is offered
/// the entries `offers` one after another, two entries recorded at one
/// index at two moments share their command if they share their clock,
/// provided that equal clocks come with equal commands among the entries
/// that the log held at the start and those that it inserted.
pub proof fn lemma_log_matching_over_time(
    log: LogView,
    offers: Seq<EntryView>,
    earlier: int,
    later: int,
    index: int,
)
    requires
        log.wf(),
        agree_all(log.entries + log.accepted(offers)),
        0 <= earlier <= later <= offers.len(),
        log.replay(offers.take(earlier)).has_entry(index),
        log.replay(offers.take(later)).has_entry(index),
    ensures
        log.replay(offers.take(earlier)).entries[index].agrees_with(
            log.replay(offers.take(later)).entries[index],
        ),
{
    let whole = log.entries + log.accepted(offers);
    let early = log.entries + log.accepted(offers.take(earlier));
    let late = log.entries + log.accepted(offers.take(later));
    assert(offers.take(offers.len() as int) =~= offers);
    lemma_accepted_grows(log, offers, earlier, offers.len() as int);
    lemma_accepted_grows(log, offers, later, offers.len() as int);
    lemma_replay_drawn_from(log, offers.take(earlier));
    lemma_replay_drawn_from(log, offers.take(later));
    let a = log.replay(offers.take(earlier)).entries[index];
    let b = log.replay(offers.take(later)).entries[index];
    let j = choose|j: int| 0 <= j < early.len() && early[j] == a;
    let k = choose|k: int| 0 <= k < late.len() && late[k] == b;
    assert(whole[j] == a);
    assert(whole[k] == b);
}

/// The entries that the stream `elems` behind `prev_clock` stands for:
/// each element with the clock of the element before it as predecessor, the
/// first with `prev_clock`.
pub open spec fn rechain(prev_clock: Clock, elems: Seq<LogStreamElemView>) -> Seq<EntryView> {
    Seq::new(
        elems.len(),
        |i: int|
            elems[i].entry(
                if i == 0 {
                    prev_clock
                } else {
                    elems[i - 1].this_clock
                },
            ),
    )
}

/// Offering an entry and then a sequence of entries is offering the
/// sequence that starts with the entry.
pub proof fn lemma_replay_front(log: LogView, entry: EntryView, rest: Seq<EntryView>)
    ensures
        log.replay(seq![entry] + rest) == log.insert(entry).replay(rest),
    decreases rest.len(),
{
    let all = seq![entry] + rest;
    if rest.len() == 0 {
        assert(all.drop_last() =~= Seq::<EntryView>::empty());
        assert(log.replay(all.drop_last()) == log);
    } else {
        assert(all.drop_last() =~= seq![entry] + rest.drop_last());
        lemma_replay_front(log, entry, rest.drop_last());
    }
}

/// Of an entry and then a sequence of entries the log inserts what it
/// inserts of the sequence after the entry, and the entry itself if it
/// inserts that.
pub proof fn lemma_accepted_front(log: LogView, entry: EntryView, rest: Seq<EntryView>)
    ensures
        log.accepted(seq![entry] + rest).len() == log.insert(entry).accepted(rest).len() + (if log.insert_outcome(
            entry,
        ) == TryInsertResult::Inserted {
            1nat
        } else {
            0nat
        }),
    decreases rest.len(),
{
    let all = seq![entry] + rest;
    if rest.len() == 0 {
        assert(all.drop_last() =~= Seq::<EntryView>::empty());
        assert(all.last() == entry);
        assert(log.replay(all.drop_last()) == log);
        assert(log.accepted(all.drop_last()).len() == 0);
    } else {
        assert(all.drop_last() =~= seq![entry] + rest.drop_last());
        assert(all.last() == rest.last());
        lemma_accepted_front(log, entry, rest.drop_last());
        lemma_replay_front(log, entry, rest.drop_last());
    }
}

/// A replication stream is handled as a sequence of offers to the log:
/// the log after the stream is the log after the entries that the handled
/// elements stand for were offered in order. A stream is accepted if, and
/// only if, all its elements were handled; a stream that is not accepted
/// ended at an element that the log found inconsistent. The number of
/// elements inserted is the number of those offers that the log inserted.
/// The cursors of the log and the verdict of the voter do not change.
pub proof fn lemma_receive_is_replay(
    process: ProcessView,
    prev_clock: Clock,
    elems: Seq<LogStreamElemView>,
)
    requires
        process.log.wf(),
    ensures
        process.receive(prev_clock, elems).handled <= elems.len(),
        process.receive(prev_clock, elems).accepted <==> process.receive(prev_clock, elems).handled
            == elems.len(),
        process.receive(prev_clock, elems).process.log == process.log.replay(
            rechain(prev_clock, elems).take(process.receive(prev_clock, elems).handled as int),
        ),
        process.receive(prev_clock, elems).inserted == process.log.accepted(
            rechain(prev_clock, elems).take(process.receive(prev_clock, elems).handled as int),
        ).len(),
        process.receive(prev_clock, elems).inserted <= process.receive(prev_clock, elems).handled,
        !process.receive(prev_clock, elems).accepted ==> process.receive(
            prev_clock,
            elems,
        ).process.log.insert_outcome(
            rechain(prev_clock, elems)[process.receive(prev_clock, elems).handled as int],
        ) == TryInsertResult::InconsistencyDetected,
        process.receive(prev_clock, elems).process.log.wf(),
        process.receive(prev_clock, elems).process.log.applied == process.log.applied,
        process.receive(prev_clock, elems).process.log.committed == process.log.committed,
        process.receive(prev_clock, elems).process.allows == process.allows,
    decreases elems.len(),
{
    let chain = rechain(prev_clock, elems);
    let done = process.receive(prev_clock, elems);
    if elems.len() == 0 {
        assert(chain.take(0) =~= Seq::<EntryView>::empty());
    } else if process.receive_outcome(prev_clock, elems[0])
        == TryInsertResult::InconsistencyDetected {
        assert(chain.take(0) =~= Seq::<EntryView>::empty());
        assert(chain[0] == elems[0].entry(prev_clock));
    } else {
        let first = elems[0].entry(prev_clock);
        let next = process.receive_one(prev_clock, elems[0]);
        let rest = elems.drop_first();
        let rest_chain = rechain(elems[0].this_clock, rest);
        let rest_done = next.receive(elems[0].this_clock, rest);
        let rest_taken = rest_chain.take(rest_done.handled as int);
        lemma_insert_wf(process.log, first);
        lemma_receive_is_replay(next, elems[0].this_clock, rest);
        assert(chain.drop_first() =~= rest_chain);
        assert(chain.take(done.handled as int) =~= seq![first] + rest_taken);
        lemma_replay_front(process.log, first, rest_taken);
        lemma_accepted_front(process.log, first, rest_taken);
        if !done.accepted {
            assert(chain[done.handled as int] == rest_chain[rest_done.handled as int]);
        }
    }
}

} // verus!
