//! What a pool of helper processes promises its caller: who is late, who gets the
//! next candidate, and what becomes of answers and of workers that fail.

use vstd::prelude::*;

use crate::error::BeamWorker;
use crate::pool::{
    accepts, begun, consistent, dispatched, first_idle, is_new_pool, is_settled, outcome, polled, stepped, BusyTask,
    Phase, PoolAction, PoolEvent, PoolRun, Received, Slot, SlotOutcome, WorkerPool,
};
use crate::worker::BeamConfig;

verus! {

// ---------------------------------------------------------------------------
// Polls
// ---------------------------------------------------------------------------

/// A busy worker with nothing to say is late from the limit on, and never before
/// it; once late, it stays late. Where no limit is set, nobody is late.
pub proof fn law_late_workers_stay_late(
    task: BusyTask,
    later: BusyTask,
    timeout_ns: u128,
    found: SlotOutcome,
    found_later: SlotOutcome,
)
    requires
        task.elapsed_ns <= later.elapsed_ns,
        found == outcome(Received::Empty, Some(task), timeout_ns),
        found_later == outcome(Received::Empty, Some(later), timeout_ns),
    ensures
        found is TimedOut ==> found_later is TimedOut,
        timeout_ns != 0 && timeout_ns <= task.elapsed_ns ==> found is TimedOut && found_later is TimedOut,
        timeout_ns == 0 || later.elapsed_ns < timeout_ns ==> found is Idle && found_later is Idle,
{
}

/// A shorter limit is reached no later than a longer one.
pub proof fn law_longer_limits_are_reached_later(task: BusyTask, limit: u128, longer: u128)
    requires
        0 < limit <= longer,
        outcome(Received::Empty, Some(task), longer) is TimedOut,
    ensures
        outcome(Received::Empty, Some(task), limit) is TimedOut,
        task.elapsed_ns >= longer,
{
}

/// What a channel holds is found as it is, however late the worker is: an answer
/// is not lost to the deadline, and a worker that has no candidate is not late.
pub proof fn law_what_arrived_is_found(
    received: Received,
    busy: Option<BusyTask>,
    timeout_ns: u128,
    found: SlotOutcome,
)
    requires
        found == outcome(received, busy, timeout_ns),
    ensures
        forall|response| received == Received::Response(response) <==> found == SlotOutcome::Response(response),
        forall|error| received == Received::Error(error) <==> found == SlotOutcome::Failed(Some(error)),
        received is Disconnected <==> found == SlotOutcome::Failed(None),
        found is TimedOut || found is Idle <==> received is Empty,
        found is TimedOut ==> busy is Some,
{
}

// ---------------------------------------------------------------------------
// Steps
// ---------------------------------------------------------------------------

proof fn lemma_first_idle_is_first(slots: Seq<Slot>, from: nat)
    requires
        slots.len() <= usize::MAX,
    ensures
        match first_idle(slots, from) {
            Some(slot) => from <= slot < slots.len() && slots[slot as int].busy is None && forall|j: int|
                #![trigger slots[j]]
                from <= j < slot ==> slots[j].busy is Some,
            None => forall|j: int| #![trigger slots[j]] from <= j < slots.len() ==> slots[j].busy is Some,
        },
    decreases slots.len() - from,
{
    if from < slots.len() && slots[from as int].busy is Some {
        lemma_first_idle_is_first(slots, from + 1);
    }
}

/// What a step of a run may ask for, where candidates go to the workers from
/// `from` on.
spec fn hands_out(slots: Seq<Slot>, from: nat, next: PoolRun, action: PoolAction) -> bool {
    match action {
        PoolAction::Send { slot, index } => {
            &&& next.next < next.total
            &&& index == next.next
            &&& from <= slot < slots.len()
            &&& slots[slot as int].busy is None
            &&& forall|j: int| #![trigger slots[j]] from <= j < slot ==> slots[j].busy is Some
        },
        PoolAction::Poll { slot } => slot == 0 && 0 < slots.len() && leaves_none(slots, from, next),
        PoolAction::Sleep => slots.len() == 0 && !next.progress,
        PoolAction::Finished => next.finished >= next.total,
        _ => false,
    }
}

/// No candidate waits while a worker from `from` on has nothing to do.
spec fn leaves_none(slots: Seq<Slot>, from: nat, run: PoolRun) -> bool {
    run.next >= run.total || forall|j: int| #![trigger slots[j]] from <= j < slots.len() ==> slots[j].busy is Some
}

proof fn lemma_quiet_dispatch(slots: Seq<Slot>, run: PoolRun, from: nat)
    requires
        slots.len() <= usize::MAX,
        !run.progress,
    ensures
        hands_out(slots, from, dispatched(slots, run, from).0, dispatched(slots, run, from).1),
        !(dispatched(slots, run, from).1 is Finished),
{
    lemma_first_idle_is_first(slots, from);
    reveal_with_fuel(polled, 2);
}

proof fn lemma_begun(slots: Seq<Slot>, run: PoolRun)
    requires
        slots.len() <= usize::MAX,
    ensures
        hands_out(slots, 0, begun(slots, run).0, begun(slots, run).1),
        begun(slots, run).1 is Finished <==> run.finished >= run.total,
{
    if run.finished < run.total {
        lemma_quiet_dispatch(slots, PoolRun { progress: false, ..run }, 0);
    }
}

/// At the start of a round, and after each candidate that was sent, the next
/// candidate goes to the first worker in line that has nothing to do. Workers are
/// polled, from the first on, only when no candidate waits for an idle worker in
/// line. A run ends when every candidate is settled, and not before.
pub proof fn law_candidates_go_to_idle_workers(slots: Seq<Slot>, max_tasks: usize, run: PoolRun, event: PoolEvent)
    requires
        consistent(slots, max_tasks, run),
        slots.len() > 0,
        run.phase is Start || run.phase is Sleeping || (run.phase is Sending && event is Done && !run.progress),
    ensures
        ({
            let (after, next, result) = stepped(slots, max_tasks, run, event);
            let from = match run.phase {
                Phase::Sending { slot } => slot + 1,
                _ => 0,
            };
            &&& result matches Ok(PoolAction::Send { slot, index }) ==> {
                &&& index == next.next
                &&& from <= slot < after.len()
                &&& after[slot as int].busy is None
                &&& forall|j: int| #![trigger after[j]] from <= j < slot ==> after[j].busy is Some
            }
            &&& result matches Ok(PoolAction::Poll { slot }) ==> slot == 0 && (next.next == next.total || forall|j: int|
                #![trigger after[j]]
                from <= j < after.len() ==> after[j].busy is Some)
            &&& result matches Ok(action) && (action is Send || action is Poll || action is Finished)
            &&& (result matches Ok(PoolAction::Finished)) <==> !(run.phase is Sending) && run.finished == run.total
        }),
{
    match run.phase {
        Phase::Sending { slot } => {
            let given = slots.update(
                slot as int,
                Slot { busy: Some(run.next), tasks: (slots[slot as int].tasks + 1) as usize },
            );
            let sent = PoolRun { next: (run.next + 1) as usize, ..run };
            lemma_quiet_dispatch(given, sent, slot as nat + 1);
        },
        _ => {
            lemma_begun(slots, run);
            lemma_finished_at_most(slots, max_tasks, run);
        },
    }
    lemma_finished_at_most(slots, max_tasks, run);
}

proof fn lemma_finished_at_most(slots: Seq<Slot>, max_tasks: usize, run: PoolRun)
    requires
        consistent(slots, max_tasks, run),
    ensures
        run.finished <= run.next <= run.total,
{
}

/// A candidate that was sent is with the worker that it was sent to, which has had
/// one more of its share; no other worker changes.
pub proof fn law_a_sent_candidate_is_with_its_worker(
    slots: Seq<Slot>,
    max_tasks: usize,
    run: PoolRun,
    slot: usize,
    other: int,
)
    requires
        consistent(slots, max_tasks, run),
        run.phase == (Phase::Sending { slot }),
        0 <= other < slots.len(),
    ensures
        ({
            let (after, next, result) = stepped(slots, max_tasks, run, PoolEvent::Done);
            &&& result is Ok
            &&& after.len() == slots.len()
            &&& after[slot as int].busy == Some(run.next)
            &&& after[slot as int].tasks == slots[slot as int].tasks + 1
            &&& other != slot ==> after[other] == slots[other]
        }),
{
}

/// An answer is delivered if and only if it is for the candidate that its worker
/// has; any other ends the run, and says which was expected.
pub proof fn law_answers_are_for_their_candidates(
    slots: Seq<Slot>,
    max_tasks: usize,
    run: PoolRun,
    event: PoolEvent,
    slot: usize,
)
    requires
        consistent(slots, max_tasks, run),
        run.phase == (Phase::Polling { slot }),
        event is Polled,
        event->Polled_0 is Response,
    ensures
        ({
            let response = event->Polled_0->Response_0;
            let (after, next, result) = stepped(slots, max_tasks, run, event);
            let worker = slots[slot as int];
            &&& worker.busy == Some(response.index) ==> {
                &&& result == Ok::<PoolAction, BeamWorker>(PoolAction::Deliver { response })
                &&& after[slot as int] == (Slot { busy: None, tasks: worker.tasks })
                &&& next.progress
            }
            &&& worker.busy != Some(response.index) ==> result == Err::<PoolAction, BeamWorker>(
                BeamWorker::WorkerMisorder { got: response.index, expected: worker.busy },
            )
            &&& after.len() == slots.len()
            &&& forall|j: int| #![trigger after[j]] 0 <= j < slots.len() && j != slot ==> after[j] == slots[j]
        }),
{
}

/// A worker that failed or was late is taken out for a new one. What it had is
/// settled without an answer, and every other worker keeps what it has.
pub proof fn law_lost_workers_are_replaced(
    slots: Seq<Slot>,
    max_tasks: usize,
    run: PoolRun,
    event: PoolEvent,
    slot: usize,
    other: int,
)
    requires
        consistent(slots, max_tasks, run),
        accepts(slots, run, event),
        run.phase == (Phase::Polling { slot }),
        event is Polled,
        event->Polled_0 is Failed || event->Polled_0 is TimedOut,
        0 <= other < slots.len(),
    ensures
        ({
            let (after, next, result) = stepped(slots, max_tasks, run, event);
            let worker = slots[slot as int];
            &&& result == Ok::<PoolAction, BeamWorker>(PoolAction::Replace { slot })
            &&& next.phase == (Phase::Spawning { slot })
            &&& next.progress
            &&& after.len() == slots.len() - 1
            &&& other != slot ==> after.contains(slots[other])
            &&& worker.busy matches Some(index) ==> is_settled(after, next, index) && next.finished == run.finished + 1
            &&& worker.busy is None ==> next.finished == run.finished
        }),
{
    let (after, next, result) = stepped(slots, max_tasks, run, event);
    let worker = slots[slot as int];
    crate::pool::law_steps_keep_the_run_consistent(slots, max_tasks, run, event);
    if other != slot {
        let at = if other == slots.len() - 1 { slot as int } else { other };
        assert(after[at] == slots[other]);
    }
    if let Some(index) = worker.busy {
        crate::pool::lemma_busy_positive(slots, slot as int, slots.len());
        assert forall|i: int| #![trigger after[i]] 0 <= i < after.len() implies after[i].busy != Some(index) by {
            let from = if i == slot { slots.len() - 1 } else { i };
            assert(after[i] == slots[from]);
            assert(slots[from].busy != slots[slot as int].busy || from == slot);
        }
    }
}

/// A worker that answered is replaced if and only if it has had its share.
pub proof fn law_worn_workers_are_replaced(slots: Seq<Slot>, max_tasks: usize, run: PoolRun, slot: usize, recycle: bool)
    requires
        consistent(slots, max_tasks, run),
        run.phase == (Phase::Delivering { slot, recycle }),
    ensures
        ({
            let (after, next, result) = stepped(slots, max_tasks, run, PoolEvent::Done);
            &&& slots[slot as int].tasks >= max_tasks ==> result == Ok::<PoolAction, BeamWorker>(
                PoolAction::Replace { slot },
            ) && next.phase == (Phase::Spawning { slot }) && after.len() == slots.len() - 1
            &&& slots[slot as int].tasks < max_tasks ==> !(result matches Ok(PoolAction::Replace { .. })) && after
                == slots
        }),
{
    if !recycle {
        lemma_polls_on(slots, run, slot as nat + 1);
    }
}

proof fn lemma_polls_on(slots: Seq<Slot>, run: PoolRun, slot: nat)
    requires
        slots.len() <= usize::MAX,
    ensures
        slot < slots.len() ==> polled(slots, run, slot).1 == (PoolAction::Poll { slot: slot as usize }),
        slot >= slots.len() && !run.progress ==> polled(slots, run, slot).1 is Sleep,
        slot >= slots.len() && run.progress ==> polled(slots, run, slot) == begun(slots, run),
        slot >= slots.len() && run.progress ==> hands_out(
            slots,
            0,
            polled(slots, run, slot).0,
            polled(slots, run, slot).1,
        ),
        !(polled(slots, run, slot).1 is Replace),
{
    lemma_begun(slots, run);
}

/// A new worker comes last, without a candidate; polling goes on where the old one
/// stood, so that nobody is passed over.
pub proof fn law_new_workers_come_last(slots: Seq<Slot>, max_tasks: usize, run: PoolRun, slot: usize)
    requires
        consistent(slots, max_tasks, run),
        run.phase == (Phase::Spawning { slot }),
        slots.len() + 1 < usize::MAX,
    ensures
        ({
            let (after, next, result) = stepped(slots, max_tasks, run, PoolEvent::Done);
            &&& after.len() == slots.len() + 1
            &&& after.last().busy is None
            &&& after.last().tasks == 0
            &&& forall|j: int| #![trigger after[j]] 0 <= j < slots.len() ==> after[j] == slots[j]
            &&& result == Ok::<PoolAction, BeamWorker>(PoolAction::Poll { slot })
        }),
{
}

/// Every worker is polled in its turn. A run waits only after a round in which
/// nothing was settled and nobody was replaced, and otherwise begins the next one,
/// or ends.
pub proof fn law_everyone_is_polled_in_turn(slots: Seq<Slot>, max_tasks: usize, run: PoolRun, slot: usize)
    requires
        consistent(slots, max_tasks, run),
        run.phase == (Phase::Polling { slot }),
    ensures
        ({
            let (after, next, result) = stepped(slots, max_tasks, run, PoolEvent::Polled(SlotOutcome::Idle));
            &&& after == slots
            &&& slot + 1 < slots.len() ==> result == Ok::<PoolAction, BeamWorker>(
                PoolAction::Poll { slot: (slot + 1) as usize },
            ) && next.progress == run.progress
            &&& slot + 1 == slots.len() && !run.progress ==> result == Ok::<PoolAction, BeamWorker>(PoolAction::Sleep)
            &&& slot + 1 == slots.len() && run.progress ==> {
                &&& (result matches Ok(PoolAction::Finished)) <==> run.finished == run.total
                &&& result matches Ok(action) && !(action is Sleep)
                &&& !(result matches Ok(PoolAction::Finished)) ==> !next.progress
            }
        }),
{
    lemma_polls_on(slots, run, slot as nat + 1);
    lemma_begun(slots, run);
    lemma_finished_at_most(slots, max_tasks, run);
    lemma_quiet_stays(slots, PoolRun { progress: false, ..run }, 0);
}

proof fn lemma_quiet_stays(slots: Seq<Slot>, run: PoolRun, from: nat)
    requires
        !run.progress,
    ensures
        !dispatched(slots, run, from).0.progress,
{
}

/// What could not be sent, and who could not be started, end the run with that
/// error.
pub proof fn law_broken_pipes_end_the_run(slots: Seq<Slot>, max_tasks: usize, run: PoolRun, event: PoolEvent)
    requires
        consistent(slots, max_tasks, run),
        accepts(slots, run, event),
    ensures
        event matches PoolEvent::SendFailed(why) ==> (stepped(slots, max_tasks, run, event).2 matches Err(
            BeamWorker::Frame { source, .. },
        ) && source == why),
        event matches PoolEvent::SpawnFailed(why) ==> stepped(slots, max_tasks, run, event).2 == Err::<
            PoolAction,
            BeamWorker,
        >(why),
        stepped(slots, max_tasks, run, event).2 is Err ==> event is SendFailed || event is SpawnFailed || (event matches
            PoolEvent::Polled(SlotOutcome::Response(_))),
{
    match run.phase {
        Phase::Polling { slot } => lemma_polls_on(slots, run, slot as nat + 1),
        _ => {},
    }
}

/// A pool begins with as many idle workers as are asked for, and at least one, under the
/// search's time limit; each can be given a candidate, and as many as the search says.
pub proof fn law_pools_begin_idle(pool: WorkerPool, count: usize, beam: BeamConfig, i: int)
    requires
        is_new_pool(pool, count, beam),
        0 <= i < pool.slots@.len(),
    ensures
        pool.slots@.len() >= 1,
        pool.slots@.len() >= count,
        count >= 1 ==> pool.slots@.len() == count,
        pool.slots@.len() > 1 ==> count > 1,
        pool.slots@[i].busy is None,
        pool.slots@[i].tasks == 0,
        pool.slots@[i].tasks < pool.max_tasks_per_child,
        beam.max_tasks_per_child >= 1 ==> pool.max_tasks_per_child == beam.max_tasks_per_child,
        beam.max_tasks_per_child == 0 ==> pool.max_tasks_per_child == 1,
        pool.timeout_secs == beam.compile_timeout_secs,
{
    let _ = pool.slots@[i];
}

} // verus!
