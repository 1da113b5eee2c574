//! The helper processes that compile candidates, and what each is given.
//!
//! The pool decides; its caller acts. Each call of [`WorkerPool::run`] takes
//! what came of the last action and answers with the next one.

use vstd::prelude::*;

use crate::error::BeamWorker;
use crate::worker::{BeamConfig, WorkerResponse};

verus! {

// ---------------------------------------------------------------------------
// Polling
// ---------------------------------------------------------------------------

/// What a worker's channel held.
#[derive(Debug, PartialEq, Eq)]
pub enum Received {
    Response(WorkerResponse),
    /// The worker's output could not be read.
    Error(String),
    /// The reader is gone.
    Disconnected,
    Empty,
}

/// A candidate that a worker is compiling, and for how long it has been.
#[derive(Clone, Copy, Debug, PartialEq, Eq, Structural)]
pub struct BusyTask {
    pub index: usize,
    pub elapsed_ns: u128,
}

/// What one poll of a worker slot found.
#[derive(Debug, PartialEq, Eq)]
pub enum SlotOutcome {
    Response(WorkerResponse),
    /// The worker's output errored or closed; `None` for a reader that is gone.
    Failed(Option<String>),
    TimedOut,
    Idle,
}

/// What a poll finds: whatever the channel holds comes first, and only an empty
/// one of a busy worker is late, once a limit is set and reached.
pub open spec fn outcome(received: Received, busy: Option<BusyTask>, timeout_ns: u128) -> SlotOutcome {
    match received {
        Received::Response(response) => SlotOutcome::Response(response),
        Received::Error(error) => SlotOutcome::Failed(Some(error)),
        Received::Disconnected => SlotOutcome::Failed(None),
        Received::Empty => match busy {
            Some(task) => if timeout_ns != 0 && task.elapsed_ns >= timeout_ns {
                SlotOutcome::TimedOut
            } else {
                SlotOutcome::Idle
            },
            None => SlotOutcome::Idle,
        },
    }
}

/// Looks at a worker's channel first and calls the worker late only where the
/// channel is empty: an answer that came on the deadline is still delivered.
pub fn poll_slot(received: Received, busy: Option<BusyTask>, timeout_ns: u128) -> (found: SlotOutcome)
    ensures
        found == outcome(received, busy, timeout_ns),
        found is TimedOut ==> busy is Some,
{
    match received {
        Received::Response(response) => SlotOutcome::Response(response),
        Received::Error(error) => SlotOutcome::Failed(Some(error)),
        Received::Disconnected => SlotOutcome::Failed(None),
        Received::Empty => match busy {
            Some(task) => {
                if timeout_ns != 0 && task.elapsed_ns >= timeout_ns {
                    SlotOutcome::TimedOut
                } else {
                    SlotOutcome::Idle
                }
            }
            None => SlotOutcome::Idle,
        },
    }
}

// ---------------------------------------------------------------------------
// The pool
// ---------------------------------------------------------------------------

/// A worker process: the candidate it is compiling, and how many it was given.
#[derive(Clone, Copy, Debug, PartialEq, Eq, Structural)]
pub struct Slot {
    pub busy: Option<usize>,
    pub tasks: usize,
}

/// A worker that was given nothing yet.
pub open spec fn fresh_slot() -> Slot {
    Slot { busy: None, tasks: 0 }
}

/// What a run waits for.
#[derive(Clone, Copy, Debug, PartialEq, Eq, Structural)]
pub enum Phase {
    /// The run has not begun.
    Start,
    /// A candidate is being sent to a worker.
    Sending { slot: usize },
    /// A worker is being polled.
    Polling { slot: usize },
    /// An answer is being delivered; the worker is then replaced, if it is due.
    Delivering { slot: usize, recycle: bool },
    /// A worker was taken out and a new one is being started.
    Spawning { slot: usize },
    /// No worker had anything to say.
    Sleeping,
    Done,
}

/// A run over a number of candidates.
#[derive(Clone, Copy, Debug, PartialEq, Eq, Structural)]
pub struct PoolRun {
    /// The number of candidates.
    pub total: usize,
    /// The first candidate that was not sent yet.
    pub next: usize,
    /// The number of candidates that were answered or dropped.
    pub finished: usize,
    /// Whether a candidate was settled or a worker replaced in this round.
    pub progress: bool,
    pub phase: Phase,
}

impl PoolRun {
    /// A run over `total` candidates.
    pub fn new(total: usize) -> (run: PoolRun)
        ensures
            run == (PoolRun { total, next: 0, finished: 0, progress: false, phase: Phase::Start }),
    {
        PoolRun { total, next: 0, finished: 0, progress: false, phase: Phase::Start }
    }
}

/// What came of an action.
#[derive(Debug, PartialEq, Eq)]
pub enum PoolEvent {
    /// It was carried out.
    Done,
    /// A poll found this.
    Polled(SlotOutcome),
    /// A candidate could not be sent.
    SendFailed(String),
    /// A new worker could not be started.
    SpawnFailed(BeamWorker),
}

/// What the caller is to do next.
#[derive(Debug, PartialEq, Eq)]
pub enum PoolAction {
    /// Send candidate `index` to the worker at `slot`.
    Send { slot: usize, index: usize },
    /// Poll the worker at `slot`.
    Poll { slot: usize },
    /// Hand on an answer.
    Deliver { response: WorkerResponse },
    /// Take the worker at `slot` out, the last one taking its place, end it and
    /// start a new one, which comes last.
    Replace { slot: usize },
    /// Wait a moment.
    Sleep,
    /// Every candidate is settled.
    Finished,
}

/// The first slot from `from` on whose worker has nothing to do.
pub open spec fn first_idle(slots: Seq<Slot>, from: nat) -> Option<usize>
    decreases slots.len() - from,
{
    if from >= slots.len() {
        None
    } else if slots[from as int].busy is None {
        Some(from as usize)
    } else {
        first_idle(slots, from + 1)
    }
}

/// A run that sends its next candidate to the first idle worker from `from`
/// on, or begins to poll where there is no such worker or candidate.
pub open spec fn dispatched(slots: Seq<Slot>, run: PoolRun, from: nat) -> (PoolRun, PoolAction)
    decreases (if run.progress { 1int } else { 0int }), 1int,
{
    match first_idle(slots, from) {
        Some(slot) => if run.next < run.total {
            (PoolRun { phase: Phase::Sending { slot }, ..run }, PoolAction::Send { slot, index: run.next })
        } else {
            polled(slots, run, 0)
        },
        None => polled(slots, run, 0),
    }
}

/// A run that begins a round, or ends where every candidate is settled.
pub open spec fn begun(slots: Seq<Slot>, run: PoolRun) -> (PoolRun, PoolAction)
    decreases 0int, 2int,
{
    if run.finished < run.total {
        dispatched(slots, PoolRun { progress: false, ..run }, 0)
    } else {
        (PoolRun { phase: Phase::Done, ..run }, PoolAction::Finished)
    }
}

/// A run that polls the worker at `slot`; past the last one it begins another
/// round, after a moment where nothing happened.
pub open spec fn polled(slots: Seq<Slot>, run: PoolRun, slot: nat) -> (PoolRun, PoolAction)
    decreases (if run.progress { 1int } else { 0int }), 0int,
{
    if slot < slots.len() {
        (PoolRun { phase: Phase::Polling { slot: slot as usize }, ..run }, PoolAction::Poll { slot: slot as usize })
    } else if run.progress {
        begun(slots, run)
    } else {
        (PoolRun { phase: Phase::Sleeping, ..run }, PoolAction::Sleep)
    }
}

/// Slots without the one at `slot`, the last one in its place.
pub open spec fn without(slots: Seq<Slot>, slot: int) -> Seq<Slot> {
    slots.update(slot, slots.last()).drop_last()
}

/// The worker at `slot` has settled its candidate.
pub open spec fn freed(slots: Seq<Slot>, slot: int) -> Seq<Slot> {
    slots.update(slot, Slot { busy: None, ..slots[slot] })
}

/// The state after an event, and the next action or the error that ends the
/// run.
pub open spec fn stepped(
    slots: Seq<Slot>,
    max_tasks: usize,
    run: PoolRun,
    event: PoolEvent,
) -> (Seq<Slot>, PoolRun, Result<PoolAction, BeamWorker>) {
    match run.phase {
        Phase::Sending { slot } => match event {
            PoolEvent::SendFailed(source) => (
                slots,
                run,
                Err(BeamWorker::Frame { what: "send candidate to BEAM helper", source }),
            ),
            _ => {
                let given = slots.update(
                    slot as int,
                    Slot { busy: Some(run.next), tasks: (slots[slot as int].tasks + 1) as usize },
                );
                let sent = PoolRun { next: (run.next + 1) as usize, ..run };
                let (next, action) = dispatched(given, sent, slot as nat + 1);
                (given, next, Ok(action))
            },
        },
        Phase::Polling { slot } => {
            let worker = slots[slot as int];
            match event {
                PoolEvent::Polled(SlotOutcome::Response(response)) => match worker.busy {
                    None => (slots, run, Err(BeamWorker::WorkerMisorder { got: response.index, expected: None })),
                    Some(index) => if response.index != index {
                        (
                            freed(slots, slot as int),
                            run,
                            Err(BeamWorker::WorkerMisorder { got: response.index, expected: Some(index) }),
                        )
                    } else {
                        (
                            freed(slots, slot as int),
                            PoolRun {
                                finished: (run.finished + 1) as usize,
                                progress: true,
                                phase: Phase::Delivering { slot, recycle: worker.tasks >= max_tasks },
                                ..run
                            },
                            Ok(PoolAction::Deliver { response }),
                        )
                    },
                },
                PoolEvent::Polled(SlotOutcome::Failed(_)) | PoolEvent::Polled(SlotOutcome::TimedOut) => (
                    without(slots, slot as int),
                    PoolRun {
                        finished: if worker.busy is Some {
                            (run.finished + 1) as usize
                        } else {
                            run.finished
                        },
                        progress: true,
                        phase: Phase::Spawning { slot },
                        ..run
                    },
                    Ok(PoolAction::Replace { slot }),
                ),
                _ => {
                    let (next, action) = polled(slots, run, slot as nat + 1);
                    (slots, next, Ok(action))
                },
            }
        },
        Phase::Delivering { slot, recycle } => if recycle {
            (
                without(slots, slot as int),
                PoolRun { phase: Phase::Spawning { slot }, ..run },
                Ok(PoolAction::Replace { slot }),
            )
        } else {
            let (next, action) = polled(slots, run, slot as nat + 1);
            (slots, next, Ok(action))
        },
        Phase::Spawning { slot } => match event {
            PoolEvent::SpawnFailed(error) => (slots, run, Err(error)),
            _ => {
                let refilled = slots.push(fresh_slot());
                let (next, action) = polled(refilled, run, slot as nat);
                (refilled, next, Ok(action))
            },
        },
        Phase::Start | Phase::Sleeping => {
            let (next, action) = begun(slots, run);
            (slots, next, Ok(action))
        },
        Phase::Done => (slots, run, Ok(PoolAction::Finished)),
    }
}

/// The number of busy workers among the first `k`.
pub open spec fn busy_count(slots: Seq<Slot>, k: nat) -> nat
    decreases k,
{
    if k == 0 {
        0
    } else {
        busy_count(slots, (k - 1) as nat) + if slots[k - 1].busy is Some {
            1nat
        } else {
            0nat
        }
    }
}

/// No two workers compile one candidate, and none a candidate that was not
/// sent.
pub open spec fn busy_apart(slots: Seq<Slot>, next: usize) -> bool {
    &&& forall|i: int|
        #![trigger slots[i]]
        0 <= i < slots.len() ==> (slots[i].busy matches Some(index) ==> index < next)
    &&& forall|i: int, j: int|
        #![trigger slots[i], slots[j]]
        0 <= i < j < slots.len() && slots[i].busy is Some ==> slots[i].busy != slots[j].busy
}

/// The worker at `i` is about to be replaced.
pub open spec fn is_due(run: PoolRun, i: int) -> bool {
    run.phase matches Phase::Delivering { slot, recycle } && recycle && slot == i
}

/// No worker that can be given a candidate has had its share.
pub open spec fn shares_kept(slots: Seq<Slot>, max_tasks: usize, run: PoolRun) -> bool {
    forall|i: int|
        #![trigger slots[i]]
        0 <= i < slots.len() ==> slots[i].tasks <= max_tasks && (slots[i].busy is None && !is_due(run, i)
            ==> slots[i].tasks < max_tasks)
}

/// What holds at every step of a run.
pub open spec fn consistent(slots: Seq<Slot>, max_tasks: usize, run: PoolRun) -> bool {
    &&& slots.len() < usize::MAX
    &&& max_tasks >= 1
    &&& run.next <= run.total
    &&& run.finished + busy_count(slots, slots.len()) == run.next
    &&& busy_apart(slots, run.next)
    &&& shares_kept(slots, max_tasks, run)
    &&& match run.phase {
        Phase::Sending { slot } => slot < slots.len() && slots[slot as int].busy is None && run.next < run.total,
        Phase::Polling { slot } => slot < slots.len(),
        Phase::Delivering { slot, recycle } => slot < slots.len() && slots[slot as int].busy is None && recycle == (
        slots[slot as int].tasks >= max_tasks),
        Phase::Spawning { slot } => slot <= slots.len(),
        Phase::Done => run.finished == run.total,
        Phase::Start | Phase::Sleeping => true,
    }
}

/// Whether an event can follow the last action: a poll finds something, a
/// worker is late only with a candidate, a candidate is sent or not, a worker is
/// started or not, and any other action is carried out.
pub open spec fn accepts(slots: Seq<Slot>, run: PoolRun, event: PoolEvent) -> bool {
    match run.phase {
        Phase::Polling { slot } => match event {
            PoolEvent::Polled(SlotOutcome::TimedOut) => slots[slot as int].busy is Some,
            PoolEvent::Polled(_) => true,
            _ => false,
        },
        Phase::Sending { .. } => event is Done || event is SendFailed,
        Phase::Spawning { .. } => event is Done || event is SpawnFailed,
        _ => event is Done,
    }
}

proof fn lemma_busy_update(slots: Seq<Slot>, i: int, slot: Slot, k: nat)
    requires
        0 <= i < slots.len(),
        k <= slots.len(),
    ensures
        busy_count(slots.update(i, slot), k) + (if i < k && slots[i].busy is Some { 1nat } else { 0nat })
            == busy_count(slots, k) + (if i < k && slot.busy is Some { 1nat } else { 0nat }),
    decreases k,
{
    if k > 0 {
        lemma_busy_update(slots, i, slot, (k - 1) as nat);
    }
}

proof fn lemma_busy_prefix(a: Seq<Slot>, b: Seq<Slot>, k: nat)
    requires
        k <= a.len(),
        k <= b.len(),
        forall|i: int| 0 <= i < k ==> a[i] == b[i],
    ensures
        busy_count(a, k) == busy_count(b, k),
    decreases k,
{
    if k > 0 {
        lemma_busy_prefix(a, b, (k - 1) as nat);
    }
}

pub(crate) proof fn lemma_busy_positive(slots: Seq<Slot>, i: int, k: nat)
    requires
        0 <= i < k <= slots.len(),
        slots[i].busy is Some,
    ensures
        busy_count(slots, k) >= 1,
    decreases k,
{
    if i < k - 1 {
        lemma_busy_positive(slots, i, (k - 1) as nat);
    }
}

proof fn lemma_busy_without(slots: Seq<Slot>, i: int)
    requires
        0 <= i < slots.len(),
    ensures
        without(slots, i).len() == slots.len() - 1,
        busy_count(without(slots, i), (slots.len() - 1) as nat) + (if slots[i].busy is Some { 1nat } else { 0nat })
            == busy_count(slots, slots.len()),
{
    let moved = slots.update(i, slots.last());
    lemma_busy_update(slots, i, slots.last(), slots.len());
    lemma_busy_prefix(moved, without(slots, i), (slots.len() - 1) as nat);
}

proof fn lemma_first_idle(slots: Seq<Slot>, from: nat)
    requires
        slots.len() <= usize::MAX,
    ensures
        match first_idle(slots, from) {
            Some(slot) => from <= slot < slots.len() && slots[slot as int].busy is None,
            None => true,
        },
    decreases slots.len() - from,
{
    if from < slots.len() && slots[from as int].busy is Some {
        lemma_first_idle(slots, from + 1);
    }
}

/// A run is consistent apart from what it waits for.
spec fn settled_state(slots: Seq<Slot>, max_tasks: usize, run: PoolRun) -> bool {
    &&& slots.len() < usize::MAX
    &&& max_tasks >= 1
    &&& run.next <= run.total
    &&& run.finished + busy_count(slots, slots.len()) == run.next
    &&& busy_apart(slots, run.next)
    &&& forall|i: int|
        #![trigger slots[i]]
        0 <= i < slots.len() ==> slots[i].tasks <= max_tasks && (slots[i].busy is None ==> slots[i].tasks < max_tasks)
}

proof fn lemma_polled_consistent(slots: Seq<Slot>, max_tasks: usize, run: PoolRun, slot: nat)
    requires
        settled_state(slots, max_tasks, run),
    ensures
        consistent(slots, max_tasks, polled(slots, run, slot).0),
    decreases (if run.progress { 1int } else { 0int }), 0int,
{
    if slot < slots.len() {
    } else if run.progress {
        lemma_begun_consistent(slots, max_tasks, run);
    }
}

proof fn lemma_begun_consistent(slots: Seq<Slot>, max_tasks: usize, run: PoolRun)
    requires
        settled_state(slots, max_tasks, run),
    ensures
        consistent(slots, max_tasks, begun(slots, run).0),
    decreases 0int, 2int,
{
    if run.finished < run.total {
        lemma_dispatched_consistent(slots, max_tasks, PoolRun { progress: false, ..run }, 0);
    }
}

proof fn lemma_dispatched_consistent(slots: Seq<Slot>, max_tasks: usize, run: PoolRun, from: nat)
    requires
        settled_state(slots, max_tasks, run),
    ensures
        consistent(slots, max_tasks, dispatched(slots, run, from).0),
    decreases (if run.progress { 1int } else { 0int }), 1int,
{
    lemma_first_idle(slots, from);
    if first_idle(slots, from) is None || run.next >= run.total {
        lemma_polled_consistent(slots, max_tasks, run, 0);
    }
}

/// Every step of a run that does not end it with an error keeps what holds of
/// the run: every candidate sent is with one worker or settled, no two workers
/// have one candidate, and no worker gets more than its share.
pub proof fn law_steps_keep_the_run_consistent(
    slots: Seq<Slot>,
    max_tasks: usize,
    run: PoolRun,
    event: PoolEvent,
)
    requires
        consistent(slots, max_tasks, run),
        accepts(slots, run, event),
        run.phase is Spawning ==> slots.len() + 1 < usize::MAX,
    ensures
        stepped(slots, max_tasks, run, event).2 is Ok ==> consistent(
            stepped(slots, max_tasks, run, event).0,
            max_tasks,
            stepped(slots, max_tasks, run, event).1,
        ),
{
    match run.phase {
        Phase::Sending { slot } => {
            let slot = slot as int;
            let given = slots.update(
                slot,
                Slot { busy: Some(run.next), tasks: (slots[slot].tasks + 1) as usize },
            );
            lemma_busy_update(slots, slot, given[slot], slots.len());
            assert(busy_apart(given, (run.next + 1) as usize));
            lemma_dispatched_consistent(
                given,
                max_tasks,
                PoolRun { next: (run.next + 1) as usize, ..run },
                slot as nat + 1,
            );
        },
        Phase::Polling { slot } => {
            let slot = slot as int;
            let worker = slots[slot];
            lemma_busy_update(slots, slot, Slot { busy: None, ..worker }, slots.len());
            lemma_busy_without(slots, slot);
            if worker.busy is Some {
                lemma_busy_positive(slots, slot, slots.len());
            }
            let left = without(slots, slot);
            assert(busy_apart(left, run.next)) by {
                assert forall|i: int, j: int|
                    #![trigger left[i], left[j]]
                    0 <= i < j < left.len() && left[i].busy is Some implies left[i].busy != left[j].busy by {
                    let a = if i == slot { slots.len() - 1 } else { i };
                    let b = if j == slot { slots.len() - 1 } else { j };
                    assert(left[i] == slots[a] && left[j] == slots[b]);
                }
            }
            assert(busy_apart(freed(slots, slot), run.next));
            lemma_polled_consistent(slots, max_tasks, run, slot as nat + 1);
        },
        Phase::Delivering { slot, recycle } => {
            let slot = slot as int;
            lemma_busy_without(slots, slot);
            let left = without(slots, slot);
            assert(busy_apart(left, run.next)) by {
                assert forall|i: int, j: int|
                    #![trigger left[i], left[j]]
                    0 <= i < j < left.len() && left[i].busy is Some implies left[i].busy != left[j].busy by {
                    let a = if i == slot { slots.len() - 1 } else { i };
                    let b = if j == slot { slots.len() - 1 } else { j };
                    assert(left[i] == slots[a] && left[j] == slots[b]);
                }
            }
            if !recycle {
                lemma_polled_consistent(slots, max_tasks, run, slot as nat + 1);
            }
        },
        Phase::Spawning { slot } => {
            let refilled = slots.push(fresh_slot());
            lemma_busy_prefix(slots, refilled, slots.len());
            lemma_polled_consistent(refilled, max_tasks, run, slot as nat);
        },
        Phase::Start | Phase::Sleeping => {
            lemma_begun_consistent(slots, max_tasks, run);
        },
        Phase::Done => {},
    }
}

/// The helper processes of a search, as the pool sees them.
#[derive(Debug, PartialEq, Eq)]
pub struct WorkerPool {
    pub slots: Vec<Slot>,
    /// The number of candidates after which a worker is replaced; at least 1.
    pub max_tasks_per_child: usize,
    /// The time one candidate may take; 0 for no limit.
    pub timeout_secs: u64,
}

/// Workers that were given nothing yet, for a search with these settings.
pub open spec fn is_new_pool(pool: WorkerPool, count: usize, beam: BeamConfig) -> bool {
    &&& pool.slots@.len() == if count == 0 {
        1nat
    } else {
        count as nat
    }
    &&& forall|i: int| #![trigger pool.slots@[i]] 0 <= i < pool.slots@.len() ==> pool.slots@[i] == fresh_slot()
    &&& pool.max_tasks_per_child == if beam.max_tasks_per_child == 0 {
        1
    } else {
        beam.max_tasks_per_child
    }
    &&& pool.timeout_secs == beam.compile_timeout_secs
}

fn next_idle(slots: &Vec<Slot>, from: usize) -> (found: Option<usize>)
    requires
        from <= slots@.len(),
    ensures
        found == first_idle(slots@, from as nat),
{
    let mut i: usize = from;
    while i < slots.len()
        invariant
            i <= slots@.len(),
            first_idle(slots@, from as nat) == first_idle(slots@, i as nat),
        decreases slots@.len() - i,
    {
        if slots[i].busy.is_none() {
            return Some(i);
        }
        i = i + 1;
    }
    None
}

fn dispatch(slots: &Vec<Slot>, run: PoolRun, from: usize) -> (next: (PoolRun, PoolAction))
    requires
        from <= slots@.len(),
    ensures
        next == dispatched(slots@, run, from as nat),
    decreases (if run.progress { 1int } else { 0int }), 1int,
{
    match next_idle(slots, from) {
        Some(slot) => {
            if run.next < run.total {
                let sending = PoolRun { phase: Phase::Sending { slot }, ..run };
                (sending, PoolAction::Send { slot, index: run.next })
            } else {
                poll(slots, run, 0)
            }
        }
        None => poll(slots, run, 0),
    }
}

fn begin(slots: &Vec<Slot>, run: PoolRun) -> (next: (PoolRun, PoolAction))
    ensures
        next == begun(slots@, run),
    decreases 0int, 2int,
{
    if run.finished < run.total {
        dispatch(slots, PoolRun { progress: false, ..run }, 0)
    } else {
        (PoolRun { phase: Phase::Done, ..run }, PoolAction::Finished)
    }
}

fn poll(slots: &Vec<Slot>, run: PoolRun, slot: usize) -> (next: (PoolRun, PoolAction))
    ensures
        next == polled(slots@, run, slot as nat),
    decreases (if run.progress { 1int } else { 0int }), 0int,
{
    if slot < slots.len() {
        (PoolRun { phase: Phase::Polling { slot }, ..run }, PoolAction::Poll { slot })
    } else if run.progress {
        begin(slots, run)
    } else {
        (PoolRun { phase: Phase::Sleeping, ..run }, PoolAction::Sleep)
    }
}

impl WorkerPool {
    /// Workers that were given nothing yet: as many as asked for, and at least
    /// one.
    pub fn new(count: usize, beam: &BeamConfig) -> (pool: WorkerPool)
        requires
            count < usize::MAX,
        ensures
            is_new_pool(pool, count, *beam),
            forall|total: usize|
                #![trigger consistent(pool.slots@, pool.max_tasks_per_child, (PoolRun {
                    total,
                    next: 0,
                    finished: 0,
                    progress: false,
                    phase: Phase::Start,
                }))]
                consistent(
                    pool.slots@,
                    pool.max_tasks_per_child,
                    PoolRun { total, next: 0, finished: 0, progress: false, phase: Phase::Start },
                ),
    {
        let wanted: usize = if count == 0 { 1 } else { count };
        let mut slots: Vec<Slot> = Vec::new();
        let mut i: usize = 0;
        while i < wanted
            invariant
                i <= wanted,
                slots@.len() == i,
                forall|k: int| #![trigger slots@[k]] 0 <= k < i ==> slots@[k] == fresh_slot(),
                busy_count(slots@, i as nat) == 0,
            decreases wanted - i,
        {
            let ghost before = slots@;
            slots.push(Slot { busy: None, tasks: 0 });
            proof {
                lemma_busy_prefix(before, slots@, i as nat);
            }
            i = i + 1;
        }
        let max_tasks_per_child = if beam.max_tasks_per_child == 0 { 1 } else { beam.max_tasks_per_child };
        WorkerPool { slots, max_tasks_per_child, timeout_secs: beam.compile_timeout_secs }
    }

    /// Takes what came of the last action of a run and gives the next one.
    ///
    /// In rounds, candidates go to idle workers in order, and then each worker
    /// is polled. An answer settles its worker's candidate and is delivered; a
    /// worker that failed or was late is replaced and its candidate dropped, and
    /// so is a worker that had its share. An answer for another candidate than
    /// the worker's ends the run with an error, as does a candidate that cannot
    /// be sent or a worker that cannot be started.
    pub fn run(&mut self, state: &mut PoolRun, event: PoolEvent) -> (next: Result<PoolAction, BeamWorker>)
        requires
            consistent(old(self).slots@, old(self).max_tasks_per_child, *old(state)),
            accepts(old(self).slots@, *old(state), event),
            old(state).phase is Spawning ==> old(self).slots@.len() + 1 < usize::MAX,
        ensures
            (final(self).slots@, *final(state), next) == stepped(
                old(self).slots@,
                old(self).max_tasks_per_child,
                *old(state),
                event,
            ),
            final(self).max_tasks_per_child == old(self).max_tasks_per_child,
            final(self).timeout_secs == old(self).timeout_secs,
            next is Ok ==> consistent(final(self).slots@, final(self).max_tasks_per_child, *final(state)),
    {
        proof {
            law_steps_keep_the_run_consistent(self.slots@, self.max_tasks_per_child, *state, event);
        }
        let run = *state;
        match run.phase {
            Phase::Sending { slot } => {
                if let PoolEvent::SendFailed(source) = event {
                    return Err(BeamWorker::Frame { what: "send candidate to BEAM helper", source });
                }
                let worker = self.slots[slot];
                self.slots.set(slot, Slot { busy: Some(run.next), tasks: worker.tasks + 1 });
                let (next, action) = dispatch(&self.slots, PoolRun { next: run.next + 1, ..run }, slot + 1);
                *state = next;
                Ok(action)
            }
            Phase::Polling { slot } => {
                let worker = self.slots[slot];
                proof {
                    if worker.busy is Some {
                        lemma_busy_positive(self.slots@, slot as int, self.slots@.len());
                    }
                }
                match event {
                    PoolEvent::Polled(SlotOutcome::Response(response)) => match worker.busy {
                        None => Err(BeamWorker::WorkerMisorder { got: response.index, expected: None }),
                        Some(index) => {
                            self.slots.set(slot, Slot { busy: None, tasks: worker.tasks });
                            if response.index != index {
                                return Err(
                                    BeamWorker::WorkerMisorder { got: response.index, expected: Some(index) },
                                );
                            }
                            *state = PoolRun {
                                finished: run.finished + 1,
                                progress: true,
                                phase: Phase::Delivering { slot, recycle: worker.tasks >= self.max_tasks_per_child },
                                ..run
                            };
                            Ok(PoolAction::Deliver { response })
                        }
                    },
                    PoolEvent::Polled(SlotOutcome::Failed(_)) | PoolEvent::Polled(SlotOutcome::TimedOut) => {
                        let _ = self.slots.swap_remove(slot);
                        let finished = if worker.busy.is_some() { run.finished + 1 } else { run.finished };
                        *state = PoolRun { finished, progress: true, phase: Phase::Spawning { slot }, ..run };
                        Ok(PoolAction::Replace { slot })
                    }
                    _ => {
                        let (next, action) = poll(&self.slots, run, slot + 1);
                        *state = next;
                        Ok(action)
                    }
                }
            }
            Phase::Delivering { slot, recycle } => {
                if recycle {
                    let _ = self.slots.swap_remove(slot);
                    *state = PoolRun { phase: Phase::Spawning { slot }, ..run };
                    Ok(PoolAction::Replace { slot })
                } else {
                    let (next, action) = poll(&self.slots, run, slot + 1);
                    *state = next;
                    Ok(action)
                }
            }
            Phase::Spawning { slot } => {
                if let PoolEvent::SpawnFailed(error) = event {
                    return Err(error);
                }
                self.slots.push(Slot { busy: None, tasks: 0 });
                let (next, action) = poll(&self.slots, run, slot);
                *state = next;
                Ok(action)
            }
            Phase::Start | Phase::Sleeping => {
                let (next, action) = begin(&self.slots, run);
                *state = next;
                Ok(action)
            }
            Phase::Done => Ok(PoolAction::Finished),
        }
    }
}

// ---------------------------------------------------------------------------
// Laws
// ---------------------------------------------------------------------------

/// A candidate was sent, and no worker has it any more.
pub open spec fn is_settled(slots: Seq<Slot>, run: PoolRun, index: usize) -> bool {
    index < run.next && forall|i: int| #![trigger slots[i]] 0 <= i < slots.len() ==> slots[i].busy != Some(index)
}

/// What a run waits for and what it has counted are apart: beginning a round
/// or polling sends nothing and settles nothing.
proof fn lemma_looking_changes_nothing(slots: Seq<Slot>, run: PoolRun, slot: nat, from: nat)
    ensures
        polled(slots, run, slot).0.next == run.next,
        polled(slots, run, slot).0.total == run.total,
        polled(slots, run, slot).0.finished == run.finished,
        begun(slots, run).0.next == run.next,
        begun(slots, run).0.total == run.total,
        begun(slots, run).0.finished == run.finished,
        dispatched(slots, run, from).0.next == run.next,
        dispatched(slots, run, from).0.total == run.total,
        dispatched(slots, run, from).0.finished == run.finished,
{
    let quiet = PoolRun { progress: false, ..run };
    assert(polled(slots, quiet, 0).0.next == run.next);
    assert(dispatched(slots, quiet, 0).0.next == run.next);
    assert(begun(slots, run).0.next == run.next);
    assert(polled(slots, run, 0).0.next == run.next);
}

/// A candidate that is settled stays settled: it is not sent again and not
/// answered again.
pub proof fn law_settled_candidates_stay_settled(
    slots: Seq<Slot>,
    max_tasks: usize,
    run: PoolRun,
    event: PoolEvent,
    index: usize,
)
    requires
        consistent(slots, max_tasks, run),
        accepts(slots, run, event),
        is_settled(slots, run, index),
    ensures
        ({
            let (after, next, result) = stepped(slots, max_tasks, run, event);
            &&& is_settled(after, next, index)
            &&& result matches Ok(PoolAction::Deliver { response }) ==> response.index != index
            &&& result matches Ok(PoolAction::Send { slot, index: sent }) ==> sent != index
        }),
{
    let (after, next, result) = stepped(slots, max_tasks, run, event);
    match run.phase {
        Phase::Sending { slot } => {
            let given = slots.update(
                slot as int,
                Slot { busy: Some(run.next), tasks: (slots[slot as int].tasks + 1) as usize },
            );
            let sent = PoolRun { next: (run.next + 1) as usize, ..run };
            lemma_looking_changes_nothing(given, sent, 0, slot as nat + 1);
            lemma_sends_the_next(given, sent, 0, slot as nat + 1);
        },
        Phase::Polling { slot } => {
            lemma_looking_changes_nothing(slots, run, slot as nat + 1, 0);
            lemma_sends_the_next(slots, run, slot as nat + 1, 0);
            let left = without(slots, slot as int);
            assert forall|i: int| #![trigger left[i]] 0 <= i < left.len() implies left[i].busy != Some(index) by {
                let a = if i == slot { slots.len() - 1 } else { i };
                assert(left[i] == slots[a]);
            }
        },
        Phase::Delivering { slot, recycle } => {
            lemma_looking_changes_nothing(slots, run, slot as nat + 1, 0);
            lemma_sends_the_next(slots, run, slot as nat + 1, 0);
            let left = without(slots, slot as int);
            assert forall|i: int| #![trigger left[i]] 0 <= i < left.len() implies left[i].busy != Some(index) by {
                let a = if i == slot { slots.len() - 1 } else { i };
                assert(left[i] == slots[a]);
            }
        },
        Phase::Spawning { slot } => {
            let refilled = slots.push(fresh_slot());
            lemma_looking_changes_nothing(refilled, run, slot as nat, 0);
            lemma_sends_the_next(refilled, run, slot as nat, 0);
        },
        Phase::Start | Phase::Sleeping => {
            lemma_looking_changes_nothing(slots, run, 0, 0);
            lemma_sends_the_next(slots, run, 0, 0);
        },
        Phase::Done => {},
    }
}

/// Whatever a run sends is its next candidate.
proof fn lemma_sends_the_next(slots: Seq<Slot>, run: PoolRun, slot: nat, from: nat)
    ensures
        polled(slots, run, slot).1 matches PoolAction::Send { index, .. } ==> index == run.next,
        begun(slots, run).1 matches PoolAction::Send { index, .. } ==> index == run.next,
        dispatched(slots, run, from).1 matches PoolAction::Send { index, .. } ==> index == run.next,
        !(polled(slots, run, slot).1 is Deliver),
        !(begun(slots, run).1 is Deliver),
        !(dispatched(slots, run, from).1 is Deliver),
{
    let quiet = PoolRun { progress: false, ..run };
    assert(polled(slots, quiet, 0).1 is Poll || polled(slots, quiet, 0).1 is Sleep);
    assert(dispatched(slots, quiet, 0).1 matches PoolAction::Send { index, .. } ==> index == run.next);
    assert(begun(slots, run).1 matches PoolAction::Send { index, .. } ==> index == run.next);
    assert(polled(slots, run, 0).1 matches PoolAction::Send { index, .. } ==> index == run.next);
}

/// Candidates are sent in order, each once: what a step asks to send is the
/// first candidate that was not sent, and it counts as sent once it was.
pub proof fn law_candidates_are_sent_in_order(
    slots: Seq<Slot>,
    max_tasks: usize,
    run: PoolRun,
    event: PoolEvent,
)
    requires
        consistent(slots, max_tasks, run),
        accepts(slots, run, event),
    ensures
        ({
            let (after, next, result) = stepped(slots, max_tasks, run, event);
            &&& result matches Ok(PoolAction::Send { slot, index }) ==> index == next.next && next.phase
                == (Phase::Sending { slot })
            &&& run.next <= next.next
            &&& next.next == run.next + if run.phase is Sending && event is Done {
                1int
            } else {
                0int
            }
        }),
{
    match run.phase {
        Phase::Sending { slot } => {
            let given = slots.update(
                slot as int,
                Slot { busy: Some(run.next), tasks: (slots[slot as int].tasks + 1) as usize },
            );
            let sent = PoolRun { next: (run.next + 1) as usize, ..run };
            lemma_looking_changes_nothing(given, sent, 0, slot as nat + 1);
            lemma_send_phase(given, sent, 0, slot as nat + 1);
        },
        Phase::Polling { slot } => {
            lemma_looking_changes_nothing(slots, run, slot as nat + 1, 0);
            lemma_send_phase(slots, run, slot as nat + 1, 0);
        },
        Phase::Delivering { slot, recycle } => {
            lemma_looking_changes_nothing(slots, run, slot as nat + 1, 0);
            lemma_send_phase(slots, run, slot as nat + 1, 0);
        },
        Phase::Spawning { slot } => {
            let refilled = slots.push(fresh_slot());
            lemma_looking_changes_nothing(refilled, run, slot as nat, 0);
            lemma_send_phase(refilled, run, slot as nat, 0);
        },
        Phase::Start | Phase::Sleeping => {
            lemma_looking_changes_nothing(slots, run, 0, 0);
            lemma_send_phase(slots, run, 0, 0);
        },
        Phase::Done => {},
    }
}

proof fn lemma_send_phase(slots: Seq<Slot>, run: PoolRun, slot: nat, from: nat)
    ensures
        polled(slots, run, slot).1 matches PoolAction::Send { slot: s, index } ==> index == run.next && polled(
            slots,
            run,
            slot,
        ).0.phase == (Phase::Sending { slot: s }),
        begun(slots, run).1 matches PoolAction::Send { slot: s, index } ==> index == run.next && begun(
            slots,
            run,
        ).0.phase == (Phase::Sending { slot: s }),
        dispatched(slots, run, from).1 matches PoolAction::Send { slot: s, index } ==> index == run.next
            && dispatched(slots, run, from).0.phase == (Phase::Sending { slot: s }),
{
    let quiet = PoolRun { progress: false, ..run };
    assert(polled(slots, quiet, 0).1 is Poll || polled(slots, quiet, 0).1 is Sleep);
    assert(dispatched(slots, quiet, 0).1 matches PoolAction::Send { slot: s, index } ==> index == run.next
        && dispatched(slots, quiet, 0).0.phase == (Phase::Sending { slot: s }));
    assert(begun(slots, run).1 matches PoolAction::Send { slot: s, index } ==> index == run.next && begun(
        slots,
        run,
    ).0.phase == (Phase::Sending { slot: s }));
    assert(polled(slots, run, 0).1 matches PoolAction::Send { slot: s, index } ==> index == run.next && polled(
        slots,
        run,
        0,
    ).0.phase == (Phase::Sending { slot: s }));
}

/// An answer that is delivered is one that its worker owed: the worker had the
/// candidate, nobody had settled it, and now it is settled.
pub proof fn law_delivered_answers_were_owed(
    slots: Seq<Slot>,
    max_tasks: usize,
    run: PoolRun,
    event: PoolEvent,
)
    requires
        consistent(slots, max_tasks, run),
        accepts(slots, run, event),
    ensures
        ({
            let (after, next, result) = stepped(slots, max_tasks, run, event);
            result matches Ok(PoolAction::Deliver { response }) ==> {
                &&& !is_settled(slots, run, response.index)
                &&& is_settled(after, next, response.index)
                &&& next.finished == run.finished + 1
            }
        }),
{
    match run.phase {
        Phase::Sending { slot } => {
            let given = slots.update(
                slot as int,
                Slot { busy: Some(run.next), tasks: (slots[slot as int].tasks + 1) as usize },
            );
            let sent = PoolRun { next: (run.next + 1) as usize, ..run };
            lemma_sends_the_next(given, sent, 0, slot as nat + 1);
        },
        Phase::Polling { slot } => {
            lemma_sends_the_next(slots, run, slot as nat + 1, 0);
            if slots[slot as int].busy is Some {
                lemma_busy_positive(slots, slot as int, slots.len());
            }
        },
        Phase::Delivering { slot, recycle } => {
            lemma_sends_the_next(slots, run, slot as nat + 1, 0);
        },
        Phase::Spawning { slot } => {
            lemma_sends_the_next(slots.push(fresh_slot()), run, slot as nat, 0);
        },
        Phase::Start | Phase::Sleeping => {
            lemma_sends_the_next(slots, run, 0, 0);
        },
        Phase::Done => {},
    }
}

proof fn lemma_none_busy(slots: Seq<Slot>, k: nat)
    requires
        k <= slots.len(),
        busy_count(slots, k) == 0,
    ensures
        forall|i: int| #![trigger slots[i]] 0 <= i < k ==> slots[i].busy is None,
    decreases k,
{
    if k > 0 {
        lemma_none_busy(slots, (k - 1) as nat);
    }
}

/// A run that is over has settled every candidate, and every worker is free for
/// the next run.
pub proof fn law_a_finished_run_settled_everything(slots: Seq<Slot>, max_tasks: usize, run: PoolRun, total: usize)
    requires
        consistent(slots, max_tasks, run),
        run.phase is Done,
    ensures
        run.next == run.total,
        forall|index: usize| index < run.total ==> #[trigger] is_settled(slots, run, index),
        consistent(
            slots,
            max_tasks,
            PoolRun { total, next: 0, finished: 0, progress: false, phase: Phase::Start },
        ),
{
    lemma_none_busy(slots, slots.len());
}

/// A worker is taken out only for a new one: the number of workers is the same
/// after every step, but for the one that is being started.
pub proof fn law_the_pool_keeps_its_size(slots: Seq<Slot>, max_tasks: usize, run: PoolRun, event: PoolEvent)
    requires
        consistent(slots, max_tasks, run),
        accepts(slots, run, event),
    ensures
        ({
            let (after, next, result) = stepped(slots, max_tasks, run, event);
            let starting = |r: PoolRun| if r.phase is Spawning { 1int } else { 0int };
            result is Ok ==> after.len() + starting(next) == slots.len() + starting(run)
        }),
{
    match run.phase {
        Phase::Sending { slot } => {
            let given = slots.update(
                slot as int,
                Slot { busy: Some(run.next), tasks: (slots[slot as int].tasks + 1) as usize },
            );
            let sent = PoolRun { next: (run.next + 1) as usize, ..run };
            lemma_never_spawns(given, sent, 0, slot as nat + 1);
        },
        Phase::Polling { slot } => {
            lemma_never_spawns(slots, run, slot as nat + 1, 0);
        },
        Phase::Delivering { slot, recycle } => {
            lemma_never_spawns(slots, run, slot as nat + 1, 0);
        },
        Phase::Spawning { slot } => {
            lemma_never_spawns(slots.push(fresh_slot()), run, slot as nat, 0);
        },
        Phase::Start | Phase::Sleeping => {
            lemma_never_spawns(slots, run, 0, 0);
        },
        Phase::Done => {},
    }
}

proof fn lemma_never_spawns(slots: Seq<Slot>, run: PoolRun, slot: nat, from: nat)
    ensures
        !(polled(slots, run, slot).0.phase is Spawning),
        !(begun(slots, run).0.phase is Spawning),
        !(dispatched(slots, run, from).0.phase is Spawning),
{
    let quiet = PoolRun { progress: false, ..run };
    assert(!(polled(slots, quiet, 0).0.phase is Spawning));
    assert(!(dispatched(slots, quiet, 0).0.phase is Spawning));
    assert(!(begun(slots, run).0.phase is Spawning));
    assert(!(polled(slots, run, 0).0.phase is Spawning));
}

} // verus!
