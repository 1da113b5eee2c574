use std::collections::VecDeque;

use svod_tensor::error::BeamWorker;
use svod_tensor::pool::{
    Phase, PoolAction, PoolEvent, PoolRun, Received, SlotOutcome, WorkerPool,
};
use svod_tensor::worker::{BeamConfig, WorkerResponse};

fn beam_config(max_tasks_per_child: usize) -> BeamConfig {
    BeamConfig {
        beam_width: 1,
        max_upcast: 1,
        max_local: 1,
        max_uops: 0,
        min_progress_ns: 0,
        enable_nolocals: false,
        compile_timeout_secs: 7,
        num_runs: 1,
        compile_workers: 0,
        max_tasks_per_child,
        disable_cache: false,
    }
}

fn response(index: usize) -> WorkerResponse {
    WorkerResponse { index, result: None, error: None }
}

/// Plays helpers that answer at once, but for the candidates in `lost`.
fn play(pool: &mut WorkerPool, total: usize, lost: &[usize]) -> (Vec<usize>, Vec<usize>, usize) {
    let mut helpers: Vec<VecDeque<SlotOutcome>> = pool.slots.iter().map(|_| VecDeque::new()).collect();
    let (mut sent, mut delivered, mut replaced) = (vec![], vec![], 0);
    let mut run = PoolRun::new(total);
    let mut event = PoolEvent::Done;
    loop {
        let action = pool.run(&mut run, event).unwrap();
        event = PoolEvent::Done;
        match action {
            PoolAction::Send { slot, index } => {
                sent.push(index);
                let answer = match lost.iter().position(|&at| at == index) {
                    Some(place) if place % 2 == 0 => SlotOutcome::TimedOut,
                    Some(_) => SlotOutcome::Failed(Some("gone".to_string())),
                    None => SlotOutcome::Response(response(index)),
                };
                helpers[slot].push_back(SlotOutcome::Idle);
                helpers[slot].push_back(answer);
            }
            PoolAction::Poll { slot } => {
                event = PoolEvent::Polled(helpers[slot].pop_front().unwrap_or(SlotOutcome::Idle));
            }
            PoolAction::Deliver { response } => delivered.push(response.index),
            PoolAction::Replace { slot } => {
                helpers.swap_remove(slot);
                helpers.push(VecDeque::new());
                replaced += 1;
            }
            PoolAction::Sleep => {}
            PoolAction::Finished => return (sent, delivered, replaced),
        }
    }
}

#[test]
fn every_candidate_is_sent_once_and_answered() {
    let mut pool = WorkerPool::new(3, &beam_config(100));
    let (sent, mut delivered, replaced) = play(&mut pool, 10, &[]);
    delivered.sort();
    assert_eq!(sent, (0..10).collect::<Vec<_>>());
    assert_eq!(delivered, sent);
    assert_eq!((replaced, pool.slots.len()), (0, 3));
}

#[test]
fn lost_candidates_are_dropped_and_their_workers_replaced() {
    let mut pool = WorkerPool::new(2, &beam_config(100));
    let (sent, mut delivered, replaced) = play(&mut pool, 6, &[1, 4]);
    delivered.sort();
    assert_eq!(sent, vec![0, 1, 2, 3, 4, 5]);
    assert_eq!(delivered, vec![0, 2, 3, 5]);
    assert_eq!((replaced, pool.slots.len()), (2, 2));
}

#[test]
fn workers_are_replaced_after_their_share() {
    let mut pool = WorkerPool::new(1, &beam_config(2));
    let (sent, delivered, replaced) = play(&mut pool, 5, &[]);
    assert_eq!(sent, vec![0, 1, 2, 3, 4]);
    assert_eq!(delivered, sent);
    assert_eq!(replaced, 2);
    assert_eq!(pool.slots[0].tasks, 1);
    let (_, delivered, replaced) = play(&mut pool, 1, &[]);
    assert_eq!((delivered, replaced), (vec![0], 1), "a pool outlives its runs");
}

#[test]
fn a_pool_has_a_worker_and_a_share() {
    let pool = WorkerPool::new(0, &beam_config(0));
    assert_eq!((pool.slots.len(), pool.max_tasks_per_child, pool.timeout_secs), (1, 1, 7));
}

#[test]
fn an_empty_run_is_over_at_once() {
    let mut pool = WorkerPool::new(2, &beam_config(4));
    let mut run = PoolRun::new(0);
    assert_eq!(pool.run(&mut run, PoolEvent::Done), Ok(PoolAction::Finished));
    assert_eq!(run.phase, Phase::Done);
    assert_eq!(pool.run(&mut run, PoolEvent::Done), Ok(PoolAction::Finished));
}

#[test]
fn answers_for_other_candidates_end_the_run() {
    let mut pool = WorkerPool::new(1, &beam_config(4));
    let mut run = PoolRun::new(2);
    assert_eq!(pool.run(&mut run, PoolEvent::Done), Ok(PoolAction::Send { slot: 0, index: 0 }));
    assert_eq!(pool.run(&mut run, PoolEvent::Done), Ok(PoolAction::Poll { slot: 0 }));
    let misorder = pool.run(&mut run, PoolEvent::Polled(SlotOutcome::Response(response(1))));
    assert_eq!(misorder, Err(BeamWorker::WorkerMisorder { got: 1, expected: Some(0) }));

    let mut pool = WorkerPool::new(2, &beam_config(4));
    let mut run = PoolRun::new(1);
    pool.run(&mut run, PoolEvent::Done).unwrap();
    pool.run(&mut run, PoolEvent::Done).unwrap();
    assert_eq!(
        pool.run(&mut run, PoolEvent::Polled(SlotOutcome::Idle)),
        Ok(PoolAction::Poll { slot: 1 }),
        "the second worker has nothing to do"
    );
    let unasked = pool.run(&mut run, PoolEvent::Polled(SlotOutcome::Response(response(0))));
    assert_eq!(unasked, Err(BeamWorker::WorkerMisorder { got: 0, expected: None }));
}

#[test]
fn a_quiet_round_sleeps() {
    let mut pool = WorkerPool::new(1, &beam_config(4));
    let mut run = PoolRun::new(1);
    pool.run(&mut run, PoolEvent::Done).unwrap();
    pool.run(&mut run, PoolEvent::Done).unwrap();
    assert_eq!(pool.run(&mut run, PoolEvent::Polled(SlotOutcome::Idle)), Ok(PoolAction::Sleep));
    assert_eq!(pool.run(&mut run, PoolEvent::Done), Ok(PoolAction::Poll { slot: 0 }));
}

#[test]
fn broken_pipes_end_the_run() {
    let mut pool = WorkerPool::new(1, &beam_config(4));
    let mut run = PoolRun::new(1);
    pool.run(&mut run, PoolEvent::Done).unwrap();
    assert_eq!(
        pool.run(&mut run, PoolEvent::SendFailed("broken pipe".to_string())),
        Err(BeamWorker::Frame { what: "send candidate to BEAM helper", source: "broken pipe".to_string() })
    );
    assert_eq!(pool.slots[0].busy, None);

    let mut run = PoolRun::new(1);
    pool.run(&mut run, PoolEvent::Done).unwrap();
    pool.run(&mut run, PoolEvent::Done).unwrap();
    let replace = pool.run(&mut run, PoolEvent::Polled(SlotOutcome::TimedOut));
    assert_eq!(replace, Ok(PoolAction::Replace { slot: 0 }));
    let gone = || BeamWorker::HelperUnavailable { reason: "gone".to_string() };
    assert_eq!(pool.run(&mut run, PoolEvent::SpawnFailed(gone())), Err(gone()));
}

#[test]
fn received_values_are_distinct() {
    assert_ne!(Received::Empty, Received::Disconnected);
    assert_ne!(Received::Response(response(1)), Received::Response(response(2)));
}
