use coro_engine::coroutine::{Coroutine, CoroutineState, STACK_SIZE};
use coro_engine::drive::run_round_robin;

const BASE: usize = 1 << 24;
const ENTRY: usize = 0x3000;

fn batch(count: usize) -> Vec<Coroutine> {
    let mut coroutines = Vec::new();
    for id in 0..count {
        // each coroutine owns its own stack region
        coroutines.push(Coroutine::new(id, 1, 2, BASE + id * STACK_SIZE, ENTRY));
    }
    coroutines
}

#[test]
fn test_round_robin_empty_collection() {
    let mut coroutines: Vec<Coroutine> = Vec::new();
    let plans: Vec<usize> = Vec::new();
    let trace = run_round_robin(&mut coroutines, &plans);
    assert!(trace.is_empty());
}

#[test]
fn test_round_robin_noops_finish_exactly_once() {
    // five no-op tasks: each is resumed exactly once and finishes
    let mut coroutines = batch(5);
    let plans: Vec<usize> = vec![0, 0, 0, 0, 0];
    let trace = run_round_robin(&mut coroutines, &plans);
    assert_eq!(trace, vec![(0, 0), (1, 0), (2, 0), (3, 0), (4, 0)]);
    for c in &coroutines {
        assert_eq!(c.state, CoroutineState::Finished);
    }
}

#[test]
fn test_round_robin_interleaves_three_by_three() {
    // three coroutines, three steps each, yielding after steps 0 and 1
    let mut coroutines = batch(3);
    let plans: Vec<usize> = vec![2, 2, 2];
    let trace = run_round_robin(&mut coroutines, &plans);
    assert_eq!(trace.len(), 9);
    // every coroutine takes its step 0 before any takes its step 1
    assert_eq!(&trace[0..3], &[(0, 0), (1, 0), (2, 0)]);
    // every task performed each of its three steps exactly once
    for id in 0..3 {
        for step in 0..3 {
            assert_eq!(trace.iter().filter(|e| **e == (id, step)).count(), 1);
        }
    }
    // the observed order is not the fully sequential one
    let sequential: Vec<(usize, usize)> = vec![
        (0, 0),
        (0, 1),
        (0, 2),
        (1, 0),
        (1, 1),
        (1, 2),
        (2, 0),
        (2, 1),
        (2, 2),
    ];
    assert_ne!(trace, sequential);
    for c in &coroutines {
        assert_eq!(c.state, CoroutineState::Finished);
    }
}

#[test]
fn test_round_robin_shared_counter_ends_at_105() {
    // one task increments a shared counter by 1 five times, yielding after
    // each increment; the other adds 100 once and returns
    let mut coroutines = batch(2);
    let plans: Vec<usize> = vec![5, 0];
    let trace = run_round_robin(&mut coroutines, &plans);
    // the single big increment lands between the small ones: interleaved
    assert_eq!(trace[1], (1, 0));
    let mut counter: i64 = 0;
    for (id, step) in trace {
        if id == 0 && step < 5 {
            counter += 1;
        }
        if id == 1 && step == 0 {
            counter += 100;
        }
    }
    assert_eq!(counter, 105);
}

#[test]
fn test_round_robin_uneven_plans() {
    let mut coroutines = batch(2);
    let plans: Vec<usize> = vec![3, 1];
    let trace = run_round_robin(&mut coroutines, &plans);
    // task 1 finishes after two steps; task 0 runs on alone
    assert_eq!(
        trace,
        vec![(0, 0), (1, 0), (0, 1), (1, 1), (0, 2), (0, 3)]
    );
    for c in &coroutines {
        assert_eq!(c.state, CoroutineState::Finished);
    }
}
