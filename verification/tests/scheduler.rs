use coro_engine::context::{
    restore_context, store_context, CoroutineContext, RegisterSet, CONTEXT_RECORD_SIZE,
};
use coro_engine::coroutine::{Coroutine, CoroutineState, STACK_SIZE};
use coro_engine::runtime::InnerRuntime;
use coro_engine::worker::{find_task, WorkerState};

fn sample_registers() -> RegisterSet {
    RegisterSet {
        x19: 19,
        x20: 20,
        x21: 21,
        x22: 22,
        x23: 23,
        x24: 24,
        x25: 25,
        x26: 26,
        x27: 27,
        x28: 28,
        fp: 7700,
        sp: 8800,
    }
}

const BASE: usize = 1 << 20;
const ENTRY: usize = 0x3000;

#[test]
fn test_context_default_is_zeroed() {
    let record = CoroutineContext::default();
    assert_eq!(record.pc, 0);
    assert_eq!(record.sp, 0);
    assert_eq!(record.fp, 0);
    assert_eq!(record.lr, 0);
    assert_eq!(record.task, 0);
    assert_eq!(record.runtime_ptr, 0);
    assert_eq!(record.x19, 0);
    assert_eq!(record.x28, 0);
}

#[test]
fn test_context_store_restore_round_trip() {
    let mut record = CoroutineContext::default();
    record.init(1000, 1001, 1002, 1003, 1004);
    let regs = sample_registers();
    store_context(&mut record, regs, 55, 66);
    let (out_regs, lr, pc) = restore_context(&record);
    assert_eq!(out_regs, regs);
    assert_eq!(lr, 55);
    assert_eq!(pc, 66);
    // the tag words survive a save untouched
    assert_eq!(record.task, 1003);
    assert_eq!(record.runtime_ptr, 1004);
}

#[test]
fn test_coroutine_stack_layout() {
    let c = Coroutine::new(7, 0x1000, 0x2000, BASE, ENTRY);
    assert_eq!(c.id(), 7);
    assert_eq!(c.state, CoroutineState::Created);
    // the context record sits at the top of the stack region
    assert_eq!(c.context().sp, BASE + STACK_SIZE - CONTEXT_RECORD_SIZE);
    assert_eq!(c.context().fp, c.context().sp);
    assert_eq!(c.context().pc, ENTRY);
    assert_eq!(c.context().task, 0x1000);
    assert_eq!(c.context().runtime_ptr, 0x2000);
    assert_eq!(c.stack_size, STACK_SIZE - CONTEXT_RECORD_SIZE);
}

#[test]
fn test_coroutine_resume_count_is_yields_plus_one() {
    // a coroutine that yields twice is resumed exactly three times, never more
    let mut c = Coroutine::new(0, 1, 2, BASE, ENTRY);
    let mut resumed: usize = 0;
    for _ in 0..2 {
        assert!(c.resume());
        resumed += 1;
        let snapshot = *c.context();
        let (regs, _lr, _pc) = restore_context(&snapshot);
        c.complete_yield(regs, snapshot.lr, snapshot.pc);
        assert_eq!(c.state, CoroutineState::Suspended);
    }
    assert!(c.resume());
    resumed += 1;
    c.complete_finish();
    assert_eq!(c.state, CoroutineState::Finished);
    assert_eq!(c.context().pc, 0);
    // once finished, resume refuses to run it again
    assert!(!c.resume());
    assert!(!c.resume());
    assert_eq!(resumed, 3);
}

#[test]
fn test_worker_state_new() {
    let w = WorkerState::new(3);
    assert_eq!(w.id(), 3);
    assert!(w.active());
    assert_eq!(w.current(), None);
}

#[test]
fn test_wait_returns_immediately_with_nothing_spawned() {
    let rt = InnerRuntime::new();
    assert!(rt.workers.len() >= 1);
    assert!(rt.wait_done());
    // an explicit worker count is clamped to at least one
    let rt2 = InnerRuntime::new_with_threads(0);
    assert_eq!(rt2.workers.len(), 1);
    assert!(rt2.wait_done());
    let rt3 = InnerRuntime::new_with_threads(4);
    assert_eq!(rt3.workers.len(), 4);
}

#[test]
fn test_spawn_routing_and_find_task_priority() {
    let mut rt = InnerRuntime::new_with_threads(2);
    // spawned from outside any worker: global overflow queue
    let id0 = rt.spawn(11, 22, BASE, ENTRY, None);
    assert_eq!(id0, 0);
    // spawned from worker 0: its own local queue
    let id1 = rt.spawn(11, 22, BASE, ENTRY, Some(0));
    assert_eq!(id1, 1);
    assert_eq!(rt.id_counter, 2);
    assert_eq!(rt.live_count, 2);
    // worker 0 drains its own local queue before the global queue
    assert_eq!(find_task(&mut rt.global_queue, &mut rt.workers, 0), Some(id1));
    assert_eq!(find_task(&mut rt.global_queue, &mut rt.workers, 0), Some(id0));
    assert_eq!(find_task(&mut rt.global_queue, &mut rt.workers, 0), None);
}

#[test]
fn test_spawned_noops_all_finish_exactly_once() {
    let mut rt = InnerRuntime::new_with_threads(1);
    for k in 0..3 {
        rt.spawn(100 + k, 0, BASE, ENTRY, None);
    }
    assert!(!rt.wait_done());
    assert_eq!(rt.live_count, 3);
    let mut seen: Vec<usize> = Vec::new();
    while let Some(id) = rt.acquire_task(0) {
        let switch_to = rt.start_running(0, id, sample_registers(), 1, 0x40);
        let (_regs, _lr, pc) = switch_to.expect("a queued coroutine is outstanding");
        // a fresh coroutine resumes at the bootstrap entry point
        assert_eq!(pc, ENTRY);
        let _back = rt.finish_current(0);
        seen.push(id);
    }
    seen.sort();
    assert_eq!(seen, vec![0, 1, 2]);
    assert!(rt.wait_done());
    assert_eq!(rt.live_count, 0);
    assert_eq!(rt.coroutines.len(), 0);
}

#[test]
fn test_yield_saves_resume_point_and_requeues() {
    let mut rt = InnerRuntime::new_with_threads(1);
    let id = rt.spawn(5, 6, BASE, ENTRY, None);
    assert_eq!(rt.acquire_task(0), Some(id));
    let t = rt.start_running(0, id, sample_registers(), 7, 0x41).unwrap();
    assert_eq!(t.2, ENTRY);
    // the coroutine yields: its state and resume point are saved away
    let _back = rt.schedule(0, sample_registers(), 9, 0x4000);
    rt.requeue_yielded(0);
    assert!(!rt.wait_done());
    // it comes back on the same worker's local queue and resumes exactly
    // where it left off
    assert_eq!(rt.acquire_task(0), Some(id));
    let t2 = rt.start_running(0, id, sample_registers(), 7, 0x41).unwrap();
    assert_eq!(t2.2, 0x4000);
    let _back = rt.finish_current(0);
    assert!(rt.wait_done());
}

#[test]
fn test_idle_worker_steals_from_peer() {
    let mut rt = InnerRuntime::new_with_threads(3);
    let id = rt.spawn(1, 2, BASE, ENTRY, Some(2));
    // worker 0 has nothing local and the global queue is empty: it takes
    // the work a busy peer left in its queue
    assert_eq!(rt.acquire_task(0), Some(id));
    assert_eq!(rt.acquire_task(0), None);
}

#[test]
fn test_shutdown_worker_is_not_stolen_from() {
    let mut rt = InnerRuntime::new_with_threads(2);
    let _id = rt.spawn(1, 2, BASE, ENTRY, Some(1));
    rt.shutdown_worker(1);
    assert!(!rt.workers[1].active());
    // the only work sits with an inactive peer: the scan skips it
    assert_eq!(rt.acquire_task(0), None);
}

#[test]
fn test_ids_strictly_increase_across_batches() {
    let mut rt = InnerRuntime::new_with_threads(1);
    let mut handed_out: Vec<usize> = Vec::new();
    for _batch in 0..3 {
        for _ in 0..2 {
            handed_out.push(rt.spawn(1, 2, BASE, ENTRY, None));
        }
        // drain the batch completely
        while let Some(id) = rt.acquire_task(0) {
            rt.start_running(0, id, sample_registers(), 1, 0x40).unwrap();
            rt.finish_current(0);
        }
        assert!(rt.wait_done());
    }
    // ids never repeat, even after every earlier coroutine is gone
    assert_eq!(handed_out, vec![0, 1, 2, 3, 4, 5]);
    assert_eq!(rt.id_counter, 6);
}
