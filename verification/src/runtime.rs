//! The scheduler core: per-instance shared state — the id generator, the
//! live-coroutine accounting, the registry of outstanding coroutines, the
//! global overflow queue, the worker descriptors and one switch-back context
//! record per worker thread.
//!
//! Completion is tracked by an explicit live count: it goes up inside `spawn`
//! before the new coroutine reaches any queue, and down exactly once per
//! coroutine when it finishes; `wait` must return exactly when this count is
//! zero, never by looking at queue emptiness (queues are transiently empty
//! while a coroutine is mid-execution).
//!
//! The switch-back record is per worker, never shared: two threads each
//! mid-switch through one record would overwrite each other's saved state.

use vstd::prelude::*;

use crate::context::{restore_context, store_context, CoroutineContext, RegisterSet};
use crate::coroutine::{Coroutine, CoroutineState, STACK_SIZE};
use crate::worker::{
    find_task, global_queue_model, push_global, push_to_local_queue, new_injector,
    workers_unchanged_except, WorkerState,
};

verus! {

/// Some coroutine in `s` carries the id `id`.
pub open spec fn has_id(s: Seq<Coroutine>, id: usize) -> bool {
    exists|i: int| 0 <= i < s.len() && s[i].id == id
}

/// The position in `s` of the coroutine with id `id`; meaningful only when
/// `has_id(s, id)` holds, and unique while ids are unique.
pub open spec fn index_of_id(s: Seq<Coroutine>, id: usize) -> int {
    choose|i: int| 0 <= i < s.len() && s[i].id == id
}

/// The id `x` belongs to a registered coroutine that a queue may hold: it is
/// in the registry, in the Runnable state.
pub open spec fn queued_ok(s: Seq<Coroutine>, x: usize) -> bool {
    exists|i: int| 0 <= i < s.len() && (#[trigger] s[i]).id == x && s[i].state is Runnable
}

/// The id `x` belongs to a registered coroutine that a worker is driving:
/// Running, or Suspended just after a yield, before it is re-enqueued.
pub open spec fn driven_ok(s: Seq<Coroutine>, x: usize) -> bool {
    exists|i: int|
        0 <= i < s.len() && (#[trigger] s[i]).id == x && (s[i].state is Running || s[i].state
            is Suspended)
}

/// A queued witness survives an update of some other coroutine's entry.
proof fn lemma_queued_ok_update(s: Seq<Coroutine>, i: int, c: Coroutine, x: usize)
    requires
        queued_ok(s, x),
        0 <= i < s.len(),
        s[i].id != x,
    ensures
        queued_ok(s.update(i, c), x),
{
    let j = choose|j: int| 0 <= j < s.len() && (#[trigger] s[j]).id == x && s[j].state is Runnable;
    assert(s.update(i, c)[j] == s[j]);
}

/// A driven witness survives an update of some other coroutine's entry.
proof fn lemma_driven_ok_update(s: Seq<Coroutine>, i: int, c: Coroutine, x: usize)
    requires
        driven_ok(s, x),
        0 <= i < s.len(),
        s[i].id != x,
    ensures
        driven_ok(s.update(i, c), x),
{
    let j = choose|j: int|
        0 <= j < s.len() && (#[trigger] s[j]).id == x && (s[j].state is Running || s[j].state
            is Suspended);
    assert(s.update(i, c)[j] == s[j]);
}

/// A queued witness survives a new coroutine joining the registry.
proof fn lemma_queued_ok_push(s: Seq<Coroutine>, c: Coroutine, x: usize)
    requires
        queued_ok(s, x),
    ensures
        queued_ok(s.push(c), x),
{
    let j = choose|j: int| 0 <= j < s.len() && (#[trigger] s[j]).id == x && s[j].state is Runnable;
    assert(s.push(c)[j] == s[j]);
}

/// A driven witness survives a new coroutine joining the registry.
proof fn lemma_driven_ok_push(s: Seq<Coroutine>, c: Coroutine, x: usize)
    requires
        driven_ok(s, x),
    ensures
        driven_ok(s.push(c), x),
{
    let j = choose|j: int|
        0 <= j < s.len() && (#[trigger] s[j]).id == x && (s[j].state is Running || s[j].state
            is Suspended);
    assert(s.push(c)[j] == s[j]);
}

/// A queued witness survives the retirement of some other coroutine.
proof fn lemma_queued_ok_remove(s: Seq<Coroutine>, i: int, x: usize)
    requires
        queued_ok(s, x),
        0 <= i < s.len(),
        s[i].id != x,
    ensures
        queued_ok(s.remove(i), x),
{
    let j = choose|j: int| 0 <= j < s.len() && (#[trigger] s[j]).id == x && s[j].state is Runnable;
    if j < i {
        assert(s.remove(i)[j] == s[j]);
    } else {
        assert(s.remove(i)[j - 1] == s[j]);
    }
}

/// A driven witness survives the retirement of some other coroutine.
proof fn lemma_driven_ok_remove(s: Seq<Coroutine>, i: int, x: usize)
    requires
        driven_ok(s, x),
        0 <= i < s.len(),
        s[i].id != x,
    ensures
        driven_ok(s.remove(i), x),
{
    let j = choose|j: int|
        0 <= j < s.len() && (#[trigger] s[j]).id == x && (s[j].state is Running || s[j].state
            is Suspended);
    if j < i {
        assert(s.remove(i)[j] == s[j]);
    } else {
        assert(s.remove(i)[j - 1] == s[j]);
    }
}

/// Registered ids are unique, so an id held by a coroutine that a worker is
/// driving cannot at the same time belong to a queue-ready coroutine.
proof fn lemma_one_state_per_id(s: Seq<Coroutine>, i: int, x: usize)
    requires
        forall|a: int, b: int|
            0 <= a < s.len() && 0 <= b < s.len() && a != b ==> (#[trigger] s[a]).id != (
            #[trigger] s[b]).id,
        0 <= i < s.len(),
        s[i].id == x,
        s[i].state is Running || s[i].state is Suspended,
    ensures
        !queued_ok(s, x),
{
    if queued_ok(s, x) {
        let j = choose|j: int|
            0 <= j < s.len() && (#[trigger] s[j]).id == x && s[j].state is Runnable;
        assert(j == i);
    }
}

/// A queue witness survives any step that keeps every queue's existing
/// entries at their positions (queues may grow at the back).
proof fn lemma_queued_somewhere_stable(pre: InnerRuntime, post: InnerRuntime, x: usize)
    requires
        pre.queued_somewhere(x),
        post.workers@.len() == pre.workers@.len(),
        pre.global_ids().len() <= post.global_ids().len(),
        forall|p: int|
            0 <= p < pre.global_ids().len() ==> #[trigger] post.global_ids()[p]
                == pre.global_ids()[p],
        forall|w: int|
            0 <= w < pre.workers@.len() ==> pre.workers@[w].queue().len()
                <= #[trigger] post.workers@[w].queue().len(),
        forall|w: int, p: int|
            0 <= w < pre.workers@.len() && 0 <= p < pre.workers@[w].queue().len()
                ==> #[trigger] post.workers@[w].queue()[p] == pre.workers@[w].queue()[p],
    ensures
        post.queued_somewhere(x),
{
    if exists|p: int|
        0 <= p < pre.global_ids().len() && #[trigger] pre.global_ids()[p] == x {
        let p = choose|p: int|
            0 <= p < pre.global_ids().len() && #[trigger] pre.global_ids()[p] == x;
        assert(post.global_ids()[p] == x);
    } else {
        let (w, p) = choose|w: int, p: int|
            0 <= w < pre.workers@.len() && 0 <= p < pre.workers@[w].queue().len()
                && #[trigger] pre.workers@[w].queue()[p] == x;
        assert(post.workers@[w].queue()[p] == x);
    }
}

/// A driven witness survives any step that keeps a current slot holding
/// this id as it is.
proof fn lemma_driven_by_some_stable(pre: InnerRuntime, post: InnerRuntime, x: usize)
    requires
        pre.driven_by_some(x),
        post.workers@.len() == pre.workers@.len(),
        forall|w: int|
            0 <= w < pre.workers@.len() && #[trigger] pre.workers@[w].running() == Some(x)
                ==> post.workers@[w].running() == Some(x),
    ensures
        post.driven_by_some(x),
{
    let w = choose|w: int|
        0 <= w < pre.workers@.len() && #[trigger] pre.workers@[w].running() == Some(x);
    assert(post.workers@[w].running() == Some(x));
}

/// Placement survives any step that keeps every queue as it is and touches
/// at most one worker's current slot. The registry may change freely as
/// long as queued witnesses survive — except for `excluded`, an id that
/// sits in no queue — and driven witnesses survive for every id but the one
/// worker `w0` was driving.
proof fn lemma_placed_queues_stable(pre: InnerRuntime, post: InnerRuntime, w0: int, excluded: usize)
    requires
        pre.placed(),
        0 <= w0 < pre.workers@.len(),
        post.workers@.len() == pre.workers@.len(),
        post.global_ids() == pre.global_ids(),
        forall|w: int|
            0 <= w < pre.workers@.len() ==> #[trigger] post.workers@[w].queue()
                == pre.workers@[w].queue(),
        forall|w: int|
            0 <= w < pre.workers@.len() && w != w0 ==> #[trigger] post.workers@[w].running()
                == pre.workers@[w].running(),
        forall|p: int|
            0 <= p < pre.global_ids().len() ==> #[trigger] pre.global_ids()[p] != excluded,
        forall|w: int, p: int|
            0 <= w < pre.workers@.len() && 0 <= p < pre.workers@[w].queue().len()
                ==> #[trigger] pre.workers@[w].queue()[p] != excluded,
        forall|x: usize|
            #[trigger] queued_ok(pre.coroutines@, x) && x != excluded ==> queued_ok(
                post.coroutines@,
                x,
            ),
        forall|x: usize|
            #[trigger] driven_ok(pre.coroutines@, x) && Some(x) != pre.workers@[w0].running()
                ==> driven_ok(post.coroutines@, x),
        post.workers@[w0].running() is Some ==> driven_ok(
            post.coroutines@,
            post.workers@[w0].running().unwrap(),
        ) && (post.workers@[w0].running() == pre.workers@[w0].running() || forall|w: int|
            0 <= w < pre.workers@.len() && w != w0 && (#[trigger] pre.workers@[w].running())
                is Some ==> pre.workers@[w].running().unwrap()
                != post.workers@[w0].running().unwrap()),
    ensures
        post.placed(),
{
    assert forall|p: int|
        0 <= p < post.global_ids().len() implies queued_ok(
        post.coroutines@,
        #[trigger] post.global_ids()[p],
    ) by {
        assert(queued_ok(pre.coroutines@, pre.global_ids()[p]));
        assert(pre.global_ids()[p] != excluded);
    }
    assert forall|w: int, p: int|
        0 <= w < post.workers@.len() && 0 <= p < post.workers@[w].queue().len() implies queued_ok(
        post.coroutines@,
        #[trigger] post.workers@[w].queue()[p],
    ) by {
        assert(queued_ok(pre.coroutines@, pre.workers@[w].queue()[p]));
        assert(pre.workers@[w].queue()[p] != excluded);
    }
    assert forall|w: int|
        0 <= w < post.workers@.len() && (#[trigger] post.workers@[w]).running()
            is Some implies driven_ok(post.coroutines@, post.workers@[w].running().unwrap()) by {
        if w != w0 {
            assert(post.workers@[w].running() == pre.workers@[w].running());
            let x = pre.workers@[w].running().unwrap();
            assert(driven_ok(pre.coroutines@, x));
            if pre.workers@[w0].running() is Some {
                assert(pre.workers@[w].running().unwrap() != pre.workers@[w0].running().unwrap());
            }
            assert(driven_ok(post.coroutines@, x));
        } else {
            assert(driven_ok(post.coroutines@, post.workers@[w0].running().unwrap()));
        }
    }
    assert forall|p1: int, p2: int|
        #![trigger post.global_ids()[p1], post.global_ids()[p2]]
        0 <= p1 < p2 < post.global_ids().len() implies post.global_ids()[p1]
        != post.global_ids()[p2] by {
        assert(pre.global_ids()[p1] != pre.global_ids()[p2]);
    }
    assert forall|w: int, p1: int, p2: int|
        #![trigger post.workers@[w].queue()[p1], post.workers@[w].queue()[p2]]
        0 <= w < post.workers@.len() && 0 <= p1 < p2
            < post.workers@[w].queue().len() implies post.workers@[w].queue()[p1]
        != post.workers@[w].queue()[p2] by {
        assert(pre.workers@[w].queue()[p1] != pre.workers@[w].queue()[p2]);
    }
    assert forall|w1: int, w2: int, p1: int, p2: int|
        #![trigger post.workers@[w1].queue()[p1], post.workers@[w2].queue()[p2]]
        0 <= w1 < post.workers@.len() && 0 <= w2 < post.workers@.len() && w1 != w2 && 0 <= p1
            < post.workers@[w1].queue().len() && 0 <= p2
            < post.workers@[w2].queue().len() implies post.workers@[w1].queue()[p1]
        != post.workers@[w2].queue()[p2] by {
        assert(pre.workers@[w1].queue()[p1] != pre.workers@[w2].queue()[p2]);
    }
    assert forall|p: int, w: int, q: int|
        #![trigger post.global_ids()[p], post.workers@[w].queue()[q]]
        0 <= p < post.global_ids().len() && 0 <= w < post.workers@.len() && 0 <= q
            < post.workers@[w].queue().len() implies post.global_ids()[p]
        != post.workers@[w].queue()[q] by {
        assert(pre.global_ids()[p] != pre.workers@[w].queue()[q]);
    }
    assert forall|w1: int, w2: int|
        #![trigger post.workers@[w1].running(), post.workers@[w2].running()]
        0 <= w1 < post.workers@.len() && 0 <= w2 < post.workers@.len() && w1 != w2
            && post.workers@[w1].running() is Some && post.workers@[w2].running()
            is Some implies post.workers@[w1].running().unwrap()
        != post.workers@[w2].running().unwrap() by {
        if w1 != w0 && w2 != w0 {
            assert(post.workers@[w1].running() == pre.workers@[w1].running());
            assert(post.workers@[w2].running() == pre.workers@[w2].running());
            assert(pre.workers@[w1].running().unwrap() != pre.workers@[w2].running().unwrap());
        } else if w1 == w0 {
            assert(post.workers@[w2].running() == pre.workers@[w2].running());
            if post.workers@[w0].running() == pre.workers@[w0].running() {
                assert(pre.workers@[w1].running().unwrap() != pre.workers@[w2].running().unwrap());
            }
        } else {
            assert(post.workers@[w1].running() == pre.workers@[w1].running());
            if post.workers@[w0].running() == pre.workers@[w0].running() {
                assert(pre.workers@[w1].running().unwrap() != pre.workers@[w2].running().unwrap());
            }
        }
    }
    assert(post.placed());
}

/// Taking the front task out of one worker's local queue keeps every
/// coroutine in at most one place: the taken id was registered Runnable,
/// and afterwards it is in no queue and driven by no worker.
proof fn lemma_placed_after_local_take(pre: InnerRuntime, post: InnerRuntime, w0: int, id: usize)
    requires
        pre.wf(),
        pre.placed(),
        pre.nothing_lost(),
        post.in_hand@ == pre.in_hand@.insert(id),
        0 <= w0 < pre.workers@.len(),
        post.coroutines@ == pre.coroutines@,
        post.workers@.len() == pre.workers@.len(),
        forall|k: int|
            0 <= k < pre.workers@.len() && k != w0 ==> post.workers@[k] == pre.workers@[k],
        pre.workers@[w0].queue() == seq![id] + post.workers@[w0].queue(),
        post.workers@[w0].running() == pre.workers@[w0].running(),
        post.workers@[w0].is_active() == pre.workers@[w0].is_active(),
        post.global_queue == pre.global_queue,
    ensures
        post.placed(),
        post.nothing_lost(),
        queued_ok(post.coroutines@, id),
        post.unplaced(id),
{
    let s = pre.coroutines@;
    let q0 = pre.workers@[w0].queue();
    let q1 = post.workers@[w0].queue();
    assert(q0[0] == id);
    assert(queued_ok(s, id)) by {
        assert(queued_ok(s, pre.workers@[w0].queue()[0]));
    }
    assert forall|p: int| 0 <= p < q1.len() implies q1[p] == q0[p + 1] by {}
    assert forall|p: int|
        0 <= p < post.global_ids().len() implies #[trigger] post.global_ids()[p] != id by {
        assert(pre.global_ids()[p] != pre.workers@[w0].queue()[0]);
    }
    assert forall|w: int, p: int|
        0 <= w < post.workers@.len() && 0 <= p
            < post.workers@[w].queue().len() implies #[trigger] post.workers@[w].queue()[p]
        != id by {
        if w == w0 {
            assert(post.workers@[w].queue()[p] == q0[p + 1]);
            assert(pre.workers@[w0].queue()[0] != pre.workers@[w0].queue()[p + 1]);
        } else {
            assert(post.workers@[w] == pre.workers@[w]);
            assert(pre.workers@[w].queue()[p] != pre.workers@[w0].queue()[0]);
        }
    }
    assert forall|w: int|
        0 <= w < post.workers@.len() && (#[trigger] post.workers@[w]).running()
            is Some implies post.workers@[w].running().unwrap() != id by {
        assert(post.workers@[w].running() == pre.workers@[w].running());
        let x = pre.workers@[w].running().unwrap();
        assert(driven_ok(s, x));
        if x == id {
            let jj = choose|jj: int|
                0 <= jj < s.len() && (#[trigger] s[jj]).id == id && (s[jj].state is Running
                    || s[jj].state is Suspended);
            lemma_one_state_per_id(s, jj, id);
        }
    }
    assert forall|p: int|
        0 <= p < post.global_ids().len() implies queued_ok(
        post.coroutines@,
        #[trigger] post.global_ids()[p],
    ) by {
        assert(queued_ok(s, pre.global_ids()[p]));
    }
    assert forall|w: int, p: int|
        0 <= w < post.workers@.len() && 0 <= p < post.workers@[w].queue().len() implies queued_ok(
        post.coroutines@,
        #[trigger] post.workers@[w].queue()[p],
    ) by {
        if w == w0 {
            assert(post.workers@[w].queue()[p] == q0[p + 1]);
            assert(queued_ok(s, pre.workers@[w0].queue()[p + 1]));
        } else {
            assert(post.workers@[w] == pre.workers@[w]);
            assert(queued_ok(s, pre.workers@[w].queue()[p]));
        }
    }
    assert forall|w: int|
        0 <= w < post.workers@.len() && (#[trigger] post.workers@[w]).running()
            is Some implies driven_ok(post.coroutines@, post.workers@[w].running().unwrap()) by {
        assert(post.workers@[w].running() == pre.workers@[w].running());
        assert(driven_ok(s, pre.workers@[w].running().unwrap()));
    }
    assert forall|p1: int, p2: int|
        #![trigger post.global_ids()[p1], post.global_ids()[p2]]
        0 <= p1 < p2 < post.global_ids().len() implies post.global_ids()[p1]
        != post.global_ids()[p2] by {
        assert(pre.global_ids()[p1] != pre.global_ids()[p2]);
    }
    assert forall|w: int, p1: int, p2: int|
        #![trigger post.workers@[w].queue()[p1], post.workers@[w].queue()[p2]]
        0 <= w < post.workers@.len() && 0 <= p1 < p2
            < post.workers@[w].queue().len() implies post.workers@[w].queue()[p1]
        != post.workers@[w].queue()[p2] by {
        if w == w0 {
            assert(post.workers@[w].queue()[p1] == q0[p1 + 1]);
            assert(post.workers@[w].queue()[p2] == q0[p2 + 1]);
            assert(pre.workers@[w0].queue()[p1 + 1] != pre.workers@[w0].queue()[p2 + 1]);
        } else {
            assert(post.workers@[w] == pre.workers@[w]);
            assert(pre.workers@[w].queue()[p1] != pre.workers@[w].queue()[p2]);
        }
    }
    assert forall|w1: int, w2: int, p1: int, p2: int|
        #![trigger post.workers@[w1].queue()[p1], post.workers@[w2].queue()[p2]]
        0 <= w1 < post.workers@.len() && 0 <= w2 < post.workers@.len() && w1 != w2 && 0 <= p1
            < post.workers@[w1].queue().len() && 0 <= p2
            < post.workers@[w2].queue().len() implies post.workers@[w1].queue()[p1]
        != post.workers@[w2].queue()[p2] by {
        if w1 == w0 {
            assert(post.workers@[w2] == pre.workers@[w2]);
            assert(post.workers@[w1].queue()[p1] == q0[p1 + 1]);
            assert(pre.workers@[w1].queue()[p1 + 1] != pre.workers@[w2].queue()[p2]);
        } else if w2 == w0 {
            assert(post.workers@[w1] == pre.workers@[w1]);
            assert(post.workers@[w2].queue()[p2] == q0[p2 + 1]);
            assert(pre.workers@[w1].queue()[p1] != pre.workers@[w2].queue()[p2 + 1]);
        } else {
            assert(post.workers@[w1] == pre.workers@[w1]);
            assert(post.workers@[w2] == pre.workers@[w2]);
            assert(pre.workers@[w1].queue()[p1] != pre.workers@[w2].queue()[p2]);
        }
    }
    assert forall|p: int, w: int, q: int|
        #![trigger post.global_ids()[p], post.workers@[w].queue()[q]]
        0 <= p < post.global_ids().len() && 0 <= w < post.workers@.len() && 0 <= q
            < post.workers@[w].queue().len() implies post.global_ids()[p]
        != post.workers@[w].queue()[q] by {
        if w == w0 {
            assert(post.workers@[w].queue()[q] == q0[q + 1]);
            assert(pre.global_ids()[p] != pre.workers@[w0].queue()[q + 1]);
        } else {
            assert(post.workers@[w] == pre.workers@[w]);
            assert(pre.global_ids()[p] != pre.workers@[w].queue()[q]);
        }
    }
    assert forall|w1: int, w2: int|
        #![trigger post.workers@[w1].running(), post.workers@[w2].running()]
        0 <= w1 < post.workers@.len() && 0 <= w2 < post.workers@.len() && w1 != w2
            && post.workers@[w1].running() is Some && post.workers@[w2].running()
            is Some implies post.workers@[w1].running().unwrap()
        != post.workers@[w2].running().unwrap() by {
        assert(post.workers@[w1].running() == pre.workers@[w1].running());
        assert(post.workers@[w2].running() == pre.workers@[w2].running());
        assert(pre.workers@[w1].running().unwrap() != pre.workers@[w2].running().unwrap());
    }
    assert(post.placed());
    // nothing is lost: the taken id moved into the taker's hand; everyone
    // else kept their spot
    assert forall|k: int|
        0 <= k < post.coroutines@.len() && (#[trigger] post.coroutines@[k]).state
            is Runnable implies post.queued_somewhere(post.coroutines@[k].id)
        || post.in_hand@.contains(post.coroutines@[k].id) by {
        let x = post.coroutines@[k].id;
        if x == id {
            assert(post.in_hand@.contains(id));
        } else {
            assert(pre.coroutines@[k].state is Runnable);
            if pre.queued_somewhere(x) {
                if exists|p: int|
                    0 <= p < pre.global_ids().len() && #[trigger] pre.global_ids()[p] == x {
                    let p = choose|p: int|
                        0 <= p < pre.global_ids().len() && #[trigger] pre.global_ids()[p] == x;
                    assert(post.global_ids()[p] == x);
                } else {
                    let (w, p) = choose|w: int, p: int|
                        0 <= w < pre.workers@.len() && 0 <= p < pre.workers@[w].queue().len()
                            && #[trigger] pre.workers@[w].queue()[p] == x;
                    if w == w0 {
                        assert(p != 0);
                        assert(post.workers@[w0].queue()[p - 1] == q0[p]);
                    } else {
                        assert(post.workers@[w] == pre.workers@[w]);
                        assert(post.workers@[w].queue()[p] == x);
                    }
                }
            } else {
                assert(post.in_hand@.contains(x));
            }
        }
    }
    assert forall|k: int|
        0 <= k < post.coroutines@.len() && ((#[trigger] post.coroutines@[k]).state is Running
            || post.coroutines@[k].state is Suspended) implies post.driven_by_some(
        post.coroutines@[k].id,
    ) by {
        let x = post.coroutines@[k].id;
        assert(pre.driven_by_some(x));
        lemma_driven_by_some_stable(pre, post, x);
    }
    assert(post.nothing_lost());
}

/// Taking the front task out of the global overflow queue keeps every
/// coroutine in at most one place, the same way.
proof fn lemma_placed_after_global_take(pre: InnerRuntime, post: InnerRuntime, id: usize)
    requires
        pre.wf(),
        pre.placed(),
        pre.nothing_lost(),
        post.in_hand@ == pre.in_hand@.insert(id),
        post.coroutines@ == pre.coroutines@,
        post.workers@ == pre.workers@,
        pre.global_ids() == seq![id] + post.global_ids(),
    ensures
        post.placed(),
        post.nothing_lost(),
        queued_ok(post.coroutines@, id),
        post.unplaced(id),
{
    let s = pre.coroutines@;
    let g0 = pre.global_ids();
    let g1 = post.global_ids();
    assert(g0[0] == id);
    assert(queued_ok(s, id)) by {
        assert(queued_ok(s, pre.global_ids()[0]));
    }
    assert forall|p: int| 0 <= p < g1.len() implies g1[p] == g0[p + 1] by {}
    assert forall|p: int|
        0 <= p < post.global_ids().len() implies #[trigger] post.global_ids()[p] != id by {
        assert(pre.global_ids()[0] != pre.global_ids()[p + 1]);
    }
    assert forall|w: int, p: int|
        0 <= w < post.workers@.len() && 0 <= p
            < post.workers@[w].queue().len() implies #[trigger] post.workers@[w].queue()[p]
        != id by {
        assert(pre.global_ids()[0] != pre.workers@[w].queue()[p]);
    }
    assert forall|w: int|
        0 <= w < post.workers@.len() && (#[trigger] post.workers@[w]).running()
            is Some implies post.workers@[w].running().unwrap() != id by {
        let x = pre.workers@[w].running().unwrap();
        assert(driven_ok(s, x));
        if x == id {
            let jj = choose|jj: int|
                0 <= jj < s.len() && (#[trigger] s[jj]).id == id && (s[jj].state is Running
                    || s[jj].state is Suspended);
            lemma_one_state_per_id(s, jj, id);
        }
    }
    assert forall|p: int|
        0 <= p < post.global_ids().len() implies queued_ok(
        post.coroutines@,
        #[trigger] post.global_ids()[p],
    ) by {
        assert(queued_ok(s, pre.global_ids()[p + 1]));
    }
    assert forall|p1: int, p2: int|
        #![trigger post.global_ids()[p1], post.global_ids()[p2]]
        0 <= p1 < p2 < post.global_ids().len() implies post.global_ids()[p1]
        != post.global_ids()[p2] by {
        assert(pre.global_ids()[p1 + 1] != pre.global_ids()[p2 + 1]);
    }
    assert forall|p: int, w: int, q: int|
        #![trigger post.global_ids()[p], post.workers@[w].queue()[q]]
        0 <= p < post.global_ids().len() && 0 <= w < post.workers@.len() && 0 <= q
            < post.workers@[w].queue().len() implies post.global_ids()[p]
        != post.workers@[w].queue()[q] by {
        assert(pre.global_ids()[p + 1] != pre.workers@[w].queue()[q]);
    }
    assert(post.placed());
    assert forall|k: int|
        0 <= k < post.coroutines@.len() && (#[trigger] post.coroutines@[k]).state
            is Runnable implies post.queued_somewhere(post.coroutines@[k].id)
        || post.in_hand@.contains(post.coroutines@[k].id) by {
        let x = post.coroutines@[k].id;
        if x == id {
            assert(post.in_hand@.contains(id));
        } else {
            assert(pre.coroutines@[k].state is Runnable);
            if pre.queued_somewhere(x) {
                if exists|p: int|
                    0 <= p < pre.global_ids().len() && #[trigger] pre.global_ids()[p] == x {
                    let p = choose|p: int|
                        0 <= p < pre.global_ids().len() && #[trigger] pre.global_ids()[p] == x;
                    assert(p != 0);
                    assert(post.global_ids()[p - 1] == g0[p]);
                } else {
                    let (w, p) = choose|w: int, p: int|
                        0 <= w < pre.workers@.len() && 0 <= p < pre.workers@[w].queue().len()
                            && #[trigger] pre.workers@[w].queue()[p] == x;
                    assert(post.workers@[w].queue()[p] == x);
                }
            } else {
                assert(post.in_hand@.contains(x));
            }
        }
    }
    assert forall|k: int|
        0 <= k < post.coroutines@.len() && ((#[trigger] post.coroutines@[k]).state is Running
            || post.coroutines@[k].state is Suspended) implies post.driven_by_some(
        post.coroutines@[k].id,
    ) by {
        let x = post.coroutines@[k].id;
        assert(pre.driven_by_some(x));
        lemma_driven_by_some_stable(pre, post, x);
    }
    assert(post.nothing_lost());
}

/// Relies on num_cpus::get: the number of logical CPUs of the current
/// system, always at least one. Which number comes back depends on the
/// machine, so nothing more is promised.
#[verifier::external_body]
fn available_parallelism() -> (count: usize)
    ensures
        count >= 1,
{
    num_cpus::get()
}

/// The per-instance shared state of the runtime.
pub struct InnerRuntime {
    /// One switch-back context record per worker thread: the state a yield
    /// returns into. Indexed by worker id.
    pub switch_back: Vec<CoroutineContext>,
    /// Every outstanding coroutine (spawned, not yet finished), each exactly
    /// once. A coroutine is retired from here the moment it finishes.
    pub coroutines: Vec<Coroutine>,
    /// The id generator: the next id to hand out. Ids are never reused.
    pub id_counter: usize,
    /// How many coroutines are outstanding: incremented on spawn before the
    /// coroutine is exposed to any queue, decremented exactly once when it
    /// finishes. `wait` returns exactly when this reaches zero.
    pub live_count: usize,
    /// The shared multi-producer/multi-consumer overflow queue, holding
    /// coroutine ids.
    pub global_queue: crossbeam_deque::Injector<usize>,
    /// The ids workers hold in hand: taken out of a queue by `acquire_task`
    /// and not yet started. Ghost: the real engine's counterpart is the
    /// local variable of each worker's drive loop.
    pub in_hand: Ghost<Set<usize>>,
    /// One descriptor per worker thread, indexed by worker id.
    pub workers: Vec<WorkerState>,
}

impl InnerRuntime {
    /// Well-formedness of the scheduler state:
    /// - the live count equals the number of registered coroutines, and
    ///   never exceeds the id counter;
    /// - there is exactly one switch-back record per worker;
    /// - every registered coroutine is well formed, already routed (never
    ///   still Created), not yet finished, and carries an id below the
    ///   counter;
    /// - no id appears twice in the registry;
    /// - worker ids equal their positions.
    ///
    /// Where each outstanding coroutine sits — one queue, or driven by one
    /// worker, never two places at once — is `placed`; that none is ever
    /// lost is `nothing_lost`.
    pub open spec fn wf(self) -> bool {
        &&& self.live_count == self.coroutines@.len()
        &&& self.live_count <= self.id_counter
        &&& self.switch_back@.len() == self.workers@.len()
        &&& forall|i: int|
            0 <= i < self.coroutines@.len() ==> (#[trigger] self.coroutines@[i]).wf()
        &&& forall|i: int|
            0 <= i < self.coroutines@.len() ==> (#[trigger] self.coroutines@[i]).id
                < self.id_counter
        &&& forall|i: int|
            0 <= i < self.coroutines@.len() ==> !((#[trigger] self.coroutines@[i]).state
                is Finished) && !(self.coroutines@[i].state is Created)
        &&& forall|i: int, j: int|
            0 <= i < self.coroutines@.len() && 0 <= j < self.coroutines@.len() && i != j ==> (
            #[trigger] self.coroutines@[i]).id != (#[trigger] self.coroutines@[j]).id
        &&& forall|w: int|
            0 <= w < self.workers@.len() ==> (#[trigger] self.workers@[w]).wid() == w
    }

    /// The coroutine ids the global overflow queue holds, front to back.
    pub open spec fn global_ids(self) -> Seq<usize> {
        global_queue_model(self.global_queue)
    }

    /// A live coroutine is present in at most one place — one queue, or
    /// driven by one worker — and nothing the distribution layer holds
    /// dangles: every queued id belongs to a registered Runnable coroutine,
    /// every id a worker is driving belongs to a registered Running or
    /// just-yielded Suspended coroutine, and no id appears twice across the
    /// global queue, the local queues and the workers' current slots.
    pub open spec fn placed(self) -> bool {
        &&& forall|p: int|
            0 <= p < self.global_ids().len() ==> queued_ok(
                self.coroutines@,
                #[trigger] self.global_ids()[p],
            )
        &&& forall|w: int, p: int|
            0 <= w < self.workers@.len() && 0 <= p < self.workers@[w].queue().len() ==> queued_ok(
                self.coroutines@,
                #[trigger] self.workers@[w].queue()[p],
            )
        &&& forall|w: int|
            0 <= w < self.workers@.len() && (#[trigger] self.workers@[w]).running() is Some
                ==> driven_ok(self.coroutines@, self.workers@[w].running().unwrap())
        &&& forall|p1: int, p2: int|
            #![trigger self.global_ids()[p1], self.global_ids()[p2]]
            0 <= p1 < p2 < self.global_ids().len() ==> self.global_ids()[p1]
                != self.global_ids()[p2]
        &&& forall|w: int, p1: int, p2: int|
            #![trigger self.workers@[w].queue()[p1], self.workers@[w].queue()[p2]]
            0 <= w < self.workers@.len() && 0 <= p1 < p2 < self.workers@[w].queue().len()
                ==> self.workers@[w].queue()[p1] != self.workers@[w].queue()[p2]
        &&& forall|w1: int, w2: int, p1: int, p2: int|
            #![trigger self.workers@[w1].queue()[p1], self.workers@[w2].queue()[p2]]
            0 <= w1 < self.workers@.len() && 0 <= w2 < self.workers@.len() && w1 != w2 && 0 <= p1
                < self.workers@[w1].queue().len() && 0 <= p2 < self.workers@[w2].queue().len()
                ==> self.workers@[w1].queue()[p1] != self.workers@[w2].queue()[p2]
        &&& forall|p: int, w: int, q: int|
            #![trigger self.global_ids()[p], self.workers@[w].queue()[q]]
            0 <= p < self.global_ids().len() && 0 <= w < self.workers@.len() && 0 <= q
                < self.workers@[w].queue().len() ==> self.global_ids()[p]
                != self.workers@[w].queue()[q]
        &&& forall|w1: int, w2: int|
            #![trigger self.workers@[w1].running(), self.workers@[w2].running()]
            0 <= w1 < self.workers@.len() && 0 <= w2 < self.workers@.len() && w1 != w2
                && self.workers@[w1].running() is Some && self.workers@[w2].running() is Some
                ==> self.workers@[w1].running().unwrap() != self.workers@[w2].running().unwrap()
    }

    /// The id `x` sits in some queue of the distribution layer.
    pub open spec fn queued_somewhere(self, x: usize) -> bool {
        ||| exists|p: int| 0 <= p < self.global_ids().len() && #[trigger] self.global_ids()[p] == x
        ||| exists|w: int, p: int|
            0 <= w < self.workers@.len() && 0 <= p < self.workers@[w].queue().len()
                && #[trigger] self.workers@[w].queue()[p] == x
    }

    /// Some worker is driving the id `x`.
    pub open spec fn driven_by_some(self, x: usize) -> bool {
        exists|w: int|
            0 <= w < self.workers@.len() && #[trigger] self.workers@[w].running() == Some(x)
    }

    /// The no-loss half of the placement invariant: every outstanding
    /// coroutine is somewhere. A Runnable one sits in a queue, unless a
    /// worker holds it in hand between taking it and starting it; a Running
    /// or just-yielded Suspended one is some worker's current. Together
    /// with `placed`, a live coroutine is present in exactly one place —
    /// never duplicated, never lost.
    pub open spec fn nothing_lost(self) -> bool {
        &&& forall|k: int|
            0 <= k < self.coroutines@.len() && (#[trigger] self.coroutines@[k]).state
                is Runnable ==> self.queued_somewhere(self.coroutines@[k].id)
                || self.in_hand@.contains(self.coroutines@[k].id)
        &&& forall|k: int|
            0 <= k < self.coroutines@.len() && ((#[trigger] self.coroutines@[k]).state is Running
                || self.coroutines@[k].state is Suspended) ==> self.driven_by_some(
                self.coroutines@[k].id,
            )
    }

    /// The id `x` is nowhere in the distribution layer: not in the global
    /// queue, not in any local queue, not driven by any worker.
    pub open spec fn unplaced(self, x: usize) -> bool {
        &&& forall|p: int|
            0 <= p < self.global_ids().len() ==> #[trigger] self.global_ids()[p] != x
        &&& forall|w: int, p: int|
            0 <= w < self.workers@.len() && 0 <= p < self.workers@[w].queue().len() ==> #[trigger] self.workers@[w].queue()[p] != x
        &&& forall|w: int|
            0 <= w < self.workers@.len() && (#[trigger] self.workers@[w]).running() is Some
                ==> self.workers@[w].running().unwrap() != x
    }

    /// A scheduler with an explicit worker count, clamped to at least one:
    /// fresh id generator, nothing outstanding, all queues empty, every
    /// worker alive and idle, every switch-back record zeroed. Starting the
    /// OS threads that drive the workers is the embedding program's part.
    pub fn new_with_threads(num_threads: usize) -> (runtime: InnerRuntime)
        ensures
            runtime.wf(),
            runtime.placed(),
            runtime.nothing_lost(),
            runtime.in_hand@ == Set::<usize>::empty(),
            runtime.workers@.len() == (if num_threads < 1 {
                1usize
            } else {
                num_threads
            }),
            runtime.id_counter == 0,
            runtime.live_count == 0,
            runtime.coroutines@.len() == 0,
            global_queue_model(runtime.global_queue).len() == 0,
            forall|w: int|
                0 <= w < runtime.workers@.len() ==> (#[trigger] runtime.workers@[w]).is_active()
                    && runtime.workers@[w].running() is None && runtime.workers@[w].queue().len()
                    == 0,
            forall|w: int|
                0 <= w < runtime.switch_back@.len() ==> runtime.switch_back@[w]
                    == CoroutineContext::zeroed_spec(),
    {
        let count: usize = if num_threads < 1 {
            1
        } else {
            num_threads
        };
        let mut workers: Vec<WorkerState> = Vec::new();
        let mut switch_back: Vec<CoroutineContext> = Vec::new();
        let mut id: usize = 0;
        while id < count
            invariant
                id <= count,
                workers@.len() == id,
                switch_back@.len() == id,
                forall|w: int|
                    0 <= w < id ==> (#[trigger] workers@[w]).wid() == w && workers@[w].is_active()
                        && workers@[w].running() is None && workers@[w].queue().len() == 0,
                forall|w: int| 0 <= w < id ==> switch_back@[w] == CoroutineContext::zeroed_spec(),
            decreases count - id,
        {
            workers.push(WorkerState::new(id));
            switch_back.push(CoroutineContext::default());
            id = id + 1;
        }
        InnerRuntime {
            switch_back,
            coroutines: Vec::new(),
            id_counter: 0,
            live_count: 0,
            global_queue: new_injector(),
            in_hand: Ghost(Set::empty()),
            workers,
        }
    }

    /// A scheduler sized to the available hardware parallelism.
    pub fn new() -> (runtime: InnerRuntime)
        ensures
            runtime.wf(),
            runtime.placed(),
            runtime.nothing_lost(),
            runtime.in_hand@ == Set::<usize>::empty(),
            runtime.workers@.len() >= 1,
            runtime.id_counter == 0,
            runtime.live_count == 0,
            runtime.coroutines@.len() == 0,
            global_queue_model(runtime.global_queue).len() == 0,
            forall|w: int|
                0 <= w < runtime.workers@.len() ==> (#[trigger] runtime.workers@[w]).is_active()
                    && runtime.workers@[w].running() is None && runtime.workers@[w].queue().len()
                    == 0,
    {
        Self::new_with_threads(available_parallelism())
    }

    /// Registers a new coroutine and routes it: spawned from inside a worker
    /// (`current_worker` names it) the coroutine goes to that worker's own
    /// local queue, the cache-affine fast path; spawned from outside any
    /// worker it goes to the global overflow queue. The new coroutine gets
    /// the next id — ids are handed out strictly increasing and never reused
    /// — and the live count goes up before the coroutine reaches any queue.
    /// The task is never executed synchronously.
    ///
    /// `task` and `runtime_ptr` are the task and scheduler addresses for the
    /// context record's tag words; `stack_base` is the freshly allocated
    /// stack region and `entry_pc` the bootstrap entry point.
    pub fn spawn(
        &mut self,
        task: usize,
        runtime_ptr: usize,
        stack_base: usize,
        entry_pc: usize,
        current_worker: Option<usize>,
    ) -> (id: usize)
        requires
            old(self).wf(),
            old(self).placed(),
            old(self).nothing_lost(),
            old(self).id_counter < usize::MAX,
            entry_pc != 0,
            stack_base + STACK_SIZE <= usize::MAX,
            current_worker is Some ==> current_worker.unwrap() < old(self).workers@.len(),
        ensures
            final(self).wf(),
            final(self).placed(),
            final(self).nothing_lost(),
            final(self).in_hand@ == old(self).in_hand@,
            id == old(self).id_counter,
            final(self).id_counter == old(self).id_counter + 1,
            final(self).live_count == old(self).live_count + 1,
            final(self).coroutines@.len() == old(self).coroutines@.len() + 1,
            forall|k: int|
                0 <= k < old(self).coroutines@.len() ==> final(self).coroutines@[k] == old(
                    self,
                ).coroutines@[k],
            final(self).coroutines@.last().id == id,
            final(self).coroutines@.last().state is Runnable,
            final(self).coroutines@.last().resumes@ == 0,
            final(self).coroutines@.last().yields@ == 0,
            final(self).switch_back == old(self).switch_back,
            match current_worker {
                Some(w) => {
                    &&& workers_unchanged_except(old(self).workers@, final(self).workers@, w as int)
                    &&& final(self).workers@[w as int].queue() == old(
                        self,
                    ).workers@[w as int].queue().push(id)
                    &&& final(self).workers@[w as int].wid() == old(self).workers@[w as int].wid()
                    &&& final(self).workers@[w as int].is_active() == old(
                        self,
                    ).workers@[w as int].is_active()
                    &&& final(self).workers@[w as int].running() == old(
                        self,
                    ).workers@[w as int].running()
                    &&& final(self).global_queue == old(self).global_queue
                },
                None => {
                    &&& final(self).workers@ == old(self).workers@
                    &&& global_queue_model(final(self).global_queue) == global_queue_model(
                        old(self).global_queue,
                    ).push(id)
                },
            },
    {
        let id = self.id_counter;
        self.id_counter = self.id_counter + 1;
        let mut coroutine = Coroutine::new(id, task, runtime_ptr, stack_base, entry_pc);
        coroutine.set_runnable();
        self.coroutines.push(coroutine);
        self.live_count = self.live_count + 1;
        match current_worker {
            Some(w) => {
                push_to_local_queue(&mut self.workers, w, id);
            },
            None => {
                push_global(&mut self.global_queue, id);
            },
        }
        proof {
            let s0 = old(self).coroutines@;
            let s1 = self.coroutines@;
            let newc = s1[s1.len() - 1];
            assert(s1 == s0.push(newc));
            // the new coroutine is registered Runnable under the fresh id
            assert(queued_ok(s1, id)) by {
                assert(s1[s1.len() - 1].id == id && s1[s1.len() - 1].state is Runnable);
            }
            // an id the old state had queued belongs to a registered
            // coroutine, so it lies below the old counter and differs from
            // the fresh id; its witness survives the registry growing
            assert forall|x: usize| queued_ok(s0, x) implies queued_ok(s1, x) && x != id by {
                let j = choose|j: int|
                    0 <= j < s0.len() && (#[trigger] s0[j]).id == x && s0[j].state is Runnable;
                assert(s0[j].id < old(self).id_counter);
                lemma_queued_ok_push(s0, newc, x);
            }
            // ids workers are driving keep their witnesses too
            assert forall|x: usize| driven_ok(s0, x) implies driven_ok(s1, x) by {
                lemma_driven_ok_push(s0, newc, x);
            }
            let g0 = old(self).global_ids();
            let g1 = self.global_ids();
            if current_worker is None {
                assert(g1 == g0.push(id));
                assert(g1[g0.len() as int] == id);
            } else {
                assert(g1 == g0);
            }
            assert forall|p: int| 0 <= p < self.global_ids().len() implies queued_ok(
                self.coroutines@,
                #[trigger] self.global_ids()[p],
            ) by {
                if p < g0.len() {
                    assert(g1[p] == g0[p]);
                    assert(queued_ok(s0, g0[p]));
                } else {
                    assert(g1[p] == id);
                }
            }
            assert forall|w: int, p: int|
                0 <= w < self.workers@.len() && 0 <= p < self.workers@[w].queue().len() implies queued_ok(
                self.coroutines@,
                #[trigger] self.workers@[w].queue()[p],
            ) by {}
            assert forall|w: int|
                0 <= w < self.workers@.len() && (#[trigger] self.workers@[w]).running()
                    is Some implies driven_ok(
                self.coroutines@,
                self.workers@[w].running().unwrap(),
            ) by {}
            assert forall|p1: int, p2: int|
                #![trigger self.global_ids()[p1], self.global_ids()[p2]]
                0 <= p1 < p2 < self.global_ids().len() implies self.global_ids()[p1]
                != self.global_ids()[p2] by {
                assert(queued_ok(s0, g0[p1]));
                if p2 < g0.len() {
                    assert(g0[p1] != g0[p2]);
                } else {
                    assert(g1[p2] == id);
                }
            }
            assert forall|w: int, p1: int, p2: int|
                #![trigger self.workers@[w].queue()[p1], self.workers@[w].queue()[p2]]
                0 <= w < self.workers@.len() && 0 <= p1 < p2
                    < self.workers@[w].queue().len() implies self.workers@[w].queue()[p1]
                != self.workers@[w].queue()[p2] by {}
            assert forall|w1: int, w2: int, p1: int, p2: int|
                #![trigger self.workers@[w1].queue()[p1], self.workers@[w2].queue()[p2]]
                0 <= w1 < self.workers@.len() && 0 <= w2 < self.workers@.len() && w1 != w2 && 0
                    <= p1 < self.workers@[w1].queue().len() && 0 <= p2
                    < self.workers@[w2].queue().len() implies self.workers@[w1].queue()[p1]
                != self.workers@[w2].queue()[p2] by {}
            assert forall|p: int, w: int, q: int|
                #![trigger self.global_ids()[p], self.workers@[w].queue()[q]]
                0 <= p < self.global_ids().len() && 0 <= w < self.workers@.len() && 0 <= q
                    < self.workers@[w].queue().len() implies self.global_ids()[p]
                != self.workers@[w].queue()[q] by {
                if p < g0.len() {
                    assert(g1[p] == g0[p]);
                    assert(queued_ok(s0, g0[p]));
                } else {
                    assert(g1[p] == id);
                }
                if current_worker is Some && w == current_worker.unwrap() && q == old(
                    self,
                ).workers@[w].queue().len() {
                    assert(self.workers@[w].queue()[q] == id);
                } else {
                    assert(self.workers@[w].queue()[q] == old(self).workers@[w].queue()[q]);
                    assert(queued_ok(s0, old(self).workers@[w].queue()[q]));
                }
            }
            assert forall|w1: int, w2: int|
                #![trigger self.workers@[w1].running(), self.workers@[w2].running()]
                0 <= w1 < self.workers@.len() && 0 <= w2 < self.workers@.len() && w1 != w2
                    && self.workers@[w1].running() is Some && self.workers@[w2].running()
                    is Some implies self.workers@[w1].running().unwrap()
                != self.workers@[w2].running().unwrap() by {}
            assert(self.placed());
            // no coroutine is lost: the new one sits in the queue it was
            // routed to, and everyone else kept their spot
            assert(self.queued_somewhere(id)) by {
                if current_worker is None {
                    assert(self.global_ids()[g0.len() as int] == id);
                } else {
                    let w = current_worker.unwrap() as int;
                    assert(self.workers@[w].queue()[old(self).workers@[w].queue().len() as int]
                        == id);
                }
            }
            assert forall|x: usize|
                old(self).queued_somewhere(x) implies self.queued_somewhere(x) by {
                if exists|p: int|
                    0 <= p < old(self).global_ids().len() && #[trigger] old(self).global_ids()[p]
                        == x {
                    let p = choose|p: int|
                        0 <= p < old(self).global_ids().len() && #[trigger] old(
                            self,
                        ).global_ids()[p] == x;
                    assert(self.global_ids()[p] == x);
                } else {
                    let (w, p) = choose|w: int, p: int|
                        0 <= w < old(self).workers@.len() && 0 <= p < old(
                            self,
                        ).workers@[w].queue().len() && #[trigger] old(self).workers@[w].queue()[p]
                            == x;
                    assert(self.workers@[w].queue()[p] == x);
                }
            }
            assert forall|x: usize|
                old(self).driven_by_some(x) implies self.driven_by_some(x) by {
                let w = choose|w: int|
                    0 <= w < old(self).workers@.len() && #[trigger] old(self).workers@[w].running()
                        == Some(x);
                assert(self.workers@[w].running() == Some(x));
            }
            assert(self.nothing_lost());
        }
        id
    }

    /// Worker `wid` looks for its next task, in the work-stealing order: its
    /// own local queue, then the global overflow queue, then one random-start
    /// pass over the peers. An id that comes back is registered and Runnable,
    /// and now sits in no queue and is driven by no worker — exactly this
    /// worker holds it, ready for `start_running`. An empty-handed return
    /// means every source this worker may draw from was empty, and nothing
    /// changed.
    pub fn acquire_task(&mut self, wid: usize) -> (task: Option<usize>)
        requires
            old(self).wf(),
            old(self).placed(),
            old(self).nothing_lost(),
            wid < old(self).workers@.len(),
        ensures
            final(self).wf(),
            final(self).placed(),
            final(self).nothing_lost(),
            (match task {
                Some(id) => final(self).in_hand@ == old(self).in_hand@.insert(id),
                None => final(self).in_hand@ == old(self).in_hand@,
            }),
            final(self).coroutines@ == old(self).coroutines@,
            final(self).switch_back@ == old(self).switch_back@,
            final(self).id_counter == old(self).id_counter,
            final(self).live_count == old(self).live_count,
            final(self).workers@.len() == old(self).workers@.len(),
            forall|w: int|
                0 <= w < old(self).workers@.len() ==> (#[trigger] final(self).workers@[w]).wid()
                    == old(self).workers@[w].wid() && final(self).workers@[w].is_active() == old(
                    self,
                ).workers@[w].is_active() && final(self).workers@[w].running() == old(
                    self,
                ).workers@[w].running(),
            match task {
                Some(id) => {
                    &&& queued_ok(final(self).coroutines@, id)
                    &&& has_id(final(self).coroutines@, id)
                    &&& final(self).unplaced(id)
                    &&& {
                        // exactly one queue lost exactly its front task
                        ||| {
                            &&& crate::worker::slot_took_front(
                                old(self).workers@[wid as int],
                                final(self).workers@[wid as int],
                                id,
                            )
                            &&& workers_unchanged_except(
                                old(self).workers@,
                                final(self).workers@,
                                wid as int,
                            )
                            &&& final(self).global_queue == old(self).global_queue
                        }
                        ||| {
                            &&& old(self).workers@[wid as int].queue().len() == 0
                            &&& old(self).global_ids() == seq![id] + final(self).global_ids()
                            &&& final(self).workers@ == old(self).workers@
                        }
                        ||| {
                            &&& old(self).workers@[wid as int].queue().len() == 0
                            &&& old(self).global_ids().len() == 0
                            &&& final(self).global_queue == old(self).global_queue
                            &&& exists|j: int|
                                {
                                    &&& 0 <= j < old(self).workers@.len()
                                    &&& j != wid as int
                                    &&& old(self).workers@[j].is_active()
                                    &&& #[trigger] crate::worker::slot_took_front(
                                        old(self).workers@[j],
                                        final(self).workers@[j],
                                        id,
                                    )
                                    &&& workers_unchanged_except(
                                        old(self).workers@,
                                        final(self).workers@,
                                        j,
                                    )
                                }
                        }
                    }
                },
                None => {
                    &&& final(self).workers@ == old(self).workers@
                    &&& final(self).global_queue == old(self).global_queue
                    &&& old(self).workers@[wid as int].queue().len() == 0
                    &&& old(self).global_ids().len() == 0
                    &&& forall|j: int|
                        0 <= j < old(self).workers@.len() && j != wid as int && old(
                            self,
                        ).workers@[j].is_active() ==> old(self).workers@[j].queue().len() == 0
                },
            },
    {
        let found = find_task(&mut self.global_queue, &mut self.workers, wid);
        proof {
            match found {
                Some(id) => {
                    self.in_hand@ = self.in_hand@.insert(id);
                    if old(self).workers@[wid as int].queue().len() > 0 {
                        // taken off the worker's own local queue
                        lemma_placed_after_local_take(*old(self), *self, wid as int, id);
                    } else if old(self).global_ids().len() > 0 {
                        // taken off the global overflow queue
                        lemma_placed_after_global_take(*old(self), *self, id);
                    } else {
                        // stolen from an active peer
                        let j = choose|j: int|
                            {
                                &&& 0 <= j < old(self).workers@.len()
                                &&& j != wid as int
                                &&& old(self).workers@[j].is_active()
                                &&& #[trigger] crate::worker::slot_took_front(
                                    old(self).workers@[j],
                                    self.workers@[j],
                                    id,
                                )
                                &&& workers_unchanged_except(
                                    old(self).workers@,
                                    self.workers@,
                                    j,
                                )
                            };
                        lemma_placed_after_local_take(*old(self), *self, j, id);
                    }
                    let k = choose|k: int|
                        0 <= k < self.coroutines@.len() && (#[trigger] self.coroutines@[k]).id
                            == id && self.coroutines@[k].state is Runnable;
                    assert(has_id(self.coroutines@, id));
                },
                None => {
                    assert(self.workers@ == old(self).workers@);
                    assert(self.global_queue == old(self).global_queue);
                    assert(self.coroutines@ == old(self).coroutines@);
                    assert(self.placed());
                    assert forall|k: int|
                        0 <= k < self.coroutines@.len() && (#[trigger] self.coroutines@[k]).state
                            is Runnable implies self.queued_somewhere(self.coroutines@[k].id)
                        || self.in_hand@.contains(self.coroutines@[k].id) by {
                        let x = self.coroutines@[k].id;
                        if old(self).queued_somewhere(x) {
                            lemma_queued_somewhere_stable(*old(self), *self, x);
                        }
                    }
                    assert forall|k: int|
                        0 <= k < self.coroutines@.len() && ((
                        #[trigger] self.coroutines@[k]).state is Running
                            || self.coroutines@[k].state is Suspended) implies self.driven_by_some(
                        self.coroutines@[k].id,
                    ) by {
                        lemma_driven_by_some_stable(*old(self), *self, self.coroutines@[k].id);
                    }
                    assert(self.nothing_lost());
                },
            }
        }
        found
    }

    /// Marks worker `wid` as shut down: its drive loop exits after its
    /// current iteration and peers stop stealing from it. Its queue and its
    /// current coroutine are untouched.
    pub fn shutdown_worker(&mut self, wid: usize)
        requires
            old(self).wf(),
            old(self).placed(),
            old(self).nothing_lost(),
            wid < old(self).workers@.len(),
        ensures
            final(self).wf(),
            final(self).placed(),
            final(self).nothing_lost(),
            final(self).in_hand@ == old(self).in_hand@,
            workers_unchanged_except(old(self).workers@, final(self).workers@, wid as int),
            !final(self).workers@[wid as int].is_active(),
            final(self).workers@[wid as int].queue() == old(self).workers@[wid as int].queue(),
            final(self).workers@[wid as int].running() == old(self).workers@[wid as int].running(),
            final(self).workers@[wid as int].wid() == wid,
            final(self).coroutines@ == old(self).coroutines@,
            final(self).switch_back@ == old(self).switch_back@,
            final(self).id_counter == old(self).id_counter,
            final(self).live_count == old(self).live_count,
            final(self).global_queue == old(self).global_queue,
    {
        self.workers[wid].shutdown();
        proof {
            let s = self.coroutines@;
            assert forall|w: int|
                0 <= w < self.workers@.len() implies #[trigger] self.workers@[w].queue() == old(
                self,
            ).workers@[w].queue() && self.workers@[w].running() == old(
                self,
            ).workers@[w].running() by {
                if w != wid {
                    assert(self.workers@[w] == old(self).workers@[w]);
                }
            }
            assert forall|p: int|
                0 <= p < self.global_ids().len() implies queued_ok(
                self.coroutines@,
                #[trigger] self.global_ids()[p],
            ) by {
                assert(queued_ok(s, old(self).global_ids()[p]));
            }
            assert forall|w: int, p: int|
                0 <= w < self.workers@.len() && 0 <= p
                    < self.workers@[w].queue().len() implies queued_ok(
                self.coroutines@,
                #[trigger] self.workers@[w].queue()[p],
            ) by {
                assert(queued_ok(s, old(self).workers@[w].queue()[p]));
            }
            assert forall|w: int|
                0 <= w < self.workers@.len() && (#[trigger] self.workers@[w]).running()
                    is Some implies driven_ok(
                self.coroutines@,
                self.workers@[w].running().unwrap(),
            ) by {
                assert(driven_ok(s, old(self).workers@[w].running().unwrap()));
            }
            assert forall|p1: int, p2: int|
                #![trigger self.global_ids()[p1], self.global_ids()[p2]]
                0 <= p1 < p2 < self.global_ids().len() implies self.global_ids()[p1]
                != self.global_ids()[p2] by {
                assert(old(self).global_ids()[p1] != old(self).global_ids()[p2]);
            }
            assert forall|w: int, p1: int, p2: int|
                #![trigger self.workers@[w].queue()[p1], self.workers@[w].queue()[p2]]
                0 <= w < self.workers@.len() && 0 <= p1 < p2
                    < self.workers@[w].queue().len() implies self.workers@[w].queue()[p1]
                != self.workers@[w].queue()[p2] by {
                assert(old(self).workers@[w].queue()[p1] != old(self).workers@[w].queue()[p2]);
            }
            assert forall|w1: int, w2: int, p1: int, p2: int|
                #![trigger self.workers@[w1].queue()[p1], self.workers@[w2].queue()[p2]]
                0 <= w1 < self.workers@.len() && 0 <= w2 < self.workers@.len() && w1 != w2 && 0
                    <= p1 < self.workers@[w1].queue().len() && 0 <= p2
                    < self.workers@[w2].queue().len() implies self.workers@[w1].queue()[p1]
                != self.workers@[w2].queue()[p2] by {
                assert(old(self).workers@[w1].queue()[p1] != old(self).workers@[w2].queue()[p2]);
            }
            assert forall|p: int, w: int, q: int|
                #![trigger self.global_ids()[p], self.workers@[w].queue()[q]]
                0 <= p < self.global_ids().len() && 0 <= w < self.workers@.len() && 0 <= q
                    < self.workers@[w].queue().len() implies self.global_ids()[p]
                != self.workers@[w].queue()[q] by {
                assert(old(self).global_ids()[p] != old(self).workers@[w].queue()[q]);
            }
            assert forall|w1: int, w2: int|
                #![trigger self.workers@[w1].running(), self.workers@[w2].running()]
                0 <= w1 < self.workers@.len() && 0 <= w2 < self.workers@.len() && w1 != w2
                    && self.workers@[w1].running() is Some && self.workers@[w2].running()
                    is Some implies self.workers@[w1].running().unwrap()
                != self.workers@[w2].running().unwrap() by {
                assert(old(self).workers@[w1].running().unwrap() != old(
                    self,
                ).workers@[w2].running().unwrap());
            }
            assert(self.placed());
            assert forall|k: int|
                0 <= k < self.coroutines@.len() && (#[trigger] self.coroutines@[k]).state
                    is Runnable implies self.queued_somewhere(self.coroutines@[k].id)
                || self.in_hand@.contains(self.coroutines@[k].id) by {
                if old(self).queued_somewhere(self.coroutines@[k].id) {
                    lemma_queued_somewhere_stable(*old(self), *self, self.coroutines@[k].id);
                }
            }
            assert forall|k: int|
                0 <= k < self.coroutines@.len() && ((#[trigger] self.coroutines@[k]).state
                    is Running || self.coroutines@[k].state is Suspended) implies self.driven_by_some(
                self.coroutines@[k].id,
            ) by {
                lemma_driven_by_some_stable(*old(self), *self, self.coroutines@[k].id);
            }
            assert(self.nothing_lost());
        }
    }

    /// Whether `wait` may return: true exactly when no coroutine is
    /// outstanding. The embedding program's `wait` polls this; it must not
    /// poll queue emptiness, which can be transient.
    pub fn wait_done(&self) -> (done: bool)
        ensures
            done == (self.live_count == 0),
    {
        self.live_count == 0
    }

    /// The position of the coroutine with id `id` in the registry, if it is
    /// outstanding.
    pub fn lookup_index(&self, id: usize) -> (found: Option<usize>)
        ensures
            match found {
                Some(i) => i < self.coroutines@.len() && self.coroutines@[i as int].id == id,
                None => !has_id(self.coroutines@, id),
            },
    {
        let n = self.coroutines.len();
        let mut i: usize = 0;
        while i < n
            invariant
                n == self.coroutines@.len(),
                i <= n,
                forall|k: int| 0 <= k < i ==> self.coroutines@[k].id != id,
            decreases n - i,
        {
            if self.coroutines[i].id == id {
                return Some(i);
            }
            i = i + 1;
        }
        None
    }

    /// Worker `wid` begins driving the coroutine `id` it took from a queue:
    /// the worker's own live state is saved into its switch-back record, the
    /// coroutine transitions to Running, and the data a restore of the
    /// coroutine's context record loads — its saved registers, link register
    /// and resume address — comes back as the switch target. An id that is
    /// not outstanding (never spawned here, or already finished and retired)
    /// is refused with nothing changed.
    pub fn start_running(
        &mut self,
        wid: usize,
        id: usize,
        regs: RegisterSet,
        lr: usize,
        resume_address: usize,
    ) -> (switch_to: Option<(RegisterSet, usize, usize)>)
        requires
            old(self).wf(),
            old(self).placed(),
            old(self).nothing_lost(),
            old(self).unplaced(id),
            wid < old(self).workers@.len(),
            old(self).workers@[wid as int].running() is None,
            resume_address != 0,
            forall|k: int|
                0 <= k < old(self).coroutines@.len() && (#[trigger] old(self).coroutines@[k]).id
                    == id ==> !(old(self).coroutines@[k].state is Running),
        ensures
            final(self).wf(),
            final(self).placed(),
            final(self).nothing_lost(),
            !has_id(old(self).coroutines@, id) ==> switch_to is None && *final(self) == *old(self),
            has_id(old(self).coroutines@, id) ==> ({
                let i = index_of_id(old(self).coroutines@, id);
                let target = old(self).coroutines@[i].context;
                &&& target.pc != 0
                &&& switch_to == Some((target.registers_spec(), target.lr, target.pc))
                &&& final(self).coroutines@ == old(self).coroutines@.update(
                    i,
                    (Coroutine {
                        state: CoroutineState::Running,
                        resumes: Ghost(old(self).coroutines@[i].resumes@ + 1),
                        ..old(self).coroutines@[i]
                    }),
                )
                &&& final(self).switch_back@ == old(self).switch_back@.update(
                    wid as int,
                    old(self).switch_back@[wid as int].stored_spec(regs, lr, resume_address),
                )
                &&& workers_unchanged_except(old(self).workers@, final(self).workers@, wid as int)
                &&& final(self).workers@[wid as int].running() == Some(id)
                &&& final(self).workers@[wid as int].queue() == old(
                    self,
                ).workers@[wid as int].queue()
                &&& final(self).workers@[wid as int].is_active() == old(
                    self,
                ).workers@[wid as int].is_active()
                &&& final(self).workers@[wid as int].wid() == wid
                &&& final(self).live_count == old(self).live_count
                &&& final(self).id_counter == old(self).id_counter
                &&& final(self).global_queue == old(self).global_queue
                &&& final(self).in_hand@ == old(self).in_hand@.remove(id)
            }),
    {
        let found = self.lookup_index(id);
        match found {
            None => None,
            Some(i) => {
                proof {
                    assert(has_id(self.coroutines@, id));
                    let j = index_of_id(self.coroutines@, id);
                    assert(0 <= j < self.coroutines@.len() && self.coroutines@[j].id == id);
                    assert(j == i as int);
                }
                let record = &mut self.switch_back[wid];
                store_context(record, regs, lr, resume_address);
                let coroutine = &mut self.coroutines[i];
                coroutine.resume();
                self.workers[wid].set_current(Some(id));
                proof {
                    self.in_hand@ = self.in_hand@.remove(id);
                    let s0 = old(self).coroutines@;
                    let s1 = self.coroutines@;
                    assert(s0[i as int].id == id);
                    assert forall|x: usize| queued_ok(s0, x) && x != id implies queued_ok(
                        s1,
                        x,
                    ) by {
                        lemma_queued_ok_update(s0, i as int, s1[i as int], x);
                    }
                    assert forall|x: usize| driven_ok(s0, x) && x != id implies driven_ok(
                        s1,
                        x,
                    ) by {
                        lemma_driven_ok_update(s0, i as int, s1[i as int], x);
                    }
                    assert(driven_ok(s1, id)) by {
                        assert(s1[i as int].id == id && s1[i as int].state is Running);
                    }
                    assert forall|w: int|
                        0 <= w < self.workers@.len() implies #[trigger] self.workers@[w].queue()
                        == old(self).workers@[w].queue() by {
                        if w != wid {
                            assert(self.workers@[w] == old(self).workers@[w]);
                        }
                    }
                    assert forall|w: int|
                        0 <= w < self.workers@.len() && w != wid implies
                        #[trigger] self.workers@[w].running() == old(
                        self,
                    ).workers@[w].running() by {
                        assert(self.workers@[w] == old(self).workers@[w]);
                    }
                    // the taken id was queue-ready, so no worker was driving
                    // it; with that, placement transfers wholesale
                    assert forall|x: usize|
                        #[trigger] driven_ok(s0, x) && Some(x) != old(
                            self,
                        ).workers@[wid as int].running() implies driven_ok(s1, x) by {
                        if x == id {
                            let j = choose|j: int|
                                0 <= j < s0.len() && (#[trigger] s0[j]).id == id && (s0[j].state
                                    is Running || s0[j].state is Suspended);
                            assert(j == i as int);
                            assert(s0[j].state is Suspended);
                            assert(old(self).driven_by_some(id));
                            let w = choose|w: int|
                                0 <= w < old(self).workers@.len() && #[trigger] old(
                                    self,
                                ).workers@[w].running() == Some(id);
                            assert(false);
                        } else {
                            lemma_driven_ok_update(s0, i as int, s1[i as int], x);
                        }
                    }
                    assert(self.workers@[wid as int].running() == Some(id));
                    lemma_placed_queues_stable(*old(self), *self, wid as int, id);
                    // nothing lost: the started id is this worker's current;
                    // every other coroutine kept its spot
                    assert forall|k: int|
                        0 <= k < s1.len() && (#[trigger] s1[k]).state
                            is Runnable implies self.queued_somewhere(s1[k].id)
                        || self.in_hand@.contains(s1[k].id) by {
                        let x = s1[k].id;
                        assert(k != i as int);
                        assert(s1[k] == s0[k]);
                        assert(x != id);
                        if old(self).queued_somewhere(x) {
                            lemma_queued_somewhere_stable(*old(self), *self, x);
                        } else {
                            assert(self.in_hand@.contains(x));
                        }
                    }
                    assert forall|k: int|
                        0 <= k < s1.len() && ((#[trigger] s1[k]).state is Running || s1[k].state
                            is Suspended) implies self.driven_by_some(s1[k].id) by {
                        let x = s1[k].id;
                        if k == i as int {
                            assert(self.workers@[wid as int].running() == Some(id));
                        } else {
                            assert(s1[k] == s0[k]);
                            lemma_driven_by_some_stable(*old(self), *self, x);
                        }
                    }
                    assert(self.nothing_lost());
                }
                let target = self.coroutines[i].context;
                let (target_regs, target_lr, target_pc) = restore_context(&target);
                Some((target_regs, target_lr, target_pc))
            },
        }
    }

    /// The yield primitive: called on behalf of the coroutine currently
    /// running on worker `wid`, it saves that coroutine's live state and its
    /// resume point into the coroutine's own context record — the coroutine
    /// becomes Suspended, fully resumable — and hands back the worker's
    /// switch-back record data: control returns to just after the resume
    /// that entered the coroutine. Calling this with no coroutine running on
    /// the worker is a programming error; the precondition excludes it, and
    /// the embedding program must fail fast rather than call through.
    pub fn schedule(
        &mut self,
        wid: usize,
        regs: RegisterSet,
        lr: usize,
        resume_address: usize,
    ) -> (switch_to: (RegisterSet, usize, usize))
        requires
            old(self).wf(),
            old(self).placed(),
            old(self).nothing_lost(),
            wid < old(self).workers@.len(),
            old(self).workers@[wid as int].running() is Some,
            has_id(old(self).coroutines@, old(self).workers@[wid as int].running().unwrap()),
            old(self).coroutines@[index_of_id(
                old(self).coroutines@,
                old(self).workers@[wid as int].running().unwrap(),
            )].state is Running,
            resume_address != 0,
        ensures
            final(self).wf(),
            final(self).placed(),
            final(self).nothing_lost(),
            final(self).in_hand@ == old(self).in_hand@,
            ({
                let id = old(self).workers@[wid as int].running().unwrap();
                let i = index_of_id(old(self).coroutines@, id);
                let back = old(self).switch_back@[wid as int];
                &&& final(self).coroutines@ == old(self).coroutines@.update(
                    i,
                    (Coroutine {
                        state: CoroutineState::Suspended,
                        context: old(self).coroutines@[i].context.stored_spec(
                            regs,
                            lr,
                            resume_address,
                        ),
                        yields: Ghost(old(self).coroutines@[i].yields@ + 1),
                        ..old(self).coroutines@[i]
                    }),
                )
                &&& switch_to == (back.registers_spec(), back.lr, back.pc)
                &&& final(self).workers@ == old(self).workers@
                &&& final(self).switch_back@ == old(self).switch_back@
                &&& final(self).id_counter == old(self).id_counter
                &&& final(self).live_count == old(self).live_count
                &&& final(self).global_queue == old(self).global_queue
            }),
    {
        let current = self.workers[wid].current();
        match current {
            None => vstd::pervasive::unreached(),
            Some(id) => {
                let found = self.lookup_index(id);
                match found {
                    None => vstd::pervasive::unreached(),
                    Some(i) => {
                        proof {
                            let j = index_of_id(self.coroutines@, id);
                            assert(0 <= j < self.coroutines@.len() && self.coroutines@[j].id
                                == id);
                            assert(j == i as int);
                        }
                        let coroutine = &mut self.coroutines[i];
                        coroutine.complete_yield(regs, lr, resume_address);
                        proof {
                            let s0 = old(self).coroutines@;
                            let s1 = self.coroutines@;
                            assert(s0[i as int].id == id);
                            lemma_one_state_per_id(s0, i as int, id);
                            assert forall|x: usize| queued_ok(s0, x) implies x != id && queued_ok(
                                s1,
                                x,
                            ) by {
                                lemma_queued_ok_update(s0, i as int, s1[i as int], x);
                            }
                            assert(driven_ok(s1, id)) by {
                                assert(s1[i as int].id == id && s1[i as int].state is Suspended);
                            }
                            assert forall|x: usize| driven_ok(s0, x) && x != id implies driven_ok(
                                s1,
                                x,
                            ) by {
                                lemma_driven_ok_update(s0, i as int, s1[i as int], x);
                            }
                            assert(self.global_queue == old(self).global_queue);
                            assert(self.workers@ == old(self).workers@);
                            // the yielding id was running, so it sat in no
                            // queue; placement transfers wholesale
                            assert forall|p: int|
                                0 <= p < old(self).global_ids().len() implies #[trigger] old(
                                self,
                            ).global_ids()[p] != id by {
                                assert(queued_ok(s0, old(self).global_ids()[p]));
                            }
                            assert forall|w: int, p: int|
                                0 <= w < old(self).workers@.len() && 0 <= p < old(
                                    self,
                                ).workers@[w].queue().len() implies #[trigger] old(
                                self,
                            ).workers@[w].queue()[p] != id by {
                                assert(queued_ok(s0, old(self).workers@[w].queue()[p]));
                            }
                            lemma_placed_queues_stable(*old(self), *self, wid as int, id);
                            assert forall|k: int|
                                0 <= k < s1.len() && (#[trigger] s1[k]).state
                                    is Runnable implies self.queued_somewhere(s1[k].id)
                                || self.in_hand@.contains(s1[k].id) by {
                                let x = s1[k].id;
                                assert(k != i as int);
                                assert(s1[k] == s0[k]);
                                if old(self).queued_somewhere(x) {
                                    lemma_queued_somewhere_stable(*old(self), *self, x);
                                } else {
                                    assert(self.in_hand@.contains(x));
                                }
                            }
                            assert forall|k: int|
                                0 <= k < s1.len() && ((#[trigger] s1[k]).state is Running
                                    || s1[k].state is Suspended) implies self.driven_by_some(
                                s1[k].id,
                            ) by {
                                let x = s1[k].id;
                                if k == i as int {
                                    assert(self.workers@[wid as int].running() == Some(id));
                                } else {
                                    assert(s1[k] == s0[k]);
                                    lemma_driven_by_some_stable(*old(self), *self, x);
                                }
                            }
                            assert(self.nothing_lost());
                        }
                        let record = self.switch_back[wid];
                        let (back_regs, back_lr, back_pc) = restore_context(&record);
                        (back_regs, back_lr, back_pc)
                    },
                }
            },
        }
    }

    /// Worker `wid` re-enqueues the coroutine that just yielded to it: the
    /// coroutine goes to the back of this worker's own local queue — not the
    /// queue it came from — so it keeps the affinity of whichever thread
    /// last ran it, and the worker is idle again.
    pub fn requeue_yielded(&mut self, wid: usize)
        requires
            old(self).wf(),
            old(self).placed(),
            old(self).nothing_lost(),
            wid < old(self).workers@.len(),
            old(self).workers@[wid as int].running() is Some,
            has_id(old(self).coroutines@, old(self).workers@[wid as int].running().unwrap()),
            old(self).coroutines@[index_of_id(
                old(self).coroutines@,
                old(self).workers@[wid as int].running().unwrap(),
            )].state is Suspended,
        ensures
            final(self).wf(),
            final(self).placed(),
            final(self).nothing_lost(),
            final(self).in_hand@ == old(self).in_hand@,
            ({
                let id = old(self).workers@[wid as int].running().unwrap();
                let i = index_of_id(old(self).coroutines@, id);
                &&& final(self).coroutines@ == old(self).coroutines@.update(
                    i,
                    (Coroutine {
                        state: CoroutineState::Runnable,
                        ..old(self).coroutines@[i]
                    }),
                )
                &&& workers_unchanged_except(old(self).workers@, final(self).workers@, wid as int)
                &&& final(self).workers@[wid as int].queue() == old(
                    self,
                ).workers@[wid as int].queue().push(id)
                &&& final(self).workers@[wid as int].running() is None
                &&& final(self).workers@[wid as int].is_active() == old(
                    self,
                ).workers@[wid as int].is_active()
                &&& final(self).workers@[wid as int].wid() == wid
                &&& final(self).switch_back@ == old(self).switch_back@
                &&& final(self).id_counter == old(self).id_counter
                &&& final(self).live_count == old(self).live_count
                &&& final(self).global_queue == old(self).global_queue
            }),
    {
        let current = self.workers[wid].current();
        match current {
            None => vstd::pervasive::unreached(),
            Some(id) => {
                let found = self.lookup_index(id);
                match found {
                    None => vstd::pervasive::unreached(),
                    Some(i) => {
                        proof {
                            let j = index_of_id(self.coroutines@, id);
                            assert(0 <= j < self.coroutines@.len() && self.coroutines@[j].id
                                == id);
                            assert(j == i as int);
                        }
                        let coroutine = &mut self.coroutines[i];
                        coroutine.set_runnable();
                        push_to_local_queue(&mut self.workers, wid, id);
                        self.workers[wid].set_current(None);
                        proof {
                            let s0 = old(self).coroutines@;
                            let s1 = self.coroutines@;
                            assert(s0[i as int].id == id);
                            lemma_one_state_per_id(s0, i as int, id);
                            assert forall|x: usize| queued_ok(s0, x) implies x != id && queued_ok(
                                s1,
                                x,
                            ) by {
                                lemma_queued_ok_update(s0, i as int, s1[i as int], x);
                            }
                            assert(queued_ok(s1, id)) by {
                                assert(s1[i as int].id == id && s1[i as int].state is Runnable);
                            }
                            assert forall|x: usize| driven_ok(s0, x) && x != id implies driven_ok(
                                s1,
                                x,
                            ) by {
                                lemma_driven_ok_update(s0, i as int, s1[i as int], x);
                            }
                            assert(self.global_queue == old(self).global_queue);
                            let q0 = old(self).workers@[wid as int].queue();
                            assert(self.workers@[wid as int].queue() == q0.push(id));
                            assert forall|w: int|
                                0 <= w < self.workers@.len() && w != wid implies
                                #[trigger] self.workers@[w] == old(self).workers@[w] by {}
                            assert forall|p: int|
                                0 <= p < self.global_ids().len() implies queued_ok(
                                self.coroutines@,
                                #[trigger] self.global_ids()[p],
                            ) by {
                                assert(queued_ok(s0, old(self).global_ids()[p]));
                            }
                            assert forall|w: int, p: int|
                                0 <= w < self.workers@.len() && 0 <= p
                                    < self.workers@[w].queue().len() implies queued_ok(
                                self.coroutines@,
                                #[trigger] self.workers@[w].queue()[p],
                            ) by {
                                if w == wid {
                                    if p < q0.len() {
                                        assert(self.workers@[w].queue()[p] == q0[p]);
                                        assert(queued_ok(s0, old(
                                            self,
                                        ).workers@[wid as int].queue()[p]));
                                    } else {
                                        assert(self.workers@[w].queue()[p] == id);
                                    }
                                } else {
                                    assert(queued_ok(s0, old(self).workers@[w].queue()[p]));
                                }
                            }
                            assert forall|w: int|
                                0 <= w < self.workers@.len() && (
                                #[trigger] self.workers@[w]).running() is Some implies driven_ok(
                                self.coroutines@,
                                self.workers@[w].running().unwrap(),
                            ) by {
                                assert(w != wid);
                                let x = old(self).workers@[w].running().unwrap();
                                assert(driven_ok(s0, x));
                                assert(old(self).workers@[w].running().unwrap() != old(
                                    self,
                                ).workers@[wid as int].running().unwrap());
                            }
                            assert forall|p1: int, p2: int|
                                #![trigger self.global_ids()[p1], self.global_ids()[p2]]
                                0 <= p1 < p2 < self.global_ids().len() implies self.global_ids()[p1]
                                != self.global_ids()[p2] by {
                                assert(old(self).global_ids()[p1] != old(self).global_ids()[p2]);
                            }
                            assert forall|w: int, p1: int, p2: int|
                                #![trigger self.workers@[w].queue()[p1], self.workers@[w].queue()[p2]]
                                0 <= w < self.workers@.len() && 0 <= p1 < p2
                                    < self.workers@[w].queue().len() implies self.workers@[w].queue()[p1]
                                != self.workers@[w].queue()[p2] by {
                                if w == wid {
                                    if p2 < q0.len() {
                                        assert(old(self).workers@[wid as int].queue()[p1] != old(
                                            self,
                                        ).workers@[wid as int].queue()[p2]);
                                    } else {
                                        assert(self.workers@[w].queue()[p2] == id);
                                        assert(queued_ok(s0, old(
                                            self,
                                        ).workers@[wid as int].queue()[p1]));
                                    }
                                } else {
                                    assert(old(self).workers@[w].queue()[p1] != old(
                                        self,
                                    ).workers@[w].queue()[p2]);
                                }
                            }
                            assert forall|w1: int, w2: int, p1: int, p2: int|
                                #![trigger self.workers@[w1].queue()[p1], self.workers@[w2].queue()[p2]]
                                0 <= w1 < self.workers@.len() && 0 <= w2 < self.workers@.len()
                                    && w1 != w2 && 0 <= p1 < self.workers@[w1].queue().len() && 0
                                    <= p2 < self.workers@[w2].queue().len() implies self.workers@[w1].queue()[p1]
                                != self.workers@[w2].queue()[p2] by {
                                if w1 == wid && p1 == q0.len() {
                                    assert(self.workers@[w1].queue()[p1] == id);
                                    assert(queued_ok(s0, old(self).workers@[w2].queue()[p2]));
                                } else if w2 == wid && p2 == q0.len() {
                                    assert(self.workers@[w2].queue()[p2] == id);
                                    assert(queued_ok(s0, old(self).workers@[w1].queue()[p1]));
                                } else {
                                    assert(old(self).workers@[w1].queue()[p1] != old(
                                        self,
                                    ).workers@[w2].queue()[p2]);
                                }
                            }
                            assert forall|p: int, w: int, q: int|
                                #![trigger self.global_ids()[p], self.workers@[w].queue()[q]]
                                0 <= p < self.global_ids().len() && 0 <= w < self.workers@.len()
                                    && 0 <= q < self.workers@[w].queue().len() implies self.global_ids()[p]
                                != self.workers@[w].queue()[q] by {
                                assert(queued_ok(s0, old(self).global_ids()[p]));
                                if w == wid && q == q0.len() {
                                    assert(self.workers@[w].queue()[q] == id);
                                } else {
                                    assert(old(self).global_ids()[p] != old(
                                        self,
                                    ).workers@[w].queue()[q]);
                                }
                            }
                            assert forall|w1: int, w2: int|
                                #![trigger self.workers@[w1].running(), self.workers@[w2].running()]
                                0 <= w1 < self.workers@.len() && 0 <= w2 < self.workers@.len()
                                    && w1 != w2 && self.workers@[w1].running() is Some
                                    && self.workers@[w2].running()
                                    is Some implies self.workers@[w1].running().unwrap()
                                != self.workers@[w2].running().unwrap() by {
                                assert(w1 != wid && w2 != wid);
                                assert(old(self).workers@[w1].running().unwrap() != old(
                                    self,
                                ).workers@[w2].running().unwrap());
                            }
                            assert(self.placed());
                            // nothing lost: the re-enqueued id is at the
                            // back of this worker's queue; everyone else
                            // kept their spot
                            assert(self.queued_somewhere(id)) by {
                                assert(self.workers@[wid as int].queue()[q0.len() as int] == id);
                            }
                            assert forall|k: int|
                                0 <= k < s1.len() && (#[trigger] s1[k]).state
                                    is Runnable implies self.queued_somewhere(s1[k].id)
                                || self.in_hand@.contains(s1[k].id) by {
                                let x = s1[k].id;
                                if k == i as int {
                                    assert(self.queued_somewhere(id));
                                } else {
                                    assert(s1[k] == s0[k]);
                                    if old(self).queued_somewhere(x) {
                                        lemma_queued_somewhere_stable(*old(self), *self, x);
                                    } else {
                                        assert(self.in_hand@.contains(x));
                                    }
                                }
                            }
                            assert forall|k: int|
                                0 <= k < s1.len() && ((#[trigger] s1[k]).state is Running
                                    || s1[k].state is Suspended) implies self.driven_by_some(
                                s1[k].id,
                            ) by {
                                let x = s1[k].id;
                                assert(k != i as int);
                                assert(s1[k] == s0[k]);
                                lemma_driven_by_some_stable(*old(self), *self, x);
                            }
                            assert(self.nothing_lost());
                        }
                    },
                }
            },
        }
    }

    /// The tail of the bootstrap trampoline, run when the task of the
    /// coroutine on worker `wid` returns: the coroutine's resume address is
    /// cleared to the finished sentinel, the live count goes down — exactly
    /// once per coroutine, synchronously before control leaves it — the
    /// coroutine is retired from the registry (in the embedding program its
    /// stack is freed exactly once, now), and the worker's switch-back data
    /// comes back as the switch target. The retired coroutine was resumed
    /// exactly one more time than it yielded.
    pub fn finish_current(&mut self, wid: usize) -> (switch_to: (RegisterSet, usize, usize))
        requires
            old(self).wf(),
            old(self).placed(),
            old(self).nothing_lost(),
            wid < old(self).workers@.len(),
            old(self).workers@[wid as int].running() is Some,
            has_id(old(self).coroutines@, old(self).workers@[wid as int].running().unwrap()),
            old(self).coroutines@[index_of_id(
                old(self).coroutines@,
                old(self).workers@[wid as int].running().unwrap(),
            )].state is Running,
        ensures
            final(self).wf(),
            final(self).placed(),
            final(self).nothing_lost(),
            final(self).in_hand@ == old(self).in_hand@,
            ({
                let id = old(self).workers@[wid as int].running().unwrap();
                let i = index_of_id(old(self).coroutines@, id);
                let back = old(self).switch_back@[wid as int];
                &&& old(self).coroutines@[i].resumes@ == old(self).coroutines@[i].yields@ + 1
                &&& final(self).coroutines@ == old(self).coroutines@.remove(i)
                &&& final(self).live_count == old(self).live_count - 1
                &&& switch_to == (back.registers_spec(), back.lr, back.pc)
                &&& workers_unchanged_except(old(self).workers@, final(self).workers@, wid as int)
                &&& final(self).workers@[wid as int].queue() == old(
                    self,
                ).workers@[wid as int].queue()
                &&& final(self).workers@[wid as int].running() is None
                &&& final(self).workers@[wid as int].is_active() == old(
                    self,
                ).workers@[wid as int].is_active()
                &&& final(self).workers@[wid as int].wid() == wid
                &&& final(self).switch_back@ == old(self).switch_back@
                &&& final(self).id_counter == old(self).id_counter
                &&& final(self).global_queue == old(self).global_queue
            }),
    {
        let current = self.workers[wid].current();
        match current {
            None => vstd::pervasive::unreached(),
            Some(id) => {
                let found = self.lookup_index(id);
                match found {
                    None => vstd::pervasive::unreached(),
                    Some(i) => {
                        proof {
                            let j = index_of_id(self.coroutines@, id);
                            assert(0 <= j < self.coroutines@.len() && self.coroutines@[j].id
                                == id);
                            assert(j == i as int);
                        }
                        let mut finished = self.coroutines.remove(i);
                        finished.complete_finish();
                        self.live_count = self.live_count - 1;
                        self.workers[wid].set_current(None);
                        proof {
                            let s0 = old(self).coroutines@;
                            let s1 = self.coroutines@;
                            assert(s0[i as int].id == id);
                            lemma_one_state_per_id(s0, i as int, id);
                            assert forall|x: usize| queued_ok(s0, x) implies x != id && queued_ok(
                                s1,
                                x,
                            ) by {
                                lemma_queued_ok_remove(s0, i as int, x);
                            }
                            assert forall|x: usize| driven_ok(s0, x) && x != id implies driven_ok(
                                s1,
                                x,
                            ) by {
                                lemma_driven_ok_remove(s0, i as int, x);
                            }
                            assert(self.global_queue == old(self).global_queue);
                            assert forall|w: int|
                                0 <= w < self.workers@.len() && w != wid implies
                                #[trigger] self.workers@[w] == old(self).workers@[w] by {}
                            assert(self.workers@[wid as int].queue() == old(
                                self,
                            ).workers@[wid as int].queue());
                            // the retired id was running, so it sat in no
                            // queue; with that, placement transfers wholesale
                            assert forall|p: int|
                                0 <= p < old(self).global_ids().len() implies #[trigger] old(
                                self,
                            ).global_ids()[p] != id by {
                                assert(queued_ok(s0, old(self).global_ids()[p]));
                            }
                            assert forall|w: int, p: int|
                                0 <= w < old(self).workers@.len() && 0 <= p < old(
                                    self,
                                ).workers@[w].queue().len() implies #[trigger] old(
                                self,
                            ).workers@[w].queue()[p] != id by {
                                assert(queued_ok(s0, old(self).workers@[w].queue()[p]));
                            }
                            assert forall|w: int|
                                0 <= w < self.workers@.len() implies
                                #[trigger] self.workers@[w].queue() == old(
                                self,
                            ).workers@[w].queue() by {
                                if w != wid {
                                    assert(self.workers@[w] == old(self).workers@[w]);
                                }
                            }
                            assert forall|w: int|
                                0 <= w < self.workers@.len() && w != wid implies
                                #[trigger] self.workers@[w].running() == old(
                                self,
                            ).workers@[w].running() by {
                                assert(self.workers@[w] == old(self).workers@[w]);
                            }
                            lemma_placed_queues_stable(*old(self), *self, wid as int, id);
                            // nothing lost: the retired id is gone from the
                            // registry; everyone else kept their spot
                            assert forall|k: int|
                                0 <= k < s1.len() && (#[trigger] s1[k]).state
                                    is Runnable implies self.queued_somewhere(s1[k].id)
                                || self.in_hand@.contains(s1[k].id) by {
                                if k < i as int {
                                    assert(s1[k] == s0[k]);
                                } else {
                                    assert(s1[k] == s0[k + 1]);
                                }
                                let x = s1[k].id;
                                if old(self).queued_somewhere(x) {
                                    lemma_queued_somewhere_stable(*old(self), *self, x);
                                } else {
                                    assert(self.in_hand@.contains(x));
                                }
                            }
                            assert forall|k: int|
                                0 <= k < s1.len() && ((#[trigger] s1[k]).state is Running
                                    || s1[k].state is Suspended) implies self.driven_by_some(
                                s1[k].id,
                            ) by {
                                if k < i as int {
                                    assert(s1[k] == s0[k]);
                                } else {
                                    assert(s1[k] == s0[k + 1]);
                                }
                                let x = s1[k].id;
                                assert(x != id);
                                lemma_driven_by_some_stable(*old(self), *self, x);
                            }
                            assert(self.nothing_lost());
                        }
                        let record = self.switch_back[wid];
                        let (back_regs, back_lr, back_pc) = restore_context(&record);
                        (back_regs, back_lr, back_pc)
                    },
                }
            },
        }
    }
}

/// A live coroutine is present in exactly one place: the coroutine a worker
/// is driving sits in no queue — it can be resumed by that worker alone,
/// never picked up twice — and, by the placement clauses, no id sits in two
/// queues either.
pub proof fn lemma_driven_coroutine_is_in_no_queue(runtime: InnerRuntime, w: int)
    requires
        runtime.wf(),
        runtime.placed(),
        0 <= w < runtime.workers@.len(),
        runtime.workers@[w].running() is Some,
    ensures
        forall|p: int|
            0 <= p < runtime.global_ids().len() ==> #[trigger] runtime.global_ids()[p]
                != runtime.workers@[w].running().unwrap(),
        forall|w2: int, p: int|
            0 <= w2 < runtime.workers@.len() && 0 <= p < runtime.workers@[w2].queue().len()
                ==> #[trigger] runtime.workers@[w2].queue()[p]
                != runtime.workers@[w].running().unwrap(),
{
    let s = runtime.coroutines@;
    let id = runtime.workers@[w].running().unwrap();
    assert(driven_ok(s, id));
    let j = choose|j: int|
        0 <= j < s.len() && (#[trigger] s[j]).id == id && (s[j].state is Running || s[j].state
            is Suspended);
    lemma_one_state_per_id(s, j, id);
    assert forall|p: int|
        0 <= p < runtime.global_ids().len() implies #[trigger] runtime.global_ids()[p] != id by {
        assert(queued_ok(s, runtime.global_ids()[p]));
    }
    assert forall|w2: int, p: int|
        0 <= w2 < runtime.workers@.len() && 0 <= p
            < runtime.workers@[w2].queue().len() implies #[trigger] runtime.workers@[w2].queue()[p]
        != id by {
        assert(queued_ok(s, runtime.workers@[w2].queue()[p]));
    }
}

/// Once the engine has drained — every queue empty, no worker driving a
/// coroutine, nothing in any worker's hand — every spawned coroutine has
/// finished: the live count is zero and `wait` returns. With `spawn` raising
/// the count by one and `finish_current` lowering it by exactly one per
/// retired coroutine, a run that spawns N coroutines and drains completely
/// has finished all N, each exactly once.
pub proof fn lemma_drained_engine_has_finished_all(runtime: InnerRuntime)
    requires
        runtime.wf(),
        runtime.nothing_lost(),
        runtime.global_ids().len() == 0,
        forall|w: int|
            0 <= w < runtime.workers@.len() ==> (#[trigger] runtime.workers@[w]).queue().len()
                == 0,
        forall|w: int|
            0 <= w < runtime.workers@.len() ==> (#[trigger] runtime.workers@[w]).running()
                is None,
        runtime.in_hand@ == Set::<usize>::empty(),
    ensures
        runtime.live_count == 0,
{
    if runtime.coroutines@.len() > 0 {
        let c = runtime.coroutines@[0];
        if c.state is Runnable {
            assert(runtime.queued_somewhere(c.id) || runtime.in_hand@.contains(c.id));
            if runtime.queued_somewhere(c.id) {
                if exists|p: int|
                    0 <= p < runtime.global_ids().len() && #[trigger] runtime.global_ids()[p]
                        == c.id {
                    assert(false);
                } else {
                    let (w, p) = choose|w: int, p: int|
                        0 <= w < runtime.workers@.len() && 0 <= p
                            < runtime.workers@[w].queue().len()
                            && #[trigger] runtime.workers@[w].queue()[p] == c.id;
                    assert(false);
                }
            }
        } else {
            assert(c.state is Running || c.state is Suspended);
            assert(runtime.driven_by_some(c.id));
            let w = choose|w: int|
                0 <= w < runtime.workers@.len() && #[trigger] runtime.workers@[w].running()
                    == Some(c.id);
            assert(false);
        }
    }
}

/// Completion accounting: `wait` — which returns exactly when the live count
/// is zero — may return exactly when no spawned coroutine is outstanding;
/// every outstanding coroutine is registered exactly once (no double-run, no
/// leak), and a finished coroutine is never among them.
pub proof fn lemma_wait_accounting(runtime: InnerRuntime)
    requires
        runtime.wf(),
    ensures
        (runtime.live_count == 0) <==> (runtime.coroutines@.len() == 0),
        forall|i: int, j: int|
            0 <= i < runtime.coroutines@.len() && 0 <= j < runtime.coroutines@.len() && i != j
                ==> (#[trigger] runtime.coroutines@[i]).id != (
            #[trigger] runtime.coroutines@[j]).id,
        forall|i: int|
            0 <= i < runtime.coroutines@.len() ==> !((#[trigger] runtime.coroutines@[i]).state
                is Finished),
{
}

/// A scheduler with zero coroutines outstanding owes an immediate return
/// from `wait`: its live count is zero.
pub proof fn lemma_wait_returns_immediately_when_empty(runtime: InnerRuntime)
    requires
        runtime.wf(),
        runtime.coroutines@.len() == 0,
    ensures
        runtime.live_count == 0,
{
}

/// The id sequence is never corrupted: every outstanding coroutine's id lies
/// strictly below the id counter, so the next id handed out by `spawn` —
/// which is the counter, which only ever grows — differs from the id of
/// every coroutine that could still be referenced.
pub proof fn lemma_next_id_fresh(runtime: InnerRuntime)
    requires
        runtime.wf(),
    ensures
        forall|i: int|
            0 <= i < runtime.coroutines@.len() ==> (#[trigger] runtime.coroutines@[i]).id
                < runtime.id_counter,
{
}

} // verus!
