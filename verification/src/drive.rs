//! The single-worker degenerate form of the scheduler: a drive loop that
//! repeatedly sweeps the collection of coroutines, resumes each one that has
//! not yet finished exactly once per sweep, and stops when none remains.
//! This round-robin form is the reference behavior for the scheduler's
//! observable ordering, ahead of any multi-threading.
//!
//! The drive stands in for the switch host: what a task does between two of
//! its yields is outside the core, so a task is modelled by its plan — how
//! many times it yields before returning. Each resume of a planned coroutine
//! is one observable step; on a yield the coroutine's own snapshot is saved
//! back into its context record, and on return it is finished.

use vstd::prelude::*;

use crate::context::restore_context;
use crate::coroutine::Coroutine;

verus! {

/// The ids of the coroutines, in collection order.
pub open spec fn ids_of(coroutines: Seq<Coroutine>) -> Seq<usize> {
    Seq::new(coroutines.len(), |k: int| coroutines[k].id)
}

/// The largest plan among the first `i`; zero when there are none.
pub open spec fn prefix_max(plans: Seq<usize>, i: int) -> int
    decreases i,
{
    if i <= 0 {
        0
    } else if plans[i - 1] > prefix_max(plans, i - 1) {
        plans[i - 1] as int
    } else {
        prefix_max(plans, i - 1)
    }
}

/// The steps round `r` emits for the first `i` coroutines: (id, r) for each
/// coroutine whose plan still admits a step `r`, in collection order.
pub open spec fn round_prefix(ids: Seq<usize>, plans: Seq<usize>, r: int, i: int) -> Seq<
    (usize, usize),
>
    decreases i,
{
    if i <= 0 {
        Seq::empty()
    } else {
        round_prefix(ids, plans, r, i - 1) + (if r <= plans[i - 1] {
            seq![(ids[i - 1], r as usize)]
        } else {
            Seq::<(usize, usize)>::empty()
        })
    }
}

/// The whole observable trace of the first `r` rounds of the round-robin
/// drive: the rounds in order, each round sweeping the collection in order.
pub open spec fn rounds_trace(ids: Seq<usize>, plans: Seq<usize>, r: int) -> Seq<(usize, usize)>
    decreases r,
{
    if r <= 0 {
        Seq::empty()
    } else {
        rounds_trace(ids, plans, r - 1) + round_prefix(ids, plans, r - 1, plans.len() as int)
    }
}

/// Drives the coroutines round-robin until every one of them has finished.
/// `plans@[i]` is how many times coroutine `i` yields before returning, so
/// each coroutine is resumed exactly `plans@[i] + 1` times — its steps.
///
/// The returned trace records each observable step as (coroutine id, step
/// number), in execution order. The drive is deterministic and the trace is
/// pinned whole: it is exactly the rounds in order, each round sweeping the
/// collection in order — so every coroutine takes its step 0 before any
/// coroutine takes its step 1, and with two or more coroutines the order
/// interleaves instead of running any one task to completion first.
pub fn run_round_robin(coroutines: &mut Vec<Coroutine>, plans: &Vec<usize>) -> (trace: Vec<
    (usize, usize),
>)
    requires
        old(coroutines)@.len() == plans@.len(),
        forall|k: int|
            0 <= k < old(coroutines)@.len() ==> {
                &&& (#[trigger] old(coroutines)@[k]).wf()
                &&& !(old(coroutines)@[k].state is Running)
                &&& !(old(coroutines)@[k].state is Finished)
                &&& old(coroutines)@[k].resumes@ == 0
            },
        forall|k: int| 0 <= k < plans@.len() ==> (#[trigger] plans@[k]) < usize::MAX,
    ensures
            final(coroutines)@.len() == old(coroutines)@.len(),
            forall|k: int|
                0 <= k < final(coroutines)@.len() ==> {
                    &&& (#[trigger] final(coroutines)@[k]).wf()
                    &&& final(coroutines)@[k].state is Finished
                    &&& final(coroutines)@[k].id == old(coroutines)@[k].id
                    &&& final(coroutines)@[k].resumes@ == plans@[k] + 1
                    &&& final(coroutines)@[k].yields@ == plans@[k]
                },
            trace@ == rounds_trace(
                ids_of(old(coroutines)@),
                plans@,
                prefix_max(plans@, plans@.len() as int) + 1,
            ),
            trace@.len() >= plans@.len(),
            forall|k: int|
                0 <= k < plans@.len() ==> trace@[k] == (old(coroutines)@[k].id, 0usize),
{
    let n = coroutines.len();
    let ghost ids: Seq<usize> = ids_of(old(coroutines)@);
    // the number of sweeps needed: the longest plan, plus the final sweep
    let mut max_plan: usize = 0;
    let mut m: usize = 0;
    while m < n
        invariant
            m <= n,
            n == plans@.len(),
            max_plan < usize::MAX,
            max_plan as int == prefix_max(plans@, m as int),
            forall|k: int| 0 <= k < m ==> (#[trigger] plans@[k]) <= max_plan,
            forall|k: int| 0 <= k < plans@.len() ==> (#[trigger] plans@[k]) < usize::MAX,
        decreases n - m,
    {
        if plans[m] > max_plan {
            max_plan = plans[m];
        }
        m = m + 1;
    }
    let mut trace: Vec<(usize, usize)> = Vec::new();
    let mut round: usize = 0;
    while round <= max_plan
        invariant
            round <= max_plan + 1,
            max_plan < usize::MAX,
            n == coroutines@.len(),
            n == plans@.len(),
            n == old(coroutines)@.len(),
            max_plan as int == prefix_max(plans@, n as int),
            ids == ids_of(old(coroutines)@),
            trace@ == rounds_trace(ids, plans@, round as int),
            forall|k: int| 0 <= k < n ==> (#[trigger] plans@[k]) <= max_plan,
            forall|k: int|
                0 <= k < n ==> {
                    &&& (#[trigger] coroutines@[k]).wf()
                    &&& !(coroutines@[k].state is Running)
                    &&& coroutines@[k].id == old(coroutines)@[k].id
                    &&& ((coroutines@[k].state is Finished) <==> round > plans@[k])
                    &&& coroutines@[k].resumes@ == (if round <= plans@[k] {
                        round as int
                    } else {
                        plans@[k] + 1
                    })
                },
            round == 0 ==> trace@.len() == 0,
            round >= 1 ==> trace@.len() >= n,
            round >= 1 ==> forall|k: int|
                0 <= k < n ==> trace@[k] == (old(coroutines)@[k].id, 0usize),
        decreases max_plan + 1 - round,
    {
        proof {
            assert(round_prefix(ids, plans@, round as int, 0) =~= Seq::<(usize, usize)>::empty());
            assert(trace@ =~= rounds_trace(ids, plans@, round as int) + round_prefix(
                ids,
                plans@,
                round as int,
                0,
            ));
        }
        let mut i: usize = 0;
        while i < n
            invariant
                i <= n,
                round <= max_plan,
                n == coroutines@.len(),
                n == plans@.len(),
                n == old(coroutines)@.len(),
                ids == ids_of(old(coroutines)@),
                trace@ == rounds_trace(ids, plans@, round as int) + round_prefix(
                    ids,
                    plans@,
                    round as int,
                    i as int,
                ),
                forall|k: int|
                    0 <= k < i ==> {
                        &&& (#[trigger] coroutines@[k]).wf()
                        &&& !(coroutines@[k].state is Running)
                        &&& coroutines@[k].id == old(coroutines)@[k].id
                        &&& ((coroutines@[k].state is Finished) <==> round >= plans@[k])
                        &&& coroutines@[k].resumes@ == (if round < plans@[k] {
                            round + 1 as int
                        } else {
                            plans@[k] + 1
                        })
                    },
                forall|k: int|
                    i <= k < n ==> {
                        &&& (#[trigger] coroutines@[k]).wf()
                        &&& !(coroutines@[k].state is Running)
                        &&& coroutines@[k].id == old(coroutines)@[k].id
                        &&& ((coroutines@[k].state is Finished) <==> round > plans@[k])
                        &&& coroutines@[k].resumes@ == (if round <= plans@[k] {
                            round as int
                        } else {
                            plans@[k] + 1
                        })
                    },
                round == 0 ==> trace@.len() == i && forall|k: int|
                    0 <= k < i ==> trace@[k] == (old(coroutines)@[k].id, 0usize),
                round >= 1 ==> trace@.len() >= n && forall|k: int|
                    0 <= k < n ==> trace@[k] == (old(coroutines)@[k].id, 0usize),
            decreases n - i,
        {
            let plan = plans[i];
            let snapshot = coroutines[i].context;
            let coroutine = &mut coroutines[i];
            let runnable = coroutine.resume();
            if runnable {
                let cid = coroutine.id;
                if round < plan {
                    // the task yields: save its own snapshot back, Suspended
                    let (regs, _lr, _pc) = restore_context(&snapshot);
                    coroutine.complete_yield(regs, snapshot.lr, snapshot.pc);
                } else {
                    // the task returns: finished, sentinel set
                    coroutine.complete_finish();
                }
                trace.push((cid, round));
                proof {
                    assert(ids[i as int] == old(coroutines)@[i as int].id);
                    assert(cid == ids[i as int]);
                    assert(round_prefix(ids, plans@, round as int, i as int + 1) =~= round_prefix(
                        ids,
                        plans@,
                        round as int,
                        i as int,
                    ) + seq![(ids[i as int], round)]);
                    assert(trace@ =~= rounds_trace(ids, plans@, round as int) + round_prefix(
                        ids,
                        plans@,
                        round as int,
                        i as int + 1,
                    ));
                }
            } else {
                proof {
                    assert(round_prefix(ids, plans@, round as int, i as int + 1) =~= round_prefix(
                        ids,
                        plans@,
                        round as int,
                        i as int,
                    ));
                }
            }
            i = i + 1;
        }
        proof {
            assert(rounds_trace(ids, plans@, round as int + 1) == rounds_trace(
                ids,
                plans@,
                round as int,
            ) + round_prefix(ids, plans@, round as int, n as int));
        }
        round = round + 1;
    }
    trace
}

/// Some interleaving must occur: the observed order of the round-robin form
/// — whose second observed step belongs to the second coroutine — is not the
/// fully sequential order that runs each of three coroutines through its
/// three steps before the next one starts.
pub proof fn lemma_round_robin_not_sequential(trace: Seq<(usize, usize)>)
    requires
        trace.len() >= 2,
        trace[0] == (0usize, 0usize),
        trace[1] == (1usize, 0usize),
    ensures
        trace != seq![
            (0usize, 0usize),
            (0usize, 1usize),
            (0usize, 2usize),
            (1usize, 0usize),
            (1usize, 1usize),
            (1usize, 2usize),
            (2usize, 0usize),
            (2usize, 1usize),
            (2usize, 2usize),
        ],
{
    let sequential = seq![
        (0usize, 0usize),
        (0usize, 1usize),
        (0usize, 2usize),
        (1usize, 0usize),
        (1usize, 1usize),
        (1usize, 2usize),
        (2usize, 0usize),
        (2usize, 1usize),
        (2usize, 2usize),
    ];
    assert(sequential[1] == (0usize, 1usize));
    assert(trace[1] != sequential[1]);
}

} // verus!
