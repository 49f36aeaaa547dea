//! The work-distribution layer: one shared global overflow queue plus one
//! single-owner/multi-stealer local queue per worker, and the scan that an
//! idle worker runs to find its next task.
//!
//! The queues are the lock-free deques of `crossbeam_deque`, held behind
//! trusted wrappers; they carry coroutine ids. Each wrapper takes the queue
//! exclusively, so the contracts state the sequential semantics the crate's
//! source shows: FIFO order, pop and steal from the front, push at the back;
//! a retry outcome that can occur even uncontended is retried on the spot.

use vstd::prelude::*;

use rand::Rng;

verus! {

#[verifier::external_type_specification]
#[verifier::external_body]
#[verifier::reject_recursive_types(T)]
pub struct ExDequeWorker<T>(crossbeam_deque::Worker<T>);

#[verifier::external_type_specification]
#[verifier::external_body]
#[verifier::reject_recursive_types(T)]
pub struct ExDequeStealer<T>(crossbeam_deque::Stealer<T>);

#[verifier::external_type_specification]
#[verifier::external_body]
#[verifier::reject_recursive_types(T)]
pub struct ExInjector<T>(crossbeam_deque::Injector<T>);

/// The coroutine ids a worker's local queue holds, front to back.
pub uninterp spec fn local_queue_model(queue: crossbeam_deque::Worker<usize>) -> Seq<usize>;

/// The coroutine ids the global overflow queue holds, front to back.
pub uninterp spec fn global_queue_model(queue: crossbeam_deque::Injector<usize>) -> Seq<usize>;

/// One worker's shared descriptor and single-owner state: its id, its local
/// queue with the steal handle peers go through, its liveness flag, and the
/// id of the coroutine currently running on it, if any. The flag is cleared
/// only at shutdown; the current id is maintained only by the owning worker.
pub struct WorkerState {
    id: usize,
    local: crossbeam_deque::Worker<usize>,
    stealer: crossbeam_deque::Stealer<usize>,
    active: bool,
    current: Option<usize>,
}

/// Relies on crossbeam_deque::Worker::new_fifo: creates an empty FIFO queue;
/// tasks are pushed at the back and popped from the front.
#[verifier::external_body]
fn new_local_deque() -> (queue: crossbeam_deque::Worker<usize>)
    ensures
        local_queue_model(queue) == Seq::<usize>::empty(),
{
    crossbeam_deque::Worker::new_fifo()
}

/// Relies on crossbeam_deque::Worker::stealer: hands out a steal handle onto
/// the same queue. The handle is kept beside its queue in one `WorkerState`,
/// and the steal wrapper's contract speaks of that queue's contents.
#[verifier::external_body]
fn stealer_of(queue: &crossbeam_deque::Worker<usize>) -> (stealer: crossbeam_deque::Stealer<
    usize,
>) {
    queue.stealer()
}

/// Relies on crossbeam_deque::Worker::push: appends the task at the back of
/// the indexed worker's local queue.
#[verifier::external_body]
pub(crate) fn push_local(workers: &mut Vec<WorkerState>, index: usize, id: usize)
    requires
        index < old(workers).len(),
    ensures
        final(workers)@.len() == old(workers)@.len(),
        forall|k: int|
            0 <= k < old(workers)@.len() && k != index ==> final(workers)@[k] == old(workers)@[k],
        final(workers)@[index as int].queue() == old(workers)@[index as int].queue().push(id),
        final(workers)@[index as int].wid() == old(workers)@[index as int].wid(),
        final(workers)@[index as int].is_active() == old(workers)@[index as int].is_active(),
        final(workers)@[index as int].running() == old(workers)@[index as int].running(),
{
    workers[index].local.push(id);
}

/// Relies on crossbeam_deque::Worker::pop: in a FIFO queue, takes the task
/// at the front; returns None exactly when the queue is empty.
#[verifier::external_body]
fn pop_local(workers: &mut Vec<WorkerState>, index: usize) -> (task: Option<usize>)
    requires
        index < old(workers).len(),
    ensures
        final(workers)@.len() == old(workers)@.len(),
        forall|k: int|
            0 <= k < old(workers)@.len() && k != index ==> final(workers)@[k] == old(workers)@[k],
        final(workers)@[index as int].wid() == old(workers)@[index as int].wid(),
        final(workers)@[index as int].is_active() == old(workers)@[index as int].is_active(),
        final(workers)@[index as int].running() == old(workers)@[index as int].running(),
        match task {
            Some(id) => old(workers)@[index as int].queue() == seq![id] + final(workers)@[index as int].queue(),
            None => {
                &&& final(workers)@ == old(workers)@
                &&& old(workers)@[index as int].queue().len() == 0
            },
        },
{
    workers[index].local.pop()
}

/// Relies on crossbeam_deque::Stealer::steal: takes the task at the front of
/// the owning worker's queue. Through this exclusive access no concurrent
/// operation exists, so a failed compare-and-swap cannot occur: the retry
/// outcome is impossible and an empty report means the queue was empty.
#[verifier::external_body]
fn steal_local(workers: &mut Vec<WorkerState>, index: usize) -> (task: Option<usize>)
    requires
        index < old(workers).len(),
    ensures
        final(workers)@.len() == old(workers)@.len(),
        forall|k: int|
            0 <= k < old(workers)@.len() && k != index ==> final(workers)@[k] == old(workers)@[k],
        final(workers)@[index as int].wid() == old(workers)@[index as int].wid(),
        final(workers)@[index as int].is_active() == old(workers)@[index as int].is_active(),
        final(workers)@[index as int].running() == old(workers)@[index as int].running(),
        match task {
            Some(id) => old(workers)@[index as int].queue() == seq![id] + final(workers)@[index as int].queue(),
            None => {
                &&& final(workers)@ == old(workers)@
                &&& old(workers)@[index as int].queue().len() == 0
            },
        },
{
    match workers[index].stealer.steal() {
        crossbeam_deque::Steal::Success(id) => Some(id),
        crossbeam_deque::Steal::Empty => None,
        crossbeam_deque::Steal::Retry => None,
    }
}

/// Relies on crossbeam_deque::Injector::new: creates an empty queue.
#[verifier::external_body]
pub(crate) fn new_injector() -> (queue: crossbeam_deque::Injector<usize>)
    ensures
        global_queue_model(queue) == Seq::<usize>::empty(),
{
    crossbeam_deque::Injector::new()
}

/// Relies on crossbeam_deque::Injector::push: appends the task at the back.
#[verifier::external_body]
pub(crate) fn push_global(queue: &mut crossbeam_deque::Injector<usize>, id: usize)
    ensures
        global_queue_model(*final(queue)) == global_queue_model(*old(queue)).push(id),
{
    queue.push(id);
}

/// Relies on crossbeam_deque::Injector::steal: takes the task at the front.
/// Its head index advances by a weak compare-exchange, which may fail
/// spuriously even uncontended, so a retry report proves nothing; it is
/// retried, as the crate directs. Through this exclusive access a retry
/// cannot repeat forever and an empty report means the queue was empty.
#[verifier::external_body]
pub(crate) fn steal_global(queue: &mut crossbeam_deque::Injector<usize>) -> (task: Option<usize>)
    ensures
        match task {
            Some(id) => global_queue_model(*old(queue)) == seq![id] + global_queue_model(*final(queue)),
            None => {
                &&& *final(queue) == *old(queue)
                &&& global_queue_model(*old(queue)).len() == 0
            },
        },
{
    loop {
        match queue.steal() {
            crossbeam_deque::Steal::Success(id) => return Some(id),
            crossbeam_deque::Steal::Empty => return None,
            crossbeam_deque::Steal::Retry => {},
        }
    }
}

/// Relies on rand::thread_rng and rand::Rng::gen_range: a random index below
/// `bound`. The draw depends on the generator's state, so nothing is
/// promised beyond the range.
#[verifier::external_body]
fn random_below(bound: usize) -> (index: usize)
    requires
        bound > 0,
    ensures
        index < bound,
{
    rand::thread_rng().gen_range(0..bound)
}

impl WorkerState {
    /// The coroutine ids this worker's local queue holds, front to back.
    pub closed spec fn queue(self) -> Seq<usize> {
        local_queue_model(self.local)
    }

    /// The worker's id.
    pub closed spec fn wid(self) -> usize {
        self.id
    }

    /// Whether the worker is alive: shutdown clears this.
    pub closed spec fn is_active(self) -> bool {
        self.active
    }

    /// The id of the coroutine currently running on this worker, if any.
    pub closed spec fn running(self) -> Option<usize> {
        self.current
    }

    /// A fresh worker descriptor: empty local queue with its steal handle,
    /// alive, with no coroutine running on it.
    pub fn new(id: usize) -> (state: WorkerState)
        ensures
            state.wid() == id,
            state.is_active(),
            state.running() is None,
            state.queue() == Seq::<usize>::empty(),
    {
        let local = new_local_deque();
        let stealer = stealer_of(&local);
        WorkerState { id, local, stealer, active: true, current: None }
    }

    /// The worker's id.
    pub fn id(&self) -> (id: usize)
        ensures
            id == self.wid(),
    {
        self.id
    }

    /// Clears the liveness flag: the worker's drive loop exits after its
    /// current iteration and peers stop stealing from it.
    pub fn shutdown(&mut self)
        ensures
            final(self).wid() == old(self).wid(),
            !final(self).is_active(),
            final(self).running() == old(self).running(),
            final(self).queue() == old(self).queue(),
    {
        self.active = false;
    }

    /// Whether the worker is alive.
    pub fn active(&self) -> (active: bool)
        ensures
            active == self.is_active(),
    {
        self.active
    }

    /// The id of the coroutine currently running on this worker, if any.
    pub fn current(&self) -> (current: Option<usize>)
        ensures
            current == self.running(),
    {
        self.current
    }

    /// Records which coroutine is running on this worker.
    pub fn set_current(&mut self, current: Option<usize>)
        ensures
            final(self).wid() == old(self).wid(),
            final(self).is_active() == old(self).is_active(),
            final(self).running() == current,
            final(self).queue() == old(self).queue(),
    {
        self.current = current;
    }
}

/// The slots `pre` and `post` agree except possibly at `index`.
pub open spec fn workers_unchanged_except(
    pre: Seq<WorkerState>,
    post: Seq<WorkerState>,
    index: int,
) -> bool {
    &&& post.len() == pre.len()
    &&& forall|k: int| 0 <= k < pre.len() && k != index ==> post[k] == pre[k]
}

/// Slot `post` is slot `pre` with the front task `id` taken off its queue;
/// everything else about the slot is unchanged.
pub open spec fn slot_took_front(pre: WorkerState, post: WorkerState, id: usize) -> bool {
    &&& pre.queue() == seq![id] + post.queue()
    &&& post.wid() == pre.wid()
    &&& post.is_active() == pre.is_active()
    &&& post.running() == pre.running()
}

/// Pushes a coroutine id onto the indexed worker's own local queue: the fast
/// path for work spawned or yielded on that worker.
pub fn push_to_local_queue(workers: &mut Vec<WorkerState>, index: usize, id: usize)
    requires
        index < old(workers).len(),
    ensures
        workers_unchanged_except(old(workers)@, final(workers)@, index as int),
        final(workers)@[index as int].queue() == old(workers)@[index as int].queue().push(id),
        final(workers)@[index as int].wid() == old(workers)@[index as int].wid(),
        final(workers)@[index as int].is_active() == old(workers)@[index as int].is_active(),
        final(workers)@[index as int].running() == old(workers)@[index as int].running(),
{
    push_local(workers, index, id);
}

/// The work-stealing scan run by the worker at `self_index`, in priority
/// order: its own local queue first, then the global overflow queue, then a
/// single round-robin pass over the peers from a random starting point,
/// skipping itself and peers that are shut down.
///
/// The contract pins the whole outcome: which queue the task came from and
/// that it was that queue's front task, that nothing else moved, and that an
/// empty-handed return means every source it may draw from was empty.
pub fn find_task(
    global_queue: &mut crossbeam_deque::Injector<usize>,
    workers: &mut Vec<WorkerState>,
    self_index: usize,
) -> (task: Option<usize>)
    requires
        self_index < old(workers).len(),
    ensures
        match task {
            Some(id) => {
                ||| {
                    // the worker's own local queue had the task
                    &&& slot_took_front(
                        old(workers)@[self_index as int],
                        final(workers)@[self_index as int],
                        id,
                    )
                    &&& workers_unchanged_except(old(workers)@, final(workers)@, self_index as int)
                    &&& *final(global_queue) == *old(global_queue)
                }
                ||| {
                    // the global overflow queue had it
                    &&& old(workers)@[self_index as int].queue().len() == 0
                    &&& global_queue_model(*old(global_queue)) == seq![id] + global_queue_model(
                        *final(global_queue),
                    )
                    &&& final(workers)@ == old(workers)@
                }
                ||| {
                    // it was stolen from an active peer
                    &&& old(workers)@[self_index as int].queue().len() == 0
                    &&& global_queue_model(*old(global_queue)).len() == 0
                    &&& *final(global_queue) == *old(global_queue)
                    &&& exists|j: int|
                        {
                            &&& 0 <= j < old(workers)@.len()
                            &&& j != self_index as int
                            &&& old(workers)@[j].is_active()
                            &&& #[trigger] slot_took_front(
                                old(workers)@[j],
                                final(workers)@[j],
                                id,
                            )
                            &&& workers_unchanged_except(old(workers)@, final(workers)@, j)
                        }
                }
            },
            None => {
                &&& final(workers)@ == old(workers)@
                &&& *final(global_queue) == *old(global_queue)
                &&& old(workers)@[self_index as int].queue().len() == 0
                &&& global_queue_model(*old(global_queue)).len() == 0
                &&& forall|j: int|
                    0 <= j < old(workers)@.len() && j != self_index as int && old(
                        workers,
                    )@[j].is_active() ==> old(workers)@[j].queue().len() == 0
            },
        },
{
    // 1. the worker's own local queue first
    let own = pop_local(workers, self_index);
    if own.is_some() {
        return own;
    }
    // 2. then the global overflow queue
    let overflow = steal_global(global_queue);
    if overflow.is_some() {
        return overflow;
    }
    // 3. then one round-robin pass over the peers from a random start
    let len = workers.len();
    let start_index = random_below(len);
    let ghost s: int = start_index as int;
    let ghost n: int = len as int;
    let mut idx: usize = start_index;
    let mut i: usize = 0;
    while i < len
        invariant
            len == n,
            workers@.len() == n,
            0 <= s < n,
            0 <= i <= n,
            self_index < n,
            idx == (if s + i < n { s + i } else { s + i - n }),
            workers@ == old(workers)@,
            *global_queue == *old(global_queue),
            global_queue_model(*old(global_queue)).len() == 0,
            old(workers)@[self_index as int].queue().len() == 0,
            forall|j: int|
                0 <= j < n && j != self_index as int && workers@[j].is_active() && ((s <= j < n && j < s
                    + i) || (0 <= j < s + i - n)) ==> workers@[j].queue().len() == 0,
        decreases n - i,
    {
        if idx != self_index && workers[idx].active {
            let stolen = steal_local(workers, idx);
            match stolen {
                Some(id) => {
                    proof {
                        assert(slot_took_front(old(workers)@[idx as int], workers@[idx as int], id));
                        assert(workers_unchanged_except(old(workers)@, workers@, idx as int));
                    }
                    return Some(id);
                },
                None => {},
            }
        }
        i = i + 1;
        idx = if idx + 1 < len {
            idx + 1
        } else {
            0
        };
    }
    None
}

} // verus!
