//! The coroutine: a type-erased zero-argument task, a dedicated fixed-size
//! stack, and a context record carved out of the high end of that stack.
//!
//! The stack itself is raw memory owned outside the verified core; here it is
//! modelled by its base address and usable size, and the task and scheduler
//! back-references by plain addresses, valid only while the stack is live.
//! The lifecycle is tracked explicitly: Created, Runnable (held in a queue),
//! Running (on exactly one worker), Suspended (yielded, resumable), Finished
//! (task returned, resume address cleared to the sentinel).

use vstd::prelude::*;

use crate::context::{CoroutineContext, RegisterSet, CONTEXT_RECORD_SIZE};

verus! {

/// A spawnable task: a zero-argument callable, consumed by its one run.
pub trait TaskFn: FnOnce<(), Output = ()> + 'static {

}

impl<F: FnOnce<(), Output = ()> + 'static> TaskFn for F {

}

/// Byte size of a coroutine's stack region. The context record occupies the
/// top `CONTEXT_RECORD_SIZE` bytes; the rest is the task's own call stack,
/// growing downward.
pub const STACK_SIZE: usize = 0x400000;

/// The lifecycle states of a coroutine.
#[derive(Clone, Copy, PartialEq, Eq, Structural, Debug)]
pub enum CoroutineState {
    /// Stack allocated, context initialized to the bootstrap entry point.
    Created,
    /// Held in a queue, not executing.
    Runnable,
    /// Executing on exactly one worker thread.
    Running,
    /// Yielded; the context holds a valid resume point.
    Suspended,
    /// The task returned; the resume address is the finished sentinel.
    Finished,
}

/// A coroutine: its unique id, its context record, the usable size of its
/// stack, and its lifecycle state. The two ghost counters track how often it
/// was resumed and how often it yielded; they carry the accounting behind
/// the resume-count guarantee.
pub struct Coroutine {
    pub id: usize,
    pub context: CoroutineContext,
    pub stack_size: usize,
    pub state: CoroutineState,
    pub resumes: Ghost<nat>,
    pub yields: Ghost<nat>,
}

impl Coroutine {
    /// Well-formedness: the finished sentinel in the context record marks
    /// exactly the Finished state, and the resume count runs one ahead of
    /// the yield count precisely while the coroutine is running or done.
    pub open spec fn wf(self) -> bool {
        &&& (self.state is Finished <==> self.context.is_finished_sentinel())
        &&& ((self.state is Running || self.state is Finished) ==> self.resumes@
            == self.yields@ + 1)
        &&& ((self.state is Created || self.state is Runnable || self.state is Suspended)
            ==> self.resumes@ == self.yields@)
    }

    /// Builds a coroutine over the stack region starting at `stack_base`:
    /// the context record sits at the top of the region, the record's stack
    /// and frame pointers point just below it, the resume address is the
    /// bootstrap entry point `entry_pc`, and the tag words hold the task and
    /// scheduler addresses.
    pub fn new(
        id: usize,
        task: usize,
        runtime_ptr: usize,
        stack_base: usize,
        entry_pc: usize,
    ) -> (coroutine: Coroutine)
        requires
            entry_pc != 0,
            stack_base + STACK_SIZE <= usize::MAX,
        ensures
            coroutine.wf(),
            coroutine.id == id,
            coroutine.state is Created,
            coroutine.stack_size == STACK_SIZE - CONTEXT_RECORD_SIZE,
            coroutine.context == (CoroutineContext::zeroed_spec().initialized_spec(
                (stack_base + STACK_SIZE - CONTEXT_RECORD_SIZE) as usize,
                (stack_base + STACK_SIZE - CONTEXT_RECORD_SIZE) as usize,
                entry_pc,
                task,
                runtime_ptr,
            )),
            coroutine.resumes@ == 0,
            coroutine.yields@ == 0,
    {
        let stack_top: usize = stack_base + STACK_SIZE;
        let record_addr: usize = stack_top - CONTEXT_RECORD_SIZE;
        let mut context = CoroutineContext::default();
        context.init(record_addr, record_addr, entry_pc, task, runtime_ptr);
        Coroutine {
            id,
            context,
            stack_size: STACK_SIZE - CONTEXT_RECORD_SIZE,
            state: CoroutineState::Created,
            resumes: Ghost(0),
            yields: Ghost(0),
        }
    }

    /// The coroutine's id.
    pub fn id(&self) -> (id: usize)
        ensures
            id == self.id,
    {
        self.id
    }

    /// A shared view of the context record.
    pub fn context(&self) -> (record: &CoroutineContext)
        ensures
            *record == self.context,
    {
        &self.context
    }

    /// An exclusive view of the context record. Only the switch primitives
    /// and initialization may go through it; a caller that mutates the
    /// record answers for the coroutine's well-formedness afterwards.
    pub fn context_mut(&mut self) -> (record: &mut CoroutineContext)
        ensures
            *record == old(self).context,
            final(self).context == *final(record),
            final(self).id == old(self).id,
            final(self).stack_size == old(self).stack_size,
            final(self).state == old(self).state,
            final(self).resumes == old(self).resumes,
            final(self).yields == old(self).yields,
    {
        &mut self.context
    }

    /// Marks a coroutine as held in a queue.
    pub fn set_runnable(&mut self)
        requires
            old(self).wf(),
            old(self).state is Created || old(self).state is Suspended,
        ensures
            final(self).wf(),
            *final(self) == (Coroutine { state: CoroutineState::Runnable, ..*old(self) }),
    {
        self.state = CoroutineState::Runnable;
    }

    /// Attempts to resume the coroutine. If the context record holds the
    /// finished sentinel the coroutine is not runnable and nothing changes;
    /// otherwise it transitions to Running and its resume count goes up by
    /// one. A coroutine already running on some worker must not be resumed:
    /// at most one worker ever executes a given coroutine at a time.
    pub fn resume(&mut self) -> (runnable: bool)
        requires
            old(self).wf(),
            !(old(self).state is Running),
        ensures
            final(self).wf(),
            runnable == !old(self).context.is_finished_sentinel(),
            !runnable ==> *final(self) == *old(self),
            runnable ==> *final(self) == (Coroutine {
                state: CoroutineState::Running,
                resumes: Ghost(old(self).resumes@ + 1),
                ..*old(self)
            }),
    {
        if self.context.pc == 0 {
            return false;
        }
        self.state = CoroutineState::Running;
        proof {
            self.resumes@ = self.resumes@ + 1;
        }
        true
    }

    /// Records a yield: the coroutine's live register state and its resume
    /// address are saved into its context record and it becomes Suspended,
    /// ready for a future resume. Its yield count goes up by one.
    pub fn complete_yield(&mut self, regs: RegisterSet, lr: usize, resume_address: usize)
        requires
            old(self).wf(),
            old(self).state is Running,
            resume_address != 0,
        ensures
            final(self).wf(),
            *final(self) == (Coroutine {
                state: CoroutineState::Suspended,
                context: old(self).context.stored_spec(regs, lr, resume_address),
                yields: Ghost(old(self).yields@ + 1),
                ..*old(self)
            }),
    {
        crate::context::store_context(&mut self.context, regs, lr, resume_address);
        self.state = CoroutineState::Suspended;
        proof {
            self.yields@ = self.yields@ + 1;
        }
    }

    /// Records that the task returned: the resume address is cleared to the
    /// finished sentinel and the coroutine is Finished. It must never be
    /// resumed again; `resume` on it reports not runnable.
    pub fn complete_finish(&mut self)
        requires
            old(self).wf(),
            old(self).state is Running,
        ensures
            final(self).wf(),
            *final(self) == (Coroutine {
                state: CoroutineState::Finished,
                context: (CoroutineContext { pc: 0, ..old(self).context }),
                ..*old(self)
            }),
    {
        self.context.pc = 0;
        self.state = CoroutineState::Finished;
    }
}

/// A coroutine that has Finished was resumed exactly one more time than it
/// yielded: a task that yields K times and then returns is resumed exactly
/// K + 1 times, never more — once Finished, `resume` refuses to run it.
pub proof fn lemma_finished_resume_count(coroutine: Coroutine)
    requires
        coroutine.wf(),
        coroutine.state is Finished,
    ensures
        coroutine.resumes@ == coroutine.yields@ + 1,
{
}

} // verus!
