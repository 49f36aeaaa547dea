//! The context record: the minimal saved CPU state that lets one thread of
//! control suspend mid-stack and later resume exactly where it left off.
//!
//! The two switch primitives are modelled as data operations: `store_context`
//! writes a caller-supplied register set and resume address into a record,
//! `restore_context` reads a record back out. The machine-level routines that
//! move this data through the real registers are outside the verified core;
//! their data contract is exactly what these two functions state.

use vstd::prelude::*;

verus! {

/// Byte size of a context record in the targeted layout: fourteen saved
/// register slots plus the two tag words, eight bytes each.
pub const CONTEXT_RECORD_SIZE: usize = 128;

/// The callee-saved register set of the targeted calling convention, as plain
/// words: ten general-purpose registers, the frame pointer and the stack
/// pointer.
#[derive(Clone, Copy, PartialEq, Eq, Structural, Debug)]
pub struct RegisterSet {
    pub x19: usize,
    pub x20: usize,
    pub x21: usize,
    pub x22: usize,
    pub x23: usize,
    pub x24: usize,
    pub x25: usize,
    pub x26: usize,
    pub x27: usize,
    pub x28: usize,
    pub fp: usize,
    pub sp: usize,
}

/// A context record: saved callee-saved registers, link register, stack
/// pointer and resume program counter, plus two non-owning tag words: the
/// address of the boxed task and the address of the owning scheduler. The
/// tags are plain addresses, valid only while the coroutine's stack is live.
///
/// A resume program counter of zero is the finished sentinel: a record whose
/// `pc` is zero must never be restored.
#[derive(Clone, Copy, PartialEq, Eq, Structural, Debug)]
pub struct CoroutineContext {
    pub x19: usize,
    pub x20: usize,
    pub x21: usize,
    pub x22: usize,
    pub x23: usize,
    pub x24: usize,
    pub x25: usize,
    pub x26: usize,
    pub x27: usize,
    pub x28: usize,
    pub fp: usize,
    pub lr: usize,
    pub sp: usize,
    pub pc: usize,
    pub task: usize,
    pub runtime_ptr: usize,
}

impl CoroutineContext {
    /// The all-zero record: what initialization writes over the region
    /// reserved for the record before the fields are filled in.
    pub open spec fn zeroed_spec() -> CoroutineContext {
        CoroutineContext {
            x19: 0, x20: 0, x21: 0, x22: 0, x23: 0,
            x24: 0, x25: 0, x26: 0, x27: 0, x28: 0,
            fp: 0, lr: 0, sp: 0, pc: 0, task: 0, runtime_ptr: 0,
        }
    }

    /// The record's resume program counter holds the finished sentinel.
    pub open spec fn is_finished_sentinel(self) -> bool {
        self.pc == 0
    }

    /// The record `self` after `init(sp, fp, pc, task, runtime_ptr)`.
    pub open spec fn initialized_spec(
        self,
        sp: usize,
        fp: usize,
        pc: usize,
        task: usize,
        runtime_ptr: usize,
    ) -> CoroutineContext {
        CoroutineContext { sp, fp, pc, task, runtime_ptr, ..self }
    }

    /// The register set a restore of this record places back on the CPU.
    pub open spec fn registers_spec(self) -> RegisterSet {
        RegisterSet {
            x19: self.x19, x20: self.x20, x21: self.x21, x22: self.x22,
            x23: self.x23, x24: self.x24, x25: self.x25, x26: self.x26,
            x27: self.x27, x28: self.x28, fp: self.fp, sp: self.sp,
        }
    }

    /// The record `self` after a save of `regs`, link register `lr` and
    /// resume address `resume_address`. The two tag words are untouched.
    pub open spec fn stored_spec(
        self,
        regs: RegisterSet,
        lr: usize,
        resume_address: usize,
    ) -> CoroutineContext {
        CoroutineContext {
            x19: regs.x19, x20: regs.x20, x21: regs.x21, x22: regs.x22,
            x23: regs.x23, x24: regs.x24, x25: regs.x25, x26: regs.x26,
            x27: regs.x27, x28: regs.x28, fp: regs.fp, sp: regs.sp,
            lr, pc: resume_address,
            task: self.task,
            runtime_ptr: self.runtime_ptr,
        }
    }

    /// Writes the stack pointer, frame pointer, resume address and the two
    /// tag words into the record, leaving the saved registers as they are.
    pub fn init(&mut self, sp: usize, fp: usize, pc: usize, task: usize, runtime_ptr: usize)
        ensures
            *final(self) == old(self).initialized_spec(sp, fp, pc, task, runtime_ptr),
    {
        self.sp = sp;
        self.fp = fp;
        self.pc = pc;
        self.task = task;
        self.runtime_ptr = runtime_ptr;
    }
}

impl Default for CoroutineContext {
    /// The zeroed record; its resume program counter is the finished
    /// sentinel, so a default record is never restored.
    fn default() -> (result: CoroutineContext)
        ensures
            result == CoroutineContext::zeroed_spec(),
    {
        CoroutineContext {
            x19: 0, x20: 0, x21: 0, x22: 0, x23: 0,
            x24: 0, x25: 0, x26: 0, x27: 0, x28: 0,
            fp: 0, lr: 0, sp: 0, pc: 0, task: 0, runtime_ptr: 0,
        }
    }
}

/// The save primitive, as a data operation: stores the given callee-saved
/// register set, link register and resume address into `record`. The machine
/// routine additionally reads these values off the live CPU; its effect on
/// the record is exactly this.
pub fn store_context(
    record: &mut CoroutineContext,
    regs: RegisterSet,
    lr: usize,
    resume_address: usize,
)
    ensures
        *final(record) == old(record).stored_spec(regs, lr, resume_address),
{
    record.x19 = regs.x19;
    record.x20 = regs.x20;
    record.x21 = regs.x21;
    record.x22 = regs.x22;
    record.x23 = regs.x23;
    record.x24 = regs.x24;
    record.x25 = regs.x25;
    record.x26 = regs.x26;
    record.x27 = regs.x27;
    record.x28 = regs.x28;
    record.fp = regs.fp;
    record.sp = regs.sp;
    record.lr = lr;
    record.pc = resume_address;
}

/// The restore primitive, as a data operation: reads the saved register set,
/// link register and resume program counter back out of `record`. The machine
/// routine loads these onto the CPU and jumps to the resume address, never
/// returning to its caller; the data it loads is exactly this triple.
pub fn restore_context(record: &CoroutineContext) -> (result: (RegisterSet, usize, usize))
    ensures
        result.0 == record.registers_spec(),
        result.1 == record.lr,
        result.2 == record.pc,
{
    (
        RegisterSet {
            x19: record.x19, x20: record.x20, x21: record.x21, x22: record.x22,
            x23: record.x23, x24: record.x24, x25: record.x25, x26: record.x26,
            x27: record.x27, x28: record.x28, fp: record.fp, sp: record.sp,
        },
        record.lr,
        record.pc,
    )
}

/// A restore after a save hands back exactly what was saved: the register
/// set, the link register and the resume address all round-trip, whatever
/// the record held before. This is the data half of the switch contract: a
/// suspended thread of control resumes exactly where it left off.
pub proof fn lemma_store_restore_round_trip(
    record: CoroutineContext,
    regs: RegisterSet,
    lr: usize,
    resume_address: usize,
)
    ensures
        record.stored_spec(regs, lr, resume_address).registers_spec() == regs,
        record.stored_spec(regs, lr, resume_address).lr == lr,
        record.stored_spec(regs, lr, resume_address).pc == resume_address,
        record.stored_spec(regs, lr, resume_address).task == record.task,
        record.stored_spec(regs, lr, resume_address).runtime_ptr == record.runtime_ptr,
{
}

} // verus!
