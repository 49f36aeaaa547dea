//! A stackful coroutine execution engine: lightweight cooperative tasks, each
//! with its own call stack, driven by a pool of worker threads that rebalance
//! load by work stealing.
//!
//! This crate holds the verified core: the context-record data contracts, the
//! coroutine lifecycle, the scheduler's shared state and its decision logic
//! (spawn routing, the work-stealing scan, completion tracking), and the
//! single-threaded round-robin drive form. The machine-level context-switch
//! routines, stack allocation and OS threads live outside the verified core;
//! they hand this crate plain values (addresses, ids, register words) and are
//! held to the contracts stated here.

pub mod context;
pub mod coroutine;
pub mod drive;
pub mod interleave;
pub mod runtime;
pub mod worker;
