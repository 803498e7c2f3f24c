//! A small RISC-V (Sv39) teaching kernel and its user runtime, written as a
//! Verus library: address arithmetic, page tables over a model of physical
//! memory, frame and id allocators, pipes, locks, the scheduler's queues,
//! signal handling, the per-process tables and the system-call interface.
use vstd::prelude::*;

pub mod config;
pub mod drivers;
pub mod mm;
pub mod fs;
pub mod task;
pub mod sync;
pub mod syscall;
pub mod timer;
pub mod trap;
pub mod user;

