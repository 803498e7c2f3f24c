//! The states of a task and the registers saved when it is switched out.
use vstd::prelude::*;

verus! {

/// The state of a process or a thread.
#[derive(Copy, Clone, PartialEq, Eq, Structural, Debug)]
pub enum TaskStatus {
    UNINIT,
    /// for a process: alive; for a thread: blocked, waiting to be woken
    READY,
    RUNNING,
    EXIT,
    /// exited, waiting for its parent to collect it
    ZOMBIE,
}

/// The callee-saved registers, return address and stack pointer of a task
/// that is switched out.
#[derive(Copy, Clone)]
pub struct TaskContext {
    pub registers: [usize; 12],
    pub ra: u64,
    pub sp: u64,
}

} // verus!
