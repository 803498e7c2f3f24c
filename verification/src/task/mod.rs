//! Tasks: processes, threads, their ids, the scheduler's queues and signals.
use vstd::prelude::*;

pub mod action;
pub mod id;
pub mod lifecycle;
pub mod manager;
pub mod process;
pub mod tables;
pub mod thread;
pub mod trap_context;
pub mod schedule;
pub mod signal;
pub mod task_context;

verus! {

/// What a kernel operation asks the scheduler to do next.
#[derive(Copy, Clone, PartialEq, Eq, Structural)]
pub enum TaskhandleStatus {
    /// carry on
    OK,
    /// wait and try again (read, write, a stopped signal)
    DOWAIT,
    /// give up: the other side is gone, or the task must stop
    DOSTOP,
    /// run the user's signal handler
    DOSIGNAL,
}

} // verus!
