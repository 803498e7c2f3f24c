//! System calls on threads.
use vstd::prelude::*;
use crate::task::lifecycle::{can_add_thread, exit_thread_kernel_post, new_thread_post, schedule_post};
use crate::task::manager::{Kernel, only_proc_changed};
use crate::task::process::wait_thread_post;

verus! {

/// The thread id of the running task.
pub fn syscall_get_tid(k: &Kernel) -> (r: isize)
    ensures
        r == k.cur_tid() as isize,
{
    k.get_current_task().to_tid() as isize
}

/// Waits for thread `tid` of the running task's process: its exit code
/// once it has exited (and it is collected), -1 when it names the caller,
/// -2 while it runs, -3 when there is no such thread.
pub fn syscall_wait_tid(k: &mut Kernel, tid: usize) -> (r: isize)
    requires
        old(k).has_current(),
    ensures
        tid == old(k).cur_tid() ==> r == -1 && *final(k) == *old(k),
        tid != old(k).cur_tid() ==> only_proc_changed(*old(k), *final(k), old(k).cur_pid())
            && wait_thread_post(old(k).cur_proc(), final(k).procs()[old(k).cur_pid()], tid, r),
{
    k.wait_thread(tid)
}

/// Ends the running thread with `exit_code` and runs the next task;
/// returns 0.
pub fn syscall_thread_exit(k: &mut Kernel, exit_code: i32) -> (r: isize)
    requires
        old(k).has_current_thread(),
    ensures
        r == 0,
        exists|m: Kernel|
            #[trigger] exit_thread_kernel_post(*old(k), m, exit_code) && schedule_post(m, *final(k)),
{
    k.exit_task_and_run_next(exit_code);
    0
}

/// Adds a thread to the running task's process and makes it ready; returns
/// its thread id. The caller then writes the thread's trap context (entry
/// point, start function and argument); the thread enters user mode
/// through `trap_return`.
pub fn syscall_thread_create(k: &mut Kernel, trap_return: u64) -> (r: isize)
    requires
        can_add_thread(*old(k)),
    ensures
        new_thread_post(*old(k), *final(k), trap_return, r),
{
    k.create_new_thread(trap_return)
}

} // verus!
