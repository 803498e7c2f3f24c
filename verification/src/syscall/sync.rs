//! System calls on locks, semaphores and condition variables.
use vstd::prelude::*;
use crate::task::manager::{
    Kernel,
    condvar_step_post,
    lock_step_post,
    only_proc_changed,
    sem_count_fits,
    sem_step_post,
};
use crate::task::process::{add_condvar_post, add_lock_post, add_semaphore_post};

verus! {

/// Creates a lock in the running task's process, blocking or spinning;
/// returns its id, or -1 when the process has as many as it may.
pub fn syscall_mutex_create(k: &mut Kernel, blocking: bool) -> (r: isize)
    requires
        old(k).has_current(),
    ensures
        only_proc_changed(*old(k), *final(k), old(k).cur_pid()),
        add_lock_post(old(k).cur_proc(), final(k).procs()[old(k).cur_pid()], blocking, r),
{
    k.add_new_mutext(blocking)
}

/// Takes lock `lock_id` for the running task.
pub fn syscall_mutex_lock(k: &mut Kernel, lock_id: usize) -> (r: isize)
    requires
        old(k).has_current_thread(),
    ensures
        lock_step_post(*old(k), *final(k), lock_id, true, r),
{
    k.operation_lock(lock_id, true)
}

/// Gives lock `lock_id` back for the running task.
pub fn syscall_mutex_unlock(k: &mut Kernel, lock_id: usize) -> (r: isize)
    requires
        old(k).has_current_thread(),
    ensures
        lock_step_post(*old(k), *final(k), lock_id, false, r),
{
    k.operation_lock(lock_id, false)
}

/// Creates a semaphore with `res_count` resources in the running task's
/// process; returns its id.
pub fn syscall_semaphore_create(k: &mut Kernel, res_count: usize) -> (r: isize)
    requires
        old(k).has_current(),
        old(k).cur_proc().semaphores@.len() < 0x7FFF_FFFF,
    ensures
        only_proc_changed(*old(k), *final(k), old(k).cur_pid()),
        add_semaphore_post(old(k).cur_proc(), final(k).procs()[old(k).cur_pid()], res_count, r),
{
    k.add_semaphore(res_count)
}

/// Returns a resource to semaphore `sem_id`.
pub fn syscall_semaphore_up(k: &mut Kernel, sem_id: usize) -> (r: isize)
    requires
        old(k).has_current_thread(),
        sem_count_fits(old(k).cur_proc(), sem_id),
    ensures
        sem_step_post(*old(k), *final(k), sem_id, true, r),
{
    k.operation_semaphore(sem_id, true)
}

/// Takes a resource of semaphore `sem_id`, waiting while there is none.
pub fn syscall_semaphore_down(k: &mut Kernel, sem_id: usize) -> (r: isize)
    requires
        old(k).has_current_thread(),
        sem_count_fits(old(k).cur_proc(), sem_id),
    ensures
        sem_step_post(*old(k), *final(k), sem_id, false, r),
{
    k.operation_semaphore(sem_id, false)
}

/// Creates a condition variable in the running task's process; returns its
/// id.
pub fn syscall_condvar_create(k: &mut Kernel) -> (r: isize)
    requires
        old(k).has_current(),
        old(k).cur_proc().condvars@.len() < 0x7FFF_FFFF,
    ensures
        only_proc_changed(*old(k), *final(k), old(k).cur_pid()),
        add_condvar_post(old(k).cur_proc(), final(k).procs()[old(k).cur_pid()], r),
{
    k.add_condvar()
}

/// Wakes one task waiting on condition variable `condvar_id`.
pub fn syscall_condvar_signal(k: &mut Kernel, condvar_id: usize) -> (r: isize)
    requires
        old(k).has_current_thread(),
    ensures
        condvar_step_post(*old(k), *final(k), condvar_id, 0, true, r),
{
    k.operation_condvar(condvar_id, 0, true)
}

/// Waits on condition variable `condvar_id`, giving lock `mutex_id` back
/// meanwhile.
pub fn syscall_condvar_wait(k: &mut Kernel, condvar_id: usize, mutex_id: usize) -> (r: isize)
    requires
        old(k).has_current_thread(),
    ensures
        condvar_step_post(*old(k), *final(k), condvar_id, mutex_id, false, r),
{
    k.operation_condvar(condvar_id, mutex_id, false)
}

} // verus!
