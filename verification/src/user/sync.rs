//! Signals, locks, semaphores and condition variables, as a user program
//! sees them.
use vstd::prelude::*;
use crate::syscall::{
    SYSCALL_CONDVAR_CREATE, SYSCALL_CONDVAR_SIGANL, SYSCALL_CONDVAR_WAIT, SYSCALL_MUTEXT_CREATE,
    SYSCALL_MUTEXT_LOCK, SYSCALL_MUTEXT_UNLOCK, SYSCALL_SEMAPHORE_CREATE, SYSCALL_SEMAPHORE_DOWN,
    SYSCALL_SEMAPHORE_UP, SYSCALL_SIGACTION, SYSCALL_SIGKILL, SYSCALL_SIGMASK, SYSCALL_SIGRETURN,
};
use crate::user::syscall::{
    SyscallRequest,
    request,
    syscall_action,
    syscall_condvar_create,
    syscall_condvar_signal,
    syscall_condvar_wait,
    syscall_kill,
    syscall_mutex_create,
    syscall_mutex_lock,
    syscall_mutex_unlock,
    syscall_semaphore_create,
    syscall_semaphore_down,
    syscall_semaphore_up,
    syscall_sigmask,
    syscall_sigreturn,
};

pub use crate::task::action::SignalAction;

verus! {

/// Sends signal `signum` to process `pid`.
pub fn kill(pid: usize, signum: i32) -> (r: SyscallRequest)
    ensures
        r == request(SYSCALL_SIGKILL, pid, signum as usize, 0),
{
    syscall_kill(pid, signum)
}

/// Sets the action of `signum` to the one at `action`, the old one to be
/// written at `old_action`; a missing address is 0.
pub fn sigaction(signum: i32, action: Option<usize>, old_action: Option<usize>) -> (r: SyscallRequest)
    ensures
        r == request(
            SYSCALL_SIGACTION,
            signum as usize,
            match action {
                Some(a) => a,
                None => 0,
            },
            match old_action {
                Some(a) => a,
                None => 0,
            },
        ),
{
    let a = match action {
        Some(a) => a,
        None => 0,
    };
    let o = match old_action {
        Some(o) => o,
        None => 0,
    };
    syscall_action(signum, a, o)
}

/// Sets the signal mask.
pub fn sigprocmask(mask: u32) -> (r: SyscallRequest)
    ensures
        r == request(SYSCALL_SIGMASK, mask as usize, 0, 0),
{
    syscall_sigmask(mask)
}

/// Leaves a signal handler.
pub fn sigreturn() -> (r: SyscallRequest)
    ensures
        r == request(SYSCALL_SIGRETURN, 0, 0, 0),
{
    syscall_sigreturn()
}

/// Creates a spin lock.
pub fn mutex_create() -> (r: SyscallRequest)
    ensures
        r == request(SYSCALL_MUTEXT_CREATE, 0, 0, 0),
{
    syscall_mutex_create(false)
}

/// Creates a blocking lock.
pub fn mutex_blocking_create() -> (r: SyscallRequest)
    ensures
        r == request(SYSCALL_MUTEXT_CREATE, 1, 0, 0),
{
    syscall_mutex_create(true)
}

/// Takes lock `mutex_id`: the request, repeated while
/// `mutex_lock_again` says so.
pub fn mutex_lock(mutex_id: usize) -> (r: SyscallRequest)
    ensures
        r == request(SYSCALL_MUTEXT_LOCK, mutex_id, 0, 0),
{
    syscall_mutex_lock(mutex_id)
}

/// Whether a lock request must be made again: the kernel answers 1 while a
/// spin lock is held by another task.
pub fn mutex_lock_again(answer: isize) -> (r: bool)
    ensures
        r == (answer == 1),
{
    match answer {
        1 => true,
        _ => false,
    }
}

/// Gives lock `mutex_id` back.
pub fn mutex_unlock(mutex_id: usize) -> (r: SyscallRequest)
    ensures
        r == request(SYSCALL_MUTEXT_UNLOCK, mutex_id, 0, 0),
{
    syscall_mutex_unlock(mutex_id)
}

/// Creates a semaphore with `res_count` resources.
pub fn semaphore_create(res_count: usize) -> (r: SyscallRequest)
    ensures
        r == request(SYSCALL_SEMAPHORE_CREATE, res_count, 0, 0),
{
    syscall_semaphore_create(res_count)
}

/// Returns a resource to semaphore `sem_id`.
pub fn semaphore_up(sem_id: usize) -> (r: SyscallRequest)
    ensures
        r == request(SYSCALL_SEMAPHORE_UP, sem_id, 0, 0),
{
    syscall_semaphore_up(sem_id)
}

/// Takes a resource of semaphore `sem_id`.
pub fn semaphore_down(sem_id: usize) -> (r: SyscallRequest)
    ensures
        r == request(SYSCALL_SEMAPHORE_DOWN, sem_id, 0, 0),
{
    syscall_semaphore_down(sem_id)
}

/// Creates a condition variable.
pub fn condvar_create() -> (r: SyscallRequest)
    ensures
        r == request(SYSCALL_CONDVAR_CREATE, 0, 0, 0),
{
    syscall_condvar_create()
}

/// Wakes one waiter of `condvar_id`.
pub fn condvar_signal(condvar_id: usize) -> (r: SyscallRequest)
    ensures
        r == request(SYSCALL_CONDVAR_SIGANL, condvar_id, 0, 0),
{
    syscall_condvar_signal(condvar_id)
}

/// Waits on `condvar_id`, giving lock `mutex_id` back meanwhile.
pub fn condvar_wait(condvar_id: usize, mutex_id: usize) -> (r: SyscallRequest)
    ensures
        r == request(SYSCALL_CONDVAR_WAIT, condvar_id, mutex_id, 0),
{
    syscall_condvar_wait(condvar_id, mutex_id)
}

} // verus!
