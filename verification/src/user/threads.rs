//! Processes, threads and time, as a user program sees them.
use vstd::prelude::*;
use crate::syscall::{
    SYSCALL_EXIT_ID, SYSCALL_FORK_ID, SYSCALL_GET_PID, SYSCALL_GET_THREAD_ID, SYSCALL_GET_TIME_ID,
    SYSCALL_SLEEP_MS, SYSCALL_THREAD_CREATE, SYSCALL_THREAD_EXIT, SYSCALL_WAIT_PID,
    SYSCALL_WAIT_THREAD, SYSCALL_YIELD_ID,
};
use crate::user::syscall::{
    SyscallRequest,
    request,
    syscall_exit,
    syscall_fork,
    syscall_get_time,
    syscall_getpid,
    syscall_gettid,
    syscall_sleep,
    syscall_thread_create,
    syscall_thread_exit,
    syscall_waitpid,
    syscall_waittid,
    syscall_yield,
};

verus! {

/// What to do with the answer to a wait: yield and ask again while the
/// awaited task runs (-2), else return the answer.
#[derive(Copy, Clone, PartialEq, Eq, Structural)]
pub enum RetryStep {
    YieldAndRetry,
    Return(isize),
}

/// The step a wait takes on `answer`.
pub fn retry_step(answer: isize) -> (r: RetryStep)
    ensures
        answer == -2 ==> r == RetryStep::YieldAndRetry,
        answer != -2 ==> r == RetryStep::Return(answer),
{
    match answer {
        -2 => RetryStep::YieldAndRetry,
        pid => RetryStep::Return(pid),
    }
}

/// Ends the process with `exit_code`.
pub fn exit(exit_code: i32) -> (r: SyscallRequest)
    ensures
        r == request(SYSCALL_EXIT_ID, exit_code as usize, 0, 0),
{
    syscall_exit(exit_code)
}

/// Gives the processor up.
pub fn yield_() -> (r: SyscallRequest)
    ensures
        r == request(SYSCALL_YIELD_ID, 0, 0, 0),
{
    syscall_yield()
}

/// Asks for the time.
pub fn get_time() -> (r: SyscallRequest)
    ensures
        r == request(SYSCALL_GET_TIME_ID, 0, 0, 0),
{
    syscall_get_time()
}

/// Asks for the time in milliseconds (the kernel's time is in
/// milliseconds).
pub fn get_time_in_ms() -> (r: SyscallRequest)
    ensures
        r == request(SYSCALL_GET_TIME_ID, 0, 0, 0),
{
    syscall_get_time()
}

/// Forks the process.
pub fn fork() -> (r: SyscallRequest)
    ensures
        r == request(SYSCALL_FORK_ID, 0, 0, 0),
{
    syscall_fork()
}

/// Asks for the process id.
pub fn getpid() -> (r: SyscallRequest)
    ensures
        r == request(SYSCALL_GET_PID, 0, 0, 0),
{
    syscall_getpid()
}

/// Waits for child `pid`, its exit code to go to `exit_code`: the request,
/// repeated as `retry_step` says.
pub fn waitpid(pid: usize, exit_code: usize) -> (r: SyscallRequest)
    ensures
        r == request(SYSCALL_WAIT_PID, (pid as isize) as usize, exit_code, 0),
{
    syscall_waitpid(pid as isize, exit_code)
}

/// Waits for any child, its exit code to go to `exit_code`: the request,
/// repeated as `retry_step` says.
pub fn wait(exit_code: usize) -> (r: SyscallRequest)
    ensures
        r == request(SYSCALL_WAIT_PID, (-1isize) as usize, exit_code, 0),
{
    syscall_waitpid(-1, exit_code)
}

/// Sleeps for `period_ms` milliseconds.
pub fn sleep(period_ms: usize) -> (r: SyscallRequest)
    ensures
        r == request(SYSCALL_SLEEP_MS, period_ms, 0, 0),
{
    syscall_sleep(period_ms)
}

/// Asks once for child `pid`, its exit code to go to `exit_code`.
pub fn waitpid_nb(pid: usize, exit_code: usize) -> (r: SyscallRequest)
    ensures
        r == request(SYSCALL_WAIT_PID, (pid as isize) as usize, exit_code, 0),
{
    syscall_waitpid(pid as isize, exit_code)
}

/// Starts a thread: it enters at `thread_start`, the runtime's entry,
/// which calls `start_func` with `arg_addr` and ends the thread.
pub fn thread_create(thread_start: usize, start_func: usize, arg_addr: usize) -> (r: SyscallRequest)
    ensures
        r == request(SYSCALL_THREAD_CREATE, thread_start, start_func, arg_addr),
{
    syscall_thread_create(thread_start, start_func, arg_addr)
}

/// Asks for the thread id.
pub fn gettid() -> (r: SyscallRequest)
    ensures
        r == request(SYSCALL_GET_THREAD_ID, 0, 0, 0),
{
    syscall_gettid()
}

/// Joins thread `tid`: the request that `waittid` repeats; its last answer
/// is the thread's exit code.
pub fn thread_join(tid: usize) -> (r: SyscallRequest)
    ensures
        r == request(SYSCALL_WAIT_THREAD, tid, 0, 0),
{
    waittid(tid)
}

/// Waits for thread `tid`: the request, repeated as `retry_step` says.
pub fn waittid(tid: usize) -> (r: SyscallRequest)
    ensures
        r == request(SYSCALL_WAIT_THREAD, tid, 0, 0),
{
    syscall_waittid(tid)
}

/// Ends the thread with `exit_code`.
pub fn thread_exit(exit_code: i32) -> (r: SyscallRequest)
    ensures
        r == request(SYSCALL_THREAD_EXIT, exit_code as usize, 0, 0),
{
    syscall_thread_exit(exit_code)
}

} // verus!
