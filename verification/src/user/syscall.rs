//! The system-call requests a user program makes: each wrapper puts the
//! call's number and its three argument words in a request, which the
//! runtime hands to the kernel (`ecall`) and whose answer it returns.
use vstd::prelude::*;
use crate::syscall::{
    SYSCALL_ACCEPT, SYSCALL_CLOSE, SYSCALL_CONDVAR_CREATE, SYSCALL_CONDVAR_SIGANL,
    SYSCALL_CONDVAR_WAIT, SYSCALL_CONNECT, SYSCALL_DUP, SYSCALL_EXEC, SYSCALL_EXIT_ID,
    SYSCALL_FLUSH_FRAMEBUFFER, SYSCALL_FORK_ID, SYSCALL_GET_EVENT, SYSCALL_GET_PID,
    SYSCALL_GET_THREAD_ID, SYSCALL_GET_TIME_ID, SYSCALL_KEY_PRESSED, SYSCALL_LISTEN,
    SYSCALL_MAP_FRAMEBUFFER, SYSCALL_MUTEXT_CREATE, SYSCALL_MUTEXT_LOCK, SYSCALL_MUTEXT_UNLOCK,
    SYSCALL_OPEN, SYSCALL_PIPE, SYSCALL_READ, SYSCALL_SEMAPHORE_CREATE, SYSCALL_SEMAPHORE_DOWN,
    SYSCALL_SEMAPHORE_UP, SYSCALL_SIGACTION, SYSCALL_SIGKILL, SYSCALL_SIGMASK, SYSCALL_SIGRETURN,
    SYSCALL_SLEEP_MS, SYSCALL_THREAD_CREATE, SYSCALL_THREAD_EXIT, SYSCALL_WAIT_PID,
    SYSCALL_WAIT_THREAD, SYSCALL_WRITE_ID, SYSCALL_YIELD_ID,
};

verus! {

/// A system call as a program asks for it: the call's number and its
/// three argument words.
#[derive(Copy, Clone)]
pub struct SyscallRequest {
    pub id: usize,
    pub args: [usize; 3],
}

/// The request for call `id` with arguments `a0`, `a1`, `a2`.
pub open spec fn request(id: usize, a0: usize, a1: usize, a2: usize) -> SyscallRequest {
    SyscallRequest { id, args: [a0, a1, a2] }
}

fn make(id: usize, a0: usize, a1: usize, a2: usize) -> (r: SyscallRequest)
    ensures
        r == request(id, a0, a1, a2),
{
    SyscallRequest { id, args: [a0, a1, a2] }
}

/// Writes `len` bytes at `buf` to descriptor `fd`.
pub fn syscall_write(fd: usize, buf: usize, len: usize) -> (r: SyscallRequest)
    ensures
        r == request(SYSCALL_WRITE_ID, fd, buf, len),
{
    make(SYSCALL_WRITE_ID, fd, buf, len)
}

/// Ends the process with `exit_code`.
pub fn syscall_exit(exit_code: i32) -> (r: SyscallRequest)
    ensures
        r == request(SYSCALL_EXIT_ID, exit_code as usize, 0, 0),
{
    make(SYSCALL_EXIT_ID, exit_code as usize, 0, 0)
}

/// Gives the processor up.
pub fn syscall_yield() -> (r: SyscallRequest)
    ensures
        r == request(SYSCALL_YIELD_ID, 0, 0, 0),
{
    make(SYSCALL_YIELD_ID, 0, 0, 0)
}

/// Asks for the time in milliseconds.
pub fn syscall_get_time() -> (r: SyscallRequest)
    ensures
        r == request(SYSCALL_GET_TIME_ID, 0, 0, 0),
{
    make(SYSCALL_GET_TIME_ID, 0, 0, 0)
}

/// Forks the process.
pub fn syscall_fork() -> (r: SyscallRequest)
    ensures
        r == request(SYSCALL_FORK_ID, 0, 0, 0),
{
    make(SYSCALL_FORK_ID, 0, 0, 0)
}

/// Asks for the process id.
pub fn syscall_getpid() -> (r: SyscallRequest)
    ensures
        r == request(SYSCALL_GET_PID, 0, 0, 0),
{
    make(SYSCALL_GET_PID, 0, 0, 0)
}

/// Runs another program, described by the `buf_len` bytes at `buf_start`, with `args_num` arguments.
pub fn syscall_exec(buf_start: usize, buf_len: usize, args_num: usize) -> (r: SyscallRequest)
    ensures
        r == request(SYSCALL_EXEC, buf_start, buf_len, args_num),
{
    make(SYSCALL_EXEC, buf_start, buf_len, args_num)
}

/// Waits for child `pid` (-1: any), its exit code to be written at `exit_code`.
pub fn syscall_waitpid(pid: isize, exit_code: usize) -> (r: SyscallRequest)
    ensures
        r == request(SYSCALL_WAIT_PID, pid as usize, exit_code, 0),
{
    make(SYSCALL_WAIT_PID, pid as usize, exit_code, 0)
}

/// Reads up to `len` bytes from descriptor `fd` into `buf`.
pub fn syscall_read(fd: usize, buf: usize, len: usize) -> (r: SyscallRequest)
    ensures
        r == request(SYSCALL_READ, fd, buf, len),
{
    make(SYSCALL_READ, fd, buf, len)
}

/// Opens the file named by the `path_len` bytes at `path` with `flags`.
pub fn syscall_open(path: usize, path_len: usize, flags: u32) -> (r: SyscallRequest)
    ensures
        r == request(SYSCALL_OPEN, path, path_len, flags as usize),
{
    make(SYSCALL_OPEN, path, path_len, flags as usize)
}

/// Closes descriptor `fd`.
pub fn syscall_close(fd: usize) -> (r: SyscallRequest)
    ensures
        r == request(SYSCALL_CLOSE, fd, 0, 0),
{
    make(SYSCALL_CLOSE, fd, 0, 0)
}

/// Makes a pipe, its two descriptors to be written at `buffer`.
pub fn syscall_pipe(buffer: usize) -> (r: SyscallRequest)
    ensures
        r == request(SYSCALL_PIPE, buffer, 0, 0),
{
    make(SYSCALL_PIPE, buffer, 0, 0)
}

/// Duplicates descriptor `fd`.
pub fn syscall_dup(fd: usize) -> (r: SyscallRequest)
    ensures
        r == request(SYSCALL_DUP, fd, 0, 0),
{
    make(SYSCALL_DUP, fd, 0, 0)
}

/// Sends `signal` to process `pid`.
pub fn syscall_kill(pid: usize, signal: i32) -> (r: SyscallRequest)
    ensures
        r == request(SYSCALL_SIGKILL, pid, signal as usize, 0),
{
    make(SYSCALL_SIGKILL, pid, signal as usize, 0)
}

/// Sets the action of `signal` to the one at `action`, the old one to be written at `old_action`.
pub fn syscall_action(signal: i32, action: usize, old_action: usize) -> (r: SyscallRequest)
    ensures
        r == request(SYSCALL_SIGACTION, signal as usize, action, old_action),
{
    make(SYSCALL_SIGACTION, signal as usize, action, old_action)
}

/// Sets the signal mask.
pub fn syscall_sigmask(mask: u32) -> (r: SyscallRequest)
    ensures
        r == request(SYSCALL_SIGMASK, mask as usize, 0, 0),
{
    make(SYSCALL_SIGMASK, mask as usize, 0, 0)
}

/// Leaves a signal handler.
pub fn syscall_sigreturn() -> (r: SyscallRequest)
    ensures
        r == request(SYSCALL_SIGRETURN, 0, 0, 0),
{
    make(SYSCALL_SIGRETURN, 0, 0, 0)
}

/// Starts a thread at `thread_func`, which calls `start_func` with `arg_addr`.
pub fn syscall_thread_create(thread_func: usize, start_func: usize, arg_addr: usize) -> (r: SyscallRequest)
    ensures
        r == request(SYSCALL_THREAD_CREATE, thread_func, start_func, arg_addr),
{
    make(SYSCALL_THREAD_CREATE, thread_func, start_func, arg_addr)
}

/// Asks for the thread id.
pub fn syscall_gettid() -> (r: SyscallRequest)
    ensures
        r == request(SYSCALL_GET_THREAD_ID, 0, 0, 0),
{
    make(SYSCALL_GET_THREAD_ID, 0, 0, 0)
}

/// Waits for thread `tid`.
pub fn syscall_waittid(tid: usize) -> (r: SyscallRequest)
    ensures
        r == request(SYSCALL_WAIT_THREAD, tid, 0, 0),
{
    make(SYSCALL_WAIT_THREAD, tid, 0, 0)
}

/// Ends the thread with `exit_code`.
pub fn syscall_thread_exit(exit_code: i32) -> (r: SyscallRequest)
    ensures
        r == request(SYSCALL_THREAD_EXIT, exit_code as usize, 0, 0),
{
    make(SYSCALL_THREAD_EXIT, exit_code as usize, 0, 0)
}

/// Sleeps for `period_ms` milliseconds.
pub fn syscall_sleep(period_ms: usize) -> (r: SyscallRequest)
    ensures
        r == request(SYSCALL_SLEEP_MS, period_ms, 0, 0),
{
    make(SYSCALL_SLEEP_MS, period_ms, 0, 0)
}

/// Creates a lock, blocking or spinning.
pub fn syscall_mutex_create(blocking: bool) -> (r: SyscallRequest)
    ensures
        r == request(SYSCALL_MUTEXT_CREATE, (if blocking { 1usize } else { 0usize }), 0, 0),
{
    let a0: usize = if blocking {
        1
    } else {
        0
    };
    make(SYSCALL_MUTEXT_CREATE, a0, 0, 0)
}

/// Gives lock `mutex_id` back.
pub fn syscall_mutex_unlock(mutex_id: usize) -> (r: SyscallRequest)
    ensures
        r == request(SYSCALL_MUTEXT_UNLOCK, mutex_id, 0, 0),
{
    make(SYSCALL_MUTEXT_UNLOCK, mutex_id, 0, 0)
}

/// Takes lock `mutex_id`.
pub fn syscall_mutex_lock(mutex_id: usize) -> (r: SyscallRequest)
    ensures
        r == request(SYSCALL_MUTEXT_LOCK, mutex_id, 0, 0),
{
    make(SYSCALL_MUTEXT_LOCK, mutex_id, 0, 0)
}

/// Creates a semaphore with `res_count` resources.
pub fn syscall_semaphore_create(res_count: usize) -> (r: SyscallRequest)
    ensures
        r == request(SYSCALL_SEMAPHORE_CREATE, res_count, 0, 0),
{
    make(SYSCALL_SEMAPHORE_CREATE, res_count, 0, 0)
}

/// Returns a resource to semaphore `sem_id`.
pub fn syscall_semaphore_up(sem_id: usize) -> (r: SyscallRequest)
    ensures
        r == request(SYSCALL_SEMAPHORE_UP, sem_id, 0, 0),
{
    make(SYSCALL_SEMAPHORE_UP, sem_id, 0, 0)
}

/// Takes a resource of semaphore `sem_id`.
pub fn syscall_semaphore_down(sem_id: usize) -> (r: SyscallRequest)
    ensures
        r == request(SYSCALL_SEMAPHORE_DOWN, sem_id, 0, 0),
{
    make(SYSCALL_SEMAPHORE_DOWN, sem_id, 0, 0)
}

/// Creates a condition variable.
pub fn syscall_condvar_create() -> (r: SyscallRequest)
    ensures
        r == request(SYSCALL_CONDVAR_CREATE, 0, 0, 0),
{
    make(SYSCALL_CONDVAR_CREATE, 0, 0, 0)
}

/// Wakes one waiter of condition variable `condvar_id`.
pub fn syscall_condvar_signal(condvar_id: usize) -> (r: SyscallRequest)
    ensures
        r == request(SYSCALL_CONDVAR_SIGANL, condvar_id, 0, 0),
{
    make(SYSCALL_CONDVAR_SIGANL, condvar_id, 0, 0)
}

/// Waits on condition variable `condvar_id`, giving lock `mutex_id` back meanwhile.
pub fn syscall_condvar_wait(condvar_id: usize, mutex_id: usize) -> (r: SyscallRequest)
    ensures
        r == request(SYSCALL_CONDVAR_WAIT, condvar_id, mutex_id, 0),
{
    make(SYSCALL_CONDVAR_WAIT, condvar_id, mutex_id, 0)
}

/// Maps the frame buffer and asks for its address.
pub fn syscall_get_fb_addr() -> (r: SyscallRequest)
    ensures
        r == request(SYSCALL_MAP_FRAMEBUFFER, 0, 0, 0),
{
    make(SYSCALL_MAP_FRAMEBUFFER, 0, 0, 0)
}

/// Shows the frame buffer.
pub fn syscall_framebuffer_flush() -> (r: SyscallRequest)
    ensures
        r == request(SYSCALL_FLUSH_FRAMEBUFFER, 0, 0, 0),
{
    make(SYSCALL_FLUSH_FRAMEBUFFER, 0, 0, 0)
}

/// Asks for an input event.
pub fn syscall_event_get() -> (r: SyscallRequest)
    ensures
        r == request(SYSCALL_GET_EVENT, 0, 0, 0),
{
    make(SYSCALL_GET_EVENT, 0, 0, 0)
}

/// Asks whether a key was pressed.
pub fn syscall_key_pressed() -> (r: SyscallRequest)
    ensures
        r == request(SYSCALL_KEY_PRESSED, 0, 0, 0),
{
    make(SYSCALL_KEY_PRESSED, 0, 0, 0)
}

/// Opens a UDP socket from port `sport` to port `dport` of address `ip`.
pub fn syscall_connect(ip: u32, sport: u16, dport: u16) -> (r: SyscallRequest)
    ensures
        r == request(SYSCALL_CONNECT, ip as usize, sport as usize, dport as usize),
{
    make(SYSCALL_CONNECT, ip as usize, sport as usize, dport as usize)
}

/// Listens on port `sport`.
pub fn syscall_listen(sport: u16) -> (r: SyscallRequest)
    ensures
        r == request(SYSCALL_LISTEN, sport as usize, 0, 0),
{
    make(SYSCALL_LISTEN, sport as usize, 0, 0)
}

/// Accepts a connection on port `socket_fd`.
pub fn syscall_accept(socket_fd: usize) -> (r: SyscallRequest)
    ensures
        r == request(SYSCALL_ACCEPT, socket_fd, 0, 0),
{
    make(SYSCALL_ACCEPT, socket_fd, 0, 0)
}

} // verus!
