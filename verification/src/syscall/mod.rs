//! The system calls: what the kernel does when a task asks.
use vstd::prelude::*;
use crate::fs::FileRef;
use crate::task::lifecycle::{
    can_add_thread,
    can_exit_app,
    can_fork,
    exit_app_post,
    exit_thread_kernel_post,
    fork_post,
    kids_exist,
    new_thread_post,
    schedule_post,
    wait_any_post,
    wait_single_post,
};
use crate::task::manager::{
    Kernel,
    condvar_step_post,
    lock_step_post,
    only_proc_changed,
    sem_count_fits,
    sem_step_post,
};
use crate::task::process::{
    OS_MAX_FILE_DESCRIPTOR_NUM,
    add_condvar_post,
    add_lock_post,
    add_semaphore_post,
    dup_fd_post,
    has_free,
    mask_signal_post,
    remove_fd_post,
    set_fd_post,
    set_signal_post,
    wait_thread_post,
};
use crate::syscall::fs::{can_open, cur_fds, has_two_free, pipe_fds_post, read_decision, write_decision};
use crate::syscall::process::{sleep_post, wait_pid_post};

pub mod fs;
pub mod input;
pub mod net;
pub mod process;
pub mod sync;
pub mod thread;
pub mod outcome;

verus! {

pub const SYSCALL_EXIT_ID: usize = 0;
pub const SYSCALL_WRITE_ID: usize = 1;
pub const SYSCALL_YIELD_ID: usize = 2;
pub const SYSCALL_GET_TIME_ID: usize = 3;
pub const SYSCALL_FORK_ID: usize = 4;
pub const SYSCALL_GET_PID: usize = 5;
pub const SYSCALL_WAIT_PID: usize = 6;
pub const SYSCALL_EXEC: usize = 7;
pub const SYSCALL_READ: usize = 8;
pub const SYSCALL_OPEN: usize = 9;
pub const SYSCALL_CLOSE: usize = 10;
pub const SYSCALL_PIPE: usize = 11;
pub const SYSCALL_DUP: usize = 12;
pub const SYSCALL_SIGKILL: usize = 13;
pub const SYSCALL_SIGACTION: usize = 14;
pub const SYSCALL_SIGMASK: usize = 15;
pub const SYSCALL_SIGRETURN: usize = 16;
pub const SYSCALL_THREAD_CREATE: usize = 17;
pub const SYSCALL_GET_THREAD_ID: usize = 18;
pub const SYSCALL_WAIT_THREAD: usize = 19;
pub const SYSCALL_THREAD_EXIT: usize = 20;
pub const SYSCALL_SLEEP_MS: usize = 21;
pub const SYSCALL_MUTEXT_CREATE: usize = 22;
pub const SYSCALL_MUTEXT_LOCK: usize = 23;
pub const SYSCALL_MUTEXT_UNLOCK: usize = 24;
pub const SYSCALL_SEMAPHORE_CREATE: usize = 25;
pub const SYSCALL_SEMAPHORE_DOWN: usize = 26;
pub const SYSCALL_SEMAPHORE_UP: usize = 27;
pub const SYSCALL_CONDVAR_CREATE: usize = 28;
pub const SYSCALL_CONDVAR_SIGANL: usize = 29;
pub const SYSCALL_CONDVAR_WAIT: usize = 30;
pub const SYSCALL_ACCEPT: usize = 31;
pub const SYSCALL_LISTEN: usize = 32;
pub const SYSCALL_CONNECT: usize = 33;
pub const SYSCALL_MAP_FRAMEBUFFER: usize = 34;
pub const SYSCALL_FLUSH_FRAMEBUFFER: usize = 35;
pub const SYSCALL_GET_EVENT: usize = 36;
pub const SYSCALL_KEY_PRESSED: usize = 37;

/// What is left to do for a system call once the kernel's state has been
/// updated: nothing but returning a value, or work on user memory, files,
/// devices or the network, which the caller does.
pub enum SyscallOutcome {
    /// the call is over; this is its value
    Done(isize),
    /// the exit code of a collected child is to be written at `ptr`; the
    /// call's value is `ret`
    WriteExitCode { ptr: usize, code: i32, ret: isize },
    /// `len` bytes at user address `buf` are to be read from `file`
    Read { file: FileRef, buf: usize, len: usize },
    /// `len` bytes at user address `buf` are to be written to `file`
    Write { file: FileRef, buf: usize, len: usize },
    /// the two descriptors of a new pipe are to be written at `ptr`; the
    /// call's value is 0
    WritePipeFds { ptr: usize, read_fd: usize, write_fd: usize },
    /// the new thread `tid`'s trap context is to be written: it starts at
    /// `entry` with arguments `start_func` and `arg_addr`
    InitThread { tid: isize, entry: usize, start_func: usize, arg_addr: usize },
    /// a program is to be loaded, as the arguments describe
    Exec { args: usize, len: usize, args_num: usize },
    /// the file named at `path` (`len` bytes) is to be opened with `flags`
    Open { path: usize, len: usize, flags: u32 },
    /// the action of signal `signum` is to be read at `action` and the old
    /// one written at `old_action`
    SigAction { signum: i32, action: usize, old_action: usize },
    /// the trap context saved before the signal handler ran is to be put back
    SigReturn,
    /// a connection on port `port_index` is to be accepted
    Accept { port_index: usize },
    /// port `port` is to be listened on
    Listen { port: u16 },
    /// the frame buffer is to be mapped into the caller
    MapFramebuffer,
    /// the frame buffer is to be shown
    FlushFramebuffer,
    /// an input event is to be read
    EventGet,
    /// the console is to be asked whether a key was pressed
    KeyPressed,
}

/// What the kernel needs for system call `id` with arguments `args`, as
/// each handler asks; an unknown call makes the kernel panic.
pub open spec fn syscall_ready(k: Kernel, id: usize, args: [usize; 3], now_ticks: usize) -> bool {
    &&& id <= 37
    &&& id == SYSCALL_EXIT_ID ==> can_exit_app(k)
    &&& (id == SYSCALL_WRITE_ID || id == SYSCALL_READ || id == SYSCALL_CLOSE || id == SYSCALL_SIGMASK
        || id == SYSCALL_WAIT_THREAD || id == SYSCALL_MUTEXT_CREATE) ==> k.has_current()
    &&& id == SYSCALL_FORK_ID ==> can_fork(k)
    &&& id == SYSCALL_WAIT_PID ==> k.has_current() && kids_exist(k)
    &&& id == SYSCALL_PIPE ==> k.has_current() && has_two_free(cur_fds(k), OS_MAX_FILE_DESCRIPTOR_NUM as nat)
        && k.pipes@.len() < usize::MAX
    &&& id == SYSCALL_DUP ==> k.has_current() && (cur_fds(k).contains_key(args[0]) ==> has_free(
        cur_fds(k),
        OS_MAX_FILE_DESCRIPTOR_NUM as nat,
    ))
    &&& id == SYSCALL_SIGKILL ==> (args[1] as i32) < 32 ==> {
        &&& 0 <= args[1] as i32
        &&& k.procs().contains_key(
            if args[0] == 0 {
                k.cur_pid()
            } else {
                args[0]
            },
        )
    }
    &&& id == SYSCALL_THREAD_CREATE ==> can_add_thread(k)
    &&& (id == SYSCALL_THREAD_EXIT || id == SYSCALL_MUTEXT_LOCK || id == SYSCALL_MUTEXT_UNLOCK
        || id == SYSCALL_CONDVAR_SIGANL || id == SYSCALL_CONDVAR_WAIT) ==> k.has_current_thread()
    &&& id == SYSCALL_SLEEP_MS ==> k.has_current_thread() && now_ticks / 12500 + args[0] <= usize::MAX
    &&& id == SYSCALL_SEMAPHORE_CREATE ==> k.has_current() && k.cur_proc().semaphores@.len() < 0x7FFF_FFFF
    &&& (id == SYSCALL_SEMAPHORE_UP || id == SYSCALL_SEMAPHORE_DOWN) ==> k.has_current_thread()
        && sem_count_fits(k.cur_proc(), args[0])
    &&& id == SYSCALL_CONDVAR_CREATE ==> k.has_current() && k.cur_proc().condvars@.len() < 0x7FFF_FFFF
    &&& id == SYSCALL_CONNECT ==> can_open(k)
}

/// The value of a finished call, if it is one.
pub open spec fn done_value(r: SyscallOutcome) -> Option<isize> {
    match r {
        SyscallOutcome::Done(v) => Some(v),
        _ => None,
    }
}

/// What a read or a write decided, as an outcome.
pub open spec fn access_outcome(d: Result<FileRef, isize>, write: bool, buf: usize, len: usize) -> SyscallOutcome {
    match d {
        Ok(file) => if write {
            SyscallOutcome::Write { file, buf, len }
        } else {
            SyscallOutcome::Read { file, buf, len }
        },
        Err(e) => SyscallOutcome::Done(e),
    }
}

/// What a wait for a child leaves to do: write the collected child's exit
/// code at `ptr`, or nothing.
pub open spec fn wait_outcome(w: (isize, Option<i32>), ptr: usize) -> SyscallOutcome {
    match w.1 {
        Some(code) => SyscallOutcome::WriteExitCode { ptr, code, ret: w.0 },
        None => SyscallOutcome::Done(w.0),
    }
}

/// What system call `id` does to the kernel (`a` before, `b` after) and
/// what is left to do (`r`): each call does what its handler says.
pub open spec fn dispatch_post(
    a: Kernel,
    b: Kernel,
    id: usize,
    args: [usize; 3],
    now_ticks: usize,
    trap_return: u64,
    r: SyscallOutcome,
) -> bool {
    let v = done_value(r);
    if id == SYSCALL_EXIT_ID {
        v == Some(0isize) && exists|m: Kernel|
            #[trigger] exit_app_post(a, m, args[0] as isize) && schedule_post(m, b)
    } else if id == SYSCALL_WRITE_ID {
        b == a && r == access_outcome(write_decision(a, args[0], args[2]), true, args[1], args[2])
    } else if id == SYSCALL_YIELD_ID {
        v == Some(0isize) && b.tasks.readylist@ == a.tasks.readylist@.push(a.tasks.cur_app).drop_first()
            && b.tasks.cur_app == a.tasks.readylist@.push(a.tasks.cur_app)[0] && b.procs() == a.procs()
    } else if id == SYSCALL_GET_TIME_ID {
        b == a && v == Some((now_ticks / 12500) as isize)
    } else if id == SYSCALL_FORK_ID {
        exists|pid: usize| #[trigger] fork_post(a, b, trap_return, pid) && v == Some(pid as isize)
    } else if id == SYSCALL_GET_PID {
        b == a && v == Some(a.cur_pid() as isize)
    } else if id == SYSCALL_WAIT_PID {
        exists|w: (isize, Option<i32>)|
            #[trigger] wait_pid_post(a, b, args[0] as isize, w) && r == wait_outcome(w, args[1])
    } else if id == SYSCALL_EXEC {
        b == a && r == (SyscallOutcome::Exec { args: args[0], len: args[1], args_num: args[2] })
    } else if id == SYSCALL_READ {
        b == a && r == access_outcome(read_decision(a, args[0], args[2]), false, args[1], args[2])
    } else if id == SYSCALL_OPEN {
        b == a && r == (SyscallOutcome::Open { path: args[0], len: args[1], flags: args[2] as u32 })
    } else if id == SYSCALL_CLOSE {
        only_proc_changed(a, b, a.cur_pid()) && v.is_some() && remove_fd_post(
            a.cur_proc(),
            b.procs()[a.cur_pid()],
            args[0],
            v.unwrap(),
        )
    } else if id == SYSCALL_PIPE {
        exists|rfd: usize, wfd: usize|
            #[trigger] pipe_fds_post(
                a.cur_proc(),
                b.procs()[a.cur_pid()],
                a.pipes@.len() as usize,
                rfd,
                wfd,
            ) && r == (SyscallOutcome::WritePipeFds { ptr: args[0], read_fd: rfd, write_fd: wfd })
                && b.pipes@.drop_last() == a.pipes@ && b.pipes@.len() == a.pipes@.len() + 1
    } else if id == SYSCALL_DUP {
        only_proc_changed(a, b, a.cur_pid()) && v.is_some() && dup_fd_post(
            a.cur_proc(),
            b.procs()[a.cur_pid()],
            args[0],
            v.unwrap(),
        )
    } else if id == SYSCALL_SIGKILL {
        let signum = args[1] as i32;
        if signum >= 32 {
            v == Some(-1isize) && b == a
        } else {
            let target = if args[0] == 0 {
                a.cur_pid()
            } else {
                args[0]
            };
            only_proc_changed(a, b, target) && v.is_some() && set_signal_post(
                a.procs()[target],
                b.procs()[target],
                signum,
                v.unwrap(),
            )
        }
    } else if id == SYSCALL_SIGACTION {
        b == a && r == (SyscallOutcome::SigAction { signum: args[0] as i32, action: args[1], old_action: args[2] })
    } else if id == SYSCALL_SIGMASK {
        only_proc_changed(a, b, a.cur_pid()) && v.is_some() && mask_signal_post(
            a.cur_proc(),
            b.procs()[a.cur_pid()],
            args[0] as i32,
            v.unwrap(),
        )
    } else if id == SYSCALL_SIGRETURN {
        b == a && r == SyscallOutcome::SigReturn
    } else if id == SYSCALL_THREAD_CREATE {
        exists|tid: isize|
            #[trigger] new_thread_post(a, b, trap_return, tid) && r == (SyscallOutcome::InitThread {
                tid,
                entry: args[0],
                start_func: args[1],
                arg_addr: args[2],
            })
    } else if id == SYSCALL_GET_THREAD_ID {
        b == a && v == Some(a.cur_tid() as isize)
    } else if id == SYSCALL_WAIT_THREAD {
        if args[0] == a.cur_tid() {
            v == Some(-1isize) && b == a
        } else {
            only_proc_changed(a, b, a.cur_pid()) && v.is_some() && wait_thread_post(
                a.cur_proc(),
                b.procs()[a.cur_pid()],
                args[0],
                v.unwrap(),
            )
        }
    } else if id == SYSCALL_THREAD_EXIT {
        v == Some(0isize) && exists|m: Kernel|
            #[trigger] exit_thread_kernel_post(a, m, args[0] as i32) && schedule_post(m, b)
    } else if id == SYSCALL_SLEEP_MS {
        v == Some(0isize) && sleep_post(a, b, (now_ticks / 12500 + args[0]) as usize)
    } else if id == SYSCALL_MUTEXT_CREATE {
        only_proc_changed(a, b, a.cur_pid()) && v.is_some() && add_lock_post(
            a.cur_proc(),
            b.procs()[a.cur_pid()],
            args[0] != 0,
            v.unwrap(),
        )
    } else if id == SYSCALL_MUTEXT_LOCK || id == SYSCALL_MUTEXT_UNLOCK {
        v.is_some() && lock_step_post(a, b, args[0], id == SYSCALL_MUTEXT_LOCK, v.unwrap())
    } else if id == SYSCALL_SEMAPHORE_CREATE {
        only_proc_changed(a, b, a.cur_pid()) && v.is_some() && add_semaphore_post(
            a.cur_proc(),
            b.procs()[a.cur_pid()],
            args[0],
            v.unwrap(),
        )
    } else if id == SYSCALL_SEMAPHORE_UP || id == SYSCALL_SEMAPHORE_DOWN {
        v.is_some() && sem_step_post(a, b, args[0], id == SYSCALL_SEMAPHORE_UP, v.unwrap())
    } else if id == SYSCALL_CONDVAR_CREATE {
        only_proc_changed(a, b, a.cur_pid()) && v.is_some() && add_condvar_post(
            a.cur_proc(),
            b.procs()[a.cur_pid()],
            v.unwrap(),
        )
    } else if id == SYSCALL_CONDVAR_SIGANL {
        v.is_some() && condvar_step_post(a, b, args[0], 0, true, v.unwrap())
    } else if id == SYSCALL_CONDVAR_WAIT {
        v.is_some() && condvar_step_post(a, b, args[0], args[1], false, v.unwrap())
    } else if id == SYSCALL_ACCEPT {
        b == a && r == (SyscallOutcome::Accept { port_index: args[0] })
    } else if id == SYSCALL_LISTEN {
        b == a && r == (SyscallOutcome::Listen { port: args[0] as u16 })
    } else if id == SYSCALL_CONNECT {
        let file = FileRef::Udp { raddr: args[0] as u32, lport: args[1] as u16, rport: args[2] as u16 };
        only_proc_changed(a, b, a.cur_pid()) && v.is_some() && v.unwrap() >= 0 && set_fd_post(
            a.cur_proc(),
            b.procs()[a.cur_pid()],
            file,
            v.unwrap() as usize,
        )
    } else if id == SYSCALL_MAP_FRAMEBUFFER {
        b == a && r == SyscallOutcome::MapFramebuffer
    } else if id == SYSCALL_FLUSH_FRAMEBUFFER {
        b == a && r == SyscallOutcome::FlushFramebuffer
    } else if id == SYSCALL_GET_EVENT {
        b == a && r == SyscallOutcome::EventGet
    } else {
        b == a && r == SyscallOutcome::KeyPressed
    }
}

/// Carries out system call `syscall_id` with arguments `args` for the
/// running task. `now_ticks` is the clock's count and `trap_return` the
/// code through which new threads enter user mode. Returns the call's value,
/// or what the caller still has to do on user memory, files or devices.
#[verifier::rlimit(40)]
pub fn syscall_fn(
    k: &mut Kernel,
    syscall_id: usize,
    args: [usize; 3],
    now_ticks: usize,
    trap_return: u64,
) -> (r: SyscallOutcome)
    requires
        syscall_ready(*old(k), syscall_id, args, now_ticks),
    ensures
        dispatch_post(*old(k), *final(k), syscall_id, args, now_ticks, trap_return, r),
{
    if syscall_id == SYSCALL_EXIT_ID {
        SyscallOutcome::Done(process::syscall_exit(k, args[0] as isize))
    } else if syscall_id == SYSCALL_WRITE_ID {
        match fs::syscall_write(k, args[0], args[2]) {
            Ok(file) => SyscallOutcome::Write { file, buf: args[1], len: args[2] },
            Err(e) => SyscallOutcome::Done(e),
        }
    } else if syscall_id == SYSCALL_YIELD_ID {
        SyscallOutcome::Done(process::syscall_yield(k))
    } else if syscall_id == SYSCALL_GET_TIME_ID {
        SyscallOutcome::Done(process::syscall_get_time(now_ticks))
    } else if syscall_id == SYSCALL_FORK_ID {
        SyscallOutcome::Done(process::syscall_fork(k, trap_return))
    } else if syscall_id == SYSCALL_GET_PID {
        SyscallOutcome::Done(process::syscall_get_pid(k))
    } else if syscall_id == SYSCALL_WAIT_PID {
        let w = process::syscall_wait_pid(k, args[0] as isize);
        match w.1 {
            Some(code) => SyscallOutcome::WriteExitCode { ptr: args[1], code, ret: w.0 },
            None => SyscallOutcome::Done(w.0),
        }
    } else if syscall_id == SYSCALL_EXEC {
        SyscallOutcome::Exec { args: args[0], len: args[1], args_num: args[2] }
    } else if syscall_id == SYSCALL_READ {
        match fs::syscall_read(k, args[0], args[2]) {
            Ok(file) => SyscallOutcome::Read { file, buf: args[1], len: args[2] },
            Err(e) => SyscallOutcome::Done(e),
        }
    } else if syscall_id == SYSCALL_OPEN {
        SyscallOutcome::Open { path: args[0], len: args[1], flags: args[2] as u32 }
    } else if syscall_id == SYSCALL_CLOSE {
        SyscallOutcome::Done(fs::syscall_close(k, args[0]))
    } else if syscall_id == SYSCALL_PIPE {
        let (_, read_fd, write_fd) = fs::syscall_pipe(k);
        SyscallOutcome::WritePipeFds { ptr: args[0], read_fd, write_fd }
    } else if syscall_id == SYSCALL_DUP {
        SyscallOutcome::Done(fs::syscall_dup(k, args[0]))
    } else if syscall_id == SYSCALL_SIGKILL {
        SyscallOutcome::Done(process::syscall_kill(k, args[0], args[1] as i32))
    } else if syscall_id == SYSCALL_SIGACTION {
        SyscallOutcome::SigAction { signum: args[0] as i32, action: args[1], old_action: args[2] }
    } else if syscall_id == SYSCALL_SIGMASK {
        SyscallOutcome::Done(process::syscall_setmask(k, args[0] as i32))
    } else if syscall_id == SYSCALL_SIGRETURN {
        SyscallOutcome::SigReturn
    } else if syscall_id == SYSCALL_THREAD_CREATE {
        let tid = thread::syscall_thread_create(k, trap_return);
        SyscallOutcome::InitThread { tid, entry: args[0], start_func: args[1], arg_addr: args[2] }
    } else if syscall_id == SYSCALL_GET_THREAD_ID {
        SyscallOutcome::Done(thread::syscall_get_tid(k))
    } else if syscall_id == SYSCALL_WAIT_THREAD {
        SyscallOutcome::Done(thread::syscall_wait_tid(k, args[0]))
    } else if syscall_id == SYSCALL_THREAD_EXIT {
        SyscallOutcome::Done(thread::syscall_thread_exit(k, args[0] as i32))
    } else if syscall_id == SYSCALL_SLEEP_MS {
        SyscallOutcome::Done(process::syscall_sleep_ms(k, args[0], now_ticks))
    } else if syscall_id == SYSCALL_MUTEXT_CREATE {
        SyscallOutcome::Done(sync::syscall_mutex_create(k, args[0] != 0))
    } else if syscall_id == SYSCALL_MUTEXT_LOCK {
        SyscallOutcome::Done(sync::syscall_mutex_lock(k, args[0]))
    } else if syscall_id == SYSCALL_MUTEXT_UNLOCK {
        SyscallOutcome::Done(sync::syscall_mutex_unlock(k, args[0]))
    } else if syscall_id == SYSCALL_SEMAPHORE_CREATE {
        SyscallOutcome::Done(sync::syscall_semaphore_create(k, args[0]))
    } else if syscall_id == SYSCALL_SEMAPHORE_UP {
        SyscallOutcome::Done(sync::syscall_semaphore_up(k, args[0]))
    } else if syscall_id == SYSCALL_SEMAPHORE_DOWN {
        SyscallOutcome::Done(sync::syscall_semaphore_down(k, args[0]))
    } else if syscall_id == SYSCALL_CONDVAR_CREATE {
        SyscallOutcome::Done(sync::syscall_condvar_create(k))
    } else if syscall_id == SYSCALL_CONDVAR_SIGANL {
        SyscallOutcome::Done(sync::syscall_condvar_signal(k, args[0]))
    } else if syscall_id == SYSCALL_CONDVAR_WAIT {
        SyscallOutcome::Done(sync::syscall_condvar_wait(k, args[0], args[1]))
    } else if syscall_id == SYSCALL_ACCEPT {
        SyscallOutcome::Accept { port_index: args[0] }
    } else if syscall_id == SYSCALL_LISTEN {
        SyscallOutcome::Listen { port: args[0] as u16 }
    } else if syscall_id == SYSCALL_CONNECT {
        SyscallOutcome::Done(net::syscall_connect(k, args[0] as u32, args[1] as u16, args[2] as u16))
    } else if syscall_id == SYSCALL_MAP_FRAMEBUFFER {
        SyscallOutcome::MapFramebuffer
    } else if syscall_id == SYSCALL_FLUSH_FRAMEBUFFER {
        SyscallOutcome::FlushFramebuffer
    } else if syscall_id == SYSCALL_GET_EVENT {
        SyscallOutcome::EventGet
    } else {
        SyscallOutcome::KeyPressed
    }
}

} // verus!
