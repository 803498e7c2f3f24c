//! System calls on processes, signals and time.
use vstd::prelude::*;
use crate::task::action::SignalAction;
use crate::task::lifecycle::{
    can_fork,
    fork_post,
    can_exit_app,
    exit_app_post,
    kids_exist,
    schedule_post,
    wait_any_post,
    wait_single_post,
};
use crate::task::manager::{Kernel, block_run_post, only_proc_changed};
use crate::task::process::{active_signal_post, mask_signal_post, set_signal_post};
use crate::timer::{TimerCondVar, add_timer, get_time_in_ms};
use crate::mm::page_table::PhysMemory;
use crate::task::trap_context::{restore_after_signal, signal_left};

verus! {

/// The running task yields and the front of the ready queue runs; returns 0.
pub fn syscall_yield(k: &mut Kernel) -> (r: isize)
    ensures
        r == 0,
        final(k).tasks.readylist@ == old(k).tasks.readylist@.push(old(k).tasks.cur_app).drop_first(),
        final(k).tasks.cur_app == old(k).tasks.readylist@.push(old(k).tasks.cur_app)[0],
        final(k).procs() == old(k).procs(),
        final(k).pids == old(k).pids,
        final(k).timers@ == old(k).timers@,
        final(k).relocks@ == old(k).relocks@,
        final(k).panicked == old(k).panicked,
{
    k.suspend_task_and_run_next();
    0
}

/// Ends the running task's process with `code` and runs the next task;
/// returns 0.
pub fn syscall_exit(k: &mut Kernel, code: isize) -> (r: isize)
    requires
        can_exit_app(*old(k)),
    ensures
        r == 0,
        exists|m: Kernel| #[trigger] exit_app_post(*old(k), m, code) && schedule_post(m, *final(k)),
{
    k.exit_process_and_run_next(code);
    0
}

/// The pid of the running task.
pub fn syscall_get_pid(k: &Kernel) -> (r: isize)
    ensures
        r == k.cur_pid() as isize,
{
    k.get_current_task().to_pid() as isize
}

/// What waiting for any child (`pid` is -1) or for child `pid` does.
pub open spec fn wait_pid_post(a: Kernel, b: Kernel, pid: isize, r: (isize, Option<i32>)) -> bool {
    if pid == -1 {
        wait_any_post(a, b, r)
    } else {
        wait_single_post(a, b, pid, r)
    }
}

/// Waits for any child (`pid` is -1) or for child `pid`; returns the
/// collected child's pid and the exit code to write to the caller, -1 when
/// there is nothing to wait for, -2 while the child runs.
pub fn syscall_wait_pid(k: &mut Kernel, pid: isize) -> (r: (isize, Option<i32>))
    requires
        old(k).has_current(),
        kids_exist(*old(k)),
    ensures
        wait_pid_post(*old(k), *final(k), pid, r),
{
    if pid == -1 {
        k.wait_any_child()
    } else {
        k.wait_single_child(pid)
    }
}

/// Sets the signal mask of the running task's process; returns the old
/// mask, or -1 when `mask` holds an unknown signal.
pub fn syscall_setmask(k: &mut Kernel, mask: i32) -> (r: isize)
    requires
        old(k).has_current(),
    ensures
        only_proc_changed(*old(k), *final(k), old(k).cur_pid()),
        mask_signal_post(old(k).cur_proc(), final(k).procs()[old(k).cur_pid()], mask, r),
{
    k.set_signal_mask(mask)
}

/// Sets the action of signal `signum` of the running task's process to
/// `new_action`, which the caller passed at address `action`; returns 0 and
/// the old action, to be written at address `old_action`, or -1 when the
/// request is not valid.
pub fn syscall_signal_action(
    k: &mut Kernel,
    signum: i32,
    action: usize,
    old_action: usize,
    new_action: SignalAction,
) -> (r: (isize, Option<SignalAction>))
    requires
        old(k).has_current(),
    ensures
        only_proc_changed(*old(k), *final(k), old(k).cur_pid()),
        active_signal_post(
            old(k).cur_proc(),
            final(k).procs()[old(k).cur_pid()],
            signum as usize,
            action,
            old_action,
            new_action,
            r,
        ),
{
    k.set_signal_action(signum, action, old_action, new_action)
}

/// Leaves the running signal handler: the trap context saved when it was
/// entered, half a page on in frame `f` (the running thread's trap-context
/// page), is copied back, and its `a0` is returned.
pub fn syscall_sigreturn(k: &mut Kernel, m: &mut PhysMemory, f: u64) -> (r: isize)
    requires
        old(k).has_current(),
        old(m).has_frame(f),
    ensures
        r == old(m).word(f, 266) as isize,
        only_proc_changed(*old(k), *final(k), old(k).cur_pid()),
        final(k).procs()[old(k).cur_pid()].sig_handler == (crate::task::action::SignalHandler {
            cur_signum: -1isize,
            ..old(k).cur_proc().sig_handler
        }),
        crate::task::process::same_but_signals(old(k).cur_proc(), final(k).procs()[old(k).cur_pid()]),
        signal_left(*old(m), *final(m), f),
{
    k.return_from_signal();
    let a0 = restore_after_signal(m, f);
    a0 as isize
}

/// Sends signal `signum` to process `pid` (0: the running task's process);
/// returns 0, or -1 when the signal is unknown or already pending.
pub fn syscall_kill(k: &mut Kernel, pid: usize, signum: i32) -> (r: isize)
    requires
        signum < 32 ==> {
            &&& 0 <= signum
            &&& old(k).procs().contains_key(
                if pid == 0 {
                    old(k).cur_pid()
                } else {
                    pid
                },
            )
        },
    ensures
        signum >= 32 ==> r == -1 && *final(k) == *old(k),
        signum < 32 ==> ({
            let target = if pid == 0 {
                old(k).cur_pid()
            } else {
                pid
            };
            &&& only_proc_changed(*old(k), *final(k), target)
            &&& set_signal_post(old(k).procs()[target], final(k).procs()[target], signum, r)
        }),
{
    k.set_signal(pid, signum)
}

/// What sleeping does: a timer for the running task that expires at
/// `expire_ms` joins the timers, then the task blocks and the next runs.
pub open spec fn sleep_post(a: Kernel, b: Kernel, expire_ms: usize) -> bool {
    exists|m: Kernel|
        #[trigger] block_run_post(m, b) && m == (Kernel {
            timers: m.timers,
            ..a
        }) && m.timers@ == a.timers@.push(TimerCondVar { expire_ms, task_id: a.tasks.cur_app })
}

/// The running task sleeps for `period_ms` milliseconds from now
/// (`now_ticks`, the clock's count); returns 0.
pub fn syscall_sleep_ms(k: &mut Kernel, period_ms: usize, now_ticks: usize) -> (r: isize)
    requires
        old(k).has_current_thread(),
        now_ticks / 12500 + period_ms <= usize::MAX,
    ensures
        r == 0,
        sleep_post(*old(k), *final(k), (now_ticks / 12500 + period_ms) as usize),
{
    let expire_ms = get_time_in_ms(now_ticks) + period_ms;
    let cur = k.get_current_task();
    add_timer(&mut k.timers, expire_ms, cur);
    let ghost m = *k;
    k.block_task_and_run_next();
    proof {
        assert(m == (Kernel { timers: m.timers, ..*old(k) }));
    }
    0
}

/// The time in milliseconds at clock count `now_ticks`.
pub fn syscall_get_time(now_ticks: usize) -> (r: isize)
    ensures
        r == (now_ticks / 12500) as isize,
{
    get_time_in_ms(now_ticks) as isize
}

/// Forks the running task's process; returns the child's pid. The child's
/// thread goes back to user mode through `trap_return`.
pub fn syscall_fork(k: &mut Kernel, trap_return: u64) -> (r: isize)
    requires
        can_fork(*old(k)),
    ensures
        exists|pid: usize| #[trigger] fork_post(*old(k), *final(k), trap_return, pid) && r == pid as isize,
{
    k.fork_new_app(trap_return) as isize
}

} // verus!
