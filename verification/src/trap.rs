//! What the kernel does when a trap comes in: from user mode (a system
//! call, a fault, the timer, a device) and from kernel mode.
use vstd::prelude::*;
use crate::mm::memory_set::{get_user_trap_context_start, user_trap_context_start};
use crate::mm::page_table::PhysMemory;
use crate::syscall::{SyscallOutcome, dispatch_post, syscall_fn, syscall_ready};
use crate::task::TaskhandleStatus;
use crate::task::lifecycle::{can_exit_app, exit_app_post, schedule_post, suspend_post, timer_check_post};
use crate::task::manager::{Kernel, only_proc_changed, signals_handled};
use crate::task::process::{lemma_scan_signum, set_signal_post, signal_scan};
use crate::task::signal::{SIGILL, SIGSEGV};
use crate::task::trap_context::{TrapContext, signal_entered};
use crate::timer::{get_time_in_ms, set_timer_trigger};

verus! {

/// Why the processor trapped, as the `scause` register tells it (the
/// causes the kernel handles).
#[derive(Copy, Clone, PartialEq, Eq, Structural)]
pub enum TrapCause {
    UserEnvCall,
    StoreFault,
    StorePageFault,
    InstructionFault,
    InstructionPageFault,
    LoadFault,
    LoadPageFault,
    IllegalInstruction,
    SupervisorTimer,
    SupervisorExternal,
}

/// What is left to do once a trap from user mode has been handled.
pub enum TrapAction {
    /// a system call ran; what it leaves to do
    Syscall(SyscallOutcome),
    /// a fault: the running process was sent a signal (what sending it
    /// returned)
    Signaled(isize),
    /// the timer fired: set the next one for tick `0`; another task runs
    Timer(usize),
    /// a device interrupt is to be served
    External,
}

/// The signal that a fault sends to the running process.
pub open spec fn fault_signal(c: TrapCause) -> Option<i32> {
    match c {
        TrapCause::StoreFault | TrapCause::StorePageFault | TrapCause::InstructionFault
        | TrapCause::InstructionPageFault | TrapCause::LoadFault | TrapCause::LoadPageFault => Some(SIGSEGV),
        TrapCause::IllegalInstruction => Some(SIGILL),
        _ => None,
    }
}

/// The arguments of the system call that `cx` asks for: registers a0 to a2.
pub open spec fn syscall_args(cx: TrapContext) -> [usize; 3] {
    [cx.cr[10] as usize, cx.cr[11] as usize, cx.cr[12] as usize]
}

/// A trap from user mode with cause `cause` can be handled: there is a
/// running process, and a system call is one that can run.
pub open spec fn user_trap_ready(k: Kernel, cx: TrapContext, cause: TrapCause, now_ticks: usize) -> bool {
    &&& k.has_current()
    &&& user_trap_context_start(k.cur_tid() as nat) <= u64::MAX
    &&& cause == TrapCause::UserEnvCall ==> cx.sepc + 4 <= u64::MAX && syscall_ready(
        k,
        cx.cr[17] as usize,
        syscall_args(cx),
        now_ticks,
    )
    &&& cause == TrapCause::SupervisorTimer ==> now_ticks + 125000 <= usize::MAX
}

/// What handling a trap from user mode does to the kernel `a` (giving `b`)
/// and to the trap context `c0` (giving `c1`), and what it leaves to do.
pub open spec fn user_trap_post(
    a: Kernel,
    b: Kernel,
    c0: TrapContext,
    c1: TrapContext,
    cause: TrapCause,
    now_ticks: usize,
    trap_return: u64,
    r: TrapAction,
) -> bool {
    &&& c1.context_addr == user_trap_context_start(a.cur_tid() as nat) as u64
    &&& c1.sstatus == c0.sstatus
    &&& c1.kernel_stack == c0.kernel_stack
    &&& c1.kernel_stap == c0.kernel_stap
    &&& c1.user_stap == c0.user_stap
    &&& c1.trap_handler == c0.trap_handler
    &&& if cause == TrapCause::UserEnvCall {
        &&& c1.sepc == c0.sepc + 4
        &&& r matches TrapAction::Syscall(o)
        &&& dispatch_post(a, b, c0.cr[17] as usize, syscall_args(c0), now_ticks, trap_return, o)
        &&& c1.cr@ == (match o {
            SyscallOutcome::Done(v) => c0.cr@.update(10, v as u64),
            _ => c0.cr@,
        })
    } else {
        &&& c1.sepc == c0.sepc
        &&& c1.cr@ == c0.cr@
        &&& if fault_signal(cause) is Some {
            &&& r matches TrapAction::Signaled(v)
            &&& only_proc_changed(a, b, a.cur_pid())
            &&& set_signal_post(a.cur_proc(), b.procs()[a.cur_pid()], fault_signal(cause).unwrap(), v)
        } else if cause == TrapCause::SupervisorTimer {
            &&& r == TrapAction::Timer((now_ticks + 125000) as usize)
            &&& exists|k1: Kernel| #[trigger]
                timer_check_post(a, k1, now_ticks / 12500) && suspend_post(k1, b)
        } else {
            &&& r == TrapAction::External
            &&& b == a
        }
    }
}

/// Handles a trap from user mode with cause `cause`, the user registers
/// saved in `cx`: a system call runs (its result, if it has one, goes to
/// `a0`, and `sepc` moves past the call); a memory fault sends the running
/// process SIGSEGV and an illegal instruction SIGILL; the timer wakes the
/// tasks whose timers expired and lets the next task run; a device
/// interrupt is left to serve. The context then records its own user
/// address. `now_ticks` is the time; `trap_return` is the code through
/// which new threads go back to user mode.
#[verifier::rlimit(40)]
pub fn user_trap_handler(
    k: &mut Kernel,
    cx: &mut TrapContext,
    cause: TrapCause,
    now_ticks: usize,
    trap_return: u64,
) -> (r: TrapAction)
    requires
        user_trap_ready(*old(k), *old(cx), cause, now_ticks),
    ensures
        user_trap_post(*old(k), *final(k), *old(cx), *final(cx), cause, now_ticks, trap_return, r),
{
    let tid = k.get_current_task().to_tid();
    let r = match cause {
        TrapCause::UserEnvCall => {
            cx.sepc = cx.sepc + 4;
            let args: [usize; 3] = [cx.cr[10] as usize, cx.cr[11] as usize, cx.cr[12] as usize];
            let o = syscall_fn(k, cx.cr[17] as usize, args, now_ticks, trap_return);
            match o {
                SyscallOutcome::Done(v) => {
                    cx.cr[10] = v as u64;
                },
                _ => {},
            }
            TrapAction::Syscall(o)
        },
        TrapCause::StoreFault | TrapCause::StorePageFault | TrapCause::InstructionFault
        | TrapCause::InstructionPageFault | TrapCause::LoadFault | TrapCause::LoadPageFault => {
            TrapAction::Signaled(k.set_signal(0, SIGSEGV))
        },
        TrapCause::IllegalInstruction => TrapAction::Signaled(k.set_signal(0, SIGILL)),
        TrapCause::SupervisorTimer => {
            let next = set_timer_trigger(now_ticks);
            k.check_timer(get_time_in_ms(now_ticks));
            let ghost k1 = *k;
            k.suspend_task_and_run_next();
            assert(timer_check_post(*old(k), k1, now_ticks / 12500) && suspend_post(k1, *k));
            TrapAction::Timer(next)
        },
        TrapCause::SupervisorExternal => TrapAction::External,
    };
    cx.context_addr = get_user_trap_context_start(tid);
    r
}

/// Handles a trap taken in kernel mode: the timer is set again for tick
/// `now_ticks` plus one period and the tasks whose timers expired are
/// woken (`Some` of the next tick), or a device interrupt is left to serve
/// (`None`). Any other cause stops the kernel.
pub fn kernel_trap_handler(k: &mut Kernel, cause: TrapCause, now_ticks: usize) -> (r: Option<usize>)
    requires
        cause == TrapCause::SupervisorTimer || cause == TrapCause::SupervisorExternal,
        cause == TrapCause::SupervisorTimer ==> now_ticks + 125000 <= usize::MAX,
    ensures
        cause == TrapCause::SupervisorExternal ==> r.is_none() && *final(k) == *old(k),
        cause == TrapCause::SupervisorTimer ==> r == Some((now_ticks + 125000) as usize) && timer_check_post(
            *old(k),
            *final(k),
            now_ticks / 12500,
        ),
{
    if cause == TrapCause::SupervisorTimer {
        let next = set_timer_trigger(now_ticks);
        k.check_timer(get_time_in_ms(now_ticks));
        Some(next)
    } else {
        None
    }
}

/// What one round of `handle_task_signals` does, given the status `r`
/// that scanning the running process's signals gave: nothing more (OK),
/// the task waits and the next one runs (DOWAIT), the process ends with
/// code 0 and the next task runs (DOSTOP), or the handler is entered in
/// the trap-context frame `f` (DOSIGNAL).
pub open spec fn signal_round_post(
    a: Kernel,
    b: Kernel,
    ma: PhysMemory,
    mb: PhysMemory,
    f: u64,
    r: TaskhandleStatus,
) -> bool {
    exists|k1: Kernel|
        #[trigger] signals_handled(a, k1, r) && match r {
            TaskhandleStatus::OK => b == k1 && mb == ma,
            TaskhandleStatus::DOWAIT => suspend_post(k1, b) && mb == ma,
            TaskhandleStatus::DOSTOP => mb == ma && exists|k2: Kernel|
                #[trigger] exit_app_post(k1, k2, 0) && schedule_post(k2, b),
            TaskhandleStatus::DOSIGNAL => b == k1 && signal_entered(
                ma,
                mb,
                f,
                k1.cur_proc().sig_handler.action_table[k1.cur_proc().sig_handler.cur_signum as int].handler as u64,
                k1.cur_proc().sig_handler.cur_signum as u64,
            ),
        }
}

/// One round of handling the running task's signals on the way back to
/// user mode (`f` is its trap-context frame). The caller repeats the
/// round while it returns DOWAIT, once the task runs again.
pub fn handle_task_signals(k: &mut Kernel, m: &mut PhysMemory, f: u64) -> (r: TaskhandleStatus)
    requires
        old(k).has_current(),
        old(m).has_frame(f),
        signal_scan(old(k).cur_proc().sig_handler, 0, false).0 == TaskhandleStatus::DOSTOP ==> can_exit_app(
            *old(k),
        ),
    ensures
        signal_round_post(*old(k), *final(k), *old(m), *final(m), f, r),
{
    let r = k.handle_current_signals();
    let ghost k1 = *k;
    proof {
        lemma_scan_signum(old(k).cur_proc().sig_handler, 0, false);
        assert(k1.procs().dom() == old(k).procs().dom());
    }
    match r {
        TaskhandleStatus::OK => {},
        TaskhandleStatus::DOWAIT => {
            k.suspend_task_and_run_next();
        },
        TaskhandleStatus::DOSTOP => {
            proof {
                assert(k1.cur_proc().childpid == old(k).cur_proc().childpid);
                assert(k1.cur_proc().threads == old(k).cur_proc().threads);
                assert(k1.procs().contains_key(1));
            }
            k.exit_process_and_run_next(0);
        },
        TaskhandleStatus::DOSIGNAL => {
            k.handle_an_user_signal(m, f);
        },
    }
    proof {
        assert(signals_handled(*old(k), k1, r));
    }
    r
}

} // verus!
