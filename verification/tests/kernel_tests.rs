use tiny_os::fs::FileRef;
use tiny_os::mm::page_table::PhysMemory;
use tiny_os::task::trap_context::{restore_after_signal, save_for_signal};
use tiny_os::trap::{handle_task_signals, kernel_trap_handler, user_trap_handler, TrapAction, TrapCause};
use tiny_os::task::action::SignalAction;
use tiny_os::task::id::IdWrapper;
use tiny_os::task::manager::Kernel;
use tiny_os::task::process::Process;
use tiny_os::task::schedule::TaskID;
use tiny_os::task::signal::SignalFlags;
use tiny_os::task::task_context::TaskStatus;
use tiny_os::task::thread::Thread;
use tiny_os::task::TaskhandleStatus;
use tiny_os::syscall::{
    syscall_fn, SyscallOutcome, SYSCALL_CLOSE, SYSCALL_DUP, SYSCALL_GET_PID, SYSCALL_GET_THREAD_ID,
    SYSCALL_GET_TIME_ID, SYSCALL_READ, SYSCALL_SIGKILL, SYSCALL_WRITE_ID,
};

/// A kernel running process 1 (thread 0) with the three standard files.
fn boot() -> Kernel {
    let mut k = Kernel::init_for_task();
    let pid = k.pids.alloc_avaliabe_id();
    assert_eq!(pid, 1);
    let mut p = Process::new(IdWrapper::new(pid));
    let stack = k.kstacks.alloc_avaliabe_id();
    p.threads.insert(0, Thread::new(0, stack));
    p.has_user_memory = true;
    p.fd_table.insert(0, FileRef::Stdin);
    p.fd_table.insert(1, FileRef::Stdout);
    p.fd_table.insert(2, FileRef::Stdout);
    k.pool.processes.insert(pid, p);
    k.tasks.cur_app.set_value(pid, 0);
    k
}

fn run_as(k: &mut Kernel, pid: usize, tid: usize) {
    k.tasks.cur_app.set_value(pid, tid);
}

fn done(r: SyscallOutcome) -> isize {
    match r {
        SyscallOutcome::Done(v) => v,
        _ => panic!("not finished"),
    }
}

#[test]
fn boot_state() {
    let k = Kernel::init_for_task();
    assert_eq!(k.pool.idle_pid.id, 0);
    assert_eq!(k.pids.avalible, vec![3, 2, 1]);
    assert!(k.tasks.readylist.is_empty());
    assert!(!k.panicked);
}

#[test]
fn ids_of_running_task() {
    let mut k = boot();
    assert_eq!(done(syscall_fn(&mut k, SYSCALL_GET_PID, [0; 3], 0, 0)), 1);
    assert_eq!(done(syscall_fn(&mut k, SYSCALL_GET_THREAD_ID, [0; 3], 0, 0)), 0);
    assert_eq!(done(syscall_fn(&mut k, SYSCALL_GET_TIME_ID, [0; 3], 125_000, 0)), 10);
}

#[test]
fn close_and_dup_descriptors() {
    let mut k = boot();
    assert_eq!(done(syscall_fn(&mut k, SYSCALL_CLOSE, [7, 0, 0], 0, 0)), -1);
    assert_eq!(done(syscall_fn(&mut k, SYSCALL_DUP, [7, 0, 0], 0, 0)), -1);
    assert_eq!(done(syscall_fn(&mut k, SYSCALL_DUP, [1, 0, 0], 0, 0)), 3);
    assert_eq!(done(syscall_fn(&mut k, SYSCALL_CLOSE, [1, 0, 0], 0, 0)), 0);
    // the freed descriptor is the smallest free one again
    assert_eq!(done(syscall_fn(&mut k, SYSCALL_DUP, [0, 0, 0], 0, 0)), 1);
    assert!(k.find_file_by_fd(1, 1) == Some(FileRef::Stdin));
}

#[test]
fn read_and_write_decisions() {
    let mut k = boot();
    assert_eq!(done(syscall_fn(&mut k, SYSCALL_READ, [0, 0x1000, 0], 0, 0)), -2);
    assert_eq!(done(syscall_fn(&mut k, SYSCALL_READ, [1, 0x1000, 4], 0, 0)), -1);
    assert_eq!(done(syscall_fn(&mut k, SYSCALL_READ, [9, 0x1000, 4], 0, 0)), -1);
    match syscall_fn(&mut k, SYSCALL_WRITE_ID, [1, 0x1000, 4], 0, 0) {
        SyscallOutcome::Write { file, buf, len } => {
            assert!(file == FileRef::Stdout);
            assert_eq!((buf, len), (0x1000, 4));
        },
        _ => panic!("expected a write"),
    }
}

#[test]
fn pipes_get_two_descriptors() {
    let mut k = boot();
    let (r, rfd, wfd) = tiny_os::syscall::fs::syscall_pipe(&mut k);
    assert_eq!((r, rfd, wfd), (0, 3, 4));
    assert_eq!(k.pipes.len(), 1);
    assert!(tiny_os::syscall::fs::syscall_read(&k, 4, 1) == Err(-1));
    assert!(tiny_os::syscall::fs::syscall_write(&k, 3, 1) == Err(-1));
    assert!(tiny_os::syscall::fs::syscall_read(&k, 3, 1).is_ok());
}

#[test]
fn kill_sets_pending_signal_once() {
    let mut k = boot();
    assert_eq!(done(syscall_fn(&mut k, SYSCALL_SIGKILL, [0, 10, 0], 0, 0)), 0);
    assert_eq!(done(syscall_fn(&mut k, SYSCALL_SIGKILL, [1, 10, 0], 0, 0)), -1);
    assert_eq!(done(syscall_fn(&mut k, SYSCALL_SIGKILL, [1, 40, 0], 0, 0)), -1);
    let p = k.pool.processes.get(1).unwrap();
    assert!(p.sig_handler.existed_signals.contains(SignalFlags::from_signum(10)));
}

#[test]
fn signal_mask_returns_old_mask() {
    let mut k = boot();
    assert_eq!(k.set_signal_mask(5), 0);
    assert_eq!(k.set_signal_mask(0), 5);
}

#[test]
fn kill_signal_stops_process() {
    let mut k = boot();
    assert_eq!(k.set_signal(0, 9), 0);
    assert!(k.handle_current_signals() == TaskhandleStatus::DOSTOP);
    assert_eq!(k.pool.processes.get(1).unwrap().exit_code, -9);
}

#[test]
fn masked_signal_is_not_handled() {
    let mut k = boot();
    k.set_signal_mask(1 << 9);
    k.set_signal(0, 9);
    assert!(k.handle_current_signals() == TaskhandleStatus::OK);
}

#[test]
fn stop_then_continue() {
    let mut k = boot();
    k.set_signal(0, 19);
    assert!(k.handle_current_signals() == TaskhandleStatus::DOWAIT);
    k.set_signal(0, 18);
    assert!(k.handle_current_signals() == TaskhandleStatus::OK);
    let p = k.pool.processes.get(1).unwrap();
    assert_eq!(p.sig_handler.existed_signals.bits, 0);
}

#[test]
fn fork_then_wait_collects_child() {
    let mut k = boot();
    let child = tiny_os::syscall::process::syscall_fork(&mut k, 0x8000);
    assert_eq!(child, 2);
    {
        let c = k.pool.processes.get(2).unwrap();
        assert_eq!(c.ppid, 1);
        assert!(c.threads.contains_key(0));
        assert!(c.fd_table.contains_key(2));
        assert_eq!(c.threads.get(0).unwrap().context.ra, 0x8000);
    }
    assert!(k.pool.processes.get(1).unwrap().childpid.contains_key(2));
    assert_eq!(k.tasks.readylist.len(), 1);
    assert_eq!(k.wait_any_child(), (-2, None));
    run_as(&mut k, 2, 0);
    k.exit_current_app(7);
    assert!(k.pool.processes.get(2).unwrap().status == TaskStatus::ZOMBIE);
    run_as(&mut k, 1, 0);
    assert_eq!(k.wait_single_child(5), (-1, None));
    assert_eq!(k.wait_any_child(), (2, Some(7)));
    assert!(!k.pool.processes.contains_key(2));
    assert_eq!(k.pids.avalible, vec![3, 2]);
    assert_eq!(k.wait_any_child(), (-1, None));
}

#[test]
fn orphans_go_to_the_first_process() {
    let mut k = boot();
    let b = k.fork_new_app(0);
    run_as(&mut k, b, 0);
    let c = k.fork_new_app(0);
    k.exit_current_app(0);
    assert_eq!(k.pool.processes.get(c).unwrap().ppid, 1);
    assert!(k.pool.processes.get(1).unwrap().childpid.contains_key(c));
}

#[test]
fn threads_create_wait_and_exit() {
    let mut k = boot();
    assert_eq!(tiny_os::syscall::thread::syscall_thread_create(&mut k, 0), 1);
    assert_eq!(k.tasks.readylist.len(), 1);
    assert_eq!(k.wait_thread(0), -1);
    assert_eq!(k.wait_thread(9), -3);
    assert_eq!(k.wait_thread(1), -2);
    run_as(&mut k, 1, 1);
    assert_eq!(k.exit_current_thread(3), 0);
    run_as(&mut k, 1, 0);
    assert_eq!(k.wait_thread(1), 3);
    assert_eq!(k.wait_thread(1), -3);
}

#[test]
fn last_thread_exit_ends_process() {
    let mut k = boot();
    assert_eq!(k.exit_current_thread(4), 0);
    let p = k.pool.processes.get(1).unwrap();
    assert!(p.status == TaskStatus::ZOMBIE);
    assert_eq!(p.exit_code, 4);
}

#[test]
fn spin_lock_busy_until_unlocked() {
    let mut k = boot();
    let id = k.add_new_mutext(false);
    assert_eq!(id, 64);
    assert_eq!(k.operation_lock(64, true), 0);
    assert_eq!(k.operation_lock(64, true), 1);
    assert_eq!(k.operation_lock(64, false), 0);
    assert_eq!(k.operation_lock(64, true), 0);
    assert_eq!(k.operation_lock(3, true), -1);
}

#[test]
fn blocking_lock_wakes_waiter_on_unlock() {
    let mut k = boot();
    k.tasks.add(TaskID(0));
    assert_eq!(k.add_new_mutext(true), 0);
    assert_eq!(k.operation_lock(0, true), 0);
    // a second thread waits for the lock
    tiny_os::syscall::thread::syscall_thread_create(&mut k, 0);
    run_as(&mut k, 1, 1);
    assert_eq!(k.operation_lock(0, true), 1);
    // the waiter blocked and the next ready task runs
    assert!(k.pool.processes.get(1).unwrap().threads.get(1).unwrap().status == TaskStatus::READY);
    run_as(&mut k, 1, 0);
    let before = k.tasks.readylist.len();
    assert_eq!(k.operation_lock(0, false), 0);
    assert_eq!(k.tasks.readylist.len(), before + 1);
    assert!(k.pool.processes.get(1).unwrap().threads.get(1).unwrap().status == TaskStatus::RUNNING);
}

#[test]
fn semaphore_counts() {
    let mut k = boot();
    assert_eq!(k.add_semaphore(1), 0);
    assert_eq!(k.operation_semaphore(0, false), 0);
    assert_eq!(k.operation_semaphore(0, true), 0);
    assert_eq!(k.add_condvar(), 0);
    assert_eq!(k.add_condvar(), 1);
}

#[test]
fn sleeping_task_sets_a_timer_and_blocks() {
    let mut k = boot();
    assert_eq!(tiny_os::syscall::process::syscall_sleep_ms(&mut k, 5, 125_000), 0);
    assert_eq!(k.timers.len(), 1);
    assert_eq!(k.timers[0].expire_ms, 15);
    assert!(k.pool.processes.get(1).unwrap().threads.get(0).unwrap().status == TaskStatus::READY);
    // nothing else was ready: the kernel stops
    assert!(k.panicked);
}

#[test]
fn yield_rotates_the_ready_queue() {
    let mut k = boot();
    k.add_schedule_task(1, 5);
    assert_eq!(tiny_os::syscall::process::syscall_yield(&mut k), 0);
    assert_eq!(k.get_current_task().to_pid_tid(), (1, 5));
    assert_eq!(k.tasks.readylist.len(), 1);
}

#[test]
fn signal_action_is_swapped() {
    let mut k = boot();
    let a = SignalAction { handler: 0x42, mask: SignalFlags::empty() };
    let (r, old) = k.set_signal_action(10, 0x100, 0x200, a);
    assert_eq!(r, 0);
    assert_eq!(old.unwrap().handler, 0);
    let (r2, old2) = k.set_signal_action(9, 0x100, 0x200, a);
    assert_eq!(r2, -1);
    assert!(old2.is_none());
    k.set_signal(0, 10);
    assert!(k.handle_current_signals() == TaskhandleStatus::DOSIGNAL);
    assert_eq!(k.pool.processes.get(1).unwrap().sig_handler.cur_signum, 10);
    k.return_from_signal();
    assert_eq!(k.pool.processes.get(1).unwrap().sig_handler.cur_signum, -1);
}

fn context() -> tiny_os::task::trap_context::TrapContext {
    tiny_os::task::trap_context::TrapContext {
        cr: [0; 32],
        sepc: 0x1000,
        sstatus: 0,
        kernel_stack: 0,
        kernel_stap: 0,
        user_stap: 0,
        trap_handler: 0,
        context_addr: 0,
    }
}

#[test]
fn signal_frame_round_trip() {
    let mut m = PhysMemory::new(0x100, 2);
    for i in 0..39usize {
        m.write_word(0x101, i, 1000 + i as u64);
    }
    save_for_signal(&mut m, 0x101, 0x4000, 10);
    assert_eq!(m.read_word(0x101, 32), 0x4000);
    assert_eq!(m.read_word(0x101, 10), 10);
    assert_eq!(m.read_word(0x101, 256 + 32), 1032);
    assert_eq!(m.read_word(0x101, 5), 1005);
    let a0 = restore_after_signal(&mut m, 0x101);
    assert_eq!(a0, 1010);
    for i in 0..39usize {
        assert_eq!(m.read_word(0x101, i), 1000 + i as u64);
    }
}

#[test]
fn sigreturn_restores_context() {
    let mut k = boot();
    let mut m = PhysMemory::new(0x100, 1);
    m.write_word(0x100, 10, 77);
    m.write_word(0x100, 32, 0x1234);
    save_for_signal(&mut m, 0x100, 0x4000, 10);
    let r = tiny_os::syscall::process::syscall_sigreturn(&mut k, &mut m, 0x100);
    assert_eq!(r, 77);
    assert_eq!(m.read_word(0x100, 32), 0x1234);
    assert_eq!(k.pool.processes.get(1).unwrap().sig_handler.cur_signum, -1);
}

#[test]
fn user_trap_runs_a_system_call() {
    let mut k = boot();
    let mut cx = context();
    cx.cr[17] = SYSCALL_GET_PID as u64;
    let r = user_trap_handler(&mut k, &mut cx, TrapCause::UserEnvCall, 0, 0);
    assert!(matches!(r, TrapAction::Syscall(SyscallOutcome::Done(1))));
    assert_eq!(cx.cr[10], 1);
    assert_eq!(cx.sepc, 0x1004);
    assert_eq!(cx.context_addr, 0xFFFF_FFFF_7FFF_F000 + 4096);
}

#[test]
fn user_faults_send_signals() {
    let mut k = boot();
    let mut cx = context();
    let r = user_trap_handler(&mut k, &mut cx, TrapCause::LoadPageFault, 0, 0);
    assert!(matches!(r, TrapAction::Signaled(0)));
    assert_eq!(cx.sepc, 0x1000);
    let p = k.pool.processes.get(1).unwrap();
    assert!(p.sig_handler.existed_signals.contains(SignalFlags::from_signum(11)));
    let r2 = user_trap_handler(&mut k, &mut cx, TrapCause::IllegalInstruction, 0, 0);
    assert!(matches!(r2, TrapAction::Signaled(0)));
    let p = k.pool.processes.get(1).unwrap();
    assert!(p.sig_handler.existed_signals.contains(SignalFlags::from_signum(4)));
    assert!(matches!(
        user_trap_handler(&mut k, &mut cx, TrapCause::SupervisorExternal, 0, 0),
        TrapAction::External
    ));
}

#[test]
fn timer_traps_set_the_next_tick() {
    let mut k = boot();
    assert_eq!(kernel_trap_handler(&mut k, TrapCause::SupervisorTimer, 1000), Some(126_000));
    assert_eq!(kernel_trap_handler(&mut k, TrapCause::SupervisorExternal, 1000), None);
    let mut cx = context();
    let r = user_trap_handler(&mut k, &mut cx, TrapCause::SupervisorTimer, 250_000, 0);
    assert!(matches!(r, TrapAction::Timer(375_000)));
}

#[test]
fn pending_signal_enters_its_handler() {
    let mut k = boot();
    let a = SignalAction { handler: 0x42, mask: SignalFlags::empty() };
    k.set_signal_action(10, 0x100, 0x200, a);
    let mut m = PhysMemory::new(0x100, 1);
    m.write_word(0x100, 32, 0x1234);
    assert!(handle_task_signals(&mut k, &mut m, 0x100) == TaskhandleStatus::OK);
    k.set_signal(0, 10);
    assert!(handle_task_signals(&mut k, &mut m, 0x100) == TaskhandleStatus::DOSIGNAL);
    assert_eq!(m.read_word(0x100, 32), 0x42);
    assert_eq!(m.read_word(0x100, 10), 10);
    assert_eq!(m.read_word(0x100, 256 + 32), 0x1234);
}

#[test]
fn first_process_is_set_up() {
    let mut k = Kernel::init_for_task();
    let pid = k.load_init_porcess(0x55);
    assert_eq!(pid, 1);
    let p = k.pool.processes.get(1).unwrap();
    assert!(p.fd_table.get(0) == Some(FileRef::Stdin));
    assert!(p.fd_table.get(2) == Some(FileRef::Stdout));
    assert!(p.fd_table.get(3).is_none());
    let t = p.threads.get(0).unwrap();
    assert_eq!(t.context.ra, 0x55);
    assert!(p.has_user_memory && t.has_user_memory);
    assert_eq!(k.tasks.readylist.len(), 1);
    assert_eq!(k.tasks.readylist[0].to_pid_tid(), (1, 0));
}

#[test]
fn exec_keeps_only_the_running_thread() {
    let mut k = boot();
    assert_eq!(tiny_os::syscall::thread::syscall_thread_create(&mut k, 0), 1);
    assert_eq!(k.tasks.readylist.len(), 1);
    k.exec_app(0x77);
    let p = k.pool.processes.get(1).unwrap();
    assert!(p.threads.get(1).is_none());
    assert_eq!(p.threads.get(0).unwrap().context.ra, 0x77);
    assert!(k.tasks.readylist.is_empty());
}
