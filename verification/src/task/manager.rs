//! The kernel's task state as one value: the processes, the pid store, the
//! ready queue, the sleep timers and the pipe buffers, with the operations
//! that the scheduler and the system calls perform on it.
//!
//! Switching stacks is not done here: an operation that runs the next task
//! sets `tasks.cur_app` to it, and whoever drives the kernel switches to it.
use vstd::prelude::*;
use crate::config::DynamicConfigs;
use crate::fs::FileRef;
use crate::fs::pipe::PipeRingBuffer;
use crate::task::id::IdStore;
use crate::task::id::IdWrapper;
use crate::task::process::{
    Process,
    LockEffect,
    has_free,
    set_fd_post,
    remove_fd_post,
    dup_fd_post,
    mask_signal_post,
    set_signal_post,
    signal_scan,
    add_lock_post,
    lock_op_post,
    add_semaphore_post,
    sem_op_post,
    add_condvar_post,
    condvar_op_post,
    wait_thread_post,
    OS_MAX_FILE_DESCRIPTOR_NUM,
};
use crate::task::schedule::{TaskContoller, TaskID, pid_of, tid_of, task_value};
use crate::task::tables::{ProcessTable, process_table_view, fd_table_view, thread_table_view};
use crate::task::task_context::TaskStatus;
use crate::task::thread::Thread;
use crate::timer::TimerCondVar;

verus! {

/// All processes, by pid, and the pid that stands for the idle task.
pub struct ProcessPool {
    pub processes: ProcessTable,
    pub idle_pid: IdWrapper,
}

/// The kernel's task state.
pub struct Kernel {
    pub pool: ProcessPool,
    pub pids: IdStore,
    pub tasks: TaskContoller,
    pub timers: Vec<TimerCondVar>,
    pub pipes: Vec<Option<PipeRingBuffer>>,
    pub configs: DynamicConfigs,
    /// The kernel stacks in use, by id.
    pub kstacks: IdStore,
    /// Tasks that, when they next run, take the given lock again (a wait on
    /// a condition variable gives its lock back and takes it again after).
    pub relocks: Vec<(TaskID, usize)>,
    /// Set when the kernel reached a state in which it stops with a panic:
    /// nothing ready to run, or a task to wake that was not blocked.
    pub panicked: bool,
}

/// `b` is `a` with at most process `pid` changed.
pub open spec fn only_proc_changed(a: Kernel, b: Kernel, pid: usize) -> bool {
    &&& b.procs() == a.procs().insert(pid, b.procs()[pid])
    &&& b.pool.idle_pid == a.pool.idle_pid
    &&& b.pids == a.pids
    &&& b.tasks == a.tasks
    &&& b.timers@ == a.timers@
    &&& b.pipes@ == a.pipes@
    &&& b.configs == a.configs
    &&& b.kstacks == a.kstacks
    &&& b.relocks@ == a.relocks@
    &&& b.panicked == a.panicked
}

/// What `try_wakeup_task` does.
pub open spec fn wake_post(a: Kernel, b: Kernel, task_id: TaskID) -> bool {
    let pid = pid_of(task_id.0) as usize;
    let tid = tid_of(task_id.0) as usize;
    if !a.procs().contains_key(pid) || a.procs()[pid].status != TaskStatus::READY
        || !thread_table_view(a.procs()[pid].threads).contains_key(tid) {
        b == a
    } else if thread_table_view(a.procs()[pid].threads)[tid].status != TaskStatus::READY {
        b == Kernel { panicked: true, ..a }
    } else {
        &&& b.procs() == a.procs().insert(pid, b.procs()[pid])
        &&& thread_table_view(b.procs()[pid].threads) == thread_table_view(
            a.procs()[pid].threads,
        ).insert(tid, Thread { status: TaskStatus::RUNNING, ..thread_table_view(a.procs()[pid].threads)[tid] })
        &&& crate::task::process::same_but_threads(a.procs()[pid], b.procs()[pid])
        &&& b.tasks.readylist@ == a.tasks.readylist@.push(TaskID(task_value(pid, tid)))
        &&& b.tasks.cur_app == a.tasks.cur_app
        &&& b.pool.idle_pid == a.pool.idle_pid
        &&& b.pids == a.pids
        &&& b.timers@ == a.timers@
        &&& b.pipes@ == a.pipes@
        &&& b.configs == a.configs
        &&& b.kstacks == a.kstacks
        &&& b.relocks@ == a.relocks@
        &&& b.panicked == a.panicked
    }
}

/// What waking the tasks of `ids` in order does: each step is a
/// `try_wakeup_task`.
pub open spec fn wake_all_post(a: Kernel, b: Kernel, ids: Seq<TaskID>) -> bool
    decreases ids.len(),
{
    if ids.len() == 0 {
        b == a
    } else {
        exists|m: Kernel| wake_all_post(a, m, ids.drop_last()) && wake_post(m, b, ids.last())
    }
}

/// What `handle_current_signals` does: the running process's pending
/// signals are scanned, and the status, the new signal state and the exit
/// code are as `signal_scan` says.
pub open spec fn signals_handled(a: Kernel, b: Kernel, r: crate::task::TaskhandleStatus) -> bool {
    let s = signal_scan(a.cur_proc().sig_handler, 0, false);
    let p2 = b.procs()[a.cur_pid()];
    &&& only_proc_changed(a, b, a.cur_pid())
    &&& r == s.0
    &&& p2.sig_handler == s.1
    &&& p2.exit_code == (match s.2 {
        Some(c) => c as isize,
        None => a.cur_proc().exit_code,
    })
    &&& crate::task::process::same_but_signals(a.cur_proc(), p2)
}

/// What `block_task_and_run_next` does: the running thread is marked
/// blocked and the front of the ready queue runs (with nothing ready, the
/// kernel panics).
pub open spec fn block_run_post(a: Kernel, b: Kernel) -> bool {
    &&& b.procs() == a.procs().insert(a.cur_pid(), b.procs()[a.cur_pid()])
    &&& thread_table_view(b.procs()[a.cur_pid()].threads) == thread_table_view(
        a.cur_proc().threads,
    ).insert(
        a.cur_tid(),
        Thread { status: TaskStatus::READY, ..thread_table_view(a.cur_proc().threads)[a.cur_tid()] },
    )
    &&& crate::task::process::same_but_threads(a.cur_proc(), b.procs()[a.cur_pid()])
    &&& a.tasks.readylist@.len() > 0 ==> b.tasks.cur_app == a.tasks.readylist@[0]
        && b.tasks.readylist@ == a.tasks.readylist@.drop_first() && b.panicked == a.panicked
    &&& a.tasks.readylist@.len() == 0 ==> b.tasks == a.tasks && b.panicked
    &&& b.pids == a.pids
    &&& b.timers@ == a.timers@
    &&& b.relocks@ == a.relocks@
    &&& b.pipes@ == a.pipes@
    &&& b.pool.idle_pid == a.pool.idle_pid
    &&& b.configs == a.configs
    &&& b.kstacks == a.kstacks
}

/// What applying a lock operation's effect does: wake its tasks in order,
/// then block the running thread and run the next task when it asks to.
pub open spec fn effect_post(a: Kernel, b: Kernel, wake: Seq<TaskID>, block: bool) -> bool {
    exists|m: Kernel|
        #[trigger] wake_all_post(a, m, wake) && (if block {
            block_run_post(m, b)
        } else {
            b == m
        })
}

/// Waking tasks changes no process's set of threads, nor the running
/// task.
pub proof fn lemma_wake_all_keeps(a: Kernel, b: Kernel, ids: Seq<TaskID>)
    requires
        wake_all_post(a, b, ids),
    ensures
        b.procs().dom() == a.procs().dom(),
        forall|q: usize| #[trigger] a.procs().contains_key(q) ==> thread_table_view(b.procs()[q].threads).dom()
            == thread_table_view(a.procs()[q].threads).dom(),
        b.tasks.cur_app == a.tasks.cur_app,
        b.pids == a.pids,
        b.relocks@ == a.relocks@,
        b.timers@ == a.timers@,
        b.pipes@ == a.pipes@,
        b.pool.idle_pid == a.pool.idle_pid,
        b.configs == a.configs,
        b.kstacks == a.kstacks,
    decreases ids.len(),
{
    if ids.len() > 0 {
        let m = choose|m: Kernel| wake_all_post(a, m, ids.drop_last()) && wake_post(m, b, ids.last());
        lemma_wake_all_keeps(a, m, ids.drop_last());
        let t = ids.last();
        let pid = pid_of(t.0) as usize;
        let tid = tid_of(t.0) as usize;
        if m.procs().contains_key(pid) && m.procs()[pid].status == TaskStatus::READY
            && thread_table_view(m.procs()[pid].threads).contains_key(tid)
            && thread_table_view(m.procs()[pid].threads)[tid].status == TaskStatus::READY {
            assert(b.procs().dom() =~= m.procs().dom());
            assert forall|q: usize| #[trigger] a.procs().contains_key(q) implies thread_table_view(
                b.procs()[q].threads,
            ).dom() == thread_table_view(a.procs()[q].threads).dom() by {
                if q == pid {
                    assert(thread_table_view(b.procs()[q].threads).dom() =~= thread_table_view(
                        m.procs()[q].threads,
                    ).dom());
                }
            }
        }
    }
}

impl Kernel {
    /// The pid of the running task.
    pub open spec fn cur_pid(&self) -> usize {
        pid_of(self.tasks.cur_app.0) as usize
    }

    /// The thread id of the running task.
    pub open spec fn cur_tid(&self) -> usize {
        tid_of(self.tasks.cur_app.0) as usize
    }

    /// The processes, by pid.
    pub open spec fn procs(&self) -> Map<usize, Process> {
        process_table_view(self.pool.processes)
    }

    /// The running task's process exists.
    pub open spec fn has_current(&self) -> bool {
        self.procs().contains_key(self.cur_pid())
    }

    /// The running task's process.
    pub open spec fn cur_proc(&self) -> Process {
        self.procs()[self.cur_pid()]
    }

    /// The running task's process and thread exist.
    pub open spec fn has_current_thread(&self) -> bool {
        self.has_current() && thread_table_view(self.cur_proc().threads).contains_key(
            self.cur_tid(),
        )
    }

    /// The kernel as it boots: pids 3, 2, 1 free (pid 0 went to the idle
    /// task), no process, nothing ready, no timer, no pipe.
    pub fn init_for_task() -> (r: Self)
        ensures
            r.pids.avalible@ == seq![3usize, 2, 1],
            r.pids.max_id == 4,
            r.pool.idle_pid.id == 0,
            r.procs().dom() == Set::<usize>::empty(),
            r.tasks.readylist@.len() == 0,
            r.tasks.cur_app.0 == 0,
            r.timers@.len() == 0,
            r.pipes@.len() == 0,
            r.relocks@.len() == 0,
            r.kstacks.avalible@ == seq![3usize, 2, 1, 0],
            r.kstacks.max_id == 4,
            !r.panicked,
    {
        let mut pids = IdStore::new();
        pids.init();
        let idle = pids.alloc_avaliabe_id();
        let mut kstacks = IdStore::new();
        kstacks.init();
        assert(seq![3usize, 2, 1, 0].drop_last() =~= seq![3usize, 2, 1]);
        Kernel {
            pool: ProcessPool { processes: ProcessTable::new(), idle_pid: IdWrapper::new(idle) },
            pids,
            tasks: TaskContoller::new(),
            timers: Vec::new(),
            pipes: Vec::new(),
            configs: DynamicConfigs::new(),
            kstacks,
            relocks: Vec::new(),
            panicked: false,
        }
    }

    /// The running task.
    pub fn get_current_task(&self) -> (r: TaskID)
        ensures
            r == self.tasks.cur_app,
    {
        self.tasks.cur_app
    }

    /// Puts the running task at the back of the ready queue.
    pub fn add_current_task(&mut self)
        ensures
            final(self).tasks.readylist@ == old(self).tasks.readylist@.push(old(self).tasks.cur_app),
            final(self).tasks.cur_app == old(self).tasks.cur_app,
            final(self).procs() == old(self).procs(),
            final(self).pids == old(self).pids,
            final(self).timers@ == old(self).timers@,
            final(self).relocks@ == old(self).relocks@,
            final(self).panicked == old(self).panicked,
            final(self).pipes@ == old(self).pipes@,
            final(self).pool.idle_pid == old(self).pool.idle_pid,
            final(self).configs == old(self).configs,
            final(self).kstacks == old(self).kstacks,
    {
        let task_id = self.tasks.cur_app;
        self.tasks.add(task_id);
    }

    /// Puts thread `tid` of process `pid` at the back of the ready queue.
    pub fn add_schedule_task(&mut self, pid: usize, tid: usize)
        ensures
            final(self).tasks.readylist@ == old(self).tasks.readylist@.push(
                TaskID(task_value(pid, tid)),
            ),
            final(self).tasks.cur_app == old(self).tasks.cur_app,
            final(self).procs() == old(self).procs(),
            final(self).pids == old(self).pids,
            final(self).timers@ == old(self).timers@,
            final(self).relocks@ == old(self).relocks@,
            final(self).panicked == old(self).panicked,
            final(self).pipes@ == old(self).pipes@,
            final(self).pool.idle_pid == old(self).pool.idle_pid,
            final(self).configs == old(self).configs,
            final(self).kstacks == old(self).kstacks,
    {
        let mut task_id = TaskID::new();
        task_id.set_value(pid, tid);
        self.tasks.add(task_id);
    }

    /// Takes the first entry of thread `tid` of process `pid` out of the
    /// ready queue.
    pub fn remove_schedule_task(&mut self, pid: usize, tid: usize)
        ensures
            final(self).tasks.readylist@ == crate::task::schedule::remove_first(
                old(self).tasks.readylist@,
                TaskID(task_value(pid, tid)),
            ),
            final(self).tasks.cur_app == old(self).tasks.cur_app,
            final(self).procs() == old(self).procs(),
    {
        let mut task_id = TaskID::new();
        task_id.set_value(pid, tid);
        self.tasks.remove(task_id);
    }

    /// Whether no task is ready.
    pub fn check_list_is_empty(&self) -> (r: bool)
        ensures
            r == (self.tasks.readylist@.len() == 0),
    {
        self.tasks.readylist.len() == 0
    }

    /// Runs the task at the front of the ready queue, which must not be
    /// empty, and returns it.
    pub fn task_schedule(&mut self) -> (r: TaskID)
        requires
            old(self).tasks.readylist@.len() > 0,
        ensures
            r == old(self).tasks.readylist@[0],
            final(self).tasks.cur_app == r,
            final(self).tasks.readylist@ == old(self).tasks.readylist@.drop_first(),
            final(self).procs() == old(self).procs(),
            final(self).pids == old(self).pids,
            final(self).timers@ == old(self).timers@,
            final(self).relocks@ == old(self).relocks@,
            final(self).panicked == old(self).panicked,
            final(self).pipes@ == old(self).pipes@,
            final(self).pool.idle_pid == old(self).pool.idle_pid,
            final(self).configs == old(self).configs,
            final(self).kstacks == old(self).kstacks,
    {
        let task = self.tasks.fetch();
        let task_id = task.unwrap();
        self.tasks.cur_app = task_id;
        task_id
    }

    /// Leaves the running task and runs the next ready one; with nothing
    /// ready the kernel panics.
    pub fn enter_schedule(&mut self)
        ensures
            old(self).tasks.readylist@.len() > 0 ==> final(self).tasks.cur_app == old(
                self,
            ).tasks.readylist@[0] && final(self).tasks.readylist@ == old(
                self,
            ).tasks.readylist@.drop_first() && final(self).panicked == old(self).panicked,
            old(self).tasks.readylist@.len() == 0 ==> final(self).tasks == old(self).tasks
                && final(self).panicked,
            final(self).procs() == old(self).procs(),
            final(self).pids == old(self).pids,
            final(self).timers@ == old(self).timers@,
            final(self).relocks@ == old(self).relocks@,
            final(self).pipes@ == old(self).pipes@,
            final(self).pool.idle_pid == old(self).pool.idle_pid,
            final(self).configs == old(self).configs,
            final(self).kstacks == old(self).kstacks,
    {
        if self.check_list_is_empty() {
            self.panicked = true;
        } else {
            let _ = self.task_schedule();
        }
    }

    /// The running task yields: it goes to the back of the ready queue and
    /// the front task runs.
    pub fn suspend_task_and_run_next(&mut self)
        ensures
            final(self).tasks.readylist@ == old(self).tasks.readylist@.push(
                old(self).tasks.cur_app,
            ).drop_first(),
            final(self).tasks.cur_app == old(self).tasks.readylist@.push(
                old(self).tasks.cur_app,
            )[0],
            final(self).procs() == old(self).procs(),
            final(self).pids == old(self).pids,
            final(self).timers@ == old(self).timers@,
            final(self).relocks@ == old(self).relocks@,
            final(self).panicked == old(self).panicked,
    {
        self.add_current_task();
        self.enter_schedule();
    }

    pub(crate) fn take_process(&mut self, pid: usize) -> (r: Process)
        requires
            old(self).procs().contains_key(pid),
        ensures
            r == old(self).procs()[pid],
            final(self).procs() == old(self).procs().remove(pid),
            final(self).tasks == old(self).tasks,
            final(self).pids == old(self).pids,
            final(self).timers@ == old(self).timers@,
            final(self).pipes@ == old(self).pipes@,
            final(self).pool.idle_pid == old(self).pool.idle_pid,
            final(self).relocks@ == old(self).relocks@,
            final(self).panicked == old(self).panicked,
            final(self).configs == old(self).configs,
            final(self).kstacks == old(self).kstacks,
    {
        self.pool.processes.remove(pid).unwrap()
    }

    /// Marks the running thread blocked (its state READY means: waiting to be
    /// woken).
    pub fn block_current_task(&mut self)
        requires
            old(self).has_current_thread(),
        ensures
            only_proc_changed(*old(self), *final(self), old(self).cur_pid()),
            thread_table_view(final(self).procs()[old(self).cur_pid()].threads) == thread_table_view(
                old(self).cur_proc().threads,
            ).insert(
                old(self).cur_tid(),
                Thread {
                    status: TaskStatus::READY,
                    ..thread_table_view(old(self).cur_proc().threads)[old(self).cur_tid()]
                },
            ),
            crate::task::process::same_but_threads(
                old(self).cur_proc(),
                final(self).procs()[old(self).cur_pid()],
            ),
    {
        let cur = self.tasks.cur_app;
        let (pid, tid) = cur.to_pid_tid();
        let mut process = self.take_process(pid);
        let mut thread = process.threads.remove(tid).unwrap();
        thread.status = TaskStatus::READY;
        process.threads.insert(tid, thread);
        self.pool.processes.insert(pid, process);
        proof {
            assert(self.procs() =~= old(self).procs().insert(pid, self.procs()[pid]));
        }
    }

    /// Wakes thread `task_id` if its process is alive and it is blocked: it
    /// runs again and joins the back of the ready queue. A missing or dead
    /// process, or a missing thread, is skipped. Waking a thread that is not
    /// blocked makes the kernel panic.
    pub fn try_wakeup_task(&mut self, task_id: TaskID)
        ensures
            wake_post(*old(self), *final(self), task_id),
    {
        let (pid, tid) = task_id.to_pid_tid();
        if !self.pool.processes.contains_key(pid) {
            return ;
        }
        if self.pool.processes.get(pid).unwrap().status != TaskStatus::READY {
            return ;
        }
        if !self.pool.processes.get(pid).unwrap().threads.contains_key(tid) {
            return ;
        }
        if self.pool.processes.get(pid).unwrap().threads.get(tid).unwrap().status
            != TaskStatus::READY {
            self.panicked = true;
            return ;
        }
        let mut process = self.take_process(pid);
        let ghost tv = thread_table_view(process.threads);
        let mut thread = process.threads.remove(tid).unwrap();
        thread.status = TaskStatus::RUNNING;
        process.threads.insert(tid, thread);
        proof {
            assert(thread_table_view(process.threads) =~= tv.insert(tid, thread));
        }
        self.pool.processes.insert(pid, process);
        self.add_schedule_task(pid, tid);
        proof {
            assert(self.procs() =~= old(self).procs().insert(pid, self.procs()[pid]));
        }
    }

    /// Wakes the tasks of `woken` in order.
    pub fn wake_tasks(&mut self, woken: &Vec<TaskID>)
        ensures
            wake_all_post(*old(self), *final(self), woken@),
    {
        let ghost k0 = *self;
        let mut i: usize = 0;
        while i < woken.len()
            invariant
                i <= woken@.len(),
                k0 == *old(self),
                wake_all_post(k0, *self, woken@.take(i as int)),
            decreases woken@.len() - i,
        {
            let ghost before = *self;
            self.try_wakeup_task(woken[i]);
            proof {
                assert(woken@.take(i + 1).drop_last() =~= woken@.take(i as int));
                assert(woken@.take(i + 1).last() == woken@[i as int]);
                assert(wake_all_post(k0, before, woken@.take(i + 1).drop_last()));
                assert(wake_post(before, *self, woken@.take(i + 1).last()));
            }
            i = i + 1;
        }
        assert(woken@.take(woken@.len() as int) =~= woken@);
    }

    /// Blocks the running thread and runs the next ready task.
    pub fn block_task_and_run_next(&mut self)
        requires
            old(self).has_current_thread(),
        ensures
            block_run_post(*old(self), *final(self)),
    {
        self.block_current_task();
        self.enter_schedule();
    }


    pub(crate) fn put_process(&mut self, pid: usize, p: Process)
        ensures
            final(self).procs() == old(self).procs().insert(pid, p),
            final(self).tasks == old(self).tasks,
            final(self).pids == old(self).pids,
            final(self).timers@ == old(self).timers@,
            final(self).pipes@ == old(self).pipes@,
            final(self).pool.idle_pid == old(self).pool.idle_pid,
            final(self).relocks@ == old(self).relocks@,
            final(self).panicked == old(self).panicked,
            final(self).configs == old(self).configs,
            final(self).kstacks == old(self).kstacks,
    {
        self.pool.processes.insert(pid, p);
    }

    /// Opens `file` in process `pid` on its smallest free descriptor.
    pub fn set_new_fd(&mut self, pid: usize, file: FileRef) -> (r: usize)
        requires
            old(self).procs().contains_key(pid),
            has_free(
                fd_table_view(old(self).procs()[pid].fd_table),
                OS_MAX_FILE_DESCRIPTOR_NUM as nat,
            ),
        ensures
            only_proc_changed(*old(self), *final(self), pid),
            set_fd_post(old(self).procs()[pid], final(self).procs()[pid], file, r),
    {
        let mut p = self.take_process(pid);
        let r = p.set_new_file_descriptor(file);
        self.put_process(pid, p);
        proof {
            assert(self.procs() =~= old(self).procs().insert(pid, self.procs()[pid]));
        }
        r
    }

    /// Closes descriptor `fd` of process `pid`.
    pub fn remove_fd(&mut self, pid: usize, fd: usize) -> (r: isize)
        requires
            old(self).procs().contains_key(pid),
        ensures
            only_proc_changed(*old(self), *final(self), pid),
            remove_fd_post(old(self).procs()[pid], final(self).procs()[pid], fd, r),
    {
        let mut p = self.take_process(pid);
        let r = p.remove_file_descriptor(fd);
        self.put_process(pid, p);
        proof {
            assert(self.procs() =~= old(self).procs().insert(pid, self.procs()[pid]));
        }
        r
    }

    /// Opens the file of descriptor `fd` of process `pid` again.
    pub fn dup_fd(&mut self, pid: usize, fd: usize) -> (r: isize)
        requires
            old(self).procs().contains_key(pid),
            fd_table_view(old(self).procs()[pid].fd_table).contains_key(fd) ==> has_free(
                fd_table_view(old(self).procs()[pid].fd_table),
                OS_MAX_FILE_DESCRIPTOR_NUM as nat,
            ),
        ensures
            only_proc_changed(*old(self), *final(self), pid),
            dup_fd_post(old(self).procs()[pid], final(self).procs()[pid], fd, r),
    {
        let mut p = self.take_process(pid);
        let r = p.dup_file_descriptor(fd);
        self.put_process(pid, p);
        proof {
            assert(self.procs() =~= old(self).procs().insert(pid, self.procs()[pid]));
        }
        r
    }

    /// The file of descriptor `fd` of process `pid`, if it is open.
    pub fn find_file_by_fd(&self, pid: usize, fd: usize) -> (r: Option<FileRef>)
        requires
            self.procs().contains_key(pid),
        ensures
            r == (if fd_table_view(self.procs()[pid].fd_table).contains_key(fd) {
                Some(fd_table_view(self.procs()[pid].fd_table)[fd])
            } else {
                None
            }),
    {
        self.pool.processes.get(pid).unwrap().fd_table.get(fd)
    }

    /// Sets the signal mask of the running process and returns the old one.
    pub fn set_signal_mask(&mut self, mask: i32) -> (r: isize)
        requires
            old(self).has_current(),
        ensures
            only_proc_changed(*old(self), *final(self), old(self).cur_pid()),
            mask_signal_post(old(self).cur_proc(), final(self).procs()[old(self).cur_pid()], mask, r),
    {
        let pid = self.tasks.cur_app.to_pid();
        let mut p = self.take_process(pid);
        let r = p.mask_signal(mask);
        self.put_process(pid, p);
        proof {
            assert(self.procs() =~= old(self).procs().insert(pid, self.procs()[pid]));
        }
        r
    }

    /// Sends signal `signum` to process `pid` (0 names the running
    /// process): -1 for a signal number of 32 or more, otherwise what
    /// `Process::set_signal` returns.
    pub fn set_signal(&mut self, pid: usize, signum: i32) -> (r: isize)
        requires
            signum < 32 ==> {
                &&& 0 <= signum
                &&& old(self).procs().contains_key(
                    if pid == 0 {
                        old(self).cur_pid()
                    } else {
                        pid
                    },
                )
            },
        ensures
            signum >= 32 ==> r == -1 && *final(self) == *old(self),
            signum < 32 ==> ({
                let target = if pid == 0 {
                    old(self).cur_pid()
                } else {
                    pid
                };
                &&& only_proc_changed(*old(self), *final(self), target)
                &&& set_signal_post(old(self).procs()[target], final(self).procs()[target], signum, r)
            }),
    {
        if signum >= 32 {
            return -1;
        }
        let cur_pid: usize;
        if pid == 0 {
            cur_pid = self.tasks.cur_app.to_pid();
        } else {
            cur_pid = pid;
        }
        let mut p = self.take_process(cur_pid);
        let r = p.set_signal(signum);
        self.put_process(cur_pid, p);
        proof {
            assert(self.procs() =~= old(self).procs().insert(cur_pid, self.procs()[cur_pid]));
        }
        r
    }

    /// Decides what the running process's pending signals ask for.
    pub fn handle_current_signals(&mut self) -> (r: crate::task::TaskhandleStatus)
        requires
            old(self).has_current(),
        ensures
            signals_handled(*old(self), *final(self), r),
    {
        let pid = self.tasks.cur_app.to_pid();
        let mut p = self.take_process(pid);
        let r = p.handle_signal();
        self.put_process(pid, p);
        proof {
            assert(self.procs() =~= old(self).procs().insert(pid, self.procs()[pid]));
        }
        r
    }

    /// Creates a lock in the running process (blocking or spinning).
    pub fn add_new_mutext(&mut self, blocking: bool) -> (r: isize)
        requires
            old(self).has_current(),
        ensures
            only_proc_changed(*old(self), *final(self), old(self).cur_pid()),
            add_lock_post(old(self).cur_proc(), final(self).procs()[old(self).cur_pid()], blocking, r),
    {
        let pid = self.tasks.cur_app.to_pid();
        let mut p = self.take_process(pid);
        let r = p.add_new_lock(blocking);
        self.put_process(pid, p);
        proof {
            assert(self.procs() =~= old(self).procs().insert(pid, self.procs()[pid]));
        }
        r
    }

    /// Creates a semaphore with `res_count` resources in the running process.
    pub fn add_semaphore(&mut self, res_count: usize) -> (r: isize)
        requires
            old(self).has_current(),
            old(self).cur_proc().semaphores@.len() < 0x7FFF_FFFF,
        ensures
            only_proc_changed(*old(self), *final(self), old(self).cur_pid()),
            add_semaphore_post(old(self).cur_proc(), final(self).procs()[old(self).cur_pid()], res_count, r),
    {
        let pid = self.tasks.cur_app.to_pid();
        let mut p = self.take_process(pid);
        let r = p.add_new_semaphore(res_count);
        self.put_process(pid, p);
        proof {
            assert(self.procs() =~= old(self).procs().insert(pid, self.procs()[pid]));
        }
        r
    }

    /// Creates a condition variable in the running process.
    pub fn add_condvar(&mut self) -> (r: isize)
        requires
            old(self).has_current(),
            old(self).cur_proc().condvars@.len() < 0x7FFF_FFFF,
        ensures
            only_proc_changed(*old(self), *final(self), old(self).cur_pid()),
            add_condvar_post(old(self).cur_proc(), final(self).procs()[old(self).cur_pid()], r),
    {
        let pid = self.tasks.cur_app.to_pid();
        let mut p = self.take_process(pid);
        let r = p.add_new_condvar();
        self.put_process(pid, p);
        proof {
            assert(self.procs() =~= old(self).procs().insert(pid, self.procs()[pid]));
        }
        r
    }

    /// Applies what a lock operation asks: wake `wake` in order, then, if
    /// `block`, block the running thread and run the next task.
    fn apply_effect(&mut self, wake: &Vec<TaskID>, block: bool)
        requires
            block ==> old(self).has_current_thread(),
        ensures
            effect_post(*old(self), *final(self), wake@, block),
    {
        let ghost a = *self;
        self.wake_tasks(wake);
        let ghost m = *self;
        proof {
            lemma_wake_all_keeps(a, m, wake@);
            if block {
                assert(a.procs().contains_key(a.cur_pid()));
            }
        }
        if block {
            self.block_task_and_run_next();
        }
        proof {
            assert(wake_all_post(a, m, wake@));
        }
    }

    /// Takes (`lock`) or gives back lock `lock_id` for the running task,
    /// then wakes the tasks the operation frees and blocks the caller when
    /// it has to wait.
    pub fn operation_lock(&mut self, lock_id: usize, lock: bool) -> (r: isize)
        requires
            old(self).has_current_thread(),
        ensures
            lock_step_post(*old(self), *final(self), lock_id, lock, r),
    {
        let cur = self.tasks.cur_app;
        let pid = cur.to_pid();
        let mut p = self.take_process(pid);
        let u = p.process_lock_operation(lock_id, lock, cur);
        self.put_process(pid, p);
        let ghost k1 = *self;
        proof {
            assert(self.procs() =~= old(self).procs().insert(pid, self.procs()[pid]));
        }
        let r = u.0;
        self.apply_effect(&u.1.wake, u.1.block);
        proof {
            assert(only_proc_changed(*old(self), k1, old(self).cur_pid()));
            assert(lock_op_post(old(self).cur_proc(), k1.procs()[old(self).cur_pid()], lock_id, lock, cur, u));
        }
        r
    }

    /// Returns (`up`) or takes a resource of semaphore `sem_id` for the
    /// running task, then wakes the task freed or blocks the caller.
    pub fn operation_semaphore(&mut self, sem_id: usize, up: bool) -> (r: isize)
        requires
            old(self).has_current_thread(),
            sem_count_fits(old(self).cur_proc(), sem_id),
        ensures
            sem_step_post(*old(self), *final(self), sem_id, up, r),
    {
        let cur = self.tasks.cur_app;
        let pid = cur.to_pid();
        let mut p = self.take_process(pid);
        let u = p.process_sem_operation(sem_id, up, cur);
        self.put_process(pid, p);
        let ghost k1 = *self;
        proof {
            assert(self.procs() =~= old(self).procs().insert(pid, self.procs()[pid]));
        }
        let r = u.0;
        self.apply_effect(&u.1.wake, u.1.block);
        proof {
            assert(only_proc_changed(*old(self), k1, old(self).cur_pid()));
            assert(sem_op_post(old(self).cur_proc(), k1.procs()[old(self).cur_pid()], sem_id, up, cur, u));
        }
        r
    }

    /// Signals or waits on condition variable `condvar_id` for the running
    /// task. A wait gives lock `mutext_id` back, blocks the caller, and
    /// records that the caller takes the lock again when it next runs.
    pub fn operation_condvar(&mut self, condvar_id: usize, mutext_id: usize, signal: bool) -> (r: isize)
        requires
            old(self).has_current_thread(),
        ensures
            condvar_step_post(*old(self), *final(self), condvar_id, mutext_id, signal, r),
    {
        let cur = self.tasks.cur_app;
        let pid = cur.to_pid();
        let mut p = self.take_process(pid);
        let u = p.operate_condvar(condvar_id, mutext_id, signal, cur);
        self.put_process(pid, p);
        let ghost k1 = *self;
        proof {
            assert(self.procs() =~= old(self).procs().insert(pid, self.procs()[pid]));
        }
        let r = u.0;
        if let Some(m) = u.1.relock {
            self.relocks.push((cur, m));
        }
        let ghost k2 = *self;
        self.apply_effect(&u.1.wake, u.1.block);
        proof {
            assert(only_proc_changed(*old(self), k1, old(self).cur_pid()));
            assert(relock_post(k1, k2, cur, u.1.relock));
            assert(condvar_op_post(
                old(self).cur_proc(),
                k1.procs()[old(self).cur_pid()],
                condvar_id,
                mutext_id,
                signal,
                cur,
                u,
            ));
        }
        r
    }
}

/// The count of semaphore `sem_id` of `p`, where it exists, is such that
/// one step up or down stays within `isize`.
pub open spec fn sem_count_fits(p: Process, sem_id: usize) -> bool {
    sem_id < p.semaphores@.len() && p.semaphores@[sem_id as int].is_some() ==> {
        let c = p.semaphores@[sem_id as int].unwrap().inner.inner.count;
        isize::MIN < c < isize::MAX
    }
}

/// What `operation_lock` does: the running process takes the lock step of
/// `lock_op_post`, then the step's effect is applied.
pub open spec fn lock_step_post(a: Kernel, b: Kernel, lock_id: usize, lock: bool, r: isize) -> bool {
    exists|k1: Kernel, u: (isize, LockEffect)|
        #![trigger lock_op_post(a.cur_proc(), k1.procs()[a.cur_pid()], lock_id, lock, a.tasks.cur_app, u)]
        {
            &&& only_proc_changed(a, k1, a.cur_pid())
            &&& lock_op_post(a.cur_proc(), k1.procs()[a.cur_pid()], lock_id, lock, a.tasks.cur_app, u)
            &&& r == u.0
            &&& effect_post(k1, b, u.1.wake@, u.1.block)
        }
}

/// What `operation_semaphore` does: the running process takes the step of
/// `sem_op_post`, then the step's effect is applied.
pub open spec fn sem_step_post(a: Kernel, b: Kernel, sem_id: usize, up: bool, r: isize) -> bool {
    exists|k1: Kernel, u: (isize, LockEffect)|
        #![trigger sem_op_post(a.cur_proc(), k1.procs()[a.cur_pid()], sem_id, up, a.tasks.cur_app, u)]
        {
            &&& only_proc_changed(a, k1, a.cur_pid())
            &&& sem_op_post(a.cur_proc(), k1.procs()[a.cur_pid()], sem_id, up, a.tasks.cur_app, u)
            &&& r == u.0
            &&& effect_post(k1, b, u.1.wake@, u.1.block)
        }
}

/// `k2` is `k1` with, where a lock is to be taken again, the pair of the
/// task and the lock appended to the pending list.
pub open spec fn relock_post(k1: Kernel, k2: Kernel, cur: TaskID, relock: Option<usize>) -> bool {
    match relock {
        Some(m) => {
            &&& k2.relocks@ == k1.relocks@.push((cur, m))
            &&& k2 == Kernel { relocks: k2.relocks, ..k1 }
        },
        None => k2 == k1,
    }
}

/// What `operation_condvar` does: the running process takes the step of
/// `condvar_op_post`, a wait records the lock to take again, then the
/// step's effect is applied.
pub open spec fn condvar_step_post(
    a: Kernel,
    b: Kernel,
    condvar_id: usize,
    mutext_id: usize,
    signal: bool,
    r: isize,
) -> bool {
    exists|k1: Kernel, k2: Kernel, u: (isize, LockEffect)|
        #![trigger condvar_op_post(a.cur_proc(), k1.procs()[a.cur_pid()], condvar_id, mutext_id, signal, a.tasks.cur_app, u), relock_post(k1, k2, a.tasks.cur_app, u.1.relock)]
        {
            &&& only_proc_changed(a, k1, a.cur_pid())
            &&& condvar_op_post(
                a.cur_proc(),
                k1.procs()[a.cur_pid()],
                condvar_id,
                mutext_id,
                signal,
                a.tasks.cur_app,
                u,
            )
            &&& r == u.0
            &&& relock_post(k1, k2, a.tasks.cur_app, u.1.relock)
            &&& effect_post(k2, b, u.1.wake@, u.1.block)
        }
}

} // verus!
