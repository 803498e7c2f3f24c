//! Ending processes and threads, collecting them, and handing orphans to
//! the first process.
use vstd::prelude::*;
use crate::task::manager::Kernel;
use crate::task::process::{Process, exit_process_post, exit_thread_post, lemma_push_to_set, remove_tasks};
use crate::task::tables::{child_map_view, thread_table_view};
use crate::task::task_context::TaskStatus;
use crate::task::manager::only_proc_changed;
use crate::task::process::{wait_thread_post, active_signal_post, same_but_signals};
use crate::task::action::SignalAction;
use crate::task::id::{IdWrapper, alloc_post};
use crate::task::process::{fork_child_post, add_thread_post, has_free, new_thread_ok, replaced_thread, same_but_threads, OS_MAX_THREAD_NUM};
use crate::task::tables::fd_table_view;
use crate::task::thread::Thread;
use crate::fs::FileRef;
use crate::task::schedule::{TaskID, task_value};
use crate::mm::kernel_set::kernel_stack_top;
use crate::timer::expired_order;
use crate::task::manager::wake_all_post;

use crate::mm::page_table::PhysMemory;
use crate::task::trap_context::signal_entered;
verus! {

/// `b` differs from `a` at most in its parent and its children.
pub open spec fn same_but_family(a: Process, b: Process) -> bool {
    &&& b.pid == a.pid
    &&& b.status == a.status
    &&& b.exit_code == a.exit_code
    &&& b.fd_table == a.fd_table
    &&& b.sig_handler == a.sig_handler
    &&& b.threads == a.threads
    &&& b.has_user_memory == a.has_user_memory
    &&& b.spinlocks@ == a.spinlocks@
    &&& b.mutexlocks@ == a.mutexlocks@
    &&& b.semaphores@ == a.semaphores@
    &&& b.condvars@ == a.condvars@
}

/// The map that sends each pid of `s` to itself, as a child table does.
pub open spec fn self_map(s: Set<usize>) -> Map<usize, usize> {
    Map::new(|c: usize| s.contains(c), |c: usize| c)
}

/// `b` and `a` have the same state outside the processes.
pub open spec fn same_outside_procs(a: Kernel, b: Kernel) -> bool {
    &&& b.pool.idle_pid == a.pool.idle_pid
    &&& b.pids == a.pids
    &&& b.tasks == a.tasks
    &&& b.timers@ == a.timers@
    &&& b.pipes@ == a.pipes@
    &&& b.configs == a.configs
    &&& b.kstacks == a.kstacks
    &&& b.relocks@ == a.relocks@
    &&& b.panicked == a.panicked
}

/// `b` is `a` with the processes of `kids` handed to process 1: each of
/// them has parent 1, and process 1 lists each of them as its child.
pub open spec fn reparent_post(a: Kernel, b: Kernel, kids: Set<usize>) -> bool {
    &&& b.procs().dom() == a.procs().dom()
    &&& forall|q: usize|
        #[trigger] b.procs().contains_key(q) ==> {
            &&& same_but_family(a.procs()[q], b.procs()[q])
            &&& b.procs()[q].ppid == (if kids.contains(q) {
                1
            } else {
                a.procs()[q].ppid
            })
            &&& child_map_view(b.procs()[q].childpid) == (if q == 1 {
                child_map_view(a.procs()[q].childpid).union_prefer_right(self_map(kids))
            } else {
                child_map_view(a.procs()[q].childpid)
            })
        }
    &&& same_outside_procs(a, b)
}

/// The running process ends as `exit_process` says, and its other
/// threads leave the ready queue.
pub open spec fn exit_app_step(a: Kernel, b: Kernel, exit_code: isize) -> bool {
    &&& b.procs() == a.procs().insert(a.cur_pid(), b.procs()[a.cur_pid()])
    &&& exit_process_post(a.cur_proc(), b.procs()[a.cur_pid()], a.cur_tid(), exit_code)
    &&& exists|order: Seq<usize>|
        order.no_duplicates() && order.to_set() == thread_table_view(a.cur_proc().threads).dom().remove(
            a.cur_tid(),
        ) && b.tasks.readylist@ == remove_tasks(a.tasks.readylist@, a.cur_proc().pid.id, order)
    &&& b.tasks.cur_app == a.tasks.cur_app
    &&& b.pool.idle_pid == a.pool.idle_pid
    &&& b.pids == a.pids
    &&& b.timers@ == a.timers@
    &&& b.pipes@ == a.pipes@
    &&& b.configs == a.configs
    &&& b.kstacks == a.kstacks
    &&& b.relocks@ == a.relocks@
    &&& b.panicked == a.panicked
}

/// What `exit_current_app` does: the running process ends, then its
/// children are handed to process 1.
pub open spec fn exit_app_post(a: Kernel, b: Kernel, exit_code: isize) -> bool {
    exists|k1: Kernel|
        #[trigger] exit_app_step(a, k1, exit_code) && reparent_post(
            k1,
            b,
            child_map_view(a.cur_proc().childpid).dom(),
        )
}

/// The running task's process can end: its thread exists, process 1
/// exists to take its children, and each child exists.
pub open spec fn can_exit_app(k: Kernel) -> bool {
    &&& k.has_current_thread()
    &&& k.procs().contains_key(1)
    &&& forall|c: usize|
        #[trigger] child_map_view(k.cur_proc().childpid).contains_key(c) ==> k.procs().contains_key(c)
}

/// What `enter_schedule` does: the front of the ready queue runs; with
/// nothing ready the kernel panics.
pub open spec fn schedule_post(a: Kernel, b: Kernel) -> bool {
    &&& a.tasks.readylist@.len() > 0 ==> b.tasks.cur_app == a.tasks.readylist@[0]
        && b.tasks.readylist@ == a.tasks.readylist@.drop_first() && b.panicked == a.panicked
    &&& a.tasks.readylist@.len() == 0 ==> b.tasks == a.tasks && b.panicked
    &&& b.procs() == a.procs()
    &&& b.pids == a.pids
    &&& b.timers@ == a.timers@
    &&& b.relocks@ == a.relocks@
    &&& b.pipes@ == a.pipes@
    &&& b.pool.idle_pid == a.pool.idle_pid
    &&& b.configs == a.configs
    &&& b.kstacks == a.kstacks
}

/// The children of the running task's process.
pub open spec fn kids_of(k: Kernel) -> Set<usize> {
    child_map_view(k.cur_proc().childpid).dom()
}

/// Each child of the running task's process exists.
pub open spec fn kids_exist(k: Kernel) -> bool {
    forall|c: usize| #[trigger] kids_of(k).contains(c) ==> k.procs().contains_key(c)
}

/// What collecting child `c` does: the running process forgets it, it
/// leaves the process table, and its pid is free again.
pub open spec fn recycle_post(a: Kernel, b: Kernel, c: usize) -> bool {
    let pid = a.cur_pid();
    &&& b.procs().dom() == a.procs().dom().remove(c)
    &&& forall|q: usize|
        #[trigger] b.procs().contains_key(q) && q != pid ==> b.procs()[q] == a.procs()[q]
    &&& c != pid ==> {
        &&& child_map_view(b.procs()[pid].childpid) == child_map_view(a.cur_proc().childpid).remove(c)
        &&& same_but_family(a.cur_proc(), b.procs()[pid])
        &&& b.procs()[pid].ppid == a.cur_proc().ppid
    }
    &&& a.procs().contains_key(c) ==> b.pids.avalible@ == a.pids.avalible@.push(
        a.procs()[c].pid.id,
    ) && b.pids.max_id == a.pids.max_id
    &&& !a.procs().contains_key(c) ==> b.pids == a.pids
    &&& b.pool.idle_pid == a.pool.idle_pid
    &&& b.tasks == a.tasks
    &&& b.timers@ == a.timers@
    &&& b.pipes@ == a.pipes@
    &&& b.configs == a.configs
    &&& b.kstacks == a.kstacks
    &&& b.relocks@ == a.relocks@
    &&& b.panicked == a.panicked
}

/// What waiting for any child does: -1 with no child, -2 while no child
/// has exited, and otherwise a child that has exited is collected and its
/// pid and exit code come back.
pub open spec fn wait_any_post(a: Kernel, b: Kernel, r: (isize, Option<i32>)) -> bool {
    if kids_of(a) == Set::<usize>::empty() {
        r == (-1isize, None::<i32>) && b == a
    } else if forall|c: usize| #[trigger] kids_of(a).contains(c) ==> a.procs()[c].status != TaskStatus::ZOMBIE {
        r == (-2isize, None::<i32>) && b == a
    } else {
        exists|c: usize|
            #[trigger] kids_of(a).contains(c) && a.procs()[c].status == TaskStatus::ZOMBIE && r == (
                c as isize,
                Some(a.procs()[c].exit_code as i32),
            ) && recycle_post(a, b, c)
    }
}

/// What waiting for child `pid` does: -1 with no child or when `pid` is
/// not a child, -2 while it runs, and once it has exited it is collected
/// and `pid` and its exit code come back.
pub open spec fn wait_single_post(a: Kernel, b: Kernel, pid: isize, r: (isize, Option<i32>)) -> bool {
    let c = pid as usize;
    if kids_of(a) == Set::<usize>::empty() || !kids_of(a).contains(c) {
        r == (-1isize, None::<i32>) && b == a
    } else if a.procs()[c].status == TaskStatus::ZOMBIE {
        r == (pid, Some(a.procs()[c].exit_code as i32)) && recycle_post(a, b, c)
    } else {
        r == (-2isize, None::<i32>) && b == a
    }
}

/// What `exit_current_thread` does: the running thread ends as
/// `exit_thread` says.
pub open spec fn exit_thread_kernel_post(a: Kernel, b: Kernel, exit_code: i32) -> bool {
    &&& b.procs() == a.procs().insert(a.cur_pid(), b.procs()[a.cur_pid()])
    &&& exit_thread_post(a.cur_proc(), b.procs()[a.cur_pid()], a.cur_tid(), exit_code, a.tasks, b.tasks)
    &&& b.pool.idle_pid == a.pool.idle_pid
    &&& b.pids == a.pids
    &&& b.timers@ == a.timers@
    &&& b.pipes@ == a.pipes@
    &&& b.configs == a.configs
    &&& b.kstacks == a.kstacks
    &&& b.relocks@ == a.relocks@
    &&& b.panicked == a.panicked
}

/// `p` is a process as `Process::new` makes it for pid `id`.
pub open spec fn fresh_process(p: Process, id: usize) -> bool {
    &&& p.pid.id == id
    &&& p.ppid == 0
    &&& child_map_view(p.childpid).dom() == Set::<usize>::empty()
    &&& p.status == TaskStatus::READY
    &&& p.exit_code == 0
    &&& crate::task::tables::fd_table_view(p.fd_table).dom() == Set::<usize>::empty()
    &&& p.sig_handler.existed_signals.bits == 0
    &&& p.sig_handler.global_mask.bits == 0
    &&& p.sig_handler.cur_signum == -1
    &&& thread_table_view(p.threads).dom() == Set::<usize>::empty()
    &&& !p.has_user_memory
    &&& p.spinlocks@.len() == 0
    &&& p.mutexlocks@.len() == 0
    &&& p.semaphores@.len() == 0
    &&& p.condvars@.len() == 0
}

/// The running task can fork: its thread exists, its process has user
/// memory, a pid and a kernel stack can be handed out, and that stack's
/// top is an address.
pub open spec fn can_fork(k: Kernel) -> bool {
    &&& k.has_current_thread()
    &&& k.cur_proc().has_user_memory
    &&& k.pids.can_alloc()
    &&& k.kstacks.can_alloc()
    &&& kernel_stack_top(k.kstacks.next_id() as nat) <= u64::MAX
}

/// What `fork_new_app` does: a new process `r`, a child of the running
/// task's process, runs a copy of the running thread on a new kernel stack
/// and joins the ready queue.
pub open spec fn fork_post(a: Kernel, b: Kernel, trap_return: u64, r: usize) -> bool {
    let ppid = a.cur_pid();
    let tid = a.cur_tid();
    let stack = a.kstacks.next_id();
    &&& r == a.pids.next_id()
    &&& alloc_post(a.pids, b.pids, r)
    &&& alloc_post(a.kstacks, b.kstacks, stack)
    &&& b.procs().dom() == a.procs().dom().insert(r)
    &&& forall|q: usize|
        #[trigger] a.procs().contains_key(q) && q != ppid && q != r ==> b.procs()[q] == a.procs()[q]
    &&& r != ppid ==> {
        &&& child_map_view(b.procs()[ppid].childpid) == child_map_view(a.cur_proc().childpid).insert(r, r)
        &&& same_but_family(a.cur_proc(), b.procs()[ppid])
        &&& b.procs()[ppid].ppid == a.cur_proc().ppid
    }
    &&& exists|c0: Process|
        #[trigger] fresh_process(c0, r) && fork_child_post(a.cur_proc(), c0, b.procs()[r], tid, stack, trap_return)
    &&& b.tasks.readylist@ == a.tasks.readylist@.push(TaskID(task_value(r, tid)))
    &&& b.tasks.cur_app == a.tasks.cur_app
    &&& b.pool.idle_pid == a.pool.idle_pid
    &&& b.timers@ == a.timers@
    &&& b.pipes@ == a.pipes@
    &&& b.configs == a.configs
    &&& b.relocks@ == a.relocks@
    &&& b.panicked == a.panicked
}

/// The running task's process can get a thread: a thread id and a kernel
/// stack can be handed out, and that stack's top is an address.
pub open spec fn can_add_thread(k: Kernel) -> bool {
    &&& k.has_current()
    &&& has_free(thread_table_view(k.cur_proc().threads), OS_MAX_THREAD_NUM as nat)
    &&& k.kstacks.can_alloc()
    &&& kernel_stack_top(k.kstacks.next_id() as nat) <= u64::MAX
}

/// What `create_new_thread` does: the running task's process gets a thread
/// as `add_thread` says, on a new kernel stack, and it joins the ready
/// queue.
pub open spec fn new_thread_post(a: Kernel, b: Kernel, trap_return: u64, r: isize) -> bool {
    let pid = a.cur_pid();
    let stack = a.kstacks.next_id();
    &&& b.procs() == a.procs().insert(pid, b.procs()[pid])
    &&& alloc_post(a.kstacks, b.kstacks, stack)
    &&& exists|tid: usize|
        #[trigger] add_thread_post(a.cur_proc(), b.procs()[pid], stack, trap_return, tid) && r == tid as isize
            && b.tasks.readylist@ == a.tasks.readylist@.push(TaskID(task_value(a.cur_proc().pid.id, tid)))
    &&& b.tasks.cur_app == a.tasks.cur_app
    &&& b.pool.idle_pid == a.pool.idle_pid
    &&& b.pids == a.pids
    &&& b.timers@ == a.timers@
    &&& b.pipes@ == a.pipes@
    &&& b.configs == a.configs
    &&& b.relocks@ == a.relocks@
    &&& b.panicked == a.panicked
}

/// What `exec_app` does: the running task's process keeps only the
/// running thread, set as `replaced_thread` says, has user memory, and
/// its other threads leave the ready queue; nothing else changes.
pub open spec fn exec_post(a: Kernel, b: Kernel, trap_return: u64) -> bool {
    let pid = a.cur_pid();
    let tid = a.cur_tid();
    let p = b.procs()[pid];
    &&& b.procs() == a.procs().insert(pid, p)
    &&& thread_table_view(p.threads) == map![tid => replaced_thread(thread_table_view(a.cur_proc().threads)[tid], trap_return)]
    &&& same_but_threads(Process { has_user_memory: true, ..a.cur_proc() }, p)
    &&& exists|order: Seq<usize>|
        order.no_duplicates() && order.to_set() == thread_table_view(a.cur_proc().threads).dom().remove(tid)
            && b.tasks.readylist@ == remove_tasks(a.tasks.readylist@, a.cur_proc().pid.id, order)
    &&& b.tasks.cur_app == a.tasks.cur_app
    &&& b.pids == a.pids
    &&& b.kstacks == a.kstacks
    &&& b.pool.idle_pid == a.pool.idle_pid
    &&& b.timers@ == a.timers@
    &&& b.pipes@ == a.pipes@
    &&& b.configs == a.configs
    &&& b.relocks@ == a.relocks@
    &&& b.panicked == a.panicked
}

/// Process `p` is the first process with pid `pid` as `load_init_porcess`
/// makes it: no parent, children, signals or synchronisation objects;
/// standard input, output and error open on descriptors 0, 1 and 2; user
/// memory; and thread 0, new on kernel stack `stack`, set to enter user
/// mode through `trap_return`.
pub open spec fn init_process_ok(p: Process, pid: usize, stack: usize, trap_return: u64) -> bool {
    &&& p.pid.id == pid
    &&& p.ppid == 0
    &&& child_map_view(p.childpid).dom() == Set::<usize>::empty()
    &&& p.status == TaskStatus::READY
    &&& p.exit_code == 0
    &&& fd_table_view(p.fd_table) == map![0usize => FileRef::Stdin, 1usize => FileRef::Stdout, 2usize => FileRef::Stdout]
    &&& p.sig_handler.existed_signals.bits == 0
    &&& p.sig_handler.global_mask.bits == 0
    &&& p.sig_handler.cur_signum == -1
    &&& thread_table_view(p.threads).dom() == set![0usize]
    &&& new_thread_ok(thread_table_view(p.threads)[0], 0, stack, trap_return)
    &&& p.has_user_memory
    &&& p.spinlocks@.len() == 0
    &&& p.mutexlocks@.len() == 0
    &&& p.semaphores@.len() == 0
    &&& p.condvars@.len() == 0
}

impl Kernel {
    /// Ends the running task's process with `exit_code` and hands its
    /// children to process 1.
    pub fn exit_current_app(&mut self, exit_code: isize)
        requires
            can_exit_app(*old(self)),
        ensures
            exit_app_post(*old(self), *final(self), exit_code),
    {
        let cur = self.tasks.cur_app;
        let (pid, tid) = cur.to_pid_tid();
        let mut p = self.take_process(pid);
        p.exit_process(tid, exit_code, &mut self.tasks);
        let kids = p.childpid.keys();
        self.put_process(pid, p);
        let ghost k1 = *self;
        proof {
            assert(self.procs() =~= old(self).procs().insert(pid, self.procs()[pid]));
            assert(exit_app_step(*old(self), k1, exit_code));
            assert forall|c: usize| #[trigger] kids@.contains(c) implies k1.procs().contains_key(c) by {
                assert(kids@.to_set().contains(c));
            }
            assert(kids@.take(0).to_set() =~= Set::<usize>::empty());
            assert(self_map(Set::<usize>::empty()) =~= Map::<usize, usize>::empty());
            assert(child_map_view(self.procs()[1].childpid).union_prefer_right(
                Map::<usize, usize>::empty(),
            ) =~= child_map_view(self.procs()[1].childpid));
        }
        let mut i: usize = 0;
        while i < kids.len()
            invariant
                i <= kids@.len(),
                kids@.to_set() == child_map_view(old(self).cur_proc().childpid).dom(),
                k1.procs().contains_key(1),
                forall|c: usize| #[trigger] kids@.contains(c) ==> k1.procs().contains_key(c),
                reparent_post(k1, *self, kids@.take(i as int).to_set()),
            decreases kids@.len() - i,
        {
            let c = kids[i];
            let ghost before = *self;
            let ghost s = kids@.take(i as int).to_set();
            proof {
                assert(kids@.contains(c));
            }
            let mut init = self.take_process(1);
            init.childpid.insert(c, c);
            self.put_process(1, init);
            let mut child = self.take_process(c);
            child.ppid = 1;
            self.put_process(c, child);
            proof {
                assert(kids@.take(i + 1) =~= kids@.take(i as int).push(c));
                lemma_push_to_set(kids@.take(i as int), c);
                let s2 = s.insert(c);
                assert(kids@.take(i + 1).to_set() == s2);
                assert(self_map(s2) =~= self_map(s).insert(c, c));
                assert(child_map_view(self.procs()[1].childpid) =~= child_map_view(
                    k1.procs()[1].childpid,
                ).union_prefer_right(self_map(s2)));
                assert forall|q: usize| #[trigger] self.procs().contains_key(q) implies {
                    &&& crate::task::lifecycle::same_but_family(k1.procs()[q], self.procs()[q])
                    &&& self.procs()[q].ppid == (if s2.contains(q) {
                        1
                    } else {
                        k1.procs()[q].ppid
                    })
                    &&& child_map_view(self.procs()[q].childpid) == (if q == 1 {
                        child_map_view(k1.procs()[q].childpid).union_prefer_right(self_map(s2))
                    } else {
                        child_map_view(k1.procs()[q].childpid)
                    })
                } by {
                    assert(before.procs().contains_key(q));
                }
                assert(self.procs().dom() =~= k1.procs().dom());
            }
            i = i + 1;
        }
        proof {
            assert(kids@.take(kids@.len() as int) =~= kids@);
        }
    }

    /// Ends the running task's process and runs the next ready task.
    pub fn exit_process_and_run_next(&mut self, exit_code: isize)
        requires
            can_exit_app(*old(self)),
        ensures
            exists|k: Kernel|
                #[trigger] exit_app_post(*old(self), k, exit_code) && schedule_post(k, *final(self)),
    {
        self.exit_current_app(exit_code);
        let ghost k = *self;
        self.enter_schedule();
        assert(schedule_post(k, *self));
    }
    /// Whether the running task's process has no child.
    pub fn check_is_empty(&self) -> (r: bool)
        requires
            self.has_current(),
        ensures
            r == (kids_of(*self) == Set::<usize>::empty()),
    {
        let pid = self.tasks.cur_app.to_pid();
        self.pool.processes.get(pid).unwrap().childpid.is_empty()
    }

    /// Collects child `pid` of the running task's process: the process
    /// forgets it, it leaves the process table and its pid is free again.
    pub fn recycle_an_child(&mut self, pid: usize)
        requires
            old(self).has_current(),
        ensures
            recycle_post(*old(self), *final(self), pid),
    {
        let cur_pid = self.tasks.cur_app.to_pid();
        let mut p = self.take_process(cur_pid);
        p.childpid.remove(pid);
        self.put_process(cur_pid, p);
        let ghost k1 = *self;
        if let Some(child) = self.pool.processes.remove(pid) {
            self.pids.recycle(child.pid.id);
        }
        proof {
            assert(self.procs().dom() =~= old(self).procs().dom().remove(pid));
            if pid != cur_pid {
                assert(self.procs()[cur_pid] == k1.procs()[cur_pid]);
            }
        }
    }

    /// Collects any child of the running task's process that has exited.
    /// Returns its pid and its exit code (to be written to the caller), -1
    /// with no child, -2 while no child has exited.
    pub fn wait_any_child(&mut self) -> (r: (isize, Option<i32>))
        requires
            old(self).has_current(),
            kids_exist(*old(self)),
        ensures
            wait_any_post(*old(self), *final(self), r),
    {
        if self.check_is_empty() {
            return (-1, None);
        }
        let cur_pid = self.tasks.cur_app.to_pid();
        let kids = self.pool.processes.get(cur_pid).unwrap().childpid.keys();
        let mut i: usize = 0;
        while i < kids.len()
            invariant
                *self == *old(self),
                i <= kids@.len(),
                cur_pid == self.cur_pid(),
                self.has_current(),
                kids_exist(*self),
                kids@.to_set() == kids_of(*self),
                forall|j: int|
                    0 <= j < i ==> #[trigger] self.procs()[kids@[j]].status != TaskStatus::ZOMBIE,
            decreases kids@.len() - i,
        {
            let id = kids[i];
            proof {
                assert(kids@.to_set().contains(id));
            }
            let child = self.pool.processes.get(id).unwrap();
            if child.status == TaskStatus::ZOMBIE {
                let code = child.exit_code as i32;
                self.recycle_an_child(id);
                return (id as isize, Some(code));
            }
            i = i + 1;
        }
        proof {
            assert forall|c: usize| #[trigger] kids_of(*old(self)).contains(c) implies old(
                self,
            ).procs()[c].status != TaskStatus::ZOMBIE by {
                assert(kids@.to_set().contains(c));
                let j = choose|j: int| 0 <= j < kids@.len() && kids@[j] == c;
            }
        }
        (-2, None)
    }

    /// Collects child `pid` of the running task's process once it has
    /// exited: returns `pid` and its exit code (to be written to the
    /// caller), -1 with no child or when `pid` is not a child, -2 while it
    /// runs.
    pub fn wait_single_child(&mut self, pid: isize) -> (r: (isize, Option<i32>))
        requires
            old(self).has_current(),
            kids_exist(*old(self)),
        ensures
            wait_single_post(*old(self), *final(self), pid, r),
    {
        if self.check_is_empty() {
            return (-1, None);
        }
        let child_pid = pid as usize;
        let cur_pid = self.tasks.cur_app.to_pid();
        if !self.pool.processes.get(cur_pid).unwrap().childpid.contains_key(child_pid) {
            return (-1, None);
        }
        let child = self.pool.processes.get(child_pid).unwrap();
        if child.status == TaskStatus::ZOMBIE {
            let code = child.exit_code as i32;
            self.recycle_an_child(child_pid);
            (pid, Some(code))
        } else {
            (-2, None)
        }
    }

    /// Ends the running thread with `exit_code`, as `exit_thread` says.
    pub fn exit_current_thread(&mut self, exit_code: i32) -> (r: isize)
        requires
            old(self).has_current_thread(),
        ensures
            r == 0,
            exit_thread_kernel_post(*old(self), *final(self), exit_code),
    {
        let (pid, tid) = self.tasks.cur_app.to_pid_tid();
        let mut p = self.take_process(pid);
        let r = p.exit_thread(tid, exit_code, &mut self.tasks);
        self.put_process(pid, p);
        proof {
            assert(self.procs() =~= old(self).procs().insert(pid, self.procs()[pid]));
        }
        r
    }

    /// Ends the running thread and runs the next ready task.
    pub fn exit_task_and_run_next(&mut self, exit_code: i32)
        requires
            old(self).has_current_thread(),
        ensures
            exists|k: Kernel|
                #[trigger] exit_thread_kernel_post(*old(self), k, exit_code) && schedule_post(
                    k,
                    *final(self),
                ),
    {
        self.exit_current_thread(exit_code);
        let ghost k = *self;
        self.enter_schedule();
        assert(schedule_post(k, *self));
    }

    /// The running thread waits for thread `tid` of its process: -1 when it
    /// names itself, otherwise as `Process::wait_thread` says.
    pub fn wait_thread(&mut self, tid: usize) -> (r: isize)
        requires
            old(self).has_current(),
        ensures
            tid == old(self).cur_tid() ==> r == -1 && *final(self) == *old(self),
            tid != old(self).cur_tid() ==> only_proc_changed(*old(self), *final(self), old(self).cur_pid())
                && wait_thread_post(old(self).cur_proc(), final(self).procs()[old(self).cur_pid()], tid, r),
    {
        let (pid, cur_tid) = self.tasks.cur_app.to_pid_tid();
        if cur_tid == tid {
            return -1;
        }
        let mut p = self.take_process(pid);
        let r = p.wait_thread(tid);
        self.put_process(pid, p);
        proof {
            assert(self.procs() =~= old(self).procs().insert(pid, self.procs()[pid]));
        }
        r
    }
    /// Sets the action of signal `signum` of the running task's process, as
    /// `Process::active_signal` says.
    pub fn set_signal_action(
        &mut self,
        signum: i32,
        action: usize,
        old_action: usize,
        new_action: SignalAction,
    ) -> (r: (isize, Option<SignalAction>))
        requires
            old(self).has_current(),
        ensures
            only_proc_changed(*old(self), *final(self), old(self).cur_pid()),
            active_signal_post(
                old(self).cur_proc(),
                final(self).procs()[old(self).cur_pid()],
                signum as usize,
                action,
                old_action,
                new_action,
                r,
            ),
    {
        let pid = self.tasks.cur_app.to_pid();
        let mut p = self.take_process(pid);
        let r = p.active_signal(signum as usize, action, old_action, new_action);
        self.put_process(pid, p);
        proof {
            assert(self.procs() =~= old(self).procs().insert(pid, self.procs()[pid]));
        }
        r
    }

    /// The running task enters the handler of the signal its process is
    /// handling; `f` is its trap-context page.
    pub fn handle_an_user_signal(&self, m: &mut PhysMemory, f: u64)
        requires
            self.has_current(),
            0 <= self.cur_proc().sig_handler.cur_signum < 32,
            old(m).has_frame(f),
        ensures
            signal_entered(
                *old(m),
                *final(m),
                f,
                self.cur_proc().sig_handler.action_table[self.cur_proc().sig_handler.cur_signum as int].handler as u64,
                self.cur_proc().sig_handler.cur_signum as u64,
            ),
    {
        let pid = self.tasks.cur_app.to_pid();
        self.pool.processes.get(pid).unwrap().handle_user_signal(m, f);
    }

    /// The running task's process leaves its signal handler.
    pub fn return_from_signal(&mut self)
        requires
            old(self).has_current(),
        ensures
            only_proc_changed(*old(self), *final(self), old(self).cur_pid()),
            final(self).procs()[old(self).cur_pid()].sig_handler == (crate::task::action::SignalHandler {
                cur_signum: -1isize,
                ..old(self).cur_proc().sig_handler
            }),
            same_but_signals(old(self).cur_proc(), final(self).procs()[old(self).cur_pid()]),
            final(self).procs()[old(self).cur_pid()].exit_code == old(self).cur_proc().exit_code,
    {
        let pid = self.tasks.cur_app.to_pid();
        let mut p = self.take_process(pid);
        p.signal_recover();
        self.put_process(pid, p);
        proof {
            assert(self.procs() =~= old(self).procs().insert(pid, self.procs()[pid]));
        }
    }
    /// Makes the running task's process run a new program (its memory
    /// already replaced), as `replace_process` does on the running thread.
    pub fn exec_app(&mut self, trap_return: u64)
        requires
            old(self).has_current_thread(),
            kernel_stack_top(
                thread_table_view(old(self).cur_proc().threads)[old(self).cur_tid()].kern_stack.stack_id as nat,
            ) <= u64::MAX,
        ensures
            exec_post(*old(self), *final(self), trap_return),
    {
        let (pid, tid) = self.tasks.cur_app.to_pid_tid();
        let mut p = self.take_process(pid);
        p.replace_process(tid, &mut self.tasks, trap_return);
        self.put_process(pid, p);
        proof {
            assert(self.procs() =~= old(self).procs().insert(pid, self.procs()[pid]));
        }
    }

    /// Sets up the first process: a new pid and, on a new kernel stack,
    /// its thread 0, set to enter user mode through `trap_return`, with the
    /// standard files open; the thread joins the ready queue. Returns the
    /// pid.
    pub fn load_init_porcess(&mut self, trap_return: u64) -> (r: usize)
        requires
            old(self).pids.can_alloc(),
            old(self).kstacks.can_alloc(),
            kernel_stack_top(old(self).kstacks.next_id() as nat) <= u64::MAX,
        ensures
            r == old(self).pids.next_id(),
            alloc_post(old(self).pids, final(self).pids, r),
            alloc_post(old(self).kstacks, final(self).kstacks, old(self).kstacks.next_id()),
            final(self).procs() == old(self).procs().insert(r, final(self).procs()[r]),
            init_process_ok(final(self).procs()[r], r, old(self).kstacks.next_id(), trap_return),
            final(self).tasks.readylist@ == old(self).tasks.readylist@.push(TaskID(task_value(r, 0))),
            final(self).tasks.cur_app == old(self).tasks.cur_app,
            final(self).pool.idle_pid == old(self).pool.idle_pid,
            final(self).timers@ == old(self).timers@,
            final(self).pipes@ == old(self).pipes@,
            final(self).configs == old(self).configs,
            final(self).relocks@ == old(self).relocks@,
            final(self).panicked == old(self).panicked,
    {
        let pid = self.pids.alloc_avaliabe_id();
        let stack = self.kstacks.alloc_avaliabe_id();
        let mut p = Process::new(IdWrapper::new(pid));
        let mut t = Thread::new(0, stack);
        t.has_user_memory = true;
        t.init_task_data(trap_return);
        p.threads.insert(0, t);
        p.has_user_memory = true;
        p.fd_table.insert(0, FileRef::Stdin);
        p.fd_table.insert(1, FileRef::Stdout);
        p.fd_table.insert(2, FileRef::Stdout);
        proof {
            assert(fd_table_view(p.fd_table) =~= map![0usize => FileRef::Stdin, 1usize => FileRef::Stdout, 2usize => FileRef::Stdout]);
            assert(thread_table_view(p.threads).dom() =~= set![0usize]);
        }
        self.put_process(pid, p);
        self.add_schedule_task(pid, 0);
        proof {
            assert(self.procs() =~= old(self).procs().insert(pid, self.procs()[pid]));
        }
        pid
    }

    /// Forks the running task's process: returns the new process's pid.
    /// `trap_return` is the code through which the new thread goes back
    /// to user mode.
    pub fn fork_new_app(&mut self, trap_return: u64) -> (r: usize)
        requires
            can_fork(*old(self)),
        ensures
            fork_post(*old(self), *final(self), trap_return, r),
    {
        let (old_pid, old_tid) = self.tasks.cur_app.to_pid_tid();
        let new_pid = self.pids.alloc_avaliabe_id();
        let stack = self.kstacks.alloc_avaliabe_id();
        let mut new_process = Process::new(IdWrapper::new(new_pid));
        let ghost c0 = new_process;
        let mut parent = self.take_process(old_pid);
        parent.fork_process(old_tid, &mut new_process, stack, trap_return);
        parent.childpid.insert(new_pid, new_pid);
        self.put_process(old_pid, parent);
        self.put_process(new_pid, new_process);
        self.add_schedule_task(new_pid, old_tid);
        proof {
            assert(fresh_process(c0, new_pid));
            assert(self.procs().dom() =~= old(self).procs().dom().insert(new_pid));
        }
        new_pid
    }

    /// Adds a thread to the running task's process and puts it in the ready
    /// queue; returns its thread id. `trap_return` is the code through
    /// which it enters user mode.
    pub fn create_new_thread(&mut self, trap_return: u64) -> (r: isize)
        requires
            can_add_thread(*old(self)),
        ensures
            new_thread_post(*old(self), *final(self), trap_return, r),
    {
        let pid = self.tasks.cur_app.to_pid();
        let stack = self.kstacks.alloc_avaliabe_id();
        let mut p = self.take_process(pid);
        let owner = p.pid.id;
        let tid = p.add_thread(stack, trap_return);
        self.put_process(pid, p);
        self.add_schedule_task(owner, tid);
        proof {
            assert(self.procs() =~= old(self).procs().insert(pid, self.procs()[pid]));
        }
        tid as isize
    }

    /// Wakes the tasks whose timers expired by `current_ms`, earliest timer
    /// first, and drops those timers.
    pub fn check_timer(&mut self, current_ms: usize)
        ensures
            timer_check_post(*old(self), *final(self), current_ms),
    {
        let woken = crate::timer::check_timer(&mut self.timers, current_ms);
        let ghost m = *self;
        self.wake_tasks(&woken);
        proof {
            assert(m == (Kernel { timers: m.timers, ..*old(self) }));
            assert(wake_all_post(m, *self, expired_order(old(self).timers@, current_ms).0));
        }
    }
}

/// What `check_timer` does at time `current_ms`: the timers that have
/// expired are taken out, earliest first, and their tasks woken in that
/// order.
pub open spec fn timer_check_post(a: Kernel, b: Kernel, current_ms: usize) -> bool {
    exists|m: Kernel|
        #[trigger] wake_all_post(m, b, expired_order(a.timers@, current_ms).0) && m.timers@ == expired_order(
            a.timers@,
            current_ms,
        ).1 && m == (Kernel { timers: m.timers, ..a })
}

/// What `suspend_task_and_run_next` does: the running task goes to the
/// back of the ready queue and the front one runs.
pub open spec fn suspend_post(a: Kernel, b: Kernel) -> bool {
    &&& b.tasks.readylist@ == a.tasks.readylist@.push(a.tasks.cur_app).drop_first()
    &&& b.tasks.cur_app == a.tasks.readylist@.push(a.tasks.cur_app)[0]
    &&& b.procs() == a.procs()
    &&& b.pids == a.pids
    &&& b.timers@ == a.timers@
    &&& b.relocks@ == a.relocks@
    &&& b.panicked == a.panicked
}

/// The user address of the running thread's trap context.
pub fn get_current_context_uaddr(k: &Kernel) -> (r: u64)
    requires
        crate::mm::memory_set::user_trap_context_start(k.cur_tid() as nat) <= u64::MAX,
    ensures
        r == crate::mm::memory_set::user_trap_context_start(k.cur_tid() as nat),
{
    let tid = k.get_current_task().to_tid();
    crate::mm::memory_set::get_user_trap_context_start(tid)
}

} // verus!
