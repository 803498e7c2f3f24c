//! A process: its files, signals, threads, children and synchronisation
//! objects.
use vstd::prelude::*;
use crate::fs::FileRef;
use crate::sync::condvar::Condvar;
use crate::sync::mutex::{Mutex, MutexLock, SpinLock};
use crate::sync::semaphore::Semaphore;
use crate::task::action::SignalHandler;
use crate::task::id::IdWrapper;
use crate::task::schedule::{TaskContoller, TaskID, remove_first, task_value};
use crate::task::signal::{SignalFlags, signal_bit, kill_code, check_signal_action, signal_action_ok};
use crate::task::action::SignalAction;
use crate::task::tables::{
    ChildMap,
    FdTable,
    ThreadTable,
    child_map_view,
    fd_table_view,
    thread_table_view,
};
use crate::task::task_context::TaskStatus;
use crate::task::thread::Thread;
use crate::mm::kernel_set::kernel_stack_top;
use crate::task::TaskhandleStatus;

use crate::mm::page_table::PhysMemory;
use crate::task::trap_context::{save_for_signal, signal_entered};
verus! {

/// Descriptor of standard input.
pub const FD_STDIN: usize = 0;
/// Descriptor of standard output.
pub const FD_STDOUT: usize = 1;
/// Descriptor of standard error.
pub const FD_STDERR: usize = 2;
/// Descriptors of a process are below this bound.
pub const OS_MAX_FILE_DESCRIPTOR_NUM: usize = 256;
/// Thread ids of a process are below this bound.
pub const OS_MAX_THREAD_NUM: usize = 1024;
/// A process has at most this many blocking locks, and as many spin locks.
pub const OS_MAX_LOCK_NUM: usize = 64;

/// A process. `has_user_memory` records whether its user address space is
/// still mapped.
pub struct Process {
    pub pid: IdWrapper,
    pub ppid: usize,
    pub childpid: ChildMap,
    pub status: TaskStatus,
    pub exit_code: isize,
    pub fd_table: FdTable,
    pub sig_handler: SignalHandler,
    pub threads: ThreadTable,
    pub has_user_memory: bool,
    pub spinlocks: Vec<Option<SpinLock>>,
    pub mutexlocks: Vec<Option<MutexLock>>,
    pub semaphores: Vec<Option<Semaphore>>,
    pub condvars: Vec<Option<Condvar>>,
}

/// What an operation on a lock, a semaphore or a condition variable asks
/// the scheduler to do: wake `wake` in order, block the calling task when
/// `block` holds, and, once that task runs again, take lock `relock` for it.
pub struct LockEffect {
    pub block: bool,
    pub wake: Vec<TaskID>,
    pub relock: Option<usize>,
}

/// `fd` is the smallest number below `bound` that `m` has no entry for.
pub open spec fn lowest_free<V>(m: Map<usize, V>, bound: nat, fd: usize) -> bool {
    &&& fd < bound
    &&& !m.contains_key(fd)
    &&& forall|g: usize| g < fd ==> m.contains_key(g)
}

/// Some number below `bound` has no entry in `m`.
pub open spec fn has_free<V>(m: Map<usize, V>, bound: nat) -> bool {
    exists|g: usize| g < bound && !m.contains_key(g)
}

/// What the signal loop of `handle_signal` decides, scanning signals from
/// `i` on; `should` tells whether an earlier signal was already found to
/// be handled (the flag stays set once set). The result is the status, the
/// new signal state, and the exit code that a killing signal leaves.
pub open spec fn signal_scan(h: SignalHandler, i: nat, should: bool) -> (
    TaskhandleStatus,
    SignalHandler,
    Option<i32>,
)
    decreases 32 - i,
{
    if i >= 32 {
        (TaskhandleStatus::OK, h, None)
    } else {
        let sig = SignalFlags { bits: signal_bit(i as int) };
        let now = should || (h.existed_signals.has(sig) && !h.global_mask.has(sig) && (
        h.cur_signum == -1 || !h.action_table[i as int].mask.has(sig)));
        if now {
            if i == 0 || i == 2 || i == 4 || i == 6 || i == 8 || i == 9 || i == 11 {
                (TaskhandleStatus::DOSTOP, h, kill_code(i as int))
            } else if i == 18 {
                (
                    TaskhandleStatus::OK,
                    SignalHandler {
                        existed_signals: SignalFlags {
                            bits: h.existed_signals.bits & !signal_bit(19) & !signal_bit(18),
                        },
                        ..h
                    },
                    None,
                )
            } else if i == 19 {
                (TaskhandleStatus::DOWAIT, h, None)
            } else if h.action_table[i as int].handler != 0 {
                (
                    TaskhandleStatus::DOSIGNAL,
                    SignalHandler {
                        existed_signals: SignalFlags {
                            bits: h.existed_signals.bits & !signal_bit(i as int),
                        },
                        cur_signum: i as isize,
                        ..h
                    },
                    None,
                )
            } else {
                signal_scan(h, i + 1, true)
            }
        } else {
            signal_scan(h, i + 1, false)
        }
    }
}

/// A scan that ends in running a handler names a signal below 32 as the
/// one being handled.
pub proof fn lemma_scan_signum(h: SignalHandler, i: nat, should: bool)
    ensures
        signal_scan(h, i, should).0 == TaskhandleStatus::DOSIGNAL ==> 0 <= signal_scan(h, i, should).1.cur_signum
            < 32,
    decreases 32 - i,
{
    if i < 32 {
        lemma_scan_signum(h, i + 1, true);
        lemma_scan_signum(h, i + 1, false);
    }
}

/// When the scan of pending signals ends in running a handler, the signal
/// it runs the handler for is taken off the pending set and every other
/// pending signal stays; that signal's handler is installed, and the mask
/// and the table of actions stay as they were. So after the handler
/// returns, the same signal does not run it again unless it is sent again.
pub proof fn lemma_handler_signal_consumed(h: SignalHandler, i: nat, should: bool)
    ensures
        ({
            let s = signal_scan(h, i, should);
            s.0 == TaskhandleStatus::DOSIGNAL ==> {
                &&& 0 <= s.1.cur_signum < 32
                &&& s.1.existed_signals.bits == h.existed_signals.bits & !((1u32 << (s.1.cur_signum as u32)) as i32)
                &&& s.1.global_mask == h.global_mask
                &&& s.1.action_table == h.action_table
                &&& h.action_table[s.1.cur_signum as int].handler != 0
            }
        }),
        ({
            let s = signal_scan(h, i, should);
            &&& s.0 == TaskhandleStatus::DOSTOP || s.0 == TaskhandleStatus::DOWAIT ==> s.1 == h
            &&& s.2 is Some ==> s.0 == TaskhandleStatus::DOSTOP
            &&& s.0 == TaskhandleStatus::OK ==> s.1 == h || s.1 == (SignalHandler {
                existed_signals: SignalFlags {
                    bits: h.existed_signals.bits & !((1u32 << 19u32) as i32) & !((1u32 << 18u32) as i32),
                },
                ..h
            })
        }),
    decreases 32 - i,
{
    if i < 32 {
        lemma_handler_signal_consumed(h, i + 1, true);
        lemma_handler_signal_consumed(h, i + 1, false);
    }
}

/// `new` is `old` with slot `r` filled: `r` is the first empty slot of
/// `old`, or, when there is none, a new last slot.
pub open spec fn slot_filled<T>(old: Seq<Option<T>>, new: Seq<Option<T>>, r: int) -> bool {
    &&& 0 <= r
    &&& forall|j: int| 0 <= j < r && j < old.len() ==> (#[trigger] old[j]).is_some()
    &&& (r < old.len() ==> old[r].is_none() && new.len() == old.len())
    &&& (r >= old.len() ==> r == old.len() && new.len() == old.len() + 1)
    &&& new[r].is_some()
    &&& forall|j: int| 0 <= j < old.len() && j != r ==> new[j] == old[j]
}

/// A blocking lock that is free and has nobody waiting.
pub open spec fn fresh_mutex(s: Option<MutexLock>) -> bool {
    &&& s.is_some()
    &&& !s.unwrap().inner.inner.locked
    &&& s.unwrap().inner.inner.waitque@.len() == 0
}

/// What `process_lock_operation` does to the lock tables and returns.
pub open spec fn lock_op_post(
    old: Process,
    new: Process,
    id: usize,
    lock: bool,
    cur: TaskID,
    r: (isize, LockEffect),
) -> bool {
    if id < 64 && id < old.mutexlocks@.len() && old.mutexlocks@[id as int].is_some() {
        let m = old.mutexlocks@[id as int].unwrap().inner.inner;
        let m2 = new.mutexlocks@[id as int];
        &&& new.spinlocks@ == old.spinlocks@
        &&& new.mutexlocks@.len() == old.mutexlocks@.len()
        &&& forall|j: int| 0 <= j < old.mutexlocks@.len() && j != id ==> new.mutexlocks@[j] == old.mutexlocks@[j]
        &&& m2.is_some()
        &&& m2.unwrap().inner.inner.locked == lock
        &&& (lock && m.locked ==> r.0 == 1 && r.1.block && r.1.wake@.len() == 0
            && m2.unwrap().inner.inner.waitque@ == m.waitque@.push(cur))
        &&& (lock && !m.locked ==> r.0 == 0 && !r.1.block && r.1.wake@.len() == 0
            && m2.unwrap().inner.inner.waitque@ == m.waitque@)
        &&& (!lock ==> r.0 == 0 && !r.1.block && r.1.wake@ == m.waitque@
            && m2.unwrap().inner.inner.waitque@.len() == 0)
    } else if 64 <= id < 128 && id - 64 < old.spinlocks@.len() && old.spinlocks@[id - 64].is_some() {
        let l = old.spinlocks@[id - 64].unwrap().locked.inner;
        let l2 = new.spinlocks@[id - 64];
        &&& new.mutexlocks@ == old.mutexlocks@
        &&& new.spinlocks@.len() == old.spinlocks@.len()
        &&& forall|j: int| 0 <= j < old.spinlocks@.len() && j != id - 64 ==> new.spinlocks@[j] == old.spinlocks@[j]
        &&& l2.is_some()
        &&& l2.unwrap().locked.inner == lock
        &&& !r.1.block && r.1.wake@.len() == 0
        &&& r.0 == (if lock && l { 1isize } else { 0isize })
    } else {
        &&& r.0 == -1
        &&& !r.1.block && r.1.wake@.len() == 0
        &&& new.mutexlocks@ == old.mutexlocks@
        &&& new.spinlocks@ == old.spinlocks@
    }
}

/// Every thread of `m` other than `tid` has exited.
pub open spec fn others_exited(m: Map<usize, Thread>, tid: usize) -> bool {
    forall|k: usize| m.contains_key(k) && k != tid ==> #[trigger] m[k].status == TaskStatus::ZOMBIE
}

/// The ready queue `q` with the first entry of each thread `tids` of
/// process `pid` taken out, in the order of `tids`.
pub open spec fn remove_tasks(q: Seq<TaskID>, pid: usize, tids: Seq<usize>) -> Seq<TaskID>
    decreases tids.len(),
{
    if tids.len() == 0 {
        q
    } else {
        remove_first(
            remove_tasks(q, pid, tids.drop_last()),
            TaskID(task_value(pid, tids.last())),
        )
    }
}

/// Taking out one more thread.
pub proof fn lemma_remove_tasks_push(q: Seq<TaskID>, pid: usize, tids: Seq<usize>, t: usize)
    ensures
        remove_tasks(q, pid, tids.push(t)) == remove_first(
            remove_tasks(q, pid, tids),
            TaskID(task_value(pid, t)),
        ),
{
    assert(tids.push(t).drop_last() =~= tids);
}

/// `b` differs from `a` at most in its open files.
pub open spec fn same_but_fds(a: Process, b: Process) -> bool {
    &&& b.pid == a.pid
    &&& b.ppid == a.ppid
    &&& b.childpid == a.childpid
    &&& b.status == a.status
    &&& b.exit_code == a.exit_code
    &&& b.sig_handler == a.sig_handler
    &&& b.threads == a.threads
    &&& b.has_user_memory == a.has_user_memory
    &&& b.spinlocks@ == a.spinlocks@
    &&& b.mutexlocks@ == a.mutexlocks@
    &&& b.semaphores@ == a.semaphores@
    &&& b.condvars@ == a.condvars@
}

/// `b` differs from `a` at most in its signal state and exit code.
pub open spec fn same_but_signals(a: Process, b: Process) -> bool {
    &&& b.pid == a.pid
    &&& b.ppid == a.ppid
    &&& b.childpid == a.childpid
    &&& b.status == a.status
    &&& b.fd_table == a.fd_table
    &&& b.threads == a.threads
    &&& b.has_user_memory == a.has_user_memory
    &&& b.spinlocks@ == a.spinlocks@
    &&& b.mutexlocks@ == a.mutexlocks@
    &&& b.semaphores@ == a.semaphores@
    &&& b.condvars@ == a.condvars@
}

/// `b` differs from `a` at most in its locks, semaphores and condition
/// variables.
pub open spec fn same_but_sync(a: Process, b: Process) -> bool {
    &&& b.pid == a.pid
    &&& b.ppid == a.ppid
    &&& b.childpid == a.childpid
    &&& b.status == a.status
    &&& b.exit_code == a.exit_code
    &&& b.fd_table == a.fd_table
    &&& b.sig_handler == a.sig_handler
    &&& b.threads == a.threads
    &&& b.has_user_memory == a.has_user_memory
}

/// `b` differs from `a` at most in its threads.
pub open spec fn same_but_threads(a: Process, b: Process) -> bool {
    &&& b.pid == a.pid
    &&& b.ppid == a.ppid
    &&& b.childpid == a.childpid
    &&& b.status == a.status
    &&& b.exit_code == a.exit_code
    &&& b.fd_table == a.fd_table
    &&& b.sig_handler == a.sig_handler
    &&& b.has_user_memory == a.has_user_memory
    &&& b.spinlocks@ == a.spinlocks@
    &&& b.mutexlocks@ == a.mutexlocks@
    &&& b.semaphores@ == a.semaphores@
    &&& b.condvars@ == a.condvars@
}

/// A sequence with one more element has that element in its set.
pub proof fn lemma_push_to_set<T>(s: Seq<T>, x: T)
    ensures
        s.push(x).to_set() == s.to_set().insert(x),
{
    assert forall|y: T| s.push(x).to_set().contains(y) == s.to_set().insert(x).contains(y) by {
        if s.push(x).contains(y) && y != x {
            let j = choose|j: int| 0 <= j < s.push(x).len() && s.push(x)[j] == y;
            assert(s[j] == y);
        }
        if s.contains(y) {
            let j = choose|j: int| 0 <= j < s.len() && s[j] == y;
            assert(s.push(x)[j] == y);
        }
        if y == x {
            assert(s.push(x)[s.len() as int] == x);
        }
    }
    assert(s.push(x).to_set() =~= s.to_set().insert(x));
}

/// What `exit_process` does to the process.
pub open spec fn exit_process_post(old: Process, new: Process, tid: usize, exit_code: isize) -> bool {
    let t = thread_table_view(old.threads)[tid];
    &&& new.status == TaskStatus::ZOMBIE
    &&& new.exit_code == (if exit_code != 0 {
        exit_code
    } else {
        old.exit_code
    })
    &&& fd_table_view(new.fd_table).dom() == Set::<usize>::empty()
    &&& thread_table_view(new.threads) == Map::<usize, Thread>::empty().insert(
        tid,
        Thread { has_user_memory: false, ..t },
    )
    &&& !new.has_user_memory
    &&& new.mutexlocks@.len() == 0
    &&& new.spinlocks@ == old.spinlocks@
    &&& new.semaphores@ == old.semaphores@
    &&& new.condvars@ == old.condvars@
    &&& new.pid == old.pid
    &&& new.ppid == old.ppid
    &&& new.childpid == old.childpid
    &&& new.sig_handler == old.sig_handler
}

/// Opening `file` on the smallest free descriptor, which is returned.
pub open spec fn set_fd_post(a: Process, b: Process, file: FileRef, r: usize) -> bool {
    &&& lowest_free(fd_table_view(a.fd_table), OS_MAX_FILE_DESCRIPTOR_NUM as nat, r)
    &&& fd_table_view(b.fd_table) == fd_table_view(a.fd_table).insert(
                r,
                file
    )
    &&& same_but_fds(a, b)
}

/// Closing descriptor `fd`.
pub open spec fn remove_fd_post(a: Process, b: Process, fd: usize, r: isize) -> bool {
    &&& fd_table_view(a.fd_table).contains_key(fd) ==> r == 0
    &&& !fd_table_view(a.fd_table).contains_key(fd) ==> r == -1
    &&& fd_table_view(b.fd_table) == fd_table_view(a.fd_table).remove(fd)
    &&& same_but_fds(a, b)
}

/// Opening the file of `fd` again on the smallest free descriptor.
pub open spec fn dup_fd_post(a: Process, b: Process, fd: usize, r: isize) -> bool {
    &&& !fd_table_view(a.fd_table).contains_key(fd) ==> r == -1 && fd_table_view(
                b.fd_table
    ) == fd_table_view(a.fd_table)
    &&& fd_table_view(a.fd_table).contains_key(fd) ==> {
                &&& r >= 0
                &&& lowest_free(
                    fd_table_view(a.fd_table),
                    OS_MAX_FILE_DESCRIPTOR_NUM as nat,
                    r as usize,
                )
                &&& fd_table_view(b.fd_table) == fd_table_view(
                    a.fd_table,
                ).insert(r as usize, fd_table_view(a.fd_table)[fd])
    }
    &&& same_but_fds(a, b)
}

/// Replacing the mask of signals by `mask`.
pub open spec fn mask_signal_post(a: Process, b: Process, mask: i32, r: isize) -> bool {
    &&& r == a.sig_handler.global_mask.bits as isize
    &&& b.sig_handler == (SignalHandler {
                global_mask: SignalFlags { bits: mask },
                ..a.sig_handler
    })
    &&& same_but_signals(a, b)
    &&& b.exit_code == a.exit_code
}

/// Making signal `signum` pending.
pub open spec fn set_signal_post(a: Process, b: Process, signum: i32, r: isize) -> bool {
    &&& a.sig_handler.existed_signals.has(SignalFlags { bits: signal_bit(signum as int) })
                ==> r == -1 && b.sig_handler == a.sig_handler
    &&& !a.sig_handler.existed_signals.has(
                SignalFlags { bits: signal_bit(signum as int) }
    ) ==> r == 0 && b.sig_handler == (SignalHandler {
                existed_signals: SignalFlags {
                    bits: a.sig_handler.existed_signals.bits | signal_bit(signum as int),
                },
                ..a.sig_handler
    })
    &&& same_but_signals(a, b)
    &&& b.exit_code == a.exit_code
}

/// Creating a blocking lock or a spin lock.
pub open spec fn add_lock_post(a: Process, b: Process, blocking: bool, r: isize) -> bool {
    &&& same_but_sync(a, b)
    &&& blocking ==> (a.mutexlocks@.len() >= OS_MAX_LOCK_NUM ==> r == -1)
                && (a.mutexlocks@.len() < OS_MAX_LOCK_NUM ==> 0 <= r < 64 && slot_filled(
                a.mutexlocks@,
                b.mutexlocks@,
                r as int
    ) && fresh_mutex(b.mutexlocks@[r as int])) && b.spinlocks@
                == a.spinlocks@
    &&& !blocking ==> (a.spinlocks@.len() >= OS_MAX_LOCK_NUM ==> r == -1)
                && (a.spinlocks@.len() < OS_MAX_LOCK_NUM ==> 64 <= r < 128 && slot_filled(
                a.spinlocks@,
                b.spinlocks@,
                r - 64
    )) && b.mutexlocks@ == a.mutexlocks@
}

/// Creating a semaphore with `res_count` resources.
pub open spec fn add_semaphore_post(a: Process, b: Process, res_count: usize, r: isize) -> bool {
    &&& same_but_sync(a, b)
    &&& slot_filled(a.semaphores@, b.semaphores@, r as int)
    &&& b.semaphores@[r as int].unwrap().inner.inner.count == res_count as isize
    &&& b.semaphores@[r as int].unwrap().inner.inner.waitque@.len() == 0
    &&& b.mutexlocks@ == a.mutexlocks@
    &&& b.spinlocks@ == a.spinlocks@
    &&& b.condvars@ == a.condvars@
}

/// Returning or taking a resource of semaphore `sem_id`.
pub open spec fn sem_op_post(a: Process, b: Process, sem_id: usize, up: bool, cur: TaskID, r: (isize, LockEffect)) -> bool {
    &&& same_but_sync(a, b)
    &&& sem_id >= a.semaphores@.len() ==> r.0 == -1 && b.semaphores@
                == a.semaphores@ && !r.1.block && r.1.wake@.len() == 0
    &&& sem_id < a.semaphores@.len() && a.semaphores@[sem_id as int].is_none()
                ==> r.0 == -2 && b.semaphores@ == a.semaphores@ && !r.1.block
                && r.1.wake@.len() == 0
    &&& sem_id < a.semaphores@.len() && a.semaphores@[sem_id as int].is_some()
                ==> ({
                let s = a.semaphores@[sem_id as int].unwrap().inner.inner;
                let s2 = b.semaphores@[sem_id as int].unwrap().inner.inner;
                &&& r.0 == 0
                &&& b.semaphores@.len() == a.semaphores@.len()
                &&& b.semaphores@[sem_id as int].is_some()
                &&& forall|j: int|
                    0 <= j < a.semaphores@.len() && j != sem_id
                        ==> b.semaphores@[j] == a.semaphores@[j]
                &&& up ==> s2.count == s.count + 1 && !r.1.block && (if s2.count <= 0
                    && s.waitque@.len() > 0 {
                    r.1.wake@ == seq![s.waitque@[0]] && s2.waitque@ == s.waitque@.drop_first()
                } else {
                    r.1.wake@.len() == 0 && s2.waitque@ == s.waitque@
                })
                &&& !up ==> s2.count == s.count - 1 && r.1.wake@.len() == 0 && r.1.block == (
                s2.count < 0) && (if s2.count < 0 {
                    s2.waitque@ == s.waitque@.push(cur)
                } else {
                    s2.waitque@ == s.waitque@
                })
    })
    &&& r.1.relock.is_none()
    &&& b.mutexlocks@ == a.mutexlocks@
    &&& b.spinlocks@ == a.spinlocks@
    &&& b.condvars@ == a.condvars@
}

/// Creating a condition variable.
pub open spec fn add_condvar_post(a: Process, b: Process, r: isize) -> bool {
    &&& same_but_sync(a, b)
    &&& slot_filled(a.condvars@, b.condvars@, r as int)
    &&& b.condvars@[r as int].unwrap().waitque.inner@.len() == 0
    &&& b.mutexlocks@ == a.mutexlocks@
    &&& b.spinlocks@ == a.spinlocks@
    &&& b.semaphores@ == a.semaphores@
}

/// Signalling or waiting on condition variable `condvar_id`.
pub open spec fn condvar_op_post(a: Process, b: Process, condvar_id: usize, mutext_id: usize, signal: bool, cur: TaskID, r: (isize, LockEffect)) -> bool {
    &&& same_but_sync(a, b)
    &&& condvar_id >= a.condvars@.len() ==> r.0 == -1 && b.condvars@
                == a.condvars@ && !r.1.block && r.1.wake@.len() == 0 && r.1.relock.is_none()
                && b.mutexlocks@ == a.mutexlocks@ && b.spinlocks@
                == a.spinlocks@
    &&& condvar_id < a.condvars@.len() && a.condvars@[condvar_id as int].is_none()
                ==> r.0 == -2 && b.condvars@ == a.condvars@ && !r.1.block
                && r.1.wake@.len() == 0 && r.1.relock.is_none() && b.mutexlocks@
                == a.mutexlocks@ && b.spinlocks@ == a.spinlocks@
    &&& condvar_id < a.condvars@.len() && a.condvars@[condvar_id as int].is_some()
                ==> ({
                let q = a.condvars@[condvar_id as int].unwrap().waitque.inner@;
                let c2 = b.condvars@[condvar_id as int];
                &&& r.0 == 0
                &&& b.condvars@.len() == a.condvars@.len()
                &&& c2.is_some()
                &&& forall|j: int|
                    0 <= j < a.condvars@.len() && j != condvar_id
                        ==> b.condvars@[j] == a.condvars@[j]
                &&& signal ==> r.1.wake@ == q && c2.unwrap().waitque.inner@.len() == 0
                    && !r.1.block && r.1.relock.is_none() && b.mutexlocks@
                    == a.mutexlocks@ && b.spinlocks@ == a.spinlocks@
                &&& !signal ==> c2.unwrap().waitque.inner@ == q.push(cur) && r.1.block
                    && r.1.relock == Some(mutext_id) && (exists|u: (isize, LockEffect)|
                    lock_op_post(a, b, mutext_id, false, cur, u)
                        && r.1.wake@ == u.1.wake@)
    })
    &&& b.semaphores@ == a.semaphores@
}

/// Collecting thread `tid`.
pub open spec fn wait_thread_post(a: Process, b: Process, tid: usize, r: isize) -> bool {
    &&& same_but_threads(a, b)
    &&& !thread_table_view(a.threads).contains_key(tid) ==> r == -3
                && thread_table_view(b.threads) == thread_table_view(a.threads)
    &&& thread_table_view(a.threads).contains_key(tid) && thread_table_view(
                a.threads
    )[tid].status == TaskStatus::ZOMBIE ==> r == thread_table_view(
                a.threads
    )[tid].exit_code as isize && thread_table_view(b.threads)
                == thread_table_view(a.threads).remove(tid)
    &&& thread_table_view(a.threads).contains_key(tid) && thread_table_view(
                a.threads
    )[tid].status != TaskStatus::ZOMBIE ==> r == -2 && thread_table_view(
                b.threads
    ) == thread_table_view(a.threads)
    &&& b.fd_table == a.fd_table
    &&& b.status == a.status
}

/// What `exit_thread` does to the process and to the ready queue.
pub open spec fn exit_thread_post(
    a: Process,
    b: Process,
    tid: usize,
    exit_code: i32,
    ta: TaskContoller,
    tb: TaskContoller,
) -> bool {
    &&& tb.cur_app == ta.cur_app
    &&& others_exited(thread_table_view(a.threads), tid) ==> {
        &&& exit_process_post(a, b, tid, exit_code as isize)
        &&& exists|order: Seq<usize>|
            order.no_duplicates() && order.to_set() == thread_table_view(a.threads).dom().remove(tid)
                && tb.readylist@ == remove_tasks(ta.readylist@, a.pid.id, order)
    }
    &&& !others_exited(thread_table_view(a.threads), tid) ==> {
        let t = thread_table_view(a.threads)[tid];
        &&& thread_table_view(b.threads) == thread_table_view(a.threads).insert(
            tid,
            Thread {
                has_user_memory: false,
                status: TaskStatus::ZOMBIE,
                exit_code: if exit_code != -2 {
                    exit_code as usize
                } else {
                    t.exit_code
                },
                ..t
            },
        )
        &&& same_but_threads(a, b)
        &&& tb.readylist@ == ta.readylist@
    }
}

/// Setting the action of signal `signum` to `new_action`: refused with -1
/// when the request is not valid; otherwise the old action comes back (to
/// be written to the caller) and the new one takes its place.
pub open spec fn active_signal_post(
    a: Process,
    b: Process,
    signum: usize,
    action: usize,
    old_action: usize,
    new_action: SignalAction,
    r: (isize, Option<SignalAction>),
) -> bool {
    if !signal_action_ok(signum, action, old_action) {
        r == (-1isize, None::<SignalAction>) && b == a
    } else {
        &&& r == (0isize, Some(a.sig_handler.action_table[signum as int]))
        &&& b.sig_handler.action_table@ == a.sig_handler.action_table@.update(signum as int, new_action)
        &&& b.sig_handler.existed_signals == a.sig_handler.existed_signals
        &&& b.sig_handler.global_mask == a.sig_handler.global_mask
        &&& b.sig_handler.cur_signum == a.sig_handler.cur_signum
        &&& b.exit_code == a.exit_code
        &&& same_but_signals(a, b)
    }
}

/// `t` is a thread just made for `tid` on kernel stack `stack`: running,
/// with its user memory mapped, and set to start on the top of its kernel
/// stack at `trap_return`.
pub open spec fn new_thread_ok(t: Thread, tid: usize, stack: usize, trap_return: u64) -> bool {
    &&& t.tid == tid
    &&& t.exit_code == 0
    &&& t.kern_stack.stack_id == stack
    &&& t.status == TaskStatus::RUNNING
    &&& t.has_user_memory
    &&& t.context.ra == trap_return
    &&& t.context.sp == kernel_stack_top(stack as nat)
    &&& forall|i: int| 0 <= i < 12 ==> t.context.registers[i] == 0
}

/// What `fork_process` does to the new process `a` (giving `b`): it is a
/// child of `parent`, opens the parent's files, has user memory, and runs
/// a copy of thread `old_tid` on kernel stack `stack`.
pub open spec fn fork_child_post(
    parent: Process,
    a: Process,
    b: Process,
    old_tid: usize,
    stack: usize,
    trap_return: u64,
) -> bool {
    &&& b.ppid == parent.pid.id
    &&& fd_table_view(b.fd_table) == fd_table_view(a.fd_table).union_prefer_right(
        fd_table_view(parent.fd_table),
    )
    &&& b.has_user_memory
    &&& thread_table_view(b.threads).dom() == thread_table_view(a.threads).dom().insert(old_tid)
    &&& new_thread_ok(thread_table_view(b.threads)[old_tid], old_tid, stack, trap_return)
    &&& forall|t: usize|
        #[trigger] thread_table_view(a.threads).contains_key(t) && t != old_tid ==> thread_table_view(
            b.threads,
        )[t] == thread_table_view(a.threads)[t]
    &&& b.pid == a.pid
    &&& b.childpid == a.childpid
    &&& b.status == a.status
    &&& b.exit_code == a.exit_code
    &&& b.sig_handler == a.sig_handler
    &&& b.spinlocks@ == a.spinlocks@
    &&& b.mutexlocks@ == a.mutexlocks@
    &&& b.semaphores@ == a.semaphores@
    &&& b.condvars@ == a.condvars@
}

/// What `add_thread` does: a new thread on the smallest free thread id
/// `r`, on kernel stack `stack`.
pub open spec fn add_thread_post(a: Process, b: Process, stack: usize, trap_return: u64, r: usize) -> bool {
    &&& lowest_free(thread_table_view(a.threads), OS_MAX_THREAD_NUM as nat, r)
    &&& thread_table_view(b.threads).dom() == thread_table_view(a.threads).dom().insert(r)
    &&& new_thread_ok(thread_table_view(b.threads)[r], r, stack, trap_return)
    &&& forall|t: usize|
        #[trigger] thread_table_view(a.threads).contains_key(t) ==> thread_table_view(b.threads)[t]
            == thread_table_view(a.threads)[t]
    &&& same_but_threads(a, b)
}

/// Thread `t` as `replace_process` leaves it: set to enter user mode
/// through `trap_return` on the top of its kernel stack, with user memory.
pub open spec fn replaced_thread(t: Thread, trap_return: u64) -> Thread {
    Thread {
        context: crate::task::task_context::TaskContext {
            sp: kernel_stack_top(t.kern_stack.stack_id as nat) as u64,
            ra: trap_return,
            ..t.context
        },
        has_user_memory: true,
        ..t
    }
}

impl Process {
    /// A fresh process with pid `id`: alive, no parent, no children, files,
    /// threads, memory or synchronisation objects.
    pub fn new(id: IdWrapper) -> (r: Self)
        ensures
            r.pid == id,
            r.ppid == 0,
            child_map_view(r.childpid).dom() == Set::<usize>::empty(),
            r.status == TaskStatus::READY,
            r.exit_code == 0,
            fd_table_view(r.fd_table).dom() == Set::<usize>::empty(),
            r.sig_handler.existed_signals.bits == 0,
            r.sig_handler.global_mask.bits == 0,
            r.sig_handler.cur_signum == -1,
            thread_table_view(r.threads).dom() == Set::<usize>::empty(),
            !r.has_user_memory,
            r.spinlocks@.len() == 0,
            r.mutexlocks@.len() == 0,
            r.semaphores@.len() == 0,
            r.condvars@.len() == 0,
    {
        Self {
            pid: id,
            ppid: 0,
            childpid: ChildMap::new(),
            status: TaskStatus::READY,
            exit_code: 0,
            fd_table: FdTable::new(),
            sig_handler: SignalHandler::new(),
            threads: ThreadTable::new(),
            has_user_memory: false,
            spinlocks: Vec::new(),
            mutexlocks: Vec::new(),
            semaphores: Vec::new(),
            condvars: Vec::new(),
        }
    }

    /// The smallest descriptor that is not open.
    fn alloc_an_new_fd(&self) -> (r: usize)
        requires
            has_free(fd_table_view(self.fd_table), OS_MAX_FILE_DESCRIPTOR_NUM as nat),
        ensures
            lowest_free(fd_table_view(self.fd_table), OS_MAX_FILE_DESCRIPTOR_NUM as nat, r),
    {
        let mut fd: usize = 0;
        while fd < OS_MAX_FILE_DESCRIPTOR_NUM
            invariant
                fd <= OS_MAX_FILE_DESCRIPTOR_NUM,
                forall|g: usize| g < fd ==> fd_table_view(self.fd_table).contains_key(g),
                has_free(fd_table_view(self.fd_table), OS_MAX_FILE_DESCRIPTOR_NUM as nat),
            decreases OS_MAX_FILE_DESCRIPTOR_NUM - fd,
        {
            if !self.fd_table.contains_key(fd) {
                return fd;
            }
            fd = fd + 1;
        }
        proof {
            let g = choose|g: usize|
                g < OS_MAX_FILE_DESCRIPTOR_NUM && !fd_table_view(self.fd_table).contains_key(g);
            assert(fd_table_view(self.fd_table).contains_key(g));
        }
        0
    }

    /// The smallest thread id that is not taken.
    fn alloc_an_thread_id(&self) -> (r: usize)
        requires
            has_free(thread_table_view(self.threads), OS_MAX_THREAD_NUM as nat),
        ensures
            lowest_free(thread_table_view(self.threads), OS_MAX_THREAD_NUM as nat, r),
    {
        let mut id: usize = 0;
        while id < OS_MAX_THREAD_NUM
            invariant
                id <= OS_MAX_THREAD_NUM,
                forall|g: usize| g < id ==> thread_table_view(self.threads).contains_key(g),
                has_free(thread_table_view(self.threads), OS_MAX_THREAD_NUM as nat),
            decreases OS_MAX_THREAD_NUM - id,
        {
            if !self.threads.contains_key(id) {
                return id;
            }
            id = id + 1;
        }
        proof {
            let g = choose|g: usize|
                g < OS_MAX_THREAD_NUM && !thread_table_view(self.threads).contains_key(g);
            assert(thread_table_view(self.threads).contains_key(g));
        }
        0
    }

    /// Opens `file` on the smallest free descriptor and returns it.
    pub fn set_new_file_descriptor(&mut self, file: FileRef) -> (r: usize)
        requires
            has_free(fd_table_view(old(self).fd_table), OS_MAX_FILE_DESCRIPTOR_NUM as nat),
        ensures
            set_fd_post(*old(self), *final(self), file, r),

    {
        let new_fd = self.alloc_an_new_fd();
        self.fd_table.insert(new_fd, file);
        new_fd
    }

    /// Closes descriptor `fd`: 0 if it was open, -1 if not.
    pub fn remove_file_descriptor(&mut self, fd: usize) -> (r: isize)
        ensures
            remove_fd_post(*old(self), *final(self), fd, r),

    {
        if self.fd_table.contains_key(fd) {
            self.fd_table.remove(fd);
            0
        } else {
            proof {
                assert(fd_table_view(self.fd_table).remove(fd) =~= fd_table_view(self.fd_table));
            }
            -1
        }
    }

    /// Opens the file of descriptor `fd` again, on the smallest free
    /// descriptor, and returns that; -1 if `fd` is not open.
    pub fn dup_file_descriptor(&mut self, fd: usize) -> (r: isize)
        requires
            fd_table_view(old(self).fd_table).contains_key(fd) ==> has_free(
                fd_table_view(old(self).fd_table),
                OS_MAX_FILE_DESCRIPTOR_NUM as nat,
            ),
        ensures
            dup_fd_post(*old(self), *final(self), fd, r),

    {
        if !self.fd_table.contains_key(fd) {
            -1
        } else {
            let file = self.fd_table.get(fd);
            let new_fd = self.alloc_an_new_fd();
            self.fd_table.insert(new_fd, file.unwrap());
            new_fd as isize
        }
    }

    /// Replaces the set of masked signals by `mask` and returns the old set.
    pub fn mask_signal(&mut self, mask: i32) -> (r: isize)
        ensures
            mask_signal_post(*old(self), *final(self), mask, r),

    {
        let old_mask = self.sig_handler.global_mask.bits();
        if let Some(flags) = SignalFlags::from_bits(mask) {
            self.sig_handler.global_mask = flags;
            old_mask as isize
        } else {
            -1
        }
    }

    /// Makes signal `signum` pending: 0 if it was not pending, -1 if it was
    /// (and then nothing changes).
    pub fn set_signal(&mut self, signum: i32) -> (r: isize)
        requires
            0 <= signum < 32,
        ensures
            set_signal_post(*old(self), *final(self), signum, r),

    {
        let flags = SignalFlags::from_signum(signum as u32);
        if self.sig_handler.existed_signals.contains(flags) {
            -1
        } else {
            self.sig_handler.existed_signals.insert(flags);
            0
        }
    }

    /// Puts a fresh blocking lock in the first empty slot, or in a new slot
    /// at the end, and returns its slot; -1 once the table has 64 slots.
    fn add_new_mutex_lock(&mut self) -> (r: isize)
        ensures
            same_but_sync(*old(self), *final(self)),
            old(self).mutexlocks@.len() >= OS_MAX_LOCK_NUM ==> r == -1 && final(self).mutexlocks@
                == old(self).mutexlocks@,
            old(self).mutexlocks@.len() < OS_MAX_LOCK_NUM ==> slot_filled(
                old(self).mutexlocks@,
                final(self).mutexlocks@,
                r as int,
            ),
            old(self).mutexlocks@.len() < OS_MAX_LOCK_NUM ==> fresh_mutex(final(self).mutexlocks@[r as int]),
            final(self).spinlocks@ == old(self).spinlocks@,
            final(self).semaphores@ == old(self).semaphores@,
            final(self).condvars@ == old(self).condvars@,
    {
        let mut id: usize = OS_MAX_LOCK_NUM;
        if self.mutexlocks.len() >= OS_MAX_LOCK_NUM {
            return -1;
        }
        let mut i: usize = 0;
        while i < self.mutexlocks.len()
            invariant_except_break
                id == OS_MAX_LOCK_NUM,
            invariant
                i <= self.mutexlocks@.len(),
                self.mutexlocks@.len() < OS_MAX_LOCK_NUM,
                forall|j: int| 0 <= j < i ==> (#[trigger] self.mutexlocks@[j]).is_some(),
            ensures
                id == OS_MAX_LOCK_NUM ==> forall|j: int|
                    0 <= j < self.mutexlocks@.len() ==> (#[trigger] self.mutexlocks@[j]).is_some(),
                id != OS_MAX_LOCK_NUM ==> id < self.mutexlocks@.len() && self.mutexlocks@[id as int].is_none()
                    && forall|j: int| 0 <= j < id ==> (#[trigger] self.mutexlocks@[j]).is_some(),
            decreases self.mutexlocks@.len() - i,
        {
            if self.mutexlocks[i].is_none() {
                id = i;
                break ;
            }
            i = i + 1;
        }
        if id == OS_MAX_LOCK_NUM {
            self.mutexlocks.push(Some(MutexLock::new()));
            id = self.mutexlocks.len() - 1;
        } else {
            self.mutexlocks.set(id, Some(MutexLock::new()));
        }
        id as isize
    }

    /// Puts a fresh spin lock in the first empty slot, or in a new slot at
    /// the end, and returns its slot plus 64; -1 once the table has 64 slots.
    fn add_new_spin_lock(&mut self) -> (r: isize)
        ensures
            same_but_sync(*old(self), *final(self)),
            old(self).spinlocks@.len() >= OS_MAX_LOCK_NUM ==> r == -1 && final(self).spinlocks@
                == old(self).spinlocks@,
            old(self).spinlocks@.len() < OS_MAX_LOCK_NUM ==> r >= 64 && slot_filled(
                old(self).spinlocks@,
                final(self).spinlocks@,
                r - 64,
            ),
            old(self).spinlocks@.len() < OS_MAX_LOCK_NUM ==> final(self).spinlocks@[r
                - 64].is_some() && !final(self).spinlocks@[r - 64].unwrap().locked.inner,
            final(self).mutexlocks@ == old(self).mutexlocks@,
            final(self).semaphores@ == old(self).semaphores@,
            final(self).condvars@ == old(self).condvars@,
    {
        let mut id: usize = OS_MAX_LOCK_NUM;
        if self.spinlocks.len() >= OS_MAX_LOCK_NUM {
            return -1;
        }
        let mut i: usize = 0;
        while i < self.spinlocks.len()
            invariant_except_break
                id == OS_MAX_LOCK_NUM,
            invariant
                i <= self.spinlocks@.len(),
                self.spinlocks@.len() < OS_MAX_LOCK_NUM,
                forall|j: int| 0 <= j < i ==> (#[trigger] self.spinlocks@[j]).is_some(),
            ensures
                id == OS_MAX_LOCK_NUM ==> forall|j: int|
                    0 <= j < self.spinlocks@.len() ==> (#[trigger] self.spinlocks@[j]).is_some(),
                id != OS_MAX_LOCK_NUM ==> id < self.spinlocks@.len() && self.spinlocks@[id as int].is_none()
                    && forall|j: int| 0 <= j < id ==> (#[trigger] self.spinlocks@[j]).is_some(),
            decreases self.spinlocks@.len() - i,
        {
            if self.spinlocks[i].is_none() {
                id = i;
                break ;
            }
            i = i + 1;
        }
        if id == OS_MAX_LOCK_NUM {
            self.spinlocks.push(Some(SpinLock::new()));
            id = self.spinlocks.len() - 1;
        } else {
            self.spinlocks.set(id, Some(SpinLock::new()));
        }
        (id + OS_MAX_LOCK_NUM) as isize
    }

    /// Creates a blocking lock when `blocking` holds, a spin lock otherwise.
    /// Lock ids below 64 name blocking locks, ids from 64 to 127 spin locks.
    pub(crate) fn add_new_lock(&mut self, blocking: bool) -> (r: isize)
        ensures
            add_lock_post(*old(self), *final(self), blocking, r),

    {
        if blocking {
            self.add_new_mutex_lock()
        } else {
            self.add_new_spin_lock()
        }
    }

    /// Takes (`lock`) or gives back lock `id` for task `cur`. Ids below 64
    /// name blocking locks and 64 to 127 spin locks. The result is -1 when no
    /// such lock exists; otherwise what `lock` returned (0 taken, 1 held by
    /// another; a blocking lock then blocks the caller), or 0 after giving
    /// back (the lock's waiters are to be woken).
    pub fn process_lock_operation(&mut self, id: usize, lock: bool, cur: TaskID) -> (r: (
        isize,
        LockEffect,
    ))
        ensures
            lock_op_post(*old(self), *final(self), id, lock, cur, r),
            same_but_sync(*old(self), *final(self)),
            final(self).semaphores@ == old(self).semaphores@,
            final(self).condvars@ == old(self).condvars@,
            r.1.relock.is_none(),
    {
        if id < OS_MAX_LOCK_NUM {
            if id < self.mutexlocks.len() {
                if self.mutexlocks[id].is_some() {
                    let mut m = self.mutexlocks[id].take().unwrap();
                    if lock {
                        let res = m.lock(cur);
                        self.mutexlocks.set(id, Some(m));
                        return (res as isize, LockEffect { block: res == 1, wake: Vec::new(), relock: None });
                    } else {
                        let woken = m.unlock();
                        self.mutexlocks.set(id, Some(m));
                        return (0, LockEffect { block: false, wake: woken, relock: None });
                    }
                }
            }
        } else if (id - OS_MAX_LOCK_NUM) < OS_MAX_LOCK_NUM {
            let spin_id = id - OS_MAX_LOCK_NUM;
            if spin_id < self.spinlocks.len() {
                if self.spinlocks[spin_id].is_some() {
                    let mut l = self.spinlocks[spin_id].take().unwrap();
                    if lock {
                        let res = l.lock(cur);
                        self.spinlocks.set(spin_id, Some(l));
                        return (res as isize, LockEffect { block: false, wake: Vec::new(), relock: None });
                    } else {
                        let woken = l.unlock();
                        self.spinlocks.set(spin_id, Some(l));
                        return (0, LockEffect { block: false, wake: woken, relock: None });
                    }
                }
            }
        }
        return (-1, LockEffect { block: false, wake: Vec::new(), relock: None });
    }

    /// Puts a fresh semaphore with `res_count` resources in the first empty
    /// slot, or in a new slot at the end, and returns its slot.
    pub(crate) fn add_new_semaphore(&mut self, res_count: usize) -> (r: isize)
        requires
            old(self).semaphores@.len() < 0x7FFF_FFFF,
        ensures
            add_semaphore_post(*old(self), *final(self), res_count, r),

    {
        let mut id: usize = 0xFFFF_FFFF;
        let mut i: usize = 0;
        while i < self.semaphores.len()
            invariant_except_break
                id == 0xFFFF_FFFF,
            invariant
                i <= self.semaphores@.len(),
                self.semaphores@.len() < 0x7FFF_FFFF,
                forall|j: int| 0 <= j < i ==> (#[trigger] self.semaphores@[j]).is_some(),
            ensures
                id == 0xFFFF_FFFF ==> forall|j: int|
                    0 <= j < self.semaphores@.len() ==> (#[trigger] self.semaphores@[j]).is_some(),
                id != 0xFFFF_FFFF ==> id < self.semaphores@.len()
                    && self.semaphores@[id as int].is_none() && forall|j: int|
                    0 <= j < id ==> (#[trigger] self.semaphores@[j]).is_some(),
            decreases self.semaphores@.len() - i,
        {
            if self.semaphores[i].is_none() {
                id = i;
                break ;
            }
            i = i + 1;
        }
        if id == 0xFFFF_FFFF {
            self.semaphores.push(Some(Semaphore::new(res_count)));
            id = self.semaphores.len() - 1;
        } else {
            self.semaphores.set(id, Some(Semaphore::new(res_count)));
        }
        id as isize
    }

    /// Returns (`up`) or takes a resource of semaphore `sem_id` for task
    /// `cur`: -1 when there is no such slot, -2 when the slot is empty, 0
    /// otherwise. Returning may wake the oldest waiter; taking may block
    /// the caller.
    pub(crate) fn process_sem_operation(&mut self, sem_id: usize, up: bool, cur: TaskID) -> (r: (
        isize,
        LockEffect,
    ))
        requires
            sem_id < old(self).semaphores@.len() && old(self).semaphores@[sem_id as int].is_some()
                ==> {
                let c = old(self).semaphores@[sem_id as int].unwrap().inner.inner.count;
                isize::MIN < c < isize::MAX
            },
        ensures
            sem_op_post(*old(self), *final(self), sem_id, up, cur, r),

    {
        if sem_id >= self.semaphores.len() {
            return (-1, LockEffect { block: false, wake: Vec::new(), relock: None });
        }
        if self.semaphores[sem_id].is_none() {
            return (-2, LockEffect { block: false, wake: Vec::new(), relock: None });
        }
        let mut sem = self.semaphores[sem_id].take().unwrap();
        let mut wake: Vec<TaskID> = Vec::new();
        let mut block = false;
        if up {
            if let Some(t) = sem.up() {
                wake.push(t);
            }
        } else {
            block = sem.down(cur);
        }
        self.semaphores.set(sem_id, Some(sem));
        (0, LockEffect { block, wake, relock: None })
    }

    /// Puts a fresh condition variable in the first empty slot, or in a new
    /// slot at the end, and returns its slot.
    pub(crate) fn add_new_condvar(&mut self) -> (r: isize)
        requires
            old(self).condvars@.len() < 0x7FFF_FFFF,
        ensures
            add_condvar_post(*old(self), *final(self), r),

    {
        let mut id: usize = 0xFFFF_FFFF;
        let mut i: usize = 0;
        while i < self.condvars.len()
            invariant_except_break
                id == 0xFFFF_FFFF,
            invariant
                i <= self.condvars@.len(),
                self.condvars@.len() < 0x7FFF_FFFF,
                forall|j: int| 0 <= j < i ==> (#[trigger] self.condvars@[j]).is_some(),
            ensures
                id == 0xFFFF_FFFF ==> forall|j: int|
                    0 <= j < self.condvars@.len() ==> (#[trigger] self.condvars@[j]).is_some(),
                id != 0xFFFF_FFFF ==> id < self.condvars@.len() && self.condvars@[id as int].is_none()
                    && forall|j: int| 0 <= j < id ==> (#[trigger] self.condvars@[j]).is_some(),
            decreases self.condvars@.len() - i,
        {
            if self.condvars[i].is_none() {
                id = i;
                break ;
            }
            i = i + 1;
        }
        if id == 0xFFFF_FFFF {
            self.condvars.push(Some(Condvar::new()));
            id = self.condvars.len() - 1;
        } else {
            self.condvars.set(id, Some(Condvar::new()));
        }
        id as isize
    }

    /// Signals (`signal`) or waits on condition variable `condvar_id` for
    /// task `cur`: -1 when there is no such slot, -2 when the slot is empty,
    /// 0 otherwise. Signalling wakes every waiter. Waiting gives back lock
    /// `mutext_id` (waking its waiters), queues and blocks the caller, and
    /// asks for the lock to be taken again once the caller runs.
    pub(crate) fn operate_condvar(&mut self, condvar_id: usize, mutext_id: usize, signal: bool, cur: TaskID) -> (r: (
        isize,
        LockEffect,
    ))
        ensures
            condvar_op_post(*old(self), *final(self), condvar_id, mutext_id, signal, cur, r),

    {
        if condvar_id >= self.condvars.len() {
            return (-1, LockEffect { block: false, wake: Vec::new(), relock: None });
        }
        if self.condvars[condvar_id].is_none() {
            return (-2, LockEffect { block: false, wake: Vec::new(), relock: None });
        }
        if signal {
            let mut cv = self.condvars[condvar_id].take().unwrap();
            let woken = cv.signal_all();
            self.condvars.set(condvar_id, Some(cv));
            (0, LockEffect { block: false, wake: woken, relock: None })
        } else {
            let u = self.process_lock_operation(mutext_id, false, cur);
            let ghost mid = *self;
            let mut cv = self.condvars[condvar_id].take().unwrap();
            cv.wait(cur);
            self.condvars.set(condvar_id, Some(cv));
            proof {
                assert(self.mutexlocks@ == mid.mutexlocks@);
                assert(self.spinlocks@ == mid.spinlocks@);
                assert(lock_op_post(*old(self), *self, mutext_id, false, cur, u));
            }
            let (_, eff) = u;
            (0, LockEffect { block: true, wake: eff.wake, relock: Some(mutext_id) })
        }
    }

    /// Collects thread `tid`: -3 if there is no such thread, -2 while it
    /// runs, its exit code once it has exited (and then it is removed).
    pub fn wait_thread(&mut self, tid: usize) -> (r: isize)
        ensures
            wait_thread_post(*old(self), *final(self), tid, r),

    {
        if !self.threads.contains_key(tid) {
            return -3;
        }
        let t = self.threads.get(tid).unwrap();
        let status = t.status;
        let exit_code = t.exit_code;
        if status == TaskStatus::ZOMBIE {
            let _ = self.threads.remove(tid);
            exit_code as isize
        } else {
            -2
        }
    }

    /// Removes every thread but `thread_id`, taking each out of the ready
    /// queue `tasks`, in the thread table's order.
    pub fn remove_other_threads(&mut self, thread_id: usize, tasks: &mut TaskContoller)
        ensures
            thread_table_view(final(self).threads) == thread_table_view(old(self).threads).restrict(
                set![thread_id],
            ),
            exists|order: Seq<usize>|
                order.no_duplicates() && order.to_set() == thread_table_view(
                    old(self).threads,
                ).dom().remove(thread_id) && final(tasks).readylist@ == remove_tasks(
                    old(tasks).readylist@,
                    old(self).pid.id,
                    order,
                ),
            final(tasks).cur_app == old(tasks).cur_app,
            same_but_threads(*old(self), *final(self)),
    {
        let pid = self.pid.id;
        let keys = self.threads.keys();
        let ghost m0 = thread_table_view(self.threads);
        let ghost q0 = tasks.readylist@;
        let mut tids: Vec<usize> = Vec::new();
        let mut i: usize = 0;
        while i < keys.len()
            invariant
                i <= keys@.len(),
                keys@.no_duplicates(),
                tids@.no_duplicates(),
                tids@.to_set() == keys@.take(i as int).to_set().remove(thread_id),
            decreases keys@.len() - i,
        {
            let k = keys[i];
            proof {
                assert(keys@.take(i + 1) == keys@.take(i as int).push(k));
                lemma_push_to_set(keys@.take(i as int), k);
                assert(!keys@.take(i as int).contains(k)) by {
                    if keys@.take(i as int).contains(k) {
                        let j = choose|j: int| 0 <= j < i && keys@.take(i as int)[j] == k;
                        assert(keys@[j] == keys@[i as int]);
                    }
                }
            }
            if k != thread_id {
                let ghost old_tids = tids@;
                proof {
                    assert(!tids@.contains(k)) by {
                        if tids@.contains(k) {
                            assert(tids@.to_set().contains(k));
                        }
                    }
                }
                tids.push(k);
                proof {
                    lemma_push_to_set(old_tids, k);
                    assert(tids@.to_set() =~= keys@.take(i + 1).to_set().remove(thread_id));
                }
            } else {
                proof {
                    assert(tids@.to_set() =~= keys@.take(i + 1).to_set().remove(thread_id));
                }
            }
            i = i + 1;
        }
        assert(keys@.take(keys@.len() as int) =~= keys@);
        assert(!tids@.to_set().contains(thread_id));
        assert(!tids@.contains(thread_id)) by {
            if tids@.contains(thread_id) {
                assert(tids@.to_set().contains(thread_id));
            }
        }
        let mut j: usize = 0;
        while j < tids.len()
            invariant
                j <= tids@.len(),
                tids@.no_duplicates(),
                !tids@.contains(thread_id),
                self.pid.id == pid,
                tasks.readylist@ == remove_tasks(q0, pid, tids@.take(j as int)),
                tasks.cur_app == old(tasks).cur_app,
                q0 == old(tasks).readylist@,
                thread_table_view(self.threads) == m0.remove_keys(tids@.take(j as int).to_set()),
                same_but_threads(*old(self), *self),
            decreases tids@.len() - j,
        {
            let t = tids[j];
            let mut task_id = TaskID::new();
            task_id.set_value(pid, t);
            tasks.remove(task_id);
            let _ = self.threads.remove(t);
            proof {
                lemma_remove_tasks_push(q0, pid, tids@.take(j as int), t);
                assert(tids@.take(j + 1) =~= tids@.take(j as int).push(t));
                assert(m0.remove_keys(tids@.take(j + 1).to_set()) =~= m0.remove_keys(
                    tids@.take(j as int).to_set(),
                ).remove(t));
            }
            j = j + 1;
        }
        proof {
            assert(tids@.take(tids@.len() as int) =~= tids@);
            assert(thread_table_view(self.threads) =~= m0.restrict(set![thread_id]));
            assert(tids@.to_set() =~= m0.dom().remove(thread_id));
        }
    }

    /// Ends the process from thread `tid`: it becomes a zombie, keeps a
    /// non-zero `exit_code`, closes every file, loses its other threads
    /// (taken out of `tasks`), its user memory and its blocking locks.
    pub fn exit_process(&mut self, tid: usize, exit_code: isize, tasks: &mut TaskContoller)
        requires
            thread_table_view(old(self).threads).contains_key(tid),
        ensures
            exit_process_post(*old(self), *final(self), tid, exit_code),
            exists|order: Seq<usize>|
                order.no_duplicates() && order.to_set() == thread_table_view(
                    old(self).threads,
                ).dom().remove(tid) && final(tasks).readylist@ == remove_tasks(
                    old(tasks).readylist@,
                    old(self).pid.id,
                    order,
                ),
            final(tasks).cur_app == old(tasks).cur_app,
    {
        self.status = TaskStatus::ZOMBIE;
        if exit_code != 0 {
            self.exit_code = exit_code;
        }
        self.fd_table.clear();
        self.remove_other_threads(tid, tasks);
        self.has_user_memory = false;
        let mut t = self.threads.remove(tid).unwrap();
        t.has_user_memory = false;
        self.threads.insert(tid, t);
        self.mutexlocks.clear();
        proof {
            let m = thread_table_view(old(self).threads);
            assert(thread_table_view(self.threads) =~= Map::<usize, Thread>::empty().insert(
                tid,
                Thread { has_user_memory: false, ..m[tid] },
            ));
        }
    }

    /// Ends thread `tid` with `exit_code`. When every other thread has
    /// exited the whole process ends; otherwise the thread loses its user
    /// memory and becomes a zombie, keeping `exit_code` unless it is -2.
    pub fn exit_thread(&mut self, tid: usize, exit_code: i32, tasks: &mut TaskContoller) -> (r: isize)
        requires
            thread_table_view(old(self).threads).contains_key(tid),
        ensures
            r == 0,
            exit_thread_post(*old(self), *final(self), tid, exit_code, *old(tasks), *final(tasks)),
    {
        let keys = self.threads.keys();
        let mut alive_alone = true;
        let mut i: usize = 0;
        while i < keys.len()
            invariant_except_break
                alive_alone,
            invariant
                i <= keys@.len(),
                keys@.to_set() == thread_table_view(self.threads).dom(),
                alive_alone ==> forall|j: int|
                    0 <= j < i && keys@[j] != tid ==> thread_table_view(self.threads)[keys@[j]].status
                        == TaskStatus::ZOMBIE,
            ensures
                alive_alone == others_exited(thread_table_view(self.threads), tid),
            decreases keys@.len() - i,
        {
            let other = keys[i];
            if other != tid {
                proof {
                    assert(keys@.to_set().contains(other));
                }
                let t = self.threads.get(other).unwrap();
                if t.status != TaskStatus::ZOMBIE {
                    alive_alone = false;
                    break ;
                }
            }
            i = i + 1;
            proof {
                if i == keys@.len() && alive_alone {
                    assert forall|k: usize|
                        thread_table_view(self.threads).contains_key(k) && k != tid implies thread_table_view(
                        self.threads,
                    )[k].status == TaskStatus::ZOMBIE by {
                        assert(keys@.to_set().contains(k));
                        let j = choose|j: int| 0 <= j < keys@.len() && keys@[j] == k;
                    }
                }
            }
        }
        if keys.len() == 0 {
            proof {
                assert(keys@.to_set().contains(tid));
            }
        }
        if alive_alone {
            self.exit_process(tid, exit_code as isize, tasks);
        } else {
            let mut cur_thread = self.threads.remove(tid).unwrap();
            cur_thread.has_user_memory = false;
            if exit_code != -2 {
                cur_thread.exit_code = exit_code as usize;
            }
            cur_thread.status = TaskStatus::ZOMBIE;
            self.threads.insert(tid, cur_thread);
            proof {
                assert(thread_table_view(self.threads) =~= thread_table_view(old(self).threads).insert(
                    tid,
                    cur_thread,
                ));
            }
        }
        0
    }

    /// Sets the action of signal `signum`, as `active_signal_post` says;
    /// `new_action` is the action the caller passed at address `action`.
    pub fn active_signal(
        &mut self,
        signum: usize,
        action: usize,
        old_action: usize,
        new_action: SignalAction,
    ) -> (r: (isize, Option<SignalAction>))
        ensures
            active_signal_post(*old(self), *final(self), signum, action, old_action, new_action, r),
    {
        if !check_signal_action(signum, action, old_action) {
            return (-1, None);
        }
        let old = self.sig_handler.action_table[signum];
        self.sig_handler.action_table[signum] = new_action;
        (0, Some(old))
    }

    /// Enters the handler of the signal being handled: the trap context in
    /// frame `f` (the thread's trap-context page) is saved and set to run
    /// the handler with the signal number as its argument.
    pub fn handle_user_signal(&self, m: &mut PhysMemory, f: u64)
        requires
            0 <= self.sig_handler.cur_signum < 32,
            old(m).has_frame(f),
        ensures
            signal_entered(
                *old(m),
                *final(m),
                f,
                self.sig_handler.action_table[self.sig_handler.cur_signum as int].handler as u64,
                self.sig_handler.cur_signum as u64,
            ),
    {
        let cur = self.sig_handler.cur_signum;
        let handler = self.sig_handler.action_table[cur as usize].handler;
        save_for_signal(m, f, handler as u64, cur as u64);
    }

    /// Ends the running signal handler: no handler runs any more.
    pub fn signal_recover(&mut self)
        ensures
            final(self).sig_handler.cur_signum == -1,
            final(self).sig_handler.existed_signals == old(self).sig_handler.existed_signals,
            final(self).sig_handler.global_mask == old(self).sig_handler.global_mask,
            final(self).sig_handler.action_table == old(self).sig_handler.action_table,
            final(self).exit_code == old(self).exit_code,
            same_but_signals(*old(self), *final(self)),
    {
        self.sig_handler.cur_signum = -1;
    }

    /// Fills the new process `new_process` as a fork of this one from
    /// thread `old_tid`: it becomes a child of this process, opens the same
    /// files, gets user memory, and a copy of the thread runs on kernel
    /// stack `stack`, set to return to user mode through `trap_return`.
    pub fn fork_process(&self, old_tid: usize, new_process: &mut Process, stack: usize, trap_return: u64)
        requires
            thread_table_view(self.threads).contains_key(old_tid),
            self.has_user_memory,
            kernel_stack_top(stack as nat) <= u64::MAX,
        ensures
            fork_child_post(*self, *old(new_process), *final(new_process), old_tid, stack, trap_return),
    {
        new_process.ppid = self.pid.id;
        let keys = self.fd_table.keys();
        let ghost parent_fds = fd_table_view(self.fd_table);
        let ghost start = fd_table_view(new_process.fd_table);
        let mut i: usize = 0;
        while i < keys.len()
            invariant
                i <= keys@.len(),
                keys@.to_set() == parent_fds.dom(),
                parent_fds == fd_table_view(self.fd_table),
                fd_table_view(new_process.fd_table) == start.union_prefer_right(
                    parent_fds.restrict(keys@.take(i as int).to_set()),
                ),
                new_process.ppid == self.pid.id,
                new_process.threads == old(new_process).threads,
                new_process.pid == old(new_process).pid,
                new_process.childpid == old(new_process).childpid,
                new_process.status == old(new_process).status,
                new_process.exit_code == old(new_process).exit_code,
                new_process.sig_handler == old(new_process).sig_handler,
                new_process.spinlocks@ == old(new_process).spinlocks@,
                new_process.mutexlocks@ == old(new_process).mutexlocks@,
                new_process.semaphores@ == old(new_process).semaphores@,
                new_process.condvars@ == old(new_process).condvars@,
            decreases keys@.len() - i,
        {
            let fd = keys[i];
            proof {
                assert(keys@.to_set().contains(fd));
            }
            let f = self.fd_table.get(fd).unwrap();
            new_process.fd_table.insert(fd, f);
            proof {
                assert(keys@.take(i + 1) =~= keys@.take(i as int).push(fd));
                lemma_push_to_set(keys@.take(i as int), fd);
                assert(fd_table_view(new_process.fd_table) =~= start.union_prefer_right(
                    parent_fds.restrict(keys@.take(i + 1).to_set()),
                ));
            }
            i = i + 1;
        }
        proof {
            assert(keys@.take(keys@.len() as int) =~= keys@);
            assert(parent_fds.restrict(keys@.to_set()) =~= parent_fds);
        }
        new_process.has_user_memory = true;
        let mut t = Thread::new(old_tid, stack);
        t.has_user_memory = true;
        t.init_task_data(trap_return);
        new_process.threads.insert(old_tid, t);
    }

    /// Makes the process run a new program on thread `tid`, its memory
    /// having been replaced: the thread keeps its kernel stack and is set
    /// to enter user mode through `trap_return`, and every other thread is
    /// removed (and taken out of the ready queue `tasks`).
    pub fn replace_process(&mut self, tid: usize, tasks: &mut TaskContoller, trap_return: u64)
        requires
            thread_table_view(old(self).threads).contains_key(tid),
            kernel_stack_top(thread_table_view(old(self).threads)[tid].kern_stack.stack_id as nat) <= u64::MAX,
        ensures
            thread_table_view(final(self).threads) == map![tid => replaced_thread(thread_table_view(old(self).threads)[tid], trap_return)],
            exists|order: Seq<usize>|
                order.no_duplicates() && order.to_set() == thread_table_view(old(self).threads).dom().remove(tid)
                    && final(tasks).readylist@ == remove_tasks(old(tasks).readylist@, old(self).pid.id, order),
            final(tasks).cur_app == old(tasks).cur_app,
            same_but_threads(Process { has_user_memory: true, ..*old(self) }, *final(self)),
    {
        let mut t = self.threads.remove(tid).unwrap();
        t.has_user_memory = true;
        t.init_task_data(trap_return);
        self.threads.insert(tid, t);
        let ghost p1 = *self;
        self.remove_other_threads(tid, tasks);
        self.has_user_memory = true;
        proof {
            assert(thread_table_view(p1.threads).dom() =~= thread_table_view(old(self).threads).dom());
            assert(thread_table_view(self.threads) =~= map![tid => replaced_thread(thread_table_view(old(self).threads)[tid], trap_return)]);
        }
    }

    /// Adds a thread on the smallest free thread id, which is returned; it
    /// runs on kernel stack `stack` and returns to user mode through
    /// `trap_return`.
    pub fn add_thread(&mut self, stack: usize, trap_return: u64) -> (r: usize)
        requires
            has_free(thread_table_view(old(self).threads), OS_MAX_THREAD_NUM as nat),
            kernel_stack_top(stack as nat) <= u64::MAX,
        ensures
            add_thread_post(*old(self), *final(self), stack, trap_return, r),
    {
        let tid = self.alloc_an_thread_id();
        let mut t = Thread::new(tid, stack);
        t.has_user_memory = true;
        t.init_task_data(trap_return);
        self.threads.insert(tid, t);
        tid
    }

    /// Decides what the pending signals ask for, scanning them in order:
    /// a signal that kills stops the process (recording its exit code),
    /// SIGCONT clears itself and SIGSTOP, SIGSTOP asks to wait, and another
    /// signal with a handler makes that handler run.
    pub fn handle_signal(&mut self) -> (r: TaskhandleStatus)
        ensures
            ({
                let s = signal_scan(old(self).sig_handler, 0, false);
                &&& r == s.0
                &&& final(self).sig_handler == s.1
                &&& final(self).exit_code == (match s.2 {
                    Some(c) => c as isize,
                    None => old(self).exit_code,
                })
            }),
            same_but_signals(*old(self), *final(self)),
            r == TaskhandleStatus::DOSIGNAL ==> {
                &&& 0 <= final(self).sig_handler.cur_signum < 32
                &&& final(self).sig_handler.existed_signals.bits == old(self).sig_handler.existed_signals.bits & !((1u32
                    << (final(self).sig_handler.cur_signum as u32)) as i32)
            },
    {
        proof {
            lemma_handler_signal_consumed(old(self).sig_handler, 0, false);
        }
        let ghost h0 = self.sig_handler;
        let mut should_handle: bool = false;
        let mut i: u32 = 0;
        while i < 32
            invariant
                i <= 32,
                self.sig_handler == h0,
                self.exit_code == old(self).exit_code,
                same_but_signals(*old(self), *self),
                h0 == old(self).sig_handler,
                signal_scan(h0, 0, false) == signal_scan(h0, i as nat, should_handle),
            decreases 32 - i,
        {
            let signal = SignalFlags::from_signum(i);
            let iu: usize = i as usize;
            if self.sig_handler.existed_signals.contains(signal)
                && !self.sig_handler.global_mask.contains(signal) {
                if self.sig_handler.cur_signum == -1 {
                    should_handle = true;
                } else {
                    if !self.sig_handler.action_table[iu].mask.contains(signal) {
                        should_handle = true;
                    }
                }
            }
            if should_handle {
                if i == 0 || i == 2 || i == 4 || i == 6 || i == 8 || i == 9 || i == 11 {
                    proof {
                        crate::task::signal::lemma_check_error_single(i as int);
                        assert(signal.has(SignalFlags { bits: signal_bit(i as int) }));
                    }
                    if let Some((errno, _msg)) = signal.check_error() {
                        self.exit_code = errno as isize;
                    }
                    return TaskhandleStatus::DOSTOP;
                } else if i == 18 {
                    self.sig_handler.existed_signals.remove(SignalFlags::from_signum(19));
                    self.sig_handler.existed_signals.remove(signal);
                    return TaskhandleStatus::OK;
                } else if i == 19 {
                    return TaskhandleStatus::DOWAIT;
                } else {
                    if self.sig_handler.action_table[iu].handler != 0 {
                        self.sig_handler.cur_signum = i as isize;
                        self.sig_handler.existed_signals.remove(signal);
                        return TaskhandleStatus::DOSIGNAL;
                    }
                }
            }
            i = i + 1;
        }
        TaskhandleStatus::OK
    }
}

} // verus!
