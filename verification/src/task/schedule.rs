//! Task ids and the ready queue.
use vstd::prelude::*;
use std::collections::VecDeque;
use crate::sync::inner::InterruptMask;

verus! {

/// Mask of the thread part of a task id.
pub const TASK_ID_MASK: u64 = 0xFFFF_FFFF;

/// A thread of a process: the process id in the upper 32 bits, the thread
/// id in the lower 32.
#[derive(Copy, Clone, PartialEq, Eq, Structural, PartialOrd, Ord)]
pub struct TaskID(pub u64);

/// The process part of a task id.
pub open spec fn pid_of(v: u64) -> u64 {
    v >> 32u64
}

/// The thread part of a task id.
pub open spec fn tid_of(v: u64) -> u64 {
    v & 0xFFFF_FFFF
}

/// The task id of thread `tid` of process `pid`.
pub open spec fn task_value(pid: usize, tid: usize) -> u64 {
    (((pid as u64) << 32u64) + ((tid as u64) & 0xFFFF_FFFF)) as u64
}

proof fn lemma_split_bounds(v: u64)
    ensures
        v >> 32u64 <= 0xFFFF_FFFF,
        v & 0xFFFF_FFFF <= 0xFFFF_FFFF,
{
    assert(v >> 32u64 <= 0xFFFF_FFFF) by (bit_vector);
    assert(v & 0xFFFF_FFFF <= 0xFFFF_FFFF) by (bit_vector);
}

impl TaskID {
    /// Task 0 of process 0.
    pub fn new() -> (r: Self)
        ensures
            r.0 == 0,
    {
        Self { 0: 0 }
    }

    /// Sets this id to thread `tid` of process `pid`; only the low 32 bits
    /// of each are kept.
    pub fn set_value(&mut self, pid: usize, tid: usize)
        ensures
            final(self).0 == task_value(pid, tid),
    {
        let p: u64 = pid as u64;
        let t: u64 = tid as u64;
        assert((p << 32u64) & 0xFFFF_FFFF == 0) by (bit_vector);
        assert(((p << 32u64) as int) + ((t & 0xFFFF_FFFF) as int) <= u64::MAX) by (bit_vector)
            requires
                (p << 32u64) & 0xFFFF_FFFF == 0,
        ;
        self.0 = (p << 32u64) + (t & TASK_ID_MASK)
    }

    /// The process id.
    pub fn to_pid(&self) -> (r: usize)
        ensures
            r == pid_of(self.0),
    {
        proof {
            lemma_split_bounds(self.0);
        }
        (self.0 >> 32u64) as usize
    }

    /// The thread id.
    pub fn to_tid(&self) -> (r: usize)
        ensures
            r == tid_of(self.0),
    {
        proof {
            lemma_split_bounds(self.0);
        }
        (self.0 & TASK_ID_MASK) as usize
    }

    /// The process id and the thread id.
    pub fn to_pid_tid(&self) -> (r: (usize, usize))
        ensures
            r.0 == pid_of(self.0),
            r.1 == tid_of(self.0),
    {
        proof {
            lemma_split_bounds(self.0);
        }
        ((self.0 >> 32u64) as usize, (self.0 & TASK_ID_MASK) as usize)
    }
}

/// A task id built from a process id and a thread id gives both back,
/// each cut to 32 bits.
pub proof fn lemma_task_id_round_trip(pid: usize, tid: usize)
    ensures
        pid_of(task_value(pid, tid)) == (pid as u64) % 0x1_0000_0000,
        tid_of(task_value(pid, tid)) == (tid as u64) % 0x1_0000_0000,
        pid < 0x1_0000_0000 && tid < 0x1_0000_0000 ==> pid_of(task_value(pid, tid)) == pid
            && tid_of(task_value(pid, tid)) == tid,
{
    let p: u64 = pid as u64;
    let t: u64 = tid as u64;
    assert((((p << 32u64) + (t & 0xFFFF_FFFF)) as u64) >> 32u64 == p % 0x1_0000_0000)
        by (bit_vector);
    assert((((p << 32u64) + (t & 0xFFFF_FFFF)) as u64) & 0xFFFF_FFFF == t % 0x1_0000_0000)
        by (bit_vector);
}

/// The queue of tasks ready to run, the task running now, and the
/// interrupt bookkeeping of the scheduler.
pub struct TaskContoller {
    pub readylist: VecDeque<TaskID>,
    pub cur_app: TaskID,
    pub int_ctl: InterruptMask,
}

/// `q` with its first element equal to `t` taken out, if it has one.
pub open spec fn remove_first(q: Seq<TaskID>, t: TaskID) -> Seq<TaskID> {
    if exists|i: int| 0 <= i < q.len() && q[i] == t {
        let i = choose|i: int|
            0 <= i < q.len() && q[i] == t && forall|j: int| 0 <= j < i ==> q[j] != t;
        q.remove(i)
    } else {
        q
    }
}

impl TaskContoller {
    /// No task ready, task 0 of process 0 running, nothing masked.
    pub fn new() -> (r: Self)
        ensures
            r.readylist@ == Seq::<TaskID>::empty(),
            r.cur_app.0 == 0,
            !r.int_ctl.int_on,
    {
        Self { readylist: VecDeque::new(), cur_app: TaskID::new(), int_ctl: InterruptMask::new() }
    }

    /// Takes the task at the front of the ready queue.
    pub fn fetch(&mut self) -> (r: Option<TaskID>)
        ensures
            old(self).readylist@.len() == 0 ==> r.is_none() && final(self).readylist@
                == old(self).readylist@,
            old(self).readylist@.len() > 0 ==> r == Some(old(self).readylist@[0])
                && final(self).readylist@ == old(self).readylist@.drop_first(),
            final(self).cur_app == old(self).cur_app,
            final(self).int_ctl == old(self).int_ctl,
    {
        self.readylist.pop_front()
    }

    /// Puts `task` at the back of the ready queue.
    pub fn add(&mut self, task: TaskID)
        ensures
            final(self).readylist@ == old(self).readylist@.push(task),
            final(self).cur_app == old(self).cur_app,
            final(self).int_ctl == old(self).int_ctl,
    {
        self.readylist.push_back(task);
    }

    /// Takes the first occurrence of `task_id` out of the ready queue.
    pub fn remove(&mut self, task_id: TaskID)
        ensures
            final(self).readylist@ == remove_first(old(self).readylist@, task_id),
            final(self).cur_app == old(self).cur_app,
            final(self).int_ctl == old(self).int_ctl,
    {
        let ghost q = self.readylist@;
        let mut i: usize = 0;
        while i < self.readylist.len()
            invariant
                self.readylist@ == q,
                q == old(self).readylist@,
                self.cur_app == old(self).cur_app,
                self.int_ctl == old(self).int_ctl,
                0 <= i <= q.len(),
                forall|j: int| 0 <= j < i ==> q[j] != task_id,
            decreases q.len() - i,
        {
            if self.readylist[i].0 == task_id.0 {
                let _ = self.readylist.remove(i);
                proof {
                    assert(q[i as int] == task_id);
                    assert(0 <= i < q.len() && q[i as int] == task_id && forall|j: int|
                        0 <= j < i ==> q[j] != task_id);
                    let k = choose|k: int|
                        0 <= k < q.len() && q[k] == task_id && forall|j: int|
                            0 <= j < k ==> q[j] != task_id;
                    if k < i {
                        assert(q[k] != task_id);
                    } else if k > i {
                        assert(q[i as int] != task_id);
                    }
                    assert(k == i);
                    assert(remove_first(q, task_id) == q.remove(i as int));
                }
                return;
            }
            i = i + 1;
        }
        assert(!exists|i: int| 0 <= i < q.len() && q[i] == task_id);
    }
}

} // verus!
