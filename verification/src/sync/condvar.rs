//! Condition variables: a queue of waiting tasks.
use vstd::prelude::*;
use std::collections::VecDeque;
use crate::sync::inner::OneCoreCell;
use crate::task::schedule::TaskID;

verus! {

/// The tasks that wait on a condition, oldest first.
pub struct Condvar {
    pub waitque: OneCoreCell<VecDeque<TaskID>>,
}

impl Condvar {
    /// A condition nobody waits on.
    pub fn new() -> (r: Self)
        ensures
            r.waitque.inner@ == Seq::<TaskID>::empty(),
    {
        Self { waitque: OneCoreCell::new(VecDeque::new()) }
    }

    /// Empties the queue and hands out every waiter, oldest first, to be
    /// woken.
    pub fn signal_all(&mut self) -> (woken: Vec<TaskID>)
        ensures
            woken@ == old(self).waitque.inner@,
            final(self).waitque.inner@ == Seq::<TaskID>::empty(),
    {
        let mut woken: Vec<TaskID> = Vec::new();
        let ghost q = self.waitque.inner@;
        loop
            invariant
                q == woken@ + self.waitque.inner@,
            ensures
                q == woken@ + self.waitque.inner@,
                self.waitque.inner@.len() == 0,
            decreases self.waitque.inner@.len(),
        {
            let queue = self.waitque.exclusive_access();
            let id = queue.pop_front();
            match id {
                Some(task_id) => {
                    proof {
                        assert(woken@.push(task_id) + self.waitque.inner@ =~= q);
                    }
                    woken.push(task_id);
                },
                None => {
                    break ;
                },
            }
        }
        assert(woken@ =~= q);
        woken
    }

    /// Hands out the oldest waiter, if any, to be woken.
    pub fn signal_one(&mut self) -> (woken: Option<TaskID>)
        ensures
            old(self).waitque.inner@.len() > 0 ==> woken == Some(old(self).waitque.inner@[0])
                && final(self).waitque.inner@ == old(self).waitque.inner@.drop_first(),
            old(self).waitque.inner@.len() == 0 ==> woken.is_none()
                && final(self).waitque.inner@ == old(self).waitque.inner@,
    {
        let queue = self.waitque.exclusive_access();
        queue.pop_front()
    }

    /// Queues task `cur`, which the caller then blocks.
    pub fn wait(&mut self, cur: TaskID)
        ensures
            final(self).waitque.inner@ == old(self).waitque.inner@.push(cur),
    {
        let queue = self.waitque.exclusive_access();
        queue.push_back(cur);
    }

    /// Queues task `cur`; the caller blocks it later.
    pub fn wait_no_schedule(&mut self, cur: TaskID)
        ensures
            final(self).waitque.inner@ == old(self).waitque.inner@.push(cur),
    {
        let queue = self.waitque.exclusive_access();
        queue.push_back(cur);
    }
}

} // verus!
