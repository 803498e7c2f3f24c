//! Counting semaphores.
use vstd::prelude::*;
use std::collections::VecDeque;
use crate::sync::inner::OneCoreCell;
use crate::task::schedule::TaskID;

verus! {

/// The count of a semaphore and the tasks blocked on it.
pub struct SemaphoreInner {
    pub count: isize,
    pub waitque: VecDeque<TaskID>,
}

/// A counting semaphore.
pub struct Semaphore {
    pub inner: OneCoreCell<SemaphoreInner>,
}

impl Semaphore {
    /// The invariant that `up` and `down` keep: a negative count is minus
    /// the number of waiters, and nobody waits while the count is not
    /// negative.
    pub open spec fn wf(&self) -> bool {
        let s = self.inner.inner;
        if s.count < 0 {
            s.waitque@.len() == -s.count
        } else {
            s.waitque@.len() == 0
        }
    }

    /// A semaphore with `res_count` resources and no waiters.
    pub fn new(res_count: usize) -> (r: Self)
        ensures
            r.inner.inner.count == res_count as isize,
            r.inner.inner.waitque@ == Seq::<TaskID>::empty(),
    {
        Self {
            inner: OneCoreCell::new(
                SemaphoreInner { count: res_count as isize, waitque: VecDeque::new() },
            ),
        }
    }

    /// Returns a resource. When tasks wait, the oldest one is handed out to
    /// be woken.
    pub fn up(&mut self) -> (woken: Option<TaskID>)
        requires
            old(self).inner.inner.count < isize::MAX,
        ensures
            final(self).inner.inner.count == old(self).inner.inner.count + 1,
            final(self).inner.inner.count <= 0 && old(self).inner.inner.waitque@.len() > 0 ==> {
                &&& woken == Some(old(self).inner.inner.waitque@[0])
                &&& final(self).inner.inner.waitque@ == old(self).inner.inner.waitque@.drop_first()
            },
            !(final(self).inner.inner.count <= 0 && old(self).inner.inner.waitque@.len() > 0) ==> {
                &&& woken.is_none()
                &&& final(self).inner.inner.waitque@ == old(self).inner.inner.waitque@
            },
    {
        let semaphore = self.inner.exclusive_access();
        semaphore.count = semaphore.count + 1;
        if semaphore.count <= 0 {
            if let Some(task) = semaphore.waitque.pop_front() {
                return Some(task);
            }
        }
        None
    }

    /// Takes a resource for task `cur`. When none is left, `cur` is queued
    /// and the result is true: the caller blocks it.
    pub fn down(&mut self, cur: TaskID) -> (block: bool)
        requires
            old(self).inner.inner.count > isize::MIN,
        ensures
            final(self).inner.inner.count == old(self).inner.inner.count - 1,
            block == (final(self).inner.inner.count < 0),
            block ==> final(self).inner.inner.waitque@ == old(self).inner.inner.waitque@.push(cur),
            !block ==> final(self).inner.inner.waitque@ == old(self).inner.inner.waitque@,
    {
        let semaphore = self.inner.exclusive_access();
        semaphore.count = semaphore.count - 1;
        if semaphore.count < 0 {
            semaphore.waitque.push_back(cur);
            true
        } else {
            false
        }
    }
}

/// `up` and `down` keep the semaphore's invariant; `up` wakes a task exactly
/// when it brings the count from negative towards zero.
pub proof fn lemma_semaphore_invariant(a: Semaphore, b: Semaphore, up: bool, cur: TaskID, woken: Option<TaskID>, block: bool)
    requires
        a.wf(),
        up ==> {
            &&& b.inner.inner.count == a.inner.inner.count + 1
            &&& b.inner.inner.count <= 0 && a.inner.inner.waitque@.len() > 0 ==> woken == Some(
                a.inner.inner.waitque@[0],
            ) && b.inner.inner.waitque@ == a.inner.inner.waitque@.drop_first()
            &&& !(b.inner.inner.count <= 0 && a.inner.inner.waitque@.len() > 0) ==> woken.is_none()
                && b.inner.inner.waitque@ == a.inner.inner.waitque@
        },
        !up ==> {
            &&& b.inner.inner.count == a.inner.inner.count - 1
            &&& block == (b.inner.inner.count < 0)
            &&& block ==> b.inner.inner.waitque@ == a.inner.inner.waitque@.push(cur)
            &&& !block ==> b.inner.inner.waitque@ == a.inner.inner.waitque@
        },
    ensures
        b.wf(),
        up ==> (woken.is_some() <==> a.inner.inner.count < 0),
{
}

} // verus!
