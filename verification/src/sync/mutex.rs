//! Locks: a spin lock that only reports whether it was taken, and a
//! blocking lock that queues its waiters.
use vstd::prelude::*;
use std::collections::VecDeque;
use crate::sync::inner::OneCoreCell;
use crate::task::schedule::TaskID;

verus! {

/// A lock that a task can try to take and must give back.
///
/// `lock` returns 0 when the caller now holds the lock and 1 when it does
/// not. `unlock` returns the tasks that waited for the lock, oldest first;
/// the caller wakes them.
pub trait Mutex: Sized {
    /// Whether the lock is held.
    spec fn is_locked(&self) -> bool;

    /// Tries to take the lock for task `cur`.
    fn lock(&mut self, cur: TaskID) -> (r: usize)
        ensures
            r == 0 ==> !old(self).is_locked() && final(self).is_locked(),
            r == 1 ==> old(self).is_locked(),
            r == 0 || r == 1,
    ;

    /// Gives the lock back and hands out the tasks to wake.
    fn unlock(&mut self) -> (woken: Vec<TaskID>)
        ensures
            !final(self).is_locked(),
    ;
}

/// A lock for one core that never blocks: taking a held lock fails, and the
/// caller tries again.
pub struct SpinLock {
    pub locked: OneCoreCell<bool>,
}

impl SpinLock {
    /// An unlocked spin lock.
    pub fn new() -> (r: Self)
        ensures
            !r.locked.inner,
    {
        Self { locked: OneCoreCell::new(false) }
    }
}

impl Mutex for SpinLock {
    open spec fn is_locked(&self) -> bool {
        self.locked.inner
    }

    /// Takes the lock if it is free (0); reports 1 if it is held.
    fn lock(&mut self, cur: TaskID) -> (r: usize)
        ensures
            r == (if old(self).locked.inner {
                1usize
            } else {
                0usize
            }),
            final(self).locked.inner,
    {
        let locked = self.locked.exclusive_access();
        if *locked {
            1
        } else {
            *locked = true;
            0
        }
    }

    /// Frees the lock; nobody waits on a spin lock.
    fn unlock(&mut self) -> (woken: Vec<TaskID>)
        ensures
            woken@ == Seq::<TaskID>::empty(),
    {
        let locked = self.locked.exclusive_access();
        *locked = false;
        Vec::new()
    }
}

/// The state of a blocking lock: whether it is held and who waits for it.
pub struct MutextInner {
    pub locked: bool,
    pub waitque: VecDeque<TaskID>,
}

/// A lock whose waiters block until it is given back.
pub struct MutexLock {
    pub inner: OneCoreCell<MutextInner>,
}

impl MutexLock {
    /// An unlocked lock with nobody waiting.
    pub fn new() -> (r: Self)
        ensures
            !r.inner.inner.locked,
            r.inner.inner.waitque@ == Seq::<TaskID>::empty(),
    {
        Self { inner: OneCoreCell::new(MutextInner { locked: false, waitque: VecDeque::new() }) }
    }
}

impl Mutex for MutexLock {
    open spec fn is_locked(&self) -> bool {
        self.inner.inner.locked
    }

    /// Takes the lock if it is free (0). If it is held, queues `cur` (the
    /// task that asks, which the caller then blocks) and reports 1.
    fn lock(&mut self, cur: TaskID) -> (r: usize)
        ensures
            !old(self).inner.inner.locked ==> r == 0 && final(self).inner.inner.locked
                && final(self).inner.inner.waitque@ == old(self).inner.inner.waitque@,
            old(self).inner.inner.locked ==> r == 1 && final(self).inner.inner.locked
                && final(self).inner.inner.waitque@ == old(self).inner.inner.waitque@.push(cur),
    {
        let mutext = self.inner.exclusive_access();
        if mutext.locked {
            mutext.waitque.push_back(cur);
            1
        } else {
            mutext.locked = true;
            0
        }
    }

    /// Frees the lock and empties its queue; every waiter is to be woken,
    /// oldest first.
    fn unlock(&mut self) -> (woken: Vec<TaskID>)
        ensures
            !final(self).inner.inner.locked,
            final(self).inner.inner.waitque@ == Seq::<TaskID>::empty(),
            woken@ == old(self).inner.inner.waitque@,
    {
        let mutext = self.inner.exclusive_access();
        mutext.locked = false;
        let mut woken: Vec<TaskID> = Vec::new();
        let ghost q = mutext.waitque@;
        loop
            invariant
                q == woken@ + mutext.waitque@,
                !mutext.locked,
            ensures
                q == woken@ + mutext.waitque@,
                !mutext.locked,
                mutext.waitque@.len() == 0,
            decreases mutext.waitque@.len(),
        {
            let id = mutext.waitque.pop_front();
            match id {
                Some(task_id) => {
                    proof {
                        assert(woken@.push(task_id) + mutext.waitque@ =~= q);
                    }
                    woken.push(task_id);
                },
                None => {
                    break ;
                },
            }
        }
        assert(woken@ =~= q);
        woken
    }
}

} // verus!
