//! Sleep timers: tasks to wake once the clock passes their deadline.
use vstd::prelude::*;
use crate::task::schedule::TaskID;

verus! {

/// Milliseconds per second.
pub const MSECS_IN_SECS: usize = 1000;

/// Wake `task_id` once the clock reaches `expire_ms`.
#[derive(Copy, Clone, PartialEq, Eq, Structural)]
pub struct TimerCondVar {
    pub expire_ms: usize,
    pub task_id: TaskID,
}

/// The clock in milliseconds, from the clock's tick count.
pub fn get_time_in_ms(ticks: usize) -> (r: usize)
    ensures
        r == ticks / 12500,
{
    ticks / (crate::config::CLOCK_FREQ / MSECS_IN_SECS)
}

/// The tick count at which the next scheduling interrupt is due.
pub fn set_timer_trigger(now_ticks: usize) -> (r: usize)
    requires
        now_ticks + 125000 <= usize::MAX,
    ensures
        r == now_ticks + 125000,
{
    now_ticks + crate::config::CLOCK_FREQ / MSECS_IN_SECS * crate::config::SCHEDUL_INTERVAL
}

/// The index of the first timer with the earliest deadline.
pub open spec fn is_first_min(t: Seq<TimerCondVar>, i: int) -> bool {
    &&& 0 <= i < t.len()
    &&& forall|j: int| 0 <= j < t.len() ==> t[i].expire_ms <= #[trigger] t[j].expire_ms
    &&& forall|j: int| 0 <= j < i ==> t[i].expire_ms < #[trigger] t[j].expire_ms
}

/// The timers that expire by `now`, earliest first, as `check_timer` takes
/// them out: the first timer with the earliest deadline, while that
/// deadline has passed.
pub open spec fn expired_order(t: Seq<TimerCondVar>, now: usize) -> (Seq<TaskID>, Seq<TimerCondVar>)
    decreases t.len(),
{
    if t.len() == 0 {
        (Seq::empty(), t)
    } else {
        let i = choose|i: int| is_first_min(t, i);
        if 0 <= i < t.len() && t[i].expire_ms <= now {
            let rest = expired_order(t.remove(i), now);
            (seq![t[i].task_id] + rest.0, rest.1)
        } else {
            (Seq::empty(), t)
        }
    }
}

/// A non-empty list of timers has a first earliest one.
pub proof fn lemma_first_min_exists(t: Seq<TimerCondVar>)
    requires
        t.len() > 0,
    ensures
        exists|i: int| is_first_min(t, i),
    decreases t.len(),
{
    if t.len() == 1 {
        assert(is_first_min(t, 0));
    } else {
        let s = t.drop_last();
        lemma_first_min_exists(s);
        let i = choose|i: int| is_first_min(s, i);
        let last = t.len() - 1;
        assert(forall|j: int| 0 <= j < s.len() ==> s[j] == t[j]);
        if t[last].expire_ms < t[i].expire_ms {
            assert(is_first_min(t, last));
        } else {
            assert(is_first_min(t, i));
        }
    }
}

/// The first earliest timer is unique.
pub proof fn lemma_first_min_unique(t: Seq<TimerCondVar>, i: int, k: int)
    requires
        is_first_min(t, i),
        is_first_min(t, k),
    ensures
        i == k,
{
    if i < k {
        assert(t[k].expire_ms < t[i].expire_ms);
    } else if k < i {
        assert(t[i].expire_ms < t[k].expire_ms);
    }
}

/// What `check_timer` takes out is exactly what has expired: no timer
/// left has a deadline at or before `now`; every timer whose deadline has
/// passed has its task woken and every other timer stays; every task woken
/// is the task of an expired timer, and nothing is lost or added.
pub proof fn lemma_expired_exact(t: Seq<TimerCondVar>, now: usize)
    ensures
        ({
            let w = expired_order(t, now).0;
            let rest = expired_order(t, now).1;
            &&& forall|j: int| 0 <= j < rest.len() ==> (#[trigger] rest[j]).expire_ms > now
            &&& w.len() + rest.len() == t.len()
            &&& forall|j: int| 0 <= j < t.len() && (#[trigger] t[j]).expire_ms <= now ==> w.contains(t[j].task_id)
            &&& forall|j: int| 0 <= j < t.len() && (#[trigger] t[j]).expire_ms > now ==> rest.contains(t[j])
            &&& forall|j: int| 0 <= j < rest.len() ==> t.contains(#[trigger] rest[j])
            &&& forall|j: int|
                0 <= j < w.len() ==> exists|q: int| 0 <= q < t.len() && t[q].expire_ms <= now && t[q].task_id == #[trigger] w[j]
        }),
    decreases t.len(),
{
    let w = expired_order(t, now).0;
    let rest = expired_order(t, now).1;
    if t.len() == 0 {
        return;
    }
    lemma_first_min_exists(t);
    let i = choose|i: int| is_first_min(t, i);
    if t[i].expire_ms <= now {
        let u = t.remove(i);
        lemma_expired_exact(u, now);
        let w1 = expired_order(u, now).0;
        assert(w == seq![t[i].task_id] + w1);
        assert(rest == expired_order(u, now).1);
        assert forall|j: int| 0 <= j < t.len() && (#[trigger] t[j]).expire_ms <= now implies w.contains(t[j].task_id) by {
            if j == i {
                assert(w[0] == t[j].task_id);
            } else {
                let q = if j < i { j } else { j - 1 };
                assert(u[q] == t[j]);
                assert(w1.contains(u[q].task_id));
                let a = choose|a: int| 0 <= a < w1.len() && w1[a] == u[q].task_id;
                assert(w[a + 1] == w1[a]);
            }
        }
        assert forall|j: int| 0 <= j < t.len() && (#[trigger] t[j]).expire_ms > now implies rest.contains(t[j]) by {
            let q = if j < i { j } else { j - 1 };
            assert(u[q] == t[j]);
        }
        assert forall|j: int| 0 <= j < rest.len() implies t.contains(#[trigger] rest[j]) by {
            assert(u.contains(rest[j]));
            let q = choose|q: int| 0 <= q < u.len() && u[q] == rest[j];
            if q < i {
                assert(t[q] == rest[j]);
            } else {
                assert(t[q + 1] == rest[j]);
            }
        }
        assert forall|j: int| 0 <= j < w.len() implies exists|q: int|
            0 <= q < t.len() && t[q].expire_ms <= now && t[q].task_id == #[trigger] w[j] by {
            if j == 0 {
                assert(t[i].task_id == w[0]);
            } else {
                assert(w[j] == w1[j - 1]);
                let q = choose|q: int| 0 <= q < u.len() && u[q].expire_ms <= now && u[q].task_id == w1[j - 1];
                if q < i {
                    assert(t[q] == u[q]);
                } else {
                    assert(t[q + 1] == u[q]);
                }
            }
        }
    } else {
        assert(w == Seq::<TaskID>::empty());
        assert(rest == t);
        assert forall|j: int| 0 <= j < t.len() && (#[trigger] t[j]).expire_ms > now implies rest.contains(t[j]) by {
            assert(rest[j] == t[j]);
        }
        assert forall|j: int| 0 <= j < rest.len() implies t.contains(#[trigger] rest[j]) by {
            assert(t[j] == rest[j]);
        }
        assert forall|j: int| 0 <= j < rest.len() implies (#[trigger] rest[j]).expire_ms > now by {
            assert(t[i].expire_ms <= t[j].expire_ms);
        }
        assert forall|j: int| 0 <= j < t.len() && (#[trigger] t[j]).expire_ms <= now implies w.contains(t[j].task_id) by {
            assert(t[i].expire_ms <= t[j].expire_ms);
        }
    }
}

/// Finds the first timer with the earliest deadline.
fn first_min(t: &Vec<TimerCondVar>) -> (r: usize)
    requires
        t@.len() > 0,
    ensures
        is_first_min(t@, r as int),
{
    let mut best: usize = 0;
    let mut i: usize = 1;
    while i < t.len()
        invariant
            1 <= i <= t@.len(),
            best < i,
            forall|j: int| 0 <= j < i ==> t@[best as int].expire_ms <= #[trigger] t@[j].expire_ms,
            forall|j: int| 0 <= j < best ==> t@[best as int].expire_ms < #[trigger] t@[j].expire_ms,
        decreases t@.len() - i,
    {
        if t[i].expire_ms < t[best].expire_ms {
            best = i;
        }
        i = i + 1;
    }
    best
}

/// Adds a timer that wakes `task_id` at `expire_ms`.
pub fn add_timer(timers: &mut Vec<TimerCondVar>, expire_ms: usize, task_id: TaskID)
    ensures
        final(timers)@ == old(timers)@.push(TimerCondVar { expire_ms, task_id }),
{
    timers.push(TimerCondVar { expire_ms, task_id });
}

/// Takes out every timer whose deadline is at most `current_ms` and returns
/// the tasks to wake, earliest deadline first.
pub fn check_timer(timers: &mut Vec<TimerCondVar>, current_ms: usize) -> (woken: Vec<TaskID>)
    ensures
        woken@ == expired_order(old(timers)@, current_ms).0,
        final(timers)@ == expired_order(old(timers)@, current_ms).1,
        forall|j: int| 0 <= j < final(timers)@.len() ==> (#[trigger] final(timers)@[j]).expire_ms > current_ms,
        forall|j: int|
            0 <= j < old(timers)@.len() && (#[trigger] old(timers)@[j]).expire_ms <= current_ms ==> woken@.contains(
                old(timers)@[j].task_id,
            ),
        woken@.len() + final(timers)@.len() == old(timers)@.len(),
{
    proof {
        lemma_expired_exact(old(timers)@, current_ms);
    }
    let mut woken: Vec<TaskID> = Vec::new();
    let ghost t0 = timers@;
    loop
        invariant
            woken@ + expired_order(timers@, current_ms).0 == expired_order(t0, current_ms).0,
            expired_order(timers@, current_ms).1 == expired_order(t0, current_ms).1,
        ensures
            woken@ == expired_order(t0, current_ms).0,
            timers@ == expired_order(t0, current_ms).1,
        decreases timers@.len(),
    {
        if timers.len() == 0 {
            proof {
                assert(expired_order(timers@, current_ms).0 =~= Seq::<TaskID>::empty());
                assert(woken@ =~= expired_order(t0, current_ms).0);
            }
            break ;
        }
        let i = first_min(timers);
        proof {
            lemma_first_min_exists(timers@);
            let c = choose|c: int| is_first_min(timers@, c);
            lemma_first_min_unique(timers@, i as int, c);
        }
        if timers[i].expire_ms <= current_ms {
            let t = timers.remove(i);
            proof {
                assert(woken@.push(t.task_id) + expired_order(timers@, current_ms).0 =~= woken@ + (
                seq![t.task_id] + expired_order(timers@, current_ms).0));
            }
            woken.push(t.task_id);
        } else {
            proof {
                assert(expired_order(timers@, current_ms).0 =~= Seq::<TaskID>::empty());
                assert(woken@ =~= expired_order(t0, current_ms).0);
            }
            break ;
        }
    }
    woken
}

} // verus!
