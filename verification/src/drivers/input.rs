//! Input devices (keyboard, mouse): the events they reported, waiting to
//! be read.
use vstd::prelude::*;
use std::collections::VecDeque;
use crate::sync::condvar::Condvar;
use crate::task::schedule::TaskID;

verus! {

/// An input event packed in one word: type in bits 48..64, code in bits
/// 32..48, value in bits 0..32.
pub open spec fn encode_event(event_type: u16, code: u16, value: u32) -> u64 {
    ((event_type as u64) << 48u64) | ((code as u64) << 32u64) | (value as u64)
}

/// The events of `raw`, packed, in order.
pub open spec fn encode_all(raw: Seq<(u16, u16, u32)>) -> Seq<u64> {
    raw.map_values(|e: (u16, u16, u32)| encode_event(e.0, e.1, e.2))
}

/// An input device as the kernel sees it: events not read yet, oldest
/// first, and the tasks waiting for one.
pub trait InputDevice {
    /// The events not read yet.
    spec fn pending(&self) -> Seq<u64>;

    /// The tasks waiting for an event, oldest first.
    spec fn waiting(&self) -> Seq<TaskID>;

    /// Takes the oldest event; with none, task `cur` waits for one (the
    /// caller then blocks it and asks again once it is woken).
    fn read_event(&mut self, cur: TaskID) -> (r: Option<u64>)
        ensures
            old(self).pending().len() > 0 ==> r == Some(old(self).pending()[0])
                && final(self).pending() == old(self).pending().drop_first()
                && final(self).waiting() == old(self).waiting(),
            old(self).pending().len() == 0 ==> r.is_none()
                && final(self).pending() == old(self).pending()
                && final(self).waiting() == old(self).waiting().push(cur),
    ;

    /// Takes the events the device reports, `raw` (type, code, value), in
    /// order; when there was any, returns the oldest waiting task, to be
    /// woken.
    fn handle_irq(&mut self, raw: &Vec<(u16, u16, u32)>) -> (r: Option<TaskID>)
        ensures
            final(self).pending() == old(self).pending() + encode_all(raw@),
            raw@.len() > 0 && old(self).waiting().len() > 0 ==> r == Some(old(self).waiting()[0])
                && final(self).waiting() == old(self).waiting().drop_first(),
            !(raw@.len() > 0 && old(self).waiting().len() > 0) ==> r.is_none()
                && final(self).waiting() == old(self).waiting(),
    ;

    /// Whether no event is waiting to be read.
    fn is_empty(&self) -> (r: bool)
        ensures
            r == (self.pending().len() == 0),
    ;
}

/// The events of one input device and the tasks waiting for them.
pub struct InputQueue {
    pub events: VecDeque<u64>,
    pub condvar: Condvar,
}

impl InputQueue {
    /// No event, nobody waiting.
    pub fn new() -> (r: Self)
        ensures
            r.pending() == Seq::<u64>::empty(),
            r.waiting() == Seq::<TaskID>::empty(),
    {
        InputQueue { events: VecDeque::new(), condvar: Condvar::new() }
    }
}

/// Packs one event.
pub fn encode_input_event(event_type: u16, code: u16, value: u32) -> (r: u64)
    ensures
        r == encode_event(event_type, code, value),
{
    ((event_type as u64) << 48u64) | ((code as u64) << 32u64) | (value as u64)
}

impl InputDevice for InputQueue {
    open spec fn pending(&self) -> Seq<u64> {
        self.events@
    }

    open spec fn waiting(&self) -> Seq<TaskID> {
        self.condvar.waitque.inner@
    }

    fn read_event(&mut self, cur: TaskID) -> (r: Option<u64>) {
        match self.events.pop_front() {
            Some(event) => Some(event),
            None => {
                self.condvar.wait_no_schedule(cur);
                None
            },
        }
    }

    fn handle_irq(&mut self, raw: &Vec<(u16, u16, u32)>) -> (r: Option<TaskID>) {
        let ghost start = self.events@;
        let mut i: usize = 0;
        while i < raw.len()
            invariant
                i <= raw@.len(),
                self.events@ == start + encode_all(raw@.take(i as int)),
                self.condvar == old(self).condvar,
            decreases raw@.len() - i,
        {
            let (t, c, v) = raw[i];
            let event = encode_input_event(t, c, v);
            self.events.push_back(event);
            proof {
                assert(encode_all(raw@.take(i + 1)) =~= encode_all(raw@.take(i as int)).push(event));
            }
            i = i + 1;
        }
        proof {
            assert(raw@.take(raw@.len() as int) =~= raw@);
        }
        if raw.len() > 0 {
            self.condvar.signal_one()
        } else {
            None
        }
    }

    fn is_empty(&self) -> (r: bool) {
        self.events.len() == 0
    }
}

} // verus!
