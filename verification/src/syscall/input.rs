//! System calls on the input devices and the console.
use vstd::prelude::*;
use crate::drivers::input::InputDevice;
use crate::task::schedule::TaskID;

verus! {

/// The oldest keyboard event, else the oldest mouse event, else 0; `cur`
/// is the running task (it never waits here: only a device that has an
/// event is read).
pub fn syscall_event_get<D: InputDevice>(kb: &mut D, mouse: &mut D, cur: TaskID) -> (r: isize)
    ensures
        old(kb).pending().len() > 0 ==> r == old(kb).pending()[0] as isize
            && final(kb).pending() == old(kb).pending().drop_first()
            && final(kb).waiting() == old(kb).waiting() && *final(mouse) == *old(mouse),
        old(kb).pending().len() == 0 && old(mouse).pending().len() > 0 ==> r
            == old(mouse).pending()[0] as isize && final(mouse).pending() == old(mouse).pending().drop_first()
            && final(mouse).waiting() == old(mouse).waiting() && *final(kb) == *old(kb),
        old(kb).pending().len() == 0 && old(mouse).pending().len() == 0 ==> r == 0 && *final(kb) == *old(kb)
            && *final(mouse) == *old(mouse),
{
    if !kb.is_empty() {
        let e = kb.read_event(cur);
        e.unwrap() as isize
    } else if !mouse.is_empty() {
        let e = mouse.read_event(cur);
        e.unwrap() as isize
    } else {
        0
    }
}

/// 1 when the console has received a key (its read buffer is not empty),
/// else 0.
pub fn syscall_key_pressed(read_buffer_is_empty: bool) -> (r: isize)
    ensures
        r == (if read_buffer_is_empty {
            0isize
        } else {
            1isize
        }),
{
    let res = !read_buffer_is_empty;
    if res {
        1
    } else {
        0
    }
}

} // verus!
