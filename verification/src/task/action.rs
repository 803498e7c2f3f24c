//! What a process does on each signal.
use vstd::prelude::*;
use crate::task::signal::{SignalFlags, MAX_SIGNAL_NUM};

verus! {

/// The user's handler for one signal and the signals it masks while it runs.
#[derive(Copy, Clone, Debug)]
pub struct SignalAction {
    pub handler: usize,
    pub mask: SignalFlags,
}

impl Default for SignalAction {
    /// No handler, nothing masked.
    fn default() -> (r: Self)
        ensures
            r.handler == 0,
            r.mask.bits == 0,
    {
        Self { handler: 0, mask: SignalFlags::empty() }
    }
}

/// A process's signals: the pending ones, the ones it masks, its actions,
/// and the signal whose handler runs now (-1 when none does).
#[derive(Copy, Clone)]
pub struct SignalHandler {
    pub existed_signals: SignalFlags,
    pub global_mask: SignalFlags,
    pub action_table: [SignalAction; MAX_SIGNAL_NUM],
    pub cur_signum: isize,
}

impl SignalHandler {
    /// Nothing pending or masked, no handlers, no handler running.
    pub fn new() -> (r: Self)
        ensures
            r.existed_signals.bits == 0,
            r.global_mask.bits == 0,
            r.cur_signum == -1,
            forall|i: int|
                0 <= i < 32 ==> (#[trigger] r.action_table[i]).handler == 0
                    && r.action_table[i].mask.bits == 0,
    {
        let a = SignalAction { handler: 0, mask: SignalFlags { bits: 0 } };
        Self {
            existed_signals: SignalFlags::empty(),
            global_mask: SignalFlags::empty(),
            action_table: [a; MAX_SIGNAL_NUM],
            cur_signum: -1,
        }
    }
}

} // verus!
