//! Single-core interior state and the interrupt-enable bookkeeping.
use vstd::prelude::*;

verus! {

/// Data that only the one core touches. Whoever holds the cell mutably
/// holds its contents mutably.
pub struct OneCoreCell<T> {
    pub inner: T,
}

impl<T> OneCoreCell<T> {
    /// A cell holding `value`.
    pub fn new(value: T) -> (r: Self)
        ensures
            r.inner == value,
    {
        Self { inner: value }
    }

    /// The contents, for changing them.
    pub fn exclusive_access(&mut self) -> (r: &mut T)
        ensures
            *r == old(self).inner,
            final(self).inner == *final(r),
    {
        &mut self.inner
    }
}

/// Remembers whether supervisor interrupts were on when they were masked,
/// so that unmasking turns them back on only then.
pub struct InterruptMask {
    pub int_on: bool,
}

impl InterruptMask {
    /// Nothing masked yet.
    pub fn new() -> (r: Self)
        ensures
            !r.int_on,
    {
        Self { int_on: false }
    }

    /// Records the interrupt-enable bit `sie` read from `sstatus`; the result
    /// says whether the caller must clear it.
    pub fn mask_interrupt(&mut self, sie: bool) -> (clear: bool)
        ensures
            final(self).int_on == sie,
            clear == sie,
    {
        if sie {
            self.int_on = true;
        } else {
            self.int_on = false;
        }
        sie
    }

    /// Whether the caller must set the interrupt-enable bit again.
    pub fn unmask_interrupt(&self) -> (set: bool)
        ensures
            set == self.int_on,
    {
        self.int_on
    }
}

} // verus!
