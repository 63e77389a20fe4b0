//! A lock that stands for interrupt masking.
//!
//! On the hardware, taking this lock disables interrupts and releasing
//! it re-enables them, so the one thread of control cannot be preempted
//! while it holds the data. Here the borrow system carries that
//! exclusivity: `lock` hands out the single mutable reference. The
//! interrupt-flag bookkeeping itself is privileged and lives with the
//! hardware-facing code.

use vstd::prelude::*;

verus! {

/// Data that may only be touched with interrupts masked.
pub struct InterruptLock<T> {
    data: T,
}

impl<T> InterruptLock<T> {
    /// The protected value, for contracts.
    pub closed spec fn inner(&self) -> T {
        self.data
    }

    /// Puts `data` under the lock.
    pub fn new(data: T) -> (r: InterruptLock<T>)
        ensures
            r.inner() == data,
    {
        InterruptLock { data }
    }

    /// Grants exclusive access to the protected value until the borrow
    /// ends.
    pub fn lock(&mut self) -> (r: &mut T)
        ensures
            *r == old(self).inner(),
            final(self).inner() == *final(r),
    {
        &mut self.data
    }
}

} // verus!
