//! A single-owner lock.
//!
//! The kernel it serves is single-core and single-threaded, so the safety
//! property of its spin lock is mutual exclusion alone, and here the
//! borrow system provides it: `lock` hands out the one mutable reference
//! to the protected value. The busy-wait on an atomic flag that guards
//! against reentrancy lives with the hardware-facing code.

use vstd::prelude::*;

verus! {

/// Protects a value of type `T`, giving out exclusive access on demand.
pub struct Lock<T> {
    data: T,
}

impl<T> Lock<T> {
    /// The protected value, for contracts.
    pub closed spec fn inner(&self) -> T {
        self.data
    }

    /// Puts `data` under the lock.
    pub fn new(data: T) -> (r: Lock<T>)
        ensures
            r.inner() == data,
    {
        Lock { data }
    }

    /// Grants exclusive access to the protected value until the borrow
    /// ends.
    pub fn lock(&mut self) -> (r: &mut T)
        ensures
            *r == old(self).inner(),
            final(self).inner() == *final(r),
    {
        &mut self.data
    }
}

} // verus!
