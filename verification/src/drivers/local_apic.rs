//! Local APIC addressing.
//!
//! The local interrupt controller is driven through memory-mapped
//! registers; the kernel remembers where they were mapped. The volatile
//! register accesses themselves are left to the hardware-facing code.

use vstd::prelude::*;

verus! {

/// Where the local interrupt controller's registers are mapped; zero
/// until the mapping is made.
pub struct LocalAPICAddress {
    /// The mapped address, as a plain integer.
    pub address: usize,
}

impl LocalAPICAddress {
    /// An address that is not mapped yet.
    pub fn new() -> (r: Self)
        ensures
            r.address == 0,
    {
        Self { address: 0 }
    }
}

} // verus!
