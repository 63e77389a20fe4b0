//! Interrupt-side data structures: descriptor-table encoding, the
//! interrupt-vector numbering, and the interrupt-masking lock.

pub mod gdt;
pub mod guard;

use vstd::prelude::*;

verus! {

/// Vector number of the first hardware interrupt after remapping.
pub const PIC_1_OFFSET: u8 = 0x20;

/// The hardware interrupts the kernel handles.
#[derive(Clone, Copy, Debug, PartialEq, Eq, Structural)]
pub enum InterruptIndex {
    /// The periodic timer interrupt.
    Timer,
    /// The keyboard interrupt.
    Keyboard,
}

impl InterruptIndex {
    /// The interrupt's vector number: the timer sits at the remap offset
    /// and the keyboard right after it.
    pub fn as_u8(self) -> (r: u8)
        ensures
            r == match self {
                InterruptIndex::Timer => PIC_1_OFFSET as int,
                InterruptIndex::Keyboard => PIC_1_OFFSET + 1,
            },
    {
        match self {
            InterruptIndex::Timer => PIC_1_OFFSET,
            InterruptIndex::Keyboard => PIC_1_OFFSET + 1,
        }
    }
}

} // verus!
