//! Hardware driver state that the kernel tracks as plain values.

pub mod local_apic;
