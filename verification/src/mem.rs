//! Memory management: segment headers and the bump allocator.

pub mod allocator;
pub mod segment;
