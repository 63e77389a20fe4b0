//! Small self-contained utilities: bit-field access, a fixed-capacity
//! circular buffer, and a single-owner lock.

pub mod bit_manipulation;
pub mod circular_buffer;
pub mod lock;
