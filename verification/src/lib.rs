//! A verified model of a small kernel's core services.
//!
//! The heart of the crate is the segment-based free-list heap allocator in
//! [`memalloc`] and [`mem`]: it tracks free and allocated byte ranges of a
//! single boot-discovered memory region, carves allocations from the tail of
//! free segments with alignment awareness, and eagerly coalesces adjacent
//! free segments on release. The remaining modules hold the kernel's pure
//! bookkeeping logic: descriptor-table encoding, terminal buffers, a
//! circular log buffer, and port accounting.

pub mod drivers;
pub mod graphics;
pub mod interrupts;
pub mod io;
pub mod logger;
pub mod mem;
pub mod memalloc;
pub mod multiboot;
pub mod tui;
pub mod util;

