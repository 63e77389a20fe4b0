//! Segment headers of the free-list heap allocator.
//!
//! Every byte range the allocator tracks begins with a header. A
//! [`MemorySegment`] header describes a free range: the payload of `size`
//! bytes runs from the end of the header. An [`AllocatedSegment`] header
//! describes an owned range and sits immediately before the pointer the
//! caller received. The two header kinds deliberately carry the same
//! fields, since releasing a range reinterprets its allocated header in
//! place as a free one. [`Segment`] is the tagged union of the two.
//!
//! Raw addresses are held as plain `usize` values; a header's `addr` field
//! stands for the address the header itself occupies, and position in the
//! allocator's segment list stands in for a header's in-memory `next`
//! link.

use vstd::prelude::*;

verus! {

/// Byte size of a segment header (the payload starts this far past `addr`).
pub const HEADER_SIZE: usize = 8;

/// Alignment every segment header address must satisfy.
pub const HEADER_ALIGN: usize = 4;

/// Ghost description of one tracked byte range: the header address, the
/// payload size, and whether the range is free or allocated.
pub ghost struct SegView {
    pub addr: int,
    pub size: int,
    pub free: bool,
}

impl SegView {
    /// First payload byte, right past the header.
    pub open spec fn head(self) -> int {
        self.addr + HEADER_SIZE
    }

    /// One past the last payload byte.
    pub open spec fn tail(self) -> int {
        self.addr + HEADER_SIZE + self.size
    }
}

/// Header of a free segment: `size` payload bytes follow the header at
/// `addr`.
pub struct MemorySegment {
    /// Address of the header itself.
    pub addr: usize,
    /// Length of the free payload behind the header.
    pub size: usize,
}

impl View for MemorySegment {
    type V = SegView;

    open spec fn view(&self) -> SegView {
        SegView { addr: self.addr as int, size: self.size as int, free: true }
    }
}

impl MemorySegment {
    /// Address of the first free payload byte.
    pub fn get_head(&self) -> (r: usize)
        requires
            self.addr + HEADER_SIZE <= usize::MAX,
        ensures
            r == self@.head(),
    {
        self.addr + HEADER_SIZE
    }

    /// Address one past the last free payload byte.
    pub fn get_tail(&self) -> (r: usize)
        requires
            self.addr + HEADER_SIZE + self.size <= usize::MAX,
        ensures
            r == self@.tail(),
    {
        self.addr + HEADER_SIZE + self.size
    }

    /// Moves the segment's end to `tail`, keeping its start: afterwards the
    /// free payload runs from the header's end exactly up to `tail`.
    pub fn set_tail(&mut self, tail: usize)
        requires
            old(self).addr + HEADER_SIZE <= tail,
        ensures
            final(self).addr == old(self).addr,
            final(self)@.tail() == tail,
    {
        self.size = tail - (self.addr + HEADER_SIZE);
    }
}

/// Header of an allocated segment. `size` records everything from the end
/// of this header to the end of the span that was carved away, alignment
/// slack included, so that releasing the range returns the whole span.
pub struct AllocatedSegment {
    /// Address of the header itself; the caller's pointer sits one header
    /// past it.
    pub addr: usize,
    /// Length of the owned span behind the header.
    pub size: usize,
}

impl View for AllocatedSegment {
    type V = SegView;

    open spec fn view(&self) -> SegView {
        SegView { addr: self.addr as int, size: self.size as int, free: false }
    }
}

/// One tracked byte range: the same header memory read as either a free or
/// an allocated header.
pub enum Segment {
    /// The range is free.
    Free(MemorySegment),
    /// The range is owned by a caller.
    Allocated(AllocatedSegment),
}

impl View for Segment {
    type V = SegView;

    open spec fn view(&self) -> SegView {
        match self {
            Segment::Free(ms) => ms@,
            Segment::Allocated(a) => a@,
        }
    }
}

/// Address of the allocated-segment header that precedes the caller-visible
/// pointer `ptr`.
pub fn get_head_of_allocated_segment(ptr: usize) -> (r: usize)
    requires
        ptr >= HEADER_SIZE,
    ensures
        r == ptr - HEADER_SIZE,
{
    ptr - HEADER_SIZE
}

} // verus!
