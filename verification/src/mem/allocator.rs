//! The bump allocator: a linear allocator over a fixed heap window.
//!
//! It only ever moves `next` forward; memory is reclaimed all at once when
//! the last outstanding allocation is returned.

use vstd::prelude::*;

verus! {

/// `addr` rounded up to the next multiple of `align`.
pub open spec fn spec_align_up(addr: int, align: int) -> int
    recommends
        align >= 1,
{
    addr + align - 1 - ((addr + align - 1) % align)
}

/// Align the given address `addr` upwards to alignment `align`.
pub fn align_up(addr: usize, align: usize) -> (r: usize)
    requires
        align >= 1,
        addr + align - 1 <= usize::MAX,
    ensures
        r == spec_align_up(addr as int, align as int),
        r % align == 0,
        addr <= r < addr + align,
{
    let x = addr + (align - 1);
    let m = x % align;
    proof {
        assert(0 <= (x as int) % (align as int) < align as int) by (nonlinear_arith)
            requires
                align >= 1,
                x >= 0,
        ;
        assert((x as int - (x as int) % (align as int)) % (align as int) == 0)
            by (nonlinear_arith)
            requires
                align >= 1,
                x >= 0,
        ;
    }
    x - m
}

/// Ghost state of a [`BumpAllocator`]: the heap window, the watermark, and
/// the count of live allocations.
pub ghost struct BumpView {
    pub heap_start: int,
    pub heap_end: int,
    pub next: int,
    pub allocations: int,
}

/// A bump allocator handing out addresses from `next` upwards inside
/// `[heap_start, heap_end)`.
pub struct BumpAllocator {
    heap_start: usize,
    heap_end: usize,
    next: usize,
    allocations: usize,
}

impl View for BumpAllocator {
    type V = BumpView;

    closed spec fn view(&self) -> BumpView {
        BumpView {
            heap_start: self.heap_start as int,
            heap_end: self.heap_end as int,
            next: self.next as int,
            allocations: self.allocations as int,
        }
    }
}

impl BumpAllocator {
    /// The watermark never leaves the heap window.
    pub open spec fn wf(self) -> bool {
        self@.heap_start <= self@.next <= self@.heap_end
    }

    /// First byte of the heap window.
    pub fn heap_start(&self) -> (r: usize)
        ensures
            r == self@.heap_start,
    {
        self.heap_start
    }

    /// One past the last byte of the heap window.
    pub fn heap_end(&self) -> (r: usize)
        ensures
            r == self@.heap_end,
    {
        self.heap_end
    }

    /// The watermark: where the next allocation would start looking.
    pub fn next(&self) -> (r: usize)
        ensures
            r == self@.next,
    {
        self.next
    }

    /// How many allocations are outstanding.
    pub fn allocations(&self) -> (r: usize)
        ensures
            r == self@.allocations,
    {
        self.allocations
    }

    /// Creates a new empty bump allocator.
    pub fn new() -> (r: Self)
        ensures
            r@ == (BumpView { heap_start: 0, heap_end: 0, next: 0, allocations: 0 }),
            r.wf(),
    {
        BumpAllocator { heap_start: 0, heap_end: 0, next: 0, allocations: 0 }
    }

    /// Initializes the bump allocator with the given heap bounds. The caller
    /// must hand over an unused memory range and call this only once.
    pub fn init(&mut self, heap_start: usize, heap_size: usize)
        ensures
            final(self)@.heap_start == heap_start,
            final(self)@.heap_end
                == if heap_start + heap_size <= usize::MAX {
                    heap_start + heap_size
                } else {
                    usize::MAX as int
                },
            final(self)@.next == heap_start,
            final(self)@.allocations == old(self)@.allocations,
            final(self).wf(),
    {
        self.heap_start = heap_start;
        self.heap_end = if heap_size <= usize::MAX - heap_start {
            heap_start + heap_size
        } else {
            usize::MAX
        };
        self.next = heap_start;
    }

    /// Hands out `size` bytes aligned to `align`, bumping the watermark, or
    /// reports that the window is exhausted.
    pub fn allocate(&mut self, size: usize, align: usize) -> (r: Option<usize>)
        requires
            old(self).wf(),
            align >= 1,
            old(self)@.next + align - 1 <= usize::MAX,
            old(self)@.allocations < usize::MAX,
        ensures
            final(self).wf(),
            final(self)@.heap_start == old(self)@.heap_start,
            final(self)@.heap_end == old(self)@.heap_end,
            ({
                let start = spec_align_up(old(self)@.next, align as int);
                if start + size <= old(self)@.heap_end {
                    &&& r matches Some(p) && p == start
                    &&& final(self)@.next == start + size
                    &&& final(self)@.allocations == old(self)@.allocations + 1
                    &&& start % (align as int) == 0
                } else {
                    &&& r is None
                    &&& final(self)@ == old(self)@
                }
            }),
    {
        let alloc_start = align_up(self.next, align);
        let alloc_end = match alloc_start.checked_add(size) {
            Some(end) => end,
            None => {
                proof {
                    assert(spec_align_up(old(self)@.next, align as int) + size
                        > old(self)@.heap_end);
                }
                return None;
            },
        };

        if alloc_end > self.heap_end {
            None
        } else {
            self.next = alloc_end;
            self.allocations = self.allocations + 1;
            Some(alloc_start)
        }
    }

    /// Returns one allocation; when none are left the watermark drops back
    /// to the start of the window.
    pub fn dealloc(&mut self)
        requires
            old(self)@.allocations >= 1,
        ensures
            final(self)@.heap_start == old(self)@.heap_start,
            final(self)@.heap_end == old(self)@.heap_end,
            final(self)@.allocations == old(self)@.allocations - 1,
            final(self)@.next
                == if old(self)@.allocations == 1 {
                    old(self)@.heap_start
                } else {
                    old(self)@.next
                },
    {
        self.allocations = self.allocations - 1;
        if self.allocations == 0 {
            self.next = self.heap_start;
        }
    }
}

} // verus!
