//! The segment-based free-list heap allocator.
//!
//! The allocator owns one boot-discovered memory region and keeps every
//! byte of it accounted for in a single address-ordered list of tagged
//! segments: each entry is either a free range or an allocated range, each
//! beginning exactly where the previous one ends. Allocation carves the
//! requested bytes from the tail of the first free segment they fit in;
//! release turns the allocated header back into a free one and eagerly
//! merges it with free neighbours.

use crate::mem::allocator::{align_up, spec_align_up};
use crate::mem::segment::{
    AllocatedSegment, HEADER_ALIGN, HEADER_SIZE, MemorySegment, SegView, Segment,
};
use vstd::prelude::*;

verus! {

/// `x` rounded down to a multiple of `align`.
pub open spec fn spec_align_down(x: int, align: int) -> int
    recommends
        align >= 1,
{
    x - x % align
}

/// The user pointer that carving `size` bytes aligned to `align` out of the
/// free segment `s` would return: the segment's tail, minus the request,
/// rounded down to the alignment.
pub open spec fn carve_ptr(s: SegView, size: int, align: int) -> int {
    spec_align_down(s.tail() - size, align)
}

/// Whether `size` bytes aligned to `align` fit in segment `s`: the carved
/// span, header included, must not reach below the segment's own payload
/// start.
pub open spec fn seg_fits(s: SegView, size: int, align: int) -> bool {
    &&& s.free
    &&& size <= s.tail()
    &&& carve_ptr(s, size, align) - HEADER_SIZE >= s.head()
}

/// Index of the first segment from `i` onwards that fits the request.
pub open spec fn first_fit_from(segs: Seq<SegView>, size: int, align: int, i: int) -> Option<
    int,
>
    decreases segs.len() - i,
    when 0 <= i <= segs.len()
{
    if i >= segs.len() {
        None
    } else if seg_fits(segs[i], size, align) {
        Some(i)
    } else {
        first_fit_from(segs, size, align, i + 1)
    }
}

/// Index of the first segment that fits the request, if any.
pub open spec fn first_fit(segs: Seq<SegView>, size: int, align: int) -> Option<int> {
    first_fit_from(segs, size, align, 0)
}

/// Index, from `i` onwards, of the allocated segment whose payload starts
/// at `ptr`.
pub open spec fn find_allocated_from(segs: Seq<SegView>, ptr: int, i: int) -> Option<int>
    decreases segs.len() - i,
    when 0 <= i <= segs.len()
{
    if i >= segs.len() {
        None
    } else if !segs[i].free && segs[i].head() == ptr {
        Some(i)
    } else {
        find_allocated_from(segs, ptr, i + 1)
    }
}

/// Index of the allocated segment whose payload starts at `ptr`, if any.
pub open spec fn find_allocated(segs: Seq<SegView>, ptr: int) -> Option<int> {
    find_allocated_from(segs, ptr, 0)
}

/// What one segment contributes to the free-byte count.
pub open spec fn free_contrib(s: SegView) -> int {
    if s.free {
        s.size
    } else {
        0
    }
}

/// Total payload bytes of the free segments in `segs`.
pub open spec fn free_bytes_of(segs: Seq<SegView>) -> int
    decreases segs.len(),
{
    if segs.len() == 0 {
        0
    } else {
        free_bytes_of(segs.drop_last()) + free_contrib(segs.last())
    }
}

/// The segment list after carving at index `i`: the free segment keeps its
/// header and shrinks so its payload ends at the new allocated header,
/// which records everything up to the free segment's former tail.
pub open spec fn carve_result(segs: Seq<SegView>, i: int, size: int, align: int) -> Seq<
    SegView,
> {
    let s = segs[i];
    let ptr = carve_ptr(s, size, align);
    let meta = ptr - HEADER_SIZE;
    segs.update(i, SegView { addr: s.addr, size: meta - s.head(), free: true }).insert(
        i + 1,
        SegView { addr: meta, size: s.tail() - ptr, free: false },
    )
}

/// The segment list after merging the free segment `i` with the free
/// segment `i + 1`, when both exist, both are free, and they are adjacent
/// by address; otherwise the list is unchanged.
pub open spec fn merge_right_at(segs: Seq<SegView>, i: int) -> Seq<SegView> {
    if 0 <= i && i + 1 < segs.len() && segs[i].free && segs[i + 1].free && segs[i].tail()
        == segs[i + 1].addr {
        segs.update(
            i,
            SegView {
                addr: segs[i].addr,
                size: segs[i].size + HEADER_SIZE + segs[i + 1].size,
                free: true,
            },
        ).remove(i + 1)
    } else {
        segs
    }
}

/// The segment list after releasing the allocated segment at index `j`:
/// its header is reread as a free header of the same size, then the new
/// free segment merges with its right and left neighbours where those are
/// free.
pub open spec fn release_result(segs: Seq<SegView>, j: int) -> Seq<SegView> {
    let freed = segs.update(j, SegView { addr: segs[j].addr, size: segs[j].size, free: true });
    merge_right_at(merge_right_at(freed, j), j - 1)
}

/// Sizes are non-negative and every range fits the address space.
pub open spec fn list_bounded(segs: Seq<SegView>) -> bool {
    forall|i: int|
        0 <= i < segs.len() ==> (#[trigger] segs[i]).size >= 0 && segs[i].addr >= 0
            && segs[i].tail() <= usize::MAX
}

/// Each segment begins exactly where the previous one ends.
pub open spec fn list_contiguous(segs: Seq<SegView>) -> bool {
    forall|i: int| 0 <= i < segs.len() - 1 ==> (#[trigger] segs[i]).tail() == segs[i + 1].addr
}

/// No two adjacent segments are both free: coalescing is never left
/// pending.
pub open spec fn list_coalesced(segs: Seq<SegView>) -> bool {
    forall|i: int|
        0 <= i < segs.len() - 1 ==> !((#[trigger] segs[i]).free && segs[i + 1].free)
}

/// Structural soundness of a segment list: sizes are non-negative, every
/// range fits the address space, each segment begins exactly where the
/// previous one ends, and no two adjacent segments are both free.
pub open spec fn list_wf(segs: Seq<SegView>) -> bool {
    &&& list_bounded(segs)
    &&& list_contiguous(segs)
    &&& list_coalesced(segs)
}

/// Rounding down to a multiple of `align` lands on a multiple, at most
/// `align - 1` below the starting point and never below zero.
proof fn lemma_align_down(x: int, align: int)
    requires
        align >= 1,
        x >= 0,
    ensures
        spec_align_down(x, align) % align == 0,
        x - align < spec_align_down(x, align) <= x,
        spec_align_down(x, align) >= 0,
{
    assert(0 <= x % align < align) by (nonlinear_arith)
        requires
            align >= 1,
            x >= 0,
    ;
    assert((x - x % align) % align == 0) by (nonlinear_arith)
        requires
            align >= 1,
            x >= 0,
    ;
    assert(x - x % align >= 0) by (nonlinear_arith)
        requires
            align >= 1,
            x >= 0,
    ;
}

/// Segments of a sound list sit in strictly ascending address order: an
/// earlier segment ends no later than a later one begins. This is the
/// no-overlap guarantee of the segment list.
pub proof fn lemma_segments_ordered(segs: Seq<SegView>, i: int, j: int)
    requires
        list_wf(segs),
        0 <= i < j < segs.len(),
    ensures
        segs[i].tail() <= segs[j].addr,
    decreases j - i,
{
    if i + 1 < j {
        lemma_segments_ordered(segs, i, j - 1);
    }
}

/// Number of free segments in `segs`.
pub open spec fn free_count_of(segs: Seq<SegView>) -> int
    decreases segs.len(),
{
    if segs.len() == 0 {
        0
    } else {
        free_count_of(segs.drop_last()) + if segs.last().free {
            1int
        } else {
            0int
        }
    }
}

/// A prefix of a sound list is itself sound.
proof fn lemma_prefix_wf(segs: Seq<SegView>, i: int)
    requires
        list_wf(segs),
        0 <= i <= segs.len(),
    ensures
        list_wf(segs.take(i)),
{
    let p = segs.take(i);
    assert forall|k: int|
        0 <= k < p.len() implies (#[trigger] p[k]).size >= 0 && p[k].addr >= 0 && p[k].tail()
            <= usize::MAX by {
        assert(segs[k].size >= 0 && segs[k].addr >= 0 && segs[k].tail() <= usize::MAX);
    }
    assert forall|k: int| 0 <= k < p.len() - 1 implies (#[trigger] p[k]).tail() == p[k + 1].addr by {
        assert(segs[k].tail() == segs[k + 1].addr);
    }
    assert forall|k: int|
        0 <= k < p.len() - 1 implies !((#[trigger] p[k]).free && p[k + 1].free) by {
        assert(!(segs[k].free && segs[k + 1].free));
    }
}

/// The free bytes of a sound list are non-negative and fit between its
/// first and last address.
proof fn lemma_free_bytes_le(segs: Seq<SegView>)
    requires
        list_wf(segs),
    ensures
        free_bytes_of(segs) >= 0,
        segs.len() > 0 ==> free_bytes_of(segs) <= segs.last().tail() - segs[0].addr,
    decreases segs.len(),
{
    if segs.len() > 0 {
        lemma_prefix_wf(segs, segs.len() - 1);
        assert(segs.drop_last() =~= segs.take(segs.len() - 1));
        lemma_free_bytes_le(segs.drop_last());
        assert(segs.last().size >= 0 && segs.last().addr >= 0);
        if segs.len() > 1 {
            assert(segs.drop_last().last() == segs[segs.len() - 2]);
            assert(segs[segs.len() - 2].tail() == segs[segs.len() - 1].addr);
        }
    }
}

/// Ghost state of the allocator: the tagged segment list and the bounds of
/// the managed region.
pub ghost struct AllocView {
    pub segs: Seq<SegView>,
    pub base: int,
    pub end: int,
}

impl AllocView {
    /// The segment list is sound and exactly tiles `[base, end)`.
    pub open spec fn wf(self) -> bool {
        &&& list_wf(self.segs)
        &&& 0 <= self.base <= self.end <= usize::MAX
        &&& (self.segs.len() == 0 ==> self.base == self.end)
        &&& (self.segs.len() > 0 ==> self.segs[0].addr == self.base && self.segs.last().tail()
            == self.end)
    }

    /// Total payload bytes currently free.
    pub open spec fn free_bytes(self) -> int {
        free_bytes_of(self.segs)
    }
}

/// Every segment of a well-formed allocator lies inside the managed
/// region.
pub proof fn lemma_seg_within_region(v: AllocView, i: int)
    requires
        v.wf(),
        0 <= i < v.segs.len(),
    ensures
        v.base <= v.segs[i].addr,
        v.segs[i].tail() <= v.end,
{
    if i > 0 {
        lemma_segments_ordered(v.segs, 0, i);
    }
    if i < v.segs.len() - 1 {
        lemma_segments_ordered(v.segs, i, v.segs.len() - 1);
    }
}

/// Carving a fitting request out of free segment `i` keeps the list sound:
/// it splits that segment's range into a shrunk free range and an
/// allocated range, leaving the region's bounds untouched.
proof fn lemma_carve_wf(segs: Seq<SegView>, i: int, size: int, align: int)
    requires
        list_wf(segs),
        0 <= i < segs.len(),
        seg_fits(segs[i], size, align),
        size >= 0,
        align >= 1,
    ensures
        ({
            let segs2 = carve_result(segs, i, size, align);
            &&& list_wf(segs2)
            &&& segs2.len() == segs.len() + 1
            &&& segs2[0].addr == segs[0].addr
            &&& segs2.last().tail() == segs.last().tail()
        }),
{
    let s = segs[i];
    lemma_align_down(s.tail() - size, align);
    let ptr = carve_ptr(s, size, align);
    let meta = ptr - HEADER_SIZE;
    let mid = SegView { addr: s.addr, size: meta - s.head(), free: true };
    let right = SegView { addr: meta, size: s.tail() - ptr, free: false };
    let segs2 = carve_result(segs, i, size, align);

    assert(segs2.len() == segs.len() + 1);
    assert forall|k: int| 0 <= k < segs2.len() implies segs2[k] == (if k < i {
        segs[k]
    } else if k == i {
        mid
    } else if k == i + 1 {
        right
    } else {
        segs[k - 1]
    }) by {
        let upd = segs.update(i, mid);
        if k < i + 1 {
            assert(segs2[k] == upd[k]);
        } else if k == i + 1 {
            assert(segs2[k] == right);
        } else {
            assert(segs2[k] == upd[k - 1]);
        }
    }

    assert(mid.tail() == meta);
    assert(right.tail() == s.tail());

    assert forall|k: int|
        0 <= k < segs2.len() implies (#[trigger] segs2[k]).size >= 0 && segs2[k].addr >= 0
            && segs2[k].tail() <= usize::MAX by {
        if k == i || k == i + 1 {
            assert(segs[i].size >= 0 && segs[i].addr >= 0 && segs[i].tail() <= usize::MAX);
        } else if k < i {
            assert(segs[k].size >= 0 && segs[k].addr >= 0 && segs[k].tail() <= usize::MAX);
        } else {
            assert(segs[k - 1].size >= 0 && segs[k - 1].addr >= 0 && segs[k - 1].tail()
                <= usize::MAX);
        }
    }

    assert forall|k: int|
        0 <= k < segs2.len() - 1 implies (#[trigger] segs2[k]).tail() == segs2[k + 1].addr by {
        if k < i - 1 {
            assert(segs[k].tail() == segs[k + 1].addr);
        } else if k == i - 1 {
            assert(segs[k].tail() == segs[k + 1].addr);
        } else if k >= i + 2 {
            assert(segs[k - 1].tail() == segs[k].addr);
        }
    }

    assert forall|k: int|
        0 <= k < segs2.len() - 1 implies !((#[trigger] segs2[k]).free && segs2[k + 1].free) by {
        if k < i - 1 {
            assert(!(segs[k].free && segs[k + 1].free));
        } else if k == i - 1 {
            assert(!(segs[k].free && segs[k + 1].free));
        } else if k >= i + 2 {
            assert(!(segs[k - 1].free && segs[k].free));
        }
    }
}

/// An allocation request that no free segment can satisfy. The kernel
/// treats this as fatal: there is no heap growth or compaction to retry
/// with.
#[derive(Clone, Copy, Debug, PartialEq, Eq, Structural)]
pub enum AllocError {
    /// No free segment has room for the requested span.
    Exhausted,
}

/// A release request the allocator cannot act on. The kernel treats this
/// as fatal: it signals a double free or a foreign pointer.
#[derive(Clone, Copy, Debug, PartialEq, Eq, Structural)]
pub enum DeallocError {
    /// No allocated segment's payload starts at the given pointer.
    UntrackedPointer,
}

/// Shape of a list after an actual merge: the two free neighbours collapse
/// into one free segment spanning both ranges, everything else keeps its
/// place, and the ends of the list stay where they were.
proof fn lemma_merge_shape(segs: Seq<SegView>, p: int)
    requires
        list_bounded(segs),
        list_contiguous(segs),
        0 <= p,
        p + 1 < segs.len(),
        segs[p].free,
        segs[p + 1].free,
    ensures
        ({
            let m = merge_right_at(segs, p);
            &&& m.len() == segs.len() - 1
            &&& forall|k: int| 0 <= k < p ==> m[k] == segs[k]
            &&& m[p] == (SegView {
                addr: segs[p].addr,
                size: segs[p].size + HEADER_SIZE + segs[p + 1].size,
                free: true,
            })
            &&& m[p].tail() == segs[p + 1].tail()
            &&& forall|k: int| p < k < m.len() ==> m[k] == segs[k + 1]
            &&& list_bounded(m)
            &&& list_contiguous(m)
            &&& m[0].addr == segs[0].addr
            &&& m.last().tail() == segs.last().tail()
        }),
{
    assert(segs[p].tail() == segs[p + 1].addr);
    let merged = SegView {
        addr: segs[p].addr,
        size: segs[p].size + HEADER_SIZE + segs[p + 1].size,
        free: true,
    };
    let m = merge_right_at(segs, p);
    let upd = segs.update(p, merged);
    assert(m == upd.remove(p + 1));
    assert(m.len() == segs.len() - 1);
    assert forall|k: int| 0 <= k < m.len() implies m[k] == (if k < p {
        segs[k]
    } else if k == p {
        merged
    } else {
        segs[k + 1]
    }) by {
        if k < p + 1 {
            assert(m[k] == upd[k]);
        } else {
            assert(m[k] == upd[k + 1]);
        }
    }
    assert(merged.tail() == segs[p + 1].tail());

    assert forall|k: int|
        0 <= k < m.len() implies (#[trigger] m[k]).size >= 0 && m[k].addr >= 0 && m[k].tail()
            <= usize::MAX by {
        if k == p {
            assert(segs[p + 1].tail() <= usize::MAX);
        } else if k < p {
            assert(segs[k].size >= 0 && segs[k].addr >= 0 && segs[k].tail() <= usize::MAX);
        } else {
            assert(segs[k + 1].size >= 0 && segs[k + 1].addr >= 0 && segs[k + 1].tail()
                <= usize::MAX);
        }
    }
    assert forall|k: int|
        0 <= k < m.len() - 1 implies (#[trigger] m[k]).tail() == m[k + 1].addr by {
        if k < p - 1 {
            assert(segs[k].tail() == segs[k + 1].addr);
        } else if k == p - 1 {
            assert(segs[k].tail() == segs[k + 1].addr);
        } else if k == p {
            assert(segs[p + 1].tail() == segs[p + 2].addr);
        } else {
            assert(segs[k + 1].tail() == segs[k + 2].addr);
        }
    }
}

/// Releasing the allocated segment `j` keeps the list sound: the freed
/// range merges with whichever neighbours are free, no two free segments
/// are left adjacent, and the ends of the list stay where they were.
#[verifier::rlimit(100)]
proof fn lemma_release_wf(segs: Seq<SegView>, j: int)
    requires
        list_wf(segs),
        0 <= j < segs.len(),
        !segs[j].free,
    ensures
        ({
            let r = release_result(segs, j);
            &&& list_wf(r)
            &&& r.len() >= 1
            &&& r[0].addr == segs[0].addr
            &&& r.last().tail() == segs.last().tail()
        }),
        ({
            let freed = segs.update(
                j,
                SegView { addr: segs[j].addr, size: segs[j].size, free: true },
            );
            let m1 = merge_right_at(freed, j);
            &&& list_bounded(freed)
            &&& list_bounded(m1)
            &&& m1.len() > j
        }),
{
    let freed = segs.update(j, SegView { addr: segs[j].addr, size: segs[j].size, free: true });
    let rc = j + 1 < segs.len() && segs[j + 1].free;
    let m1 = merge_right_at(freed, j);
    let r = release_result(segs, j);

    assert(list_bounded(freed) && list_contiguous(freed)) by {
        assert forall|k: int|
            0 <= k < freed.len() implies (#[trigger] freed[k]).size >= 0 && freed[k].addr >= 0
                && freed[k].tail() <= usize::MAX by {
            assert(segs[k].size >= 0 && segs[k].addr >= 0 && segs[k].tail() <= usize::MAX);
        }
        assert forall|k: int|
            0 <= k < freed.len() - 1 implies (#[trigger] freed[k]).tail() == freed[k + 1].addr by {
            assert(segs[k].tail() == segs[k + 1].addr);
        }
    }

    if rc {
        lemma_merge_shape(freed, j);
    } else {
        assert(m1 == freed);
    }
    assert(m1.len() >= 1);
    assert(list_bounded(m1) && list_contiguous(m1));
    assert(m1[0].addr == segs[0].addr);
    assert(m1.last().tail() == segs.last().tail());
    // The freed segment sits at `j` in `m1` in either case, and everything
    // before it is untouched.
    assert(j < m1.len() && m1[j].free);
    assert(forall|k: int| 0 <= k < j ==> m1[k] == segs[k]);
    // What follows the freed segment is not free.
    assert(j + 1 < m1.len() ==> !m1[j + 1].free) by {
        if j + 1 < m1.len() {
            if rc {
                assert(m1[j + 1] == freed[j + 2]);
                assert(!(segs[j + 1].free && segs[j + 2].free));
            } else {
                assert(!(segs[j].free && segs[j + 1].free));
                assert(m1[j + 1] == freed[j + 1]);
            }
        }
    }

    let lc = j > 0 && segs[j - 1].free;
    if lc {
        assert(m1[j - 1] == segs[j - 1]);
        assert(m1[j - 1].tail() == m1[j].addr) by {
            assert(segs[j - 1].tail() == segs[j].addr);
        }
        lemma_merge_shape(m1, j - 1);
        assert(r == merge_right_at(m1, j - 1));
        let m2 = merge_right_at(m1, j - 1);
        assert forall|k: int|
            0 <= k < m2.len() - 1 implies !((#[trigger] m2[k]).free && m2[k + 1].free) by {
            if k < j - 2 {
                assert(m2[k] == segs[k] && m2[k + 1] == segs[k + 1]);
                assert(!(segs[k].free && segs[k + 1].free));
            } else if k == j - 2 {
                // Left of the merged block: was left of a free segment.
                assert(m2[k] == segs[k]);
                assert(!(segs[j - 2].free && segs[j - 1].free));
            } else if k == j - 1 {
                // The merged block against its right neighbour.
                assert(m2[k + 1] == m1[k + 2]);
                assert(!m1[j + 1].free);
            } else {
                assert(m2[k] == m1[k + 1] && m2[k + 1] == m1[k + 2]);
                if rc {
                    assert(m1[k + 1] == segs[k + 2] && m1[k + 2] == segs[k + 3]);
                    assert(!(segs[k + 2].free && segs[k + 3].free));
                } else {
                    assert(m1[k + 1] == freed[k + 1] && m1[k + 2] == freed[k + 2]);
                    assert(!(segs[k + 1].free && segs[k + 2].free));
                }
            }
        }
    } else {
        assert(r == m1) by {
            if j > 0 {
                assert(m1[j - 1] == segs[j - 1]);
                assert(!m1[j - 1].free);
            }
        }
        assert forall|k: int|
            0 <= k < m1.len() - 1 implies !((#[trigger] m1[k]).free && m1[k + 1].free) by {
            if k < j - 1 {
                assert(m1[k] == segs[k] && m1[k + 1] == segs[k + 1]);
                assert(!(segs[k].free && segs[k + 1].free));
            } else if k == j - 1 {
                assert(m1[k] == segs[k]);
                assert(!m1[j - 1].free);
            } else if k == j {
                assert(!m1[j + 1].free);
            } else {
                if rc {
                    assert(m1[k] == segs[k + 1] && m1[k + 1] == segs[k + 2]);
                    assert(!(segs[k + 1].free && segs[k + 2].free));
                } else {
                    assert(m1[k] == freed[k] && m1[k + 1] == freed[k + 1]);
                    assert(!(segs[k].free && segs[k + 1].free));
                }
            }
        }
    }
}

/// Exact shape of the list after a release: the freed range ends up inside
/// one free segment, which also swallows the right neighbour's range when
/// that was free and keeps the left neighbour's start when that was free;
/// everything else keeps its place, shifted left past the merges.
proof fn lemma_release_shape(segs: Seq<SegView>, j: int)
    requires
        list_wf(segs),
        0 <= j < segs.len(),
        !segs[j].free,
    ensures
        ({
            let r = release_result(segs, j);
            let rc = j + 1 < segs.len() && segs[j + 1].free;
            let lc = j > 0 && segs[j - 1].free;
            let d = (if rc {
                1int
            } else {
                0int
            }) + (if lc {
                1int
            } else {
                0int
            });
            let kk = if lc {
                j - 1
            } else {
                j
            };
            &&& r.len() == segs.len() - d
            &&& 0 <= kk < r.len()
            &&& r[kk].free
            &&& r[kk].addr == (if lc {
                segs[j - 1].addr
            } else {
                segs[j].addr
            })
            &&& r[kk].tail() == (if rc {
                segs[j + 1].tail()
            } else {
                segs[j].tail()
            })
            &&& (forall|k: int| 0 <= k < kk ==> r[k] == segs[k])
            &&& (forall|k: int| kk < k < r.len() ==> r[k] == segs[k + d])
        }),
{
    let freed = segs.update(j, SegView { addr: segs[j].addr, size: segs[j].size, free: true });
    let rc = j + 1 < segs.len() && segs[j + 1].free;
    let lc = j > 0 && segs[j - 1].free;
    let m1 = merge_right_at(freed, j);
    let r = release_result(segs, j);

    assert(list_bounded(freed) && list_contiguous(freed)) by {
        assert forall|k: int|
            0 <= k < freed.len() implies (#[trigger] freed[k]).size >= 0 && freed[k].addr >= 0
                && freed[k].tail() <= usize::MAX by {
            assert(segs[k].size >= 0 && segs[k].addr >= 0 && segs[k].tail() <= usize::MAX);
        }
        assert forall|k: int|
            0 <= k < freed.len() - 1 implies (#[trigger] freed[k]).tail() == freed[k + 1].addr by {
            assert(segs[k].tail() == segs[k + 1].addr);
        }
    }

    if rc {
        lemma_merge_shape(freed, j);
    } else {
        assert(m1 == freed);
    }
    assert(m1[j].free);
    assert(m1[j].addr == segs[j].addr);
    assert(m1[j].tail() == (if rc {
        segs[j + 1].tail()
    } else {
        segs[j].tail()
    }));
    assert(forall|k: int| 0 <= k < j ==> m1[k] == segs[k]);
    assert(forall|k: int|
        j < k < m1.len() ==> m1[k] == segs[k + (if rc {
            1int
        } else {
            0int
        })]);

    if lc {
        assert(m1[j - 1] == segs[j - 1]);
        assert(m1[j - 1].tail() == m1[j].addr) by {
            assert(segs[j - 1].tail() == segs[j].addr);
        }
        lemma_merge_shape(m1, j - 1);
        assert(r == merge_right_at(m1, j - 1));
    } else {
        assert(r == m1) by {
            if j > 0 {
                assert(m1[j - 1] == segs[j - 1]);
                assert(!m1[j - 1].free);
            }
        }
    }
}

/// Replacing one segment changes the free-byte total by the difference of
/// the two contributions.
proof fn lemma_free_bytes_update(segs: Seq<SegView>, i: int, s: SegView)
    requires
        0 <= i < segs.len(),
    ensures
        free_bytes_of(segs.update(i, s)) == free_bytes_of(segs) - free_contrib(segs[i])
            + free_contrib(s),
    decreases segs.len(),
{
    if i == segs.len() - 1 {
        assert(segs.update(i, s).drop_last() =~= segs.drop_last());
        assert(segs.update(i, s).last() == s);
    } else {
        assert(segs.update(i, s).drop_last() =~= segs.drop_last().update(i, s));
        assert(segs.update(i, s).last() == segs.last());
        lemma_free_bytes_update(segs.drop_last(), i, s);
    }
}

/// Inserting a segment adds its contribution to the free-byte total.
proof fn lemma_free_bytes_insert(segs: Seq<SegView>, i: int, s: SegView)
    requires
        0 <= i <= segs.len(),
    ensures
        free_bytes_of(segs.insert(i, s)) == free_bytes_of(segs) + free_contrib(s),
    decreases segs.len(),
{
    if i == segs.len() {
        assert(segs.insert(i, s).drop_last() =~= segs);
        assert(segs.insert(i, s).last() == s);
    } else {
        assert(segs.insert(i, s).drop_last() =~= segs.drop_last().insert(i, s));
        assert(segs.insert(i, s).last() == segs.last());
        lemma_free_bytes_insert(segs.drop_last(), i, s);
    }
}

/// Removing a segment subtracts its contribution from the free-byte total.
proof fn lemma_free_bytes_remove(segs: Seq<SegView>, i: int)
    requires
        0 <= i < segs.len(),
    ensures
        free_bytes_of(segs.remove(i)) == free_bytes_of(segs) - free_contrib(segs[i]),
{
    assert(segs.remove(i).insert(i, segs[i]) =~= segs);
    lemma_free_bytes_insert(segs.remove(i), i, segs[i]);
}

/// A first-fit hit names a segment that exists and fits.
proof fn lemma_first_fit_props(segs: Seq<SegView>, size: int, align: int, k: int, i: int)
    requires
        0 <= k <= segs.len(),
        first_fit_from(segs, size, align, k) == Some(i),
    ensures
        k <= i < segs.len(),
        seg_fits(segs[i], size, align),
    decreases segs.len() - k,
{
    if k < segs.len() && !seg_fits(segs[k], size, align) {
        lemma_first_fit_props(segs, size, align, k + 1, i);
    }
}

/// The search for an allocated segment finds exactly the index whose
/// payload starts at the pointer, when nothing before it matches.
proof fn lemma_find_allocated_at(segs: Seq<SegView>, ptr: int, m: int, j: int)
    requires
        0 <= m <= j < segs.len(),
        !segs[j].free,
        segs[j].head() == ptr,
        forall|k: int|
            0 <= k < j ==> (#[trigger] segs[k]).free || segs[k].head() != ptr,
    ensures
        find_allocated_from(segs, ptr, m) == Some(j),
    decreases j - m,
{
    if m < j {
        lemma_find_allocated_at(segs, ptr, m + 1, j);
    }
}

/// Merging two adjacent free segments turns the absorbed header into free
/// payload: the free-byte total grows by exactly one header.
proof fn lemma_merge_free_bytes(segs: Seq<SegView>, p: int)
    requires
        0 <= p,
        p + 1 < segs.len(),
        segs[p].free,
        segs[p + 1].free,
        segs[p].tail() == segs[p + 1].addr,
    ensures
        free_bytes_of(merge_right_at(segs, p)) == free_bytes_of(segs) + HEADER_SIZE,
{
    let merged = SegView {
        addr: segs[p].addr,
        size: segs[p].size + HEADER_SIZE + segs[p + 1].size,
        free: true,
    };
    let upd = segs.update(p, merged);
    lemma_free_bytes_update(segs, p, merged);
    lemma_free_bytes_remove(upd, p + 1);
    assert(upd[p + 1] == segs[p + 1]);
}

/// In a sound list, looking up an allocated segment by the address of its
/// payload finds exactly that segment: payload addresses are unique.
proof fn lemma_find_head(segs: Seq<SegView>, j: int)
    requires
        list_wf(segs),
        0 <= j < segs.len(),
        !segs[j].free,
    ensures
        find_allocated(segs, segs[j].head()) == Some(j),
{
    assert forall|k: int|
        0 <= k < j implies (#[trigger] segs[k]).free || segs[k].head() != segs[j].head() by {
        if !segs[k].free {
            lemma_segments_ordered(segs, k, j);
            assert(segs[k].size >= 0);
        }
    }
    lemma_find_allocated_at(segs, segs[j].head(), 0, j);
}

/// Carving removes exactly the carved span from the free pool: the
/// recorded allocation plus the header in front of it.
pub proof fn lemma_carve_free_bytes(segs: Seq<SegView>, i: int, size: int, align: int)
    requires
        0 <= i < segs.len(),
        seg_fits(segs[i], size, align),
        align >= 1,
    ensures
        free_bytes_of(carve_result(segs, i, size, align)) == free_bytes_of(segs) - (
        segs[i].tail() - carve_ptr(segs[i], size, align)) - HEADER_SIZE,
{
    let s = segs[i];
    let ptr = carve_ptr(s, size, align);
    let meta = ptr - HEADER_SIZE;
    let mid = SegView { addr: s.addr, size: meta - s.head(), free: true };
    let right = SegView { addr: meta, size: s.tail() - ptr, free: false };
    lemma_free_bytes_update(segs, i, mid);
    lemma_free_bytes_insert(segs.update(i, mid), i + 1, right);
}

/// Releasing returns the freed payload to the free pool, plus one header
/// for each free neighbour that the freed range merges with.
pub proof fn lemma_release_free_bytes(segs: Seq<SegView>, j: int)
    requires
        list_wf(segs),
        0 <= j < segs.len(),
        !segs[j].free,
    ensures
        free_bytes_of(release_result(segs, j)) == free_bytes_of(segs) + segs[j].size + (if j + 1
            < segs.len() && segs[j + 1].free {
            HEADER_SIZE as int
        } else {
            0
        }) + (if j > 0 && segs[j - 1].free {
            HEADER_SIZE as int
        } else {
            0
        }),
{
    let freed = segs.update(j, SegView { addr: segs[j].addr, size: segs[j].size, free: true });
    let rc = j + 1 < segs.len() && segs[j + 1].free;
    let lc = j > 0 && segs[j - 1].free;
    let m1 = merge_right_at(freed, j);

    lemma_free_bytes_update(
        segs,
        j,
        SegView { addr: segs[j].addr, size: segs[j].size, free: true },
    );
    assert(list_bounded(freed) && list_contiguous(freed)) by {
        assert forall|k: int|
            0 <= k < freed.len() implies (#[trigger] freed[k]).size >= 0 && freed[k].addr >= 0
                && freed[k].tail() <= usize::MAX by {
            assert(segs[k].size >= 0 && segs[k].addr >= 0 && segs[k].tail() <= usize::MAX);
        }
        assert forall|k: int|
            0 <= k < freed.len() - 1 implies (#[trigger] freed[k]).tail() == freed[k + 1].addr by {
            assert(segs[k].tail() == segs[k + 1].addr);
        }
    }

    if rc {
        lemma_merge_free_bytes(freed, j);
        lemma_merge_shape(freed, j);
    } else {
        assert(m1 == freed);
    }
    assert(m1[j].free && m1[j].addr == segs[j].addr);
    if lc {
        assert(m1[j - 1] == segs[j - 1]);
        assert(m1[j - 1].tail() == m1[j].addr) by {
            assert(segs[j - 1].tail() == segs[j].addr);
        }
        lemma_merge_free_bytes(m1, j - 1);
    } else {
        assert(release_result(segs, j) == m1) by {
            if j > 0 {
                assert(m1[j - 1] == segs[j - 1]);
                assert(!m1[j - 1].free);
            }
        }
    }
}

/// Round trip: carving an allocation and then immediately releasing the
/// returned pointer restores the free-byte total, because the freed span
/// merges back into the free segment it was carved from.
#[verifier::rlimit(100)]
pub proof fn lemma_round_trip(pre: Seq<SegView>, size: int, align: int, i: int)
    requires
        list_wf(pre),
        align >= 1,
        size >= 0,
        first_fit(pre, size, align) == Some(i),
    ensures
        ({
            let ptr = carve_ptr(pre[i], size, align);
            let mid = carve_result(pre, i, size, align);
            &&& find_allocated(mid, ptr) == Some(i + 1)
            &&& free_bytes_of(release_result(mid, i + 1)) == free_bytes_of(pre)
        }),
{
    lemma_first_fit_props(pre, size, align, 0, i);
    let s = pre[i];
    lemma_align_down(s.tail() - size, align);
    let ptr = carve_ptr(s, size, align);
    let meta = ptr - HEADER_SIZE;
    let mid_seg = SegView { addr: s.addr, size: meta - s.head(), free: true };
    let right = SegView { addr: meta, size: s.tail() - ptr, free: false };
    let mid = carve_result(pre, i, size, align);
    lemma_carve_wf(pre, i, size, align);

    assert forall|k: int| 0 <= k < mid.len() implies mid[k] == (if k < i {
        pre[k]
    } else if k == i {
        mid_seg
    } else if k == i + 1 {
        right
    } else {
        pre[k - 1]
    }) by {
        let upd = pre.update(i, mid_seg);
        if k < i + 1 {
            assert(mid[k] == upd[k]);
        } else if k == i + 1 {
            assert(mid[k] == right);
        } else {
            assert(mid[k] == upd[k - 1]);
        }
    }

    assert(mid[i + 1].head() == ptr);
    lemma_find_head(mid, i + 1);

    lemma_carve_free_bytes(pre, i, size, align);
    lemma_release_free_bytes(mid, i + 1);
    // The right neighbour of the freed span, if any, is what followed the
    // carved segment before, and cannot be free next to a free segment.
    assert(i + 2 < mid.len() ==> !mid[i + 2].free) by {
        if i + 2 < mid.len() {
            assert(!(pre[i].free && pre[i + 1].free));
        }
    }
    assert(mid[i].free);
}

/// Exhaustion: a request larger than every free segment's span is not
/// satisfiable, even when the free spans together would be large enough —
/// the allocator never joins non-adjacent free segments.
pub proof fn lemma_exhaustion(segs: Seq<SegView>, size: int, align: int)
    requires
        align >= 1,
        forall|k: int| 0 <= k < segs.len() && (#[trigger] segs[k]).free ==> size > segs[k].size,
    ensures
        first_fit(segs, size, align) is None,
{
    lemma_no_fit_from(segs, size, align, 0);
}

/// No segment from `k` onwards fits a request larger than every free span.
proof fn lemma_no_fit_from(segs: Seq<SegView>, size: int, align: int, k: int)
    requires
        align >= 1,
        0 <= k <= segs.len(),
        forall|t: int| 0 <= t < segs.len() && (#[trigger] segs[t]).free ==> size > segs[t].size,
    ensures
        first_fit_from(segs, size, align, k) is None,
    decreases segs.len() - k,
{
    if k < segs.len() {
        if seg_fits(segs[k], size, align) {
            lemma_align_down(segs[k].tail() - size, align);
            assert(false);
        }
        lemma_no_fit_from(segs, size, align, k + 1);
    }
}

/// Tiling, existence half: every byte of the managed region belongs to
/// some tracked segment.
pub proof fn lemma_region_tiled(v: AllocView, x: int)
    requires
        v.wf(),
        v.base <= x < v.end,
    ensures
        exists|i: int|
            0 <= i < v.segs.len() && (#[trigger] v.segs[i]).addr <= x < v.segs[i].tail(),
{
    assert(v.segs.len() > 0);
    lemma_tiled_from(v.segs, 0, x);
}

/// Tiling, uniqueness half: no byte belongs to two tracked segments.
pub proof fn lemma_tiling_unique(v: AllocView, x: int, i: int, j: int)
    requires
        v.wf(),
        0 <= i < v.segs.len(),
        0 <= j < v.segs.len(),
        v.segs[i].addr <= x < v.segs[i].tail(),
        v.segs[j].addr <= x < v.segs[j].tail(),
    ensures
        i == j,
{
    if i < j {
        lemma_segments_ordered(v.segs, i, j);
    }
    if j < i {
        lemma_segments_ordered(v.segs, j, i);
    }
}

/// Coalescing completeness, higher address released first: releasing the
/// allocation at `j + 1` and then the adjacent one at `j` leaves a single
/// free segment spanning both of their ranges.
#[verifier::spinoff_prover]
#[verifier::rlimit(100)]
pub proof fn lemma_coalesce_high_first(pre: Seq<SegView>, j: int)
    requires
        list_wf(pre),
        0 <= j,
        j + 1 < pre.len(),
        !pre[j].free,
        !pre[j + 1].free,
    ensures
        ({
            let mid = release_result(pre, j + 1);
            let post = release_result(mid, j);
            &&& list_wf(mid)
            &&& list_wf(post)
            &&& find_allocated(mid, pre[j].head()) == Some(j)
            &&& exists|k: int|
                0 <= k < post.len() && (#[trigger] post[k]).free && post[k].addr <= pre[j].addr
                    && pre[j + 1].tail() <= post[k].tail()
        }),
{
    lemma_release_wf(pre, j + 1);
    lemma_release_shape(pre, j + 1);
    let mid = release_result(pre, j + 1);
    assert(mid[j] == pre[j]);
    assert(mid[j + 1].free && mid[j + 1].addr == pre[j + 1].addr);
    assert(mid[j + 1].tail() >= pre[j + 1].tail()) by {
        if j + 2 < pre.len() && pre[j + 2].free {
            assert(pre[j + 1].tail() == pre[j + 2].addr);
            assert(pre[j + 2].size >= 0);
        }
    }
    lemma_find_head(mid, j);
    lemma_release_wf(mid, j);
    lemma_release_shape(mid, j);
    let post = release_result(mid, j);
    let lc2 = j > 0 && mid[j - 1].free;
    let kk2 = if lc2 {
        j - 1
    } else {
        j
    };
    assert(post[kk2].free);
    assert(post[kk2].addr <= pre[j].addr) by {
        if lc2 {
            assert(mid[j - 1].tail() == mid[j].addr);
            assert(mid[j - 1].size >= 0);
        }
    }
    assert(post[kk2].tail() == mid[j + 1].tail());
    assert(0 <= kk2 < post.len() && post[kk2].free && post[kk2].addr <= pre[j].addr && pre[j
        + 1].tail() <= post[kk2].tail());
}

/// After releasing the lower allocation of an adjacent pair, the higher
/// one is still tracked, right behind a free segment that ends where the
/// released range began.
proof fn lemma_release_low_mid(pre: Seq<SegView>, j: int)
    requires
        list_wf(pre),
        0 <= j,
        j + 1 < pre.len(),
        !pre[j].free,
        !pre[j + 1].free,
    ensures
        ({
            let mid = release_result(pre, j);
            let jb = if j > 0 && pre[j - 1].free {
                j
            } else {
                j + 1
            };
            &&& list_wf(mid)
            &&& 0 < jb < mid.len()
            &&& mid[jb] == pre[j + 1]
            &&& mid[jb - 1].free
            &&& mid[jb - 1].addr <= pre[j].addr
            &&& mid[jb - 1].tail() == pre[j].tail()
            &&& find_allocated(mid, pre[j + 1].head()) == Some(jb)
        }),
{
    lemma_release_wf(pre, j);
    lemma_release_shape(pre, j);
    let mid = release_result(pre, j);
    let lc1 = j > 0 && pre[j - 1].free;
    let kk1 = if lc1 {
        j - 1
    } else {
        j
    };
    let jb = if lc1 {
        j
    } else {
        j + 1
    };
    assert(mid[jb] == pre[j + 1]);
    assert(jb - 1 == kk1);
    assert(mid[kk1].free);
    assert(mid[kk1].addr <= pre[j].addr) by {
        if lc1 {
            assert(pre[j - 1].tail() == pre[j].addr);
            assert(pre[j - 1].size >= 0);
        }
    }
    assert(mid[kk1].tail() == pre[j].tail());
    lemma_find_head(mid, jb);
}

/// Coalescing completeness, lower address released first: releasing the
/// allocation at `j` and then the adjacent one that sat at `j + 1` leaves
/// a single free segment spanning both of their ranges.
#[verifier::rlimit(100)]
pub proof fn lemma_coalesce_low_first(pre: Seq<SegView>, j: int, jb: int)
    requires
        list_wf(pre),
        0 <= j,
        j + 1 < pre.len(),
        !pre[j].free,
        !pre[j + 1].free,
        jb == if j > 0 && pre[j - 1].free {
            j
        } else {
            j + 1
        },
    ensures
        list_wf(release_result(pre, j)),
        list_wf(release_result(release_result(pre, j), jb)),
        find_allocated(release_result(pre, j), pre[j + 1].head()) == Some(jb),
        exists|k: int|
            0 <= k < release_result(release_result(pre, j), jb).len() && (#[trigger] release_result(
                release_result(pre, j),
                jb,
            )[k]).free && release_result(release_result(pre, j), jb)[k].addr <= pre[j].addr && pre[
                j + 1
            ].tail() <= release_result(release_result(pre, j), jb)[k].tail(),
{
    lemma_release_low_mid(pre, j);
    let mid = release_result(pre, j);
    lemma_release_wf(mid, jb);
    lemma_release_shape(mid, jb);
    let post = release_result(mid, jb);
    // The left neighbour of the released segment is free, so the merge
    // keeps its start; a free right neighbour only extends the span.
    assert(post[jb - 1].free);
    assert(post[jb - 1].addr == mid[jb - 1].addr);
    assert(post[jb - 1].tail() >= mid[jb].tail()) by {
        if jb + 1 < mid.len() && mid[jb + 1].free {
            assert(mid[jb].tail() == mid[jb + 1].addr);
            assert(mid[jb + 1].size >= 0);
        }
    }
    assert(0 <= jb - 1 < post.len() && post[jb - 1].free && post[jb - 1].addr <= pre[j].addr
        && pre[j + 1].tail() <= post[jb - 1].tail());
}

/// The byte `x` lies in one of the segments from `k` onwards.
proof fn lemma_tiled_from(segs: Seq<SegView>, k: int, x: int)
    requires
        list_wf(segs),
        0 <= k < segs.len(),
        segs[k].addr <= x < segs[segs.len() - 1].tail(),
    ensures
        exists|i: int| k <= i < segs.len() && (#[trigger] segs[i]).addr <= x < segs[i].tail(),
    decreases segs.len() - k,
{
    if x < segs[k].tail() {
        assert(segs[k].addr <= x < segs[k].tail());
    } else {
        assert(k < segs.len() - 1);
        assert(segs[k].tail() == segs[k + 1].addr);
        lemma_tiled_from(segs, k + 1, x);
    }
}

/// Decides whether `size` bytes aligned to `align` can be carved from the
/// tail of the free segment, and if so at which address the new
/// allocated-segment header would sit: the segment's tail minus the
/// request, rounded down to the alignment, minus one header.
fn get_metadata(segment: &MemorySegment, size: usize, align: usize) -> (r: Option<usize>)
    requires
        align >= 1,
        segment.addr + HEADER_SIZE + segment.size <= usize::MAX,
    ensures
        r is Some <==> seg_fits(segment@, size as int, align as int),
        r matches Some(m) ==> m == carve_ptr(segment@, size as int, align as int)
            - HEADER_SIZE,
{
    let head = segment.get_head();
    let tail = segment.get_tail();

    if size > tail {
        return None;
    }
    let p0 = tail - size;
    let rem = p0 % align;
    proof {
        lemma_align_down(p0 as int, align as int);
    }
    let p1 = p0 - rem;
    if p1 >= HEADER_SIZE && p1 - HEADER_SIZE >= head {
        Some(p1 - HEADER_SIZE)
    } else {
        None
    }
}

/// Merges the segment at `i` into one free segment with its successor when
/// both are free and adjacent by address; otherwise leaves the list
/// unchanged.
pub fn merge_segments(segments: &mut Vec<Segment>, i: usize)
    requires
        list_bounded(old(segments)@.map_values(|s: Segment| s@)),
        i < old(segments).len(),
    ensures
        final(segments)@.map_values(|s: Segment| s@) == merge_right_at(
            old(segments)@.map_values(|s: Segment| s@),
            i as int,
        ),
{
    let ghost pre = segments@.map_values(|s: Segment| s@);
    if i + 1 >= segments.len() {
        assert(pre =~= merge_right_at(pre, i as int));
        return ;
    }
    let a = match &segments[i] {
        Segment::Free(ms) => Some((ms.addr, ms.size)),
        Segment::Allocated(_) => None,
    };
    let b = match &segments[i + 1] {
        Segment::Free(ms) => Some((ms.addr, ms.size)),
        Segment::Allocated(_) => None,
    };
    proof {
        assert(pre[i as int].size >= 0 && pre[i as int].addr >= 0 && pre[i as int].tail()
            <= usize::MAX);
        assert(pre[i + 1].size >= 0 && pre[i + 1].addr >= 0 && pre[i + 1].tail() <= usize::MAX);
    }
    if let (Some((a_addr, a_size)), Some((b_addr, b_size))) = (a, b) {
        if a_addr + HEADER_SIZE + a_size == b_addr {
            segments[i] = Segment::Free(
                MemorySegment { addr: a_addr, size: a_size + HEADER_SIZE + b_size },
            );
            segments.remove(i + 1);
            proof {
                assert(segments@.map_values(|s: Segment| s@) =~= merge_right_at(pre, i as int));
            }
            return ;
        }
    }
    assert(pre =~= merge_right_at(pre, i as int));
}

/// Releases the allocated segment whose payload starts at `ptr`: its header
/// is reread in place as a free header of the same size, and the freed
/// range merges with whichever of its neighbours are free. A pointer that
/// no allocated segment's payload starts at leaves the list unchanged and
/// is reported as untracked, which the kernel treats as fatal: it signals
/// a double free or a foreign pointer.
#[verifier::rlimit(100)]
pub fn deallocate_segment(segments: &mut Vec<Segment>, ptr: usize) -> (r: Result<
    (),
    DeallocError,
>)
    requires
        list_wf(old(segments)@.map_values(|s: Segment| s@)),
    ensures
        ({
            let pre = old(segments)@.map_values(|s: Segment| s@);
            let post = final(segments)@.map_values(|s: Segment| s@);
            &&& list_wf(post)
            &&& match r {
                Ok(()) => {
                    &&& find_allocated(pre, ptr as int) matches Some(j) && post
                        == release_result(pre, j)
                    &&& post.len() >= 1
                    &&& post[0].addr == pre[0].addr
                    &&& post.last().tail() == pre.last().tail()
                },
                Err(e) => {
                    &&& e == DeallocError::UntrackedPointer
                    &&& find_allocated(pre, ptr as int) is None
                    &&& post == pre
                },
            }
        }),
{
    let ghost pre = segments@.map_values(|s: Segment| s@);
    let mut idx: usize = 0;
    while idx < segments.len()
        invariant
            pre == old(segments)@.map_values(|s: Segment| s@),
            segments@.map_values(|s: Segment| s@) == pre,
            list_wf(pre),
            idx <= segments.len(),
            find_allocated_from(pre, ptr as int, idx as int) == find_allocated(pre, ptr as int),
        decreases segments.len() - idx,
    {
        let found: Option<(usize, usize)> = match &segments[idx] {
            Segment::Allocated(a) => {
                proof {
                    assert(pre[idx as int] == a@);
                    assert(pre[idx as int].size >= 0 && pre[idx as int].addr >= 0
                        && pre[idx as int].tail() <= usize::MAX);
                }
                if a.addr + HEADER_SIZE == ptr {
                    Some((a.addr, a.size))
                } else {
                    None
                }
            },
            Segment::Free(_) => None,
        };
        match found {
            Some((seg_addr, seg_size)) => {
                proof {
                    assert(find_allocated(pre, ptr as int) == Some(idx as int));
                }
                let ghost freed_v = pre.update(
                    idx as int,
                    SegView { addr: pre[idx as int].addr, size: pre[idx as int].size, free: true },
                );
                segments[idx] = Segment::Free(MemorySegment { addr: seg_addr, size: seg_size });
                proof {
                    lemma_release_wf(pre, idx as int);
                    assert(segments@.map_values(|s: Segment| s@) =~= freed_v);
                }
                let ghost m1v = merge_right_at(freed_v, idx as int);
                merge_segments(segments, idx);
                proof {
                    assert(segments@.map_values(|s: Segment| s@) == m1v);
                }
                if idx > 0 {
                    merge_segments(segments, idx - 1);
                    proof {
                        assert(segments@.map_values(|s: Segment| s@) == merge_right_at(
                            m1v,
                            idx as int - 1,
                        ));
                    }
                } else {
                    proof {
                        assert(merge_right_at(m1v, -1) == m1v);
                    }
                }
                proof {
                    assert(segments@.map_values(|s: Segment| s@) == release_result(
                        pre,
                        idx as int,
                    ));
                }
                return Ok(());
            },
            None => {
                proof {
                    assert(!(!pre[idx as int].free && pre[idx as int].head() == ptr as int));
                    assert(find_allocated_from(pre, ptr as int, idx as int)
                        == find_allocated_from(pre, ptr as int, idx as int + 1));
                }
                idx = idx + 1;
            },
        }
    }
    Err(DeallocError::UntrackedPointer)
}

/// The free-list heap allocator over one fixed memory region.
pub struct Allocator {
    segments: Vec<Segment>,
    base: usize,
    end: usize,
}

impl View for Allocator {
    type V = AllocView;

    closed spec fn view(&self) -> AllocView {
        AllocView {
            segs: self.segments@.map_values(|s: Segment| s@),
            base: self.base as int,
            end: self.end as int,
        }
    }
}

impl Allocator {
    /// An allocator that manages nothing yet.
    pub fn new() -> (r: Self)
        ensures
            r@.segs.len() == 0,
            r@.base == 0,
            r@.end == 0,
            r@.wf(),
    {
        Allocator { segments: Vec::new(), base: 0, end: 0 }
    }

    /// Adopts the usable region: `reserved` bytes at its start are already
    /// taken, one free-segment header is placed at the next aligned address
    /// after them, and everything behind the header up to the region's end
    /// becomes the single free segment.
    pub fn init(&mut self, region_start: usize, region_length: usize, reserved: usize)
        requires
            old(self)@.segs.len() == 0,
            reserved + HEADER_SIZE < region_length,
            region_start + region_length + HEADER_ALIGN <= usize::MAX,
        ensures
            final(self)@.wf(),
            final(self)@.segs.len() == 1,
            final(self)@.segs[0] == (SegView {
                addr: spec_align_up(region_start + reserved, HEADER_ALIGN as int),
                size: region_length - reserved - HEADER_SIZE,
                free: true,
            }),
            final(self)@.base == final(self)@.segs[0].addr,
            final(self)@.end == final(self)@.segs[0].tail(),
    {
        let header_addr = align_up(region_start + reserved, HEADER_ALIGN);
        let size = region_length - reserved - HEADER_SIZE;
        self.segments.push(Segment::Free(MemorySegment { addr: header_addr, size }));
        self.base = header_addr;
        self.end = header_addr + HEADER_SIZE + size;
        proof {
            assert(self@.segs.len() == 1);
            assert(self@.segs[0] == (SegView {
                addr: header_addr as int,
                size: size as int,
                free: true,
            }));
        }
    }

    /// Hands out `size` bytes aligned to `align`, carved from the tail of
    /// the first free segment with enough room; the pointer returned is
    /// aligned and the carved span stays inside the managed region. When
    /// no free segment has room the allocator is left untouched and the
    /// request is reported as unsatisfiable, which the kernel treats as
    /// fatal.
    #[verifier::spinoff_prover]
    #[verifier::rlimit(100)]
    pub fn allocate(&mut self, size: usize, align: usize) -> (r: Result<usize, AllocError>)
        requires
            old(self)@.wf(),
            align >= 1,
        ensures
            final(self)@.wf(),
            final(self)@.base == old(self)@.base,
            final(self)@.end == old(self)@.end,
            match r {
                Ok(ptr) => {
                    &&& first_fit(old(self)@.segs, size as int, align as int) matches Some(i)
                        && ptr == carve_ptr(old(self)@.segs[i], size as int, align as int)
                        && final(self)@.segs == carve_result(
                        old(self)@.segs,
                        i,
                        size as int,
                        align as int,
                    )
                    &&& ptr as int % align as int == 0
                    &&& old(self)@.base <= ptr - HEADER_SIZE
                    &&& ptr + size <= old(self)@.end
                },
                Err(e) => {
                    &&& e == AllocError::Exhausted
                    &&& first_fit(old(self)@.segs, size as int, align as int) is None
                    &&& final(self)@ == old(self)@
                },
            },
    {
        let ghost gsize = size as int;
        let ghost galign = align as int;
        let mut idx: usize = 0;
        let mut found: Option<(usize, usize, usize)> = None;
        while idx < self.segments.len()
            invariant_except_break
                found is None,
            invariant
                self@ == old(self)@,
                self@.wf(),
                idx <= self.segments.len(),
                align >= 1,
                first_fit_from(self@.segs, gsize, galign, idx as int) == first_fit(
                    self@.segs,
                    gsize,
                    galign,
                ),
                gsize == size as int,
                galign == align as int,
                found matches Some((seg_addr, seg_size, meta)) ==> {
                    &&& idx < self.segments.len()
                    &&& first_fit(self@.segs, gsize, galign) == Some(idx as int)
                    &&& self@.segs[idx as int] == (SegView {
                        addr: seg_addr as int,
                        size: seg_size as int,
                        free: true,
                    })
                    &&& meta == carve_ptr(self@.segs[idx as int], gsize, galign) - HEADER_SIZE
                },
            ensures
                match found {
                    Some(_) => true,
                    None => first_fit(self@.segs, gsize, galign) is None,
                },
            decreases self.segments.len() - idx,
        {
            let probe: Option<(usize, usize, usize)> = match &self.segments[idx] {
                Segment::Free(ms) => {
                    proof {
                        assert(self@.segs[idx as int] == ms@);
                        assert(ms@.size >= 0 && ms@.addr >= 0 && ms@.tail() <= usize::MAX);
                    }
                    match get_metadata(ms, size, align) {
                        Some(meta) => Some((ms.addr, ms.size, meta)),
                        None => None,
                    }
                },
                Segment::Allocated(_) => None,
            };

            match probe {
                Some(hit) => {
                    proof {
                        assert(seg_fits(self@.segs[idx as int], gsize, galign));
                        assert(first_fit_from(self@.segs, gsize, galign, idx as int) == Some(
                            idx as int,
                        ));
                    }
                    found = Some(hit);
                    break ;
                },
                None => {
                    proof {
                        assert(!seg_fits(self@.segs[idx as int], gsize, galign));
                        assert(first_fit_from(self@.segs, gsize, galign, idx as int)
                            == first_fit_from(self@.segs, gsize, galign, idx as int + 1));
                    }
                    idx = idx + 1;
                },
            }
        }

        match found {
            Some((seg_addr, seg_size, meta)) => {
                let ghost s = self@.segs[idx as int];
                proof {
                    lemma_first_fit_props(self@.segs, gsize, galign, 0, idx as int);
                    assert(seg_fits(s, gsize, galign));
                    lemma_align_down(s.tail() - gsize, galign);
                    lemma_seg_within_region(self@, idx as int);
                }
                let head = seg_addr + HEADER_SIZE;
                let tail = head + seg_size;
                let new_free_size = meta - head;
                let ptr = meta + HEADER_SIZE;
                let rec_size = tail - ptr;

                self.segments[idx] = Segment::Free(
                    MemorySegment { addr: seg_addr, size: new_free_size },
                );
                self.segments.insert(
                    idx + 1,
                    Segment::Allocated(AllocatedSegment { addr: meta, size: rec_size }),
                );

                proof {
                    lemma_carve_wf(old(self)@.segs, idx as int, gsize, galign);
                    assert(self@.segs =~= carve_result(
                        old(self)@.segs,
                        idx as int,
                        gsize,
                        galign,
                    ));
                }
                Ok(ptr)
            },
            None => Err(AllocError::Exhausted),
        }
    }

    /// First byte of the managed region.
    pub fn region_base(&self) -> (r: usize)
        ensures
            r == self@.base,
    {
        self.base
    }

    /// One past the last byte of the managed region.
    pub fn region_end(&self) -> (r: usize)
        ensures
            r == self@.end,
    {
        self.end
    }

    /// How many segments, free or allocated, the allocator tracks.
    pub fn num_segments(&self) -> (r: usize)
        ensures
            r == self@.segs.len(),
    {
        self.segments.len()
    }

    /// How many free segments the allocator tracks.
    pub fn num_free_segments(&self) -> (r: usize)
        ensures
            r == free_count_of(self@.segs),
    {
        let mut count: usize = 0;
        let mut i: usize = 0;
        while i < self.segments.len()
            invariant
                i <= self@.segs.len(),
                count <= i,
                count == free_count_of(self@.segs.take(i as int)),
            decreases self@.segs.len() - i,
        {
            let is_free = match &self.segments[i] {
                Segment::Free(_) => true,
                Segment::Allocated(_) => false,
            };
            proof {
                assert(self@.segs.take(i + 1).drop_last() =~= self@.segs.take(i as int));
                assert(self@.segs.take(i + 1).last() == self@.segs[i as int]);
            }
            if is_free {
                count = count + 1;
            }
            i = i + 1;
        }
        proof {
            assert(self@.segs.take(self@.segs.len() as int) =~= self@.segs);
        }
        count
    }

    /// The payload bytes currently free, over all free segments.
    pub fn total_free_bytes(&self) -> (r: usize)
        requires
            self@.wf(),
        ensures
            r == self@.free_bytes(),
    {
        let mut acc: usize = 0;
        let mut i: usize = 0;
        while i < self.segments.len()
            invariant
                self@.wf(),
                i <= self@.segs.len(),
                acc == free_bytes_of(self@.segs.take(i as int)),
            decreases self@.segs.len() - i,
        {
            let size = match &self.segments[i] {
                Segment::Free(ms) => ms.size,
                Segment::Allocated(_) => 0,
            };
            proof {
                assert(self@.segs.take(i + 1).drop_last() =~= self@.segs.take(i as int));
                assert(self@.segs.take(i + 1).last() == self@.segs[i as int]);
                lemma_prefix_wf(self@.segs, i + 1);
                lemma_free_bytes_le(self@.segs.take(i + 1));
                assert(self@.segs[i as int].size >= 0 && self@.segs[i as int].addr >= 0
                    && self@.segs[i as int].tail() <= usize::MAX);
                assert(self@.segs.take(i + 1)[0] == self@.segs[0]);
                assert(self@.segs[0].addr >= 0);
            }
            acc = acc + size;
            i = i + 1;
        }
        proof {
            assert(self@.segs.take(self@.segs.len() as int) =~= self@.segs);
        }
        acc
    }

    /// Returns the allocation whose caller-visible pointer is `ptr` to the
    /// free pool, eagerly merging it with adjacent free segments. A pointer
    /// the allocator does not track leaves the state untouched and is
    /// reported as untracked, which the kernel treats as fatal.
    pub fn dealloc(&mut self, ptr: usize) -> (r: Result<(), DeallocError>)
        requires
            old(self)@.wf(),
        ensures
            final(self)@.wf(),
            final(self)@.base == old(self)@.base,
            final(self)@.end == old(self)@.end,
            match r {
                Ok(()) => find_allocated(old(self)@.segs, ptr as int) matches Some(j)
                    && final(self)@.segs == release_result(old(self)@.segs, j),
                Err(e) => {
                    &&& e == DeallocError::UntrackedPointer
                    &&& find_allocated(old(self)@.segs, ptr as int) is None
                    &&& final(self)@ == old(self)@
                },
            },
    {
        deallocate_segment(&mut self.segments, ptr)
    }
}

} // verus!
