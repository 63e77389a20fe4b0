use os1::mem::segment::HEADER_SIZE;
use os1::memalloc::{AllocError, Allocator, DeallocError};

/// A region whose single free segment has exactly `payload` bytes behind
/// its header, starting at address zero.
fn fresh_allocator(payload: usize) -> Allocator {
    let mut allocator = Allocator::new();
    allocator.init(0, payload + HEADER_SIZE, 0);
    assert_eq!(allocator.region_base(), 0);
    assert_eq!(allocator.region_end(), payload + HEADER_SIZE);
    assert_eq!(allocator.total_free_bytes(), payload);
    assert_eq!(allocator.num_free_segments(), 1);
    allocator
}

#[test]
fn init_places_one_segment() {
    let allocator = fresh_allocator(4096);
    assert_eq!(allocator.num_segments(), 1);
}

#[test]
fn init_aligns_the_header() {
    let mut allocator = Allocator::new();
    // The header must sit on a 4-byte boundary, so a region starting at 2
    // gets its header at 4.
    allocator.init(2, 4104, 0);
    assert_eq!(allocator.region_base(), 4);
    assert_eq!(allocator.total_free_bytes(), 4104 - HEADER_SIZE);
}

#[test]
fn small_allocation_succeeds_and_is_aligned() {
    let mut allocator = fresh_allocator(4096);

    let ptr = allocator.allocate(100, 8).expect("the request fits");
    // Carved from the tail: 4104 - 100 = 4004, rounded down to 8 gives
    // 4000.
    assert_eq!(ptr, 4000);
    assert_eq!(ptr % 8, 0);
}

#[test]
fn oversized_allocation_is_exhaustion() {
    let mut allocator = fresh_allocator(4096);

    let first = allocator.allocate(100, 8);
    assert!(first.is_ok());
    assert_eq!(allocator.allocate(5000, 8), Err(AllocError::Exhausted));
}

#[test]
fn freeing_makes_room_again() {
    let mut allocator = fresh_allocator(4096);

    let ptr = allocator.allocate(100, 8).expect("the request fits");
    assert_eq!(allocator.allocate(5000, 8), Err(AllocError::Exhausted));

    allocator.dealloc(ptr).expect("the pointer is tracked");
    let big = allocator.allocate(4000, 8).expect("the room is back");
    assert_eq!(big % 8, 0);
}

#[test]
fn alignment_is_respected() {
    let mut allocator = fresh_allocator(4096);
    for align in [1usize, 2, 4, 8, 16, 32, 64] {
        let ptr = allocator.allocate(24, align).expect("the request fits");
        assert_eq!(ptr % align, 0);
    }
}

#[test]
fn round_trip_restores_free_bytes() {
    let mut allocator = fresh_allocator(4096);
    let before = allocator.total_free_bytes();

    let ptr = allocator.allocate(123, 16).expect("the request fits");
    assert!(allocator.total_free_bytes() < before);

    allocator.dealloc(ptr).expect("the pointer is tracked");
    assert_eq!(allocator.total_free_bytes(), before);
    assert_eq!(allocator.num_free_segments(), 1);
}

#[test]
fn coalescing_free_second_allocation_first() {
    let mut allocator = fresh_allocator(4096);

    let a = allocator.allocate(10, 1).expect("the request fits");
    let b = allocator.allocate(20, 1).expect("the request fits");
    // Carving from the tail puts the first allocation at the top and the
    // second right below it.
    assert!(b < a);

    // B's left neighbour is the shrunk free segment: freeing it merges
    // left, leaving a single free segment.
    allocator.dealloc(b).expect("the pointer is tracked");
    assert_eq!(allocator.num_free_segments(), 1);

    allocator.dealloc(a).expect("the pointer is tracked");
    assert_eq!(allocator.num_free_segments(), 1);
    assert_eq!(allocator.num_segments(), 1);
    assert_eq!(allocator.total_free_bytes(), 4096);
}

#[test]
fn coalescing_free_first_allocation_first() {
    let mut allocator = fresh_allocator(4096);

    let a = allocator.allocate(10, 1).expect("the request fits");
    let b = allocator.allocate(20, 1).expect("the request fits");

    // A has no free neighbour: below it sits B, above it the region end,
    // so its slot stays a separate free segment.
    allocator.dealloc(a).expect("the pointer is tracked");
    assert_eq!(allocator.num_free_segments(), 2);

    // Freeing B joins everything back into one segment of the original
    // size.
    allocator.dealloc(b).expect("the pointer is tracked");
    assert_eq!(allocator.num_free_segments(), 1);
    assert_eq!(allocator.total_free_bytes(), 4096);
}

#[test]
fn exhaustion_despite_enough_total_free_bytes() {
    let mut allocator = fresh_allocator(4096);

    let a = allocator.allocate(1000, 1).expect("the request fits");
    let b = allocator.allocate(100, 1).expect("the request fits");
    let c = allocator.allocate(2500, 1).expect("the request fits");
    assert!(c < b && b < a);

    // Freeing B leaves a 100-byte hole between A and C, far from the
    // remaining low free segment.
    allocator.dealloc(b).expect("the pointer is tracked");
    assert_eq!(allocator.num_free_segments(), 2);

    let total = allocator.total_free_bytes();
    assert!(total > 300);

    // No single free span holds the sum of the spans.
    assert_eq!(allocator.allocate(total, 1), Err(AllocError::Exhausted));
}

#[test]
fn foreign_pointer_is_rejected() {
    let mut allocator = fresh_allocator(4096);
    assert_eq!(allocator.dealloc(12345), Err(DeallocError::UntrackedPointer));
}

#[test]
fn double_free_is_rejected() {
    let mut allocator = fresh_allocator(4096);
    let ptr = allocator.allocate(64, 8).expect("the request fits");
    allocator.dealloc(ptr).expect("the pointer is tracked");
    assert_eq!(allocator.dealloc(ptr), Err(DeallocError::UntrackedPointer));
}

#[test]
fn empty_allocator_is_exhausted() {
    let mut allocator = Allocator::new();
    assert_eq!(allocator.allocate(1, 1), Err(AllocError::Exhausted));
    assert_eq!(allocator.dealloc(8), Err(DeallocError::UntrackedPointer));
}

#[test]
fn allocation_spans_do_not_overlap() {
    let mut allocator = fresh_allocator(4096);
    let mut spans: Vec<(usize, usize)> = Vec::new();
    for size in [100usize, 200, 50, 300] {
        let ptr = allocator.allocate(size, 8).expect("the request fits");
        spans.push((ptr, ptr + size));
    }
    for (i, a) in spans.iter().enumerate() {
        for b in spans.iter().skip(i + 1) {
            assert!(a.1 <= b.0 || b.1 <= a.0);
        }
    }
}

#[test]
fn region_bytes_are_fully_accounted_for() {
    let mut allocator = fresh_allocator(4096);

    // With alignment 1 every carved span is exactly the requested size
    // plus one header, so free and allocated ranges must tile the region.
    let sizes = [100usize, 200, 50];
    let mut carved = 0;
    for size in sizes {
        allocator.allocate(size, 1).expect("the request fits");
        carved += size + HEADER_SIZE;
    }
    assert_eq!(allocator.total_free_bytes(), 4096 - carved);
    assert_eq!(allocator.num_segments(), 1 + sizes.len());
}
