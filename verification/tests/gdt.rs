use os1::interrupts::gdt::{get_gdt_entries, AccessByte, AccessByteParams, SegmentDescriptor};

#[test]
fn test_get_base() {
    let descriptor = SegmentDescriptor(0x1200_0034_5678_DEAD);
    assert_eq!(descriptor.get_base(), 0x12345678);
}

#[test]
fn test_get_limit() {
    let descriptor = SegmentDescriptor(0x1200_0034_5678_DEAD);
    assert_eq!(descriptor.get_limit(), 0xdead);
}

#[test]
fn test_access_byte() {
    let access_byte = AccessByte::new().build(AccessByteParams {
        p: true,
        dpl: 0,
        s: true,
        e: true,
        dc: false,
        rw: false,
        a: true,
    });
    assert_eq!(access_byte, 0b1001_1001);
}

#[test]
fn test_segment_descriptor() {
    const BASE: u32 = 0x12345678;
    const LIMIT: u32 = 0xdead;

    let descriptor = SegmentDescriptor::new(BASE, LIMIT, 0x65, 0x4);

    assert_eq!(descriptor.get_base(), BASE);
    assert_eq!(descriptor.get_limit(), LIMIT);
    assert_eq!(descriptor.get_access_byte(), 0x65);
    assert_eq!(descriptor.get_flags(), 0x4);
}

#[test]
fn data_access_byte_value() {
    let access_byte = AccessByte::new().build(AccessByteParams {
        p: true,
        dpl: 0,
        s: true,
        e: false,
        dc: false,
        rw: true,
        a: true,
    });
    assert_eq!(access_byte, 0b1001_0011);
}

#[test]
fn privilege_level_keeps_two_bits() {
    let access_byte = AccessByte::new().build(AccessByteParams {
        p: false,
        dpl: 3,
        s: false,
        e: false,
        dc: false,
        rw: false,
        a: false,
    });
    assert_eq!(access_byte, 0b0110_0000);
}

#[test]
fn gdt_entries_are_flat_segments() {
    let entries = get_gdt_entries();
    assert_eq!(entries[0].0, 0);

    assert_eq!(entries[1].get_base(), 0);
    assert_eq!(entries[1].get_limit(), 0xFFFFF);
    assert_eq!(entries[1].get_access_byte(), 0x99);
    assert_eq!(entries[1].get_flags(), 0xC);

    assert_eq!(entries[2].get_base(), 0);
    assert_eq!(entries[2].get_limit(), 0xFFFFF);
    assert_eq!(entries[2].get_access_byte(), 0x93);
    assert_eq!(entries[2].get_flags(), 0xC);
}
