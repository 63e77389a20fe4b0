use os1::drivers::local_apic::LocalAPICAddress;
use os1::graphics::{encode_pixel, grayscale_of, pixel_byte_offset, PixelFormat, Position};
use os1::interrupts::guard::InterruptLock;
use os1::interrupts::{InterruptIndex, PIC_1_OFFSET};
use os1::mem::allocator::{align_up, BumpAllocator};
use os1::mem::segment::{get_head_of_allocated_segment, MemorySegment, HEADER_SIZE};
use os1::multiboot::{find_kernel_block, MultibootMmapEntry};
use os1::util::lock::Lock;

#[test]
fn align_up_rounds_to_the_next_multiple() {
    assert_eq!(align_up(0, 8), 0);
    assert_eq!(align_up(1, 8), 8);
    assert_eq!(align_up(8, 8), 8);
    assert_eq!(align_up(9, 16), 16);
    assert_eq!(align_up(17, 1), 17);
}

#[test]
fn bump_allocator_moves_forward_and_resets() {
    let mut bump = BumpAllocator::new();
    bump.init(0x1000, 0x100);

    let a = bump.allocate(16, 8).expect("the window has room");
    assert_eq!(a, 0x1000);
    let b = bump.allocate(16, 32).expect("the window has room");
    assert_eq!(b, 0x1020);

    // The window is only 0x100 bytes.
    assert!(bump.allocate(0x100, 1).is_none());

    bump.dealloc();
    bump.dealloc();
    // All allocations returned: the watermark drops back.
    let c = bump.allocate(8, 1).expect("the window has room");
    assert_eq!(c, 0x1000);
}

#[test]
fn segment_head_and_tail() {
    let mut segment = MemorySegment { addr: 0x100, size: 0x40 };
    assert_eq!(segment.get_head(), 0x100 + HEADER_SIZE);
    assert_eq!(segment.get_tail(), 0x100 + HEADER_SIZE + 0x40);

    segment.set_tail(0x200);
    assert_eq!(segment.get_tail(), 0x200);
    assert_eq!(segment.addr, 0x100);

    assert_eq!(get_head_of_allocated_segment(0x100), 0x100 - HEADER_SIZE);
}

#[test]
fn kernel_block_is_found_by_start_address() {
    let entries = vec![
        MultibootMmapEntry { size: 24, addr: 0, length: 0x9fc00, mmap_type: 1 },
        MultibootMmapEntry { size: 24, addr: 0x100000, length: 0x1000000, mmap_type: 1 },
    ];
    assert_eq!(find_kernel_block(&entries, 0x100000), Some(1));
    assert_eq!(find_kernel_block(&entries, 0x200000), None);
}

#[test]
fn pixel_arithmetic() {
    let position = Position { x: 3, y: 2 };
    assert_eq!(pixel_byte_offset(position, 640, 4), (2 * 640 + 3) * 4);
    assert_eq!(grayscale_of(90, 60, 30), 30 + 20 + 10);
}

#[test]
fn interrupt_vectors() {
    assert_eq!(InterruptIndex::Timer.as_u8(), PIC_1_OFFSET);
    assert_eq!(InterruptIndex::Keyboard.as_u8(), PIC_1_OFFSET + 1);
}

#[test]
fn local_apic_address_starts_unmapped() {
    let address = LocalAPICAddress::new();
    assert_eq!(address.address, 0);
}

#[test]
fn test_lock() {
    let mut lock = Lock::new(0);

    let guard = lock.lock();
    *guard += 1;
    assert_eq!(*lock.lock(), 1);
}

#[test]
fn test_lock_drop() {
    let mut lock = Lock::new(0);

    {
        let guard = lock.lock();
        *guard += 1;
        assert_eq!(*guard, 1);
    }

    let guard = lock.lock();
    *guard += 1;
    assert_eq!(*guard, 2);
}

#[test]
fn interrupt_lock_guards_its_value() {
    let mut lock = InterruptLock::new(41);
    let value = lock.lock();
    *value += 1;
    assert_eq!(*lock.lock(), 42);
}

#[test]
fn pixel_encoding_per_format() {
    assert_eq!(encode_pixel(PixelFormat::Rgb, 10, 20, 30, (7, 8)), (10, 20, 30));
    assert_eq!(encode_pixel(PixelFormat::Bgr, 10, 20, 30, (7, 8)), (30, 20, 10));
    assert_eq!(encode_pixel(PixelFormat::U8, 90, 60, 30, (7, 8)), (60, 7, 8));
}
