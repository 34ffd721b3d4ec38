use badapple::mm::allocator::{align_by, bump, Allocator, KRNL_MEM_BEGIN, KRNL_MEM_END};
use badapple::mm::init::detect;

#[test]
fn align_by_rounds_up_to_powers_of_two() {
    assert_eq!(align_by(5, 4), 8);
    assert_eq!(align_by(8, 4), 8);
    assert_eq!(align_by(0, 16), 0);
    assert_eq!(align_by(17, 1), 17);
    // not a power of two: left alone
    assert_eq!(align_by(5, 3), 5);
    assert_eq!(align_by(5, 0), 5);
    // saturates at the top of the address space
    assert_eq!(align_by(usize::MAX - 3, 16), usize::MAX & !15);
}

#[test]
fn allocator_bumps_through_heap() {
    let mut a = Allocator::instance();
    assert_eq!(a.current(), KRNL_MEM_BEGIN);
    assert_eq!(a.allocate(16, 8), Some(KRNL_MEM_BEGIN));
    assert_eq!(a.current(), KRNL_MEM_BEGIN + 16);
    assert_eq!(a.allocate(1, 1), Some(KRNL_MEM_BEGIN + 16));
    // the next block is aligned and does not overlap the last one
    assert_eq!(a.allocate(4, 64), Some(KRNL_MEM_BEGIN + 64));
    assert_eq!(a.current(), KRNL_MEM_BEGIN + 68);
    a.deallocate(KRNL_MEM_BEGIN, 16, 8);
    assert_eq!(a.current(), KRNL_MEM_BEGIN + 68);
}

#[test]
fn allocator_exhaustion() {
    let mut a = Allocator::instance();
    let size = KRNL_MEM_END - KRNL_MEM_BEGIN;
    assert_eq!(a.allocate(size + 1, 1), None);
    assert_eq!(a.current(), KRNL_MEM_BEGIN);
    assert_eq!(a.allocate(size, 1), Some(KRNL_MEM_BEGIN));
    assert_eq!(a.allocate(1, 1), None);
    assert_eq!(bump(KRNL_MEM_END, 0, 1), Some((KRNL_MEM_END, KRNL_MEM_END)));
    assert_eq!(bump(0, usize::MAX, 1), None);
}

#[test]
fn detect_memory_sizes() {
    // 640K base, 64 blocks of 64K above 16M
    let m = detect(0x80, 0x02, 0x00, 0x3c, 0x40, 0x00);
    assert_eq!(m.base, 640);
    assert_eq!(m.total, 16 * 1024 + 64 * 64);
    assert_eq!(m.extended(), 16 * 1024 + 64 * 64 - 640);
    // only memory above 1M
    let m = detect(0x80, 0x02, 0x00, 0x3c, 0, 0);
    assert_eq!(m.total, 1024 + 0x3c00);
    // base memory alone
    let m = detect(0x80, 0x02, 0, 0, 0, 0);
    assert_eq!(m.total, 640);
}

#[test]
fn allocator_sequence_stays_in_heap_and_disjoint() {
    let mut a = Allocator::instance();
    let mut blocks: Vec<(usize, usize)> = Vec::new();
    let mut last = a.current();
    for (size, align) in [(3, 1), (10, 8), (0, 4), (100, 64), (7, 2), (1, 4096)] {
        if let Some(p) = a.allocate(size, align) {
            assert_eq!(p % align, 0);
            blocks.push((p, size));
        }
        a.deallocate(0, 0, 1);
        assert!(a.current() >= last);
        assert!(a.current() <= KRNL_MEM_END);
        last = a.current();
    }
    for (i, (p, s)) in blocks.iter().enumerate() {
        assert!(*p >= KRNL_MEM_BEGIN && p + s <= a.current());
        if let Some((q, _)) = blocks.get(i + 1) {
            assert!(p + s <= *q);
        }
    }
}

#[test]
fn odd_alignment_is_not_rounded() {
    let mut a = Allocator::instance();
    assert_eq!(a.allocate(5, 3), Some(KRNL_MEM_BEGIN));
    assert_eq!(a.allocate(5, usize::MAX), Some(KRNL_MEM_BEGIN + 5));
    assert_eq!(a.current(), KRNL_MEM_BEGIN + 10);
}
