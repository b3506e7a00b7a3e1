//! The boot-time frame allocators over a bootloader-style memory map.

use rust_os::memory::{
    BootInfoFrameAllocator, EmptyFrameAllocator, MemoryRegion, MemoryRegionType,
};

fn region(start: u64, end: u64, usable: bool) -> MemoryRegion {
    MemoryRegion {
        start,
        end,
        region_type: if usable { MemoryRegionType::Usable } else { MemoryRegionType::Reserved },
    }
}

#[test]
fn empty_allocator_never_allocates() {
    let mut alloc = EmptyFrameAllocator;
    for _ in 0..4 {
        assert!(alloc.allocate_frame().is_none());
    }
}

#[test]
fn frames_come_in_ascending_order_until_exhaustion() {
    // Two usable regions of 3 and 2 frames, a reserved region between.
    let map = vec![
        region(0x10000, 0x13000, true),
        region(0x13000, 0x18000, false),
        region(0x20000, 0x22000, true),
    ];
    let mut alloc = BootInfoFrameAllocator::init(map);
    let expected = [0x10000u64, 0x11000, 0x12000, 0x20000, 0x21000];
    let mut last = None;
    for &want in expected.iter() {
        let frame = alloc.allocate_frame().expect("a usable frame is owed");
        assert_eq!(frame.start, want);
        if let Some(prev) = last {
            // Strictly increasing, non-overlapping frames.
            assert!(prev + 4096 <= frame.start);
        }
        last = Some(frame.start);
    }
    // The sixth and every later call fail: the cursor never rewinds.
    for _ in 0..3 {
        assert!(alloc.allocate_frame().is_none());
    }
}

#[test]
fn reserved_regions_are_never_allocated() {
    let map = vec![region(0x10000, 0x14000, false)];
    let mut alloc = BootInfoFrameAllocator::init(map);
    assert!(alloc.allocate_frame().is_none());
}

#[test]
fn empty_map_is_immediately_exhausted() {
    let mut alloc = BootInfoFrameAllocator::init(Vec::new());
    assert!(alloc.allocate_frame().is_none());
}

#[test]
fn zero_length_region_holds_no_frames() {
    let map = vec![region(0x10000, 0x10000, true), region(0x20000, 0x21000, true)];
    let mut alloc = BootInfoFrameAllocator::init(map);
    assert_eq!(alloc.allocate_frame().unwrap().start, 0x20000);
    assert!(alloc.allocate_frame().is_none());
}
