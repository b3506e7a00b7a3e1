//! The page-table walker and the heap region mapper.

use rust_os::allocator::{init_heap, HEAP_SIZE, HEAP_START};
use rust_os::memory::{BootInfoFrameAllocator, MemoryRegion, MemoryRegionType};
use rust_os::memory::init as rust_os_memory_init;
use rust_os::paging::{
    MapToError, Page, PhysFrame, Translation, VirtAddr, FLAG_PRESENT, FLAG_WRITABLE,
};

const PHYS_OFFSET: u64 = 0x0000_6000_0000_0000;
const ROOT_FRAME: u64 = 0x1000;

fn usable_map(start: u64, frames: u64) -> Vec<MemoryRegion> {
    vec![MemoryRegion {
        start,
        end: start + frames * 4096,
        region_type: MemoryRegionType::Usable,
    }]
}

#[test]
fn fresh_mapper_translates_nothing() {
    let mapper = rust_os_memory_init(PHYS_OFFSET, PhysFrame { start: ROOT_FRAME });
    assert_eq!(
        mapper.translate_addr(VirtAddr::new(HEAP_START)),
        Translation::Unmapped
    );
    assert_eq!(mapper.translate_addr(VirtAddr::new(0)), Translation::Unmapped);
}

#[test]
fn map_to_backs_a_page_with_its_frame() {
    let mut mapper = rust_os_memory_init(PHYS_OFFSET, PhysFrame { start: ROOT_FRAME });
    let mut alloc = BootInfoFrameAllocator::init(usable_map(0x100000, 8));
    let page = Page { start: HEAP_START };
    let frame = alloc.allocate_frame().unwrap();
    assert_eq!(frame.start, 0x100000);
    mapper
        .map_to(page, frame, FLAG_PRESENT | FLAG_WRITABLE, &mut alloc)
        .expect("mapping is owed");
    // The page's start translates to the frame's start...
    assert_eq!(
        mapper.translate_addr(VirtAddr::new(HEAP_START)),
        Translation::Mapped(0x100000)
    );
    // ... and an inner address keeps its page offset.
    assert_eq!(
        mapper.translate_addr(VirtAddr::new(HEAP_START + 0x123)),
        Translation::Mapped(0x100000 + 0x123)
    );
    // A neighbouring page stays unmapped.
    assert_eq!(
        mapper.translate_addr(VirtAddr::new(HEAP_START + 4096)),
        Translation::Unmapped
    );
}

#[test]
fn mapping_a_page_twice_is_refused() {
    let mut mapper = rust_os_memory_init(PHYS_OFFSET, PhysFrame { start: ROOT_FRAME });
    let mut alloc = BootInfoFrameAllocator::init(usable_map(0x100000, 8));
    let page = Page { start: HEAP_START };
    let f1 = alloc.allocate_frame().unwrap();
    mapper.map_to(page, f1, FLAG_PRESENT | FLAG_WRITABLE, &mut alloc).unwrap();
    let f2 = alloc.allocate_frame().unwrap();
    assert_eq!(
        mapper.map_to(page, f2, FLAG_PRESENT | FLAG_WRITABLE, &mut alloc),
        Err(MapToError::PageAlreadyMapped)
    );
}

#[test]
fn exhausted_allocator_fails_the_mapping() {
    let mut mapper = rust_os_memory_init(PHYS_OFFSET, PhysFrame { start: ROOT_FRAME });
    // One frame: enough for the page's own backing, but the walk needs
    // three fresh tables.
    let mut alloc = BootInfoFrameAllocator::init(usable_map(0x100000, 1));
    let page = Page { start: HEAP_START };
    let frame = alloc.allocate_frame().unwrap();
    assert_eq!(
        mapper.map_to(page, frame, FLAG_PRESENT | FLAG_WRITABLE, &mut alloc),
        Err(MapToError::FrameAllocationFailed)
    );
}

#[test]
fn heap_mapping_round_trip() {
    let mut mapper = rust_os_memory_init(PHYS_OFFSET, PhysFrame { start: ROOT_FRAME });
    let mut alloc = BootInfoFrameAllocator::init(usable_map(0x100000, 64));
    init_heap(&mut mapper, &mut alloc).expect("heap initialization is owed");

    let pages = HEAP_SIZE / 4096;
    assert_eq!(pages, 25);
    for i in 0..pages {
        let va = HEAP_START + i * 4096;
        // The first page is backed by the first frame; the walk then
        // creates its three tables, so later pages get later frames.
        let expected_frame = if i == 0 { 0x100000 } else { 0x100000 + (i + 3) * 4096 };
        match mapper.translate_addr(VirtAddr::new(va)) {
            Translation::Mapped(pa) => {
                // The offset half of the round trip: page-aligned in,
                // page-aligned out.
                assert_eq!(pa % 4096, va % 4096);
                // The frame half: exactly the frame the allocator call
                // that backed this page returned.
                assert_eq!(pa, expected_frame);
            }
            other => panic!("heap page {i} not mapped: {other:?}"),
        }
    }
    // 25 backing frames plus 3 page tables were drawn.
    assert_eq!(alloc.next, 28);

    // Addresses outside the heap's range are untouched by the mapping.
    assert_eq!(mapper.translate_addr(VirtAddr::new(0)), Translation::Unmapped);
    assert_eq!(
        mapper.translate_addr(VirtAddr::new(HEAP_START + HEAP_SIZE)),
        Translation::Unmapped
    );
}

#[test]
fn heap_mapping_needs_enough_frames() {
    let mut mapper = rust_os_memory_init(PHYS_OFFSET, PhysFrame { start: ROOT_FRAME });
    let mut alloc = BootInfoFrameAllocator::init(usable_map(0x100000, 10));
    assert_eq!(
        init_heap(&mut mapper, &mut alloc),
        Err(MapToError::FrameAllocationFailed)
    );
}

#[test]
fn virt_addr_decomposition() {
    let va = VirtAddr::new(HEAP_START + 0x7ff);
    assert_eq!(va.page_offset(), 0x7ff);
    // 0x0000_4444_4444_0000: indices of the four nine-bit fields.
    assert_eq!(va.p4_index(), 0x088);
    assert_eq!(va.p3_index(), 0x111);
    assert_eq!(va.p2_index(), 0x022);
    assert_eq!(va.p1_index(), 0x040);
}

#[test]
fn non_canonical_addresses_are_rejected() {
    assert!(VirtAddr::try_new(0x0000_7fff_ffff_ffff).is_some());
    assert!(VirtAddr::try_new(0xffff_8000_0000_0000).is_some());
    assert!(VirtAddr::try_new(0x0000_8000_0000_0000).is_none());
    assert!(VirtAddr::try_new(0x1234_0000_0000_0000).is_none());
}

#[test]
fn containing_address_rounds_down() {
    let page = Page::containing_address(VirtAddr::new(HEAP_START + 0x123));
    assert_eq!(page.start, HEAP_START);
    let frame = PhysFrame::containing_address(0x100fff);
    assert_eq!(frame.start, 0x100000);
}
