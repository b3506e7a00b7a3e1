//! The two heap allocation strategies and the end-to-end heap scenario.

use std::rc::Rc;

use rust_os::allocator::bump::BumpAllocator;
use rust_os::allocator::linked_list::{LinkedListAllocator, ListNode};
use rust_os::allocator::{Dummy, HeapMemory, HEAP_SIZE, HEAP_START};

fn in_heap(addr: u64, size: u64) -> bool {
    HEAP_START <= addr && addr + size <= HEAP_START + HEAP_SIZE
}

#[test]
fn dummy_always_fails() {
    let dummy = Dummy;
    assert!(dummy.allocate(1, 1).is_none());
    assert!(dummy.allocate(4096, 4096).is_none());
}

#[test]
fn bump_allocates_in_order() {
    let mut bump = BumpAllocator::new();
    bump.init(HEAP_START, HEAP_SIZE);
    let a = bump.allocate(10, 1).unwrap();
    let b = bump.allocate(10, 1).unwrap();
    assert_eq!(a, HEAP_START);
    assert_eq!(b, HEAP_START + 10);
    let c = bump.allocate(4, 8).unwrap();
    // The cursor was at start + 20; rounded up to the next multiple of 8.
    assert_eq!(c, HEAP_START + 24);
    assert_eq!(bump.allocations, 3);
}

#[test]
fn bump_fails_past_the_end_without_moving() {
    let mut bump = BumpAllocator::new();
    bump.init(HEAP_START, 64);
    let next_before = bump.next;
    assert!(bump.allocate(65, 1).is_none());
    assert_eq!(bump.next, next_before);
    assert!(bump.allocate(64, 1).is_some());
    assert!(bump.allocate(1, 1).is_none());
}

#[test]
fn bump_round_trip_reproduces_addresses() {
    let mut bump = BumpAllocator::new();
    bump.init(HEAP_START, HEAP_SIZE);
    let requests: [(u64, u64); 5] = [(16, 8), (3, 1), (40, 16), (1, 1), (256, 32)];
    let first: Vec<u64> = requests.iter().map(|&(s, a)| bump.allocate(s, a).unwrap()).collect();

    // Free all five, in an order unlike the allocation order.
    for _ in 0..5 {
        bump.deallocate();
    }
    // The cursor is back at its pre-allocation value.
    assert_eq!(bump.next, HEAP_START);
    assert_eq!(bump.allocations, 0);

    // An identical request sequence reproduces byte-identical addresses.
    let second: Vec<u64> = requests.iter().map(|&(s, a)| bump.allocate(s, a).unwrap()).collect();
    assert_eq!(first, second);
}

#[test]
fn bump_space_between_frees_is_not_reclaimed() {
    let mut bump = BumpAllocator::new();
    bump.init(HEAP_START, HEAP_SIZE);
    let _a = bump.allocate(100, 1).unwrap();
    let _b = bump.allocate(100, 1).unwrap();
    bump.deallocate();
    // One allocation is still live: the cursor stays put.
    assert_eq!(bump.next, HEAP_START + 200);
    let c = bump.allocate(10, 1).unwrap();
    assert_eq!(c, HEAP_START + 200);
}

#[test]
fn simple_allocation() {
    let mut ll = LinkedListAllocator::new();
    ll.init(HEAP_START, HEAP_SIZE);
    let mut mem = HeapMemory::new();
    let heap_value_1 = ll.allocate(4, 4).unwrap();
    let heap_value_2 = ll.allocate(4, 4).unwrap();
    mem.write_u32(heap_value_1, 41);
    mem.write_u32(heap_value_2, 13);
    assert_eq!(mem.read_u32(heap_value_1), 41);
    assert_eq!(mem.read_u32(heap_value_2), 13);
}

#[test]
fn free_list_first_fit_and_split() {
    let mut ll = LinkedListAllocator::new();
    ll.init(HEAP_START, HEAP_SIZE);
    let a = ll.allocate(100, 1).unwrap();
    assert_eq!(a, HEAP_START);
    // The remainder of the single free block was reinserted.
    assert_eq!(ll.nodes.len(), 1);
    assert_eq!(ll.nodes[0].addr, HEAP_START + 100);
    assert_eq!(ll.nodes[0].size, HEAP_SIZE - 100);
    let b = ll.allocate(50, 1).unwrap();
    assert_eq!(b, HEAP_START + 100);
}

#[test]
fn free_list_reuses_freed_blocks() {
    let mut ll = LinkedListAllocator::new();
    ll.init(HEAP_START, HEAP_SIZE);
    let a = ll.allocate(64, 8).unwrap();
    let _b = ll.allocate(64, 8).unwrap();
    ll.deallocate(a, 64);
    // The freed block sits at the head and is matched first.
    let c = ll.allocate(64, 8).unwrap();
    assert_eq!(c, a);
}

#[test]
fn free_list_first_fit_skips_blocks_too_small() {
    let base: u64 = HEAP_START;
    let nodes = vec![
        ListNode { addr: base, size: 8 },
        ListNode { addr: base + 64, size: 64 },
    ];
    let mut ll = LinkedListAllocator { heap_start: base, heap_end: base + 128, nodes };
    // The head block cannot hold 16 bytes; the first fit is the second.
    assert_eq!(ll.allocate(16, 1), Some(base + 64));
    // The skipped block is still there, the matched one was split.
    assert_eq!(ll.nodes.len(), 2);
    assert_eq!(ll.nodes[0].addr, base + 80);
    assert_eq!(ll.nodes[0].size, 48);
    assert_eq!(ll.nodes[1].addr, base);
    assert_eq!(ll.nodes[1].size, 8);
}

#[test]
fn free_list_no_coalescing_boundary() {
    // Two adjacent free blocks of 16 bytes each.
    let base: u64 = HEAP_START;
    let ll_nodes = vec![
        ListNode { addr: base, size: 16 },
        ListNode { addr: base + 16, size: 16 },
    ];
    let mut ll = LinkedListAllocator { heap_start: base, heap_end: base + 32, nodes: ll_nodes };
    // 32 bytes of free capacity in total, but no single block holds 32:
    // without coalescing the request must fail.
    assert!(ll.allocate(32, 1).is_none());
    // The list is untouched and each half can still be had.
    assert_eq!(ll.nodes.len(), 2);
    assert_eq!(ll.allocate(16, 1), Some(base));
    assert_eq!(ll.allocate(16, 1), Some(base + 16));
    assert!(ll.allocate(1, 1).is_none());
}

#[test]
fn free_list_alignment_skips_the_head_gap() {
    let mut ll = LinkedListAllocator::new();
    ll.init(HEAP_START + 8, 120);
    // The block starts 8 past a 16-aligned address.
    let a = ll.allocate(16, 16).unwrap();
    assert_eq!(a % 16, 0);
    assert_eq!(a, HEAP_START + 16);
}

#[test]
fn end_to_end_heap_scenario() {
    // A 100 KiB heap under the free-list strategy, with the heap's bytes
    // held in the model arena.
    let mut ll = LinkedListAllocator::new();
    ll.init(HEAP_START, HEAP_SIZE);
    let mut mem = HeapMemory::new();

    // A 4-byte value: written, then read back.
    let value_addr = ll.allocate(4, 4).unwrap();
    assert!(in_heap(value_addr, 4));
    mem.write_u32(value_addr, 41);
    assert_eq!(mem.read_u32(value_addr), 41);

    // A growable sequence of 500 integers: the backing block doubles as
    // it grows, the old block returning to the free list each time.
    let mut cap: u64 = 4;
    let mut vec_addr = ll.allocate(cap * 4, 4).unwrap();
    let mut len: u64 = 0;
    for i in 0..500u32 {
        if len == cap {
            let new_cap = cap * 2;
            let new_addr = ll.allocate(new_cap * 4, 4).unwrap();
            for j in 0..len {
                let v = mem.read_u32(vec_addr + 4 * j);
                mem.write_u32(new_addr + 4 * j, v);
            }
            ll.deallocate(vec_addr, cap * 4);
            vec_addr = new_addr;
            cap = new_cap;
        }
        assert!(in_heap(vec_addr, cap * 4));
        mem.write_u32(vec_addr + 4 * len, i);
        len += 1;
    }
    for i in 0..500u32 {
        assert_eq!(mem.read_u32(vec_addr + 4 * (i as u64)), i);
    }

    // A shared-ownership 3-element sequence, cloned once: the reference
    // count reads 2 right after the clone and 1 after the clone drops.
    let rc_addr = ll.allocate(3 * 4 + 8, 8).unwrap();
    assert!(in_heap(rc_addr, 3 * 4 + 8));
    let reference_counted = Rc::new(vec![1, 2, 3]);
    let cloned_reference = reference_counted.clone();
    assert_eq!(Rc::strong_count(&cloned_reference), 2);
    drop(reference_counted);
    assert_eq!(Rc::strong_count(&cloned_reference), 1);
}
