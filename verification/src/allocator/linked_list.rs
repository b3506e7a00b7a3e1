//! The free-list allocation strategy: free blocks kept in a list, matched
//! first-fit, split on excess, never coalesced.

use vstd::prelude::*;

use crate::allocator::{exec_align_up, lemma_align_up_bounds, spec_align_up};

verus! {

/// One free block.
pub struct ListNode {
    pub addr: u64,
    pub size: u64,
}

/// Where inside a free block a request `(size, align)` would land: the
/// block's address rounded up to the alignment, if the rounded request
/// still fits in the block.
pub open spec fn spec_fit(n: ListNode, size: u64, align: u64) -> Option<int> {
    let astart = spec_align_up(n.addr as int, align as int);
    if astart + size <= n.addr + n.size {
        Some(astart)
    } else {
        None
    }
}

/// First-fit search: the index of the first block that can hold the
/// request, with the address the allocation would get.
pub open spec fn spec_find_fit(nodes: Seq<ListNode>, size: u64, align: u64) -> Option<(int, int)>
    decreases nodes.len(),
{
    if nodes.len() == 0 {
        None
    } else {
        match spec_fit(nodes[0], size, align) {
            Some(astart) => Some((0, astart)),
            None => match spec_find_fit(nodes.skip(1), size, align) {
                Some(found) => Some((found.0 + 1, found.1)),
                None => None,
            },
        }
    }
}

/// Skipping blocks that do not fit shifts the first fit's index.
proof fn lemma_find_fit_skip(nodes: Seq<ListNode>, size: u64, align: u64, i: int)
    requires
        0 <= i <= nodes.len(),
        forall|j: int| 0 <= j < i ==> spec_fit(#[trigger] nodes[j], size, align) is None,
    ensures
        spec_find_fit(nodes, size, align) == match spec_find_fit(
            nodes.skip(i),
            size,
            align,
        ) {
            Some(found) => Some((found.0 + i, found.1)),
            None => None::<(int, int)>,
        },
    decreases i,
{
    if i == 0 {
        assert(nodes.skip(0) == nodes);
    } else {
        assert(spec_fit(nodes[0], size, align) is None);
        assert(nodes.skip(1).skip(i - 1) == nodes.skip(i));
        assert(forall|j: int|
            0 <= j < i - 1 ==> spec_fit(#[trigger] nodes.skip(1)[j], size, align) is None);
        lemma_find_fit_skip(nodes.skip(1), size, align, i - 1);
    }
}

/// The free-list allocator: a list of free `(address, size)` blocks of
/// one heap region.
///
/// Allocation takes the first block that fits and returns the block's
/// aligned start; a remainder past the allocation's end becomes a new
/// free block at the head of the list. Freed blocks are pushed onto the
/// head as they come: adjacent free blocks are never merged, so a request
/// can fail although the total free capacity would cover it.
pub struct LinkedListAllocator {
    pub heap_start: u64,
    pub heap_end: u64,
    pub nodes: Vec<ListNode>,
}

impl LinkedListAllocator {
    /// Every free block lies inside the heap, is non-empty, and the
    /// blocks are pairwise disjoint.
    pub open spec fn wf(self) -> bool {
        &&& self.heap_start <= self.heap_end
        &&& forall|i: int|
            0 <= i < self.nodes@.len() ==> self.heap_start <= (#[trigger] self.nodes@[i]).addr
                && self.nodes@[i].addr + self.nodes@[i].size <= self.heap_end
                && self.nodes@[i].size >= 1
        &&& forall|i: int, j: int|
            0 <= i < j < self.nodes@.len() ==> (#[trigger] self.nodes@[i]).addr
                + self.nodes@[i].size <= (#[trigger] self.nodes@[j]).addr || self.nodes@[j].addr
                + self.nodes@[j].size <= self.nodes@[i].addr
    }

    /// An empty allocator with no heap region.
    pub fn new() -> (r: Self)
        ensures
            r.heap_start == 0,
            r.heap_end == 0,
            r.nodes@ == Seq::<ListNode>::empty(),
            r.wf(),
    {
        LinkedListAllocator { heap_start: 0, heap_end: 0, nodes: Vec::new() }
    }

    /// Hand the allocator its heap region, which becomes one free block.
    ///
    /// The caller passes the bounds of a memory range it owns and will
    /// not hand to anything else.
    pub fn init(&mut self, heap_start: u64, heap_size: u64)
        requires
            heap_size >= 1,
            heap_start + heap_size <= u64::MAX,
        ensures
            final(self).heap_start == heap_start,
            final(self).heap_end == heap_start + heap_size,
            final(self).nodes@ == seq![ListNode { addr: heap_start, size: heap_size }],
            final(self).wf(),
    {
        self.heap_start = heap_start;
        self.heap_end = heap_start + heap_size;
        let mut nodes: Vec<ListNode> = Vec::new();
        nodes.push(ListNode { addr: heap_start, size: heap_size });
        self.nodes = nodes;
    }

    /// Allocate `size` bytes at alignment `align` by first fit.
    ///
    /// Succeeds exactly when some free block can hold the rounded
    /// request; the first such block leaves the list, its remainder past
    /// the allocation (if any) is pushed onto the head as a new free
    /// block, and its aligned start is returned. The space skipped by the
    /// rounding at the block's start is not reclaimed.
    pub fn allocate(&mut self, size: u64, align: u64) -> (r: Option<u64>)
        requires
            old(self).wf(),
            size >= 1,
            align >= 1,
        ensures
            final(self).wf(),
            final(self).heap_start == old(self).heap_start,
            final(self).heap_end == old(self).heap_end,
            match spec_find_fit(old(self).nodes@, size, align) {
                Some(found) => {
                    &&& r == Some(found.1 as u64)
                    &&& old(self).heap_start <= found.1
                    &&& found.1 + size <= old(self).heap_end
                    &&& found.1 % (align as int) == 0
                    &&& final(self).nodes@ == ({
                        let chosen = old(self).nodes@[found.0];
                        let excess = chosen.addr + chosen.size - (found.1 + size);
                        if excess > 0 {
                            old(self).nodes@.remove(found.0).insert(
                                0,
                                ListNode { addr: (found.1 + size) as u64, size: excess as u64 },
                            )
                        } else {
                            old(self).nodes@.remove(found.0)
                        }
                    })
                },
                None => {
                    &&& r is None
                    &&& final(self).nodes@ == old(self).nodes@
                },
            },
    {
        let ghost nodes0 = self.nodes@;
        let mut i: usize = 0;
        while i < self.nodes.len()
            invariant
                self.wf(),
                self.heap_start == old(self).heap_start,
                self.heap_end == old(self).heap_end,
                nodes0 == old(self).nodes@,
                self.nodes@ == nodes0,
                i <= nodes0.len(),
                size >= 1,
                align >= 1,
                forall|j: int| 0 <= j < i ==> spec_fit(#[trigger] nodes0[j], size, align) is None,
            decreases self.nodes.len() - i,
        {
            let n_addr = self.nodes[i].addr;
            let n_size = self.nodes[i].size;
            proof {
                lemma_find_fit_skip(nodes0, size, align, i as int);
                lemma_align_up_bounds(n_addr as int, align as int);
            }
            let astart_opt = exec_align_up(n_addr, align);
            let fits: bool = match astart_opt {
                Some(astart) => astart - n_addr <= n_size && size <= n_size - (astart - n_addr),
                None => false,
            };
            if fits {
                let astart = match astart_opt {
                    Some(a) => a,
                    None => {
                        return vstd::pervasive::unreached();
                    },
                };
                proof {
                    assert(nodes0.skip(i as int)[0] == nodes0[i as int]);
                    assert(spec_fit(nodes0[i as int], size, align) == Some(astart as int));
                    assert(spec_find_fit(nodes0, size, align) == Some((i as int, astart as int)));
                }
                let aend = astart + size;
                let excess = n_addr + n_size - aend;
                self.nodes.remove(i);
                if excess > 0 {
                    self.nodes.insert(0, ListNode { addr: aend, size: excess });
                }
                proof {
                    let newn = self.nodes@;
                    let removed = nodes0.remove(i as int);
                    // Every surviving block is an old block other than the
                    // chosen one, or the chosen block's tail remainder.
                    assert forall|a: int, b: int| 0 <= a < b < newn.len() implies (
                    #[trigger] newn[a]).addr + newn[a].size <= (#[trigger] newn[b]).addr
                        || newn[b].addr + newn[b].size <= newn[a].addr by {
                        if excess > 0 {
                            if a == 0 {
                                let ob = if b - 1 < i { b - 1 } else { b };
                                assert(newn[b] == nodes0[ob]);
                            } else {
                                let oa = if a - 1 < i { a - 1 } else { a };
                                let ob = if b - 1 < i { b - 1 } else { b };
                                assert(newn[a] == nodes0[oa] && newn[b] == nodes0[ob]);
                            }
                        } else {
                            let oa = if a < i { a } else { a + 1 };
                            let ob = if b < i { b } else { b + 1 };
                            assert(newn[a] == nodes0[oa] && newn[b] == nodes0[ob]);
                        }
                    }
                    assert forall|a: int| 0 <= a < newn.len() implies self.heap_start <= (
                    #[trigger] newn[a]).addr && newn[a].addr + newn[a].size <= self.heap_end
                        && newn[a].size >= 1 by {
                        if excess > 0 && a == 0 {
                        } else {
                            let oa = if excess > 0 {
                                if a - 1 < i {
                                    a - 1
                                } else {
                                    a
                                }
                            } else {
                                if a < i {
                                    a
                                } else {
                                    a + 1
                                }
                            };
                            assert(newn[a] == nodes0[oa]);
                        }
                    }
                }
                return Some(astart);
            }
            i = i + 1;
        }
        proof {
            lemma_find_fit_skip(nodes0, size, align, nodes0.len() as int);
            assert(nodes0.skip(nodes0.len() as int) == Seq::<ListNode>::empty());
        }
        None
    }

    /// Free the block `[addr, addr + size)`: push it onto the head of the
    /// free list, without merging it with any neighbour.
    ///
    /// The caller returns a block it obtained from this allocator and no
    /// longer uses, so the block lies inside the heap and overlaps no
    /// free block.
    pub fn deallocate(&mut self, addr: u64, size: u64)
        requires
            old(self).wf(),
            size >= 1,
            old(self).heap_start <= addr,
            addr + size <= old(self).heap_end,
            forall|i: int|
                0 <= i < old(self).nodes@.len() ==> (#[trigger] old(self).nodes@[i]).addr + old(
                    self,
                ).nodes@[i].size <= addr || addr + size <= old(self).nodes@[i].addr,
        ensures
            final(self).wf(),
            final(self).heap_start == old(self).heap_start,
            final(self).heap_end == old(self).heap_end,
            final(self).nodes@ == old(self).nodes@.insert(0, ListNode { addr, size }),
    {
        self.nodes.insert(0, ListNode { addr, size });
        proof {
            assert forall|a: int, b: int| 0 <= a < b < self.nodes@.len() implies (
            #[trigger] self.nodes@[a]).addr + self.nodes@[a].size <= (
            #[trigger] self.nodes@[b]).addr || self.nodes@[b].addr + self.nodes@[b].size
                <= self.nodes@[a].addr by {
                if a > 0 {
                    assert(self.nodes@[a] == old(self).nodes@[a - 1]);
                }
                assert(self.nodes@[b] == old(self).nodes@[b - 1]);
            }
        }
    }
}

} // verus!
