//! Boot-time physical memory: the bootloader's memory map and the frame
//! allocators drawing from it.
//!
//! The bootloader reports physical memory as a list of page-aligned
//! regions, each tagged usable or reserved. The boot-time frame allocator
//! is a monotonic cursor over the usable frames of that map, in ascending
//! address order: the n-th call returns the n-th usable frame, and frames
//! are never handed out twice within one boot session.

use vstd::prelude::*;

use crate::paging::{
    MAX_PHYS_ADDR, OffsetMapper, PAGE_SIZE, PhysFrame, Translation, spec_translate,
};

verus! {

/// The usage tag of a bootloader-reported memory region.
#[derive(PartialEq, Eq, Structural, Clone, Copy, Debug)]
pub enum MemoryRegionType {
    /// Free for frame allocation.
    Usable,
    /// Owned by firmware, the bootloader or a device; never allocated.
    Reserved,
}

/// One bootloader-reported physical range `[start, end)` with its tag.
#[derive(PartialEq, Eq, Structural, Clone, Copy, Debug)]
pub struct MemoryRegion {
    pub start: u64,
    pub end: u64,
    pub region_type: MemoryRegionType,
}

impl MemoryRegion {
    /// A region is page-aligned, non-inverted, and within the physical
    /// address space.
    pub open spec fn wf(self) -> bool {
        &&& self.start % PAGE_SIZE == 0
        &&& self.end % PAGE_SIZE == 0
        &&& self.start <= self.end
        &&& self.end <= MAX_PHYS_ADDR
    }
}

/// The frame base addresses of one region, in ascending order; empty
/// unless the region is usable.
pub open spec fn region_frames(r: MemoryRegion) -> Seq<u64> {
    if r.region_type == MemoryRegionType::Usable {
        Seq::new(((r.end - r.start) / (PAGE_SIZE as int)) as nat, |k: int| (r.start + k * (
        PAGE_SIZE as int)) as u64)
    } else {
        Seq::empty()
    }
}

/// All usable frame base addresses of a memory map, region by region.
pub open spec fn usable_frames(regions: Seq<MemoryRegion>) -> Seq<u64>
    decreases regions.len(),
{
    if regions.len() == 0 {
        Seq::empty()
    } else {
        region_frames(regions[0]) + usable_frames(regions.skip(1))
    }
}

/// A memory map is well-formed when each region is well-formed and the
/// regions are sorted and disjoint.
pub open spec fn wf_memory_map(regions: Seq<MemoryRegion>) -> bool {
    &&& forall|i: int| 0 <= i < regions.len() ==> (#[trigger] regions[i]).wf()
    &&& forall|i: int| 0 <= i < regions.len() - 1 ==> (#[trigger] regions[i]).end
        <= regions[i + 1].start
}

/// Splitting a memory map splits its usable frames.
proof fn lemma_usable_frames_split(regions: Seq<MemoryRegion>, i: int)
    requires
        0 <= i <= regions.len(),
    ensures
        usable_frames(regions) == usable_frames(regions.take(i)) + usable_frames(
            regions.skip(i),
        ),
    decreases i,
{
    if i == 0 {
        assert(regions.take(0) == Seq::<MemoryRegion>::empty());
        assert(regions.skip(0) == regions);
        assert(usable_frames(regions) == usable_frames(regions.take(0)) + usable_frames(
            regions.skip(0),
        ));
    } else {
        let rest = regions.skip(1);
        lemma_usable_frames_split(rest, i - 1);
        assert(regions.take(i)[0] == regions[0]);
        assert(regions.take(i).skip(1) == rest.take(i - 1));
        assert(regions.skip(i) == rest.skip(i - 1));
        assert(usable_frames(regions.take(i)) == region_frames(regions[0]) + usable_frames(
            rest.take(i - 1),
        ));
        assert(usable_frames(regions) == region_frames(regions[0]) + (usable_frames(
            rest.take(i - 1),
        ) + usable_frames(rest.skip(i - 1))));
    }
}

/// Every usable frame of a well-formed map is page-aligned, bounded by the
/// physical address space, and the frames are strictly increasing: later
/// frames lie at least one page above earlier ones.
///
/// This is the order half of the frame-allocation law: the n-th allocated
/// frame is `usable_frames(map)[n]`, so successive allocations return
/// strictly increasing, non-overlapping frames.
#[verifier::rlimit(50)]
pub proof fn lemma_usable_frames_increasing(regions: Seq<MemoryRegion>)
    requires
        wf_memory_map(regions),
    ensures
        forall|i: int|
            0 <= i < usable_frames(regions).len() ==> (#[trigger] usable_frames(regions)[i])
                % PAGE_SIZE == 0 && usable_frames(regions)[i] + PAGE_SIZE <= MAX_PHYS_ADDR,
        forall|i: int, j: int|
            0 <= i < j < usable_frames(regions).len() ==> #[trigger] usable_frames(regions)[i]
                + PAGE_SIZE <= #[trigger] usable_frames(regions)[j],
    decreases regions.len(),
{
    if regions.len() > 0 {
        let r0 = regions[0];
        let rest = regions.skip(1);
        assert(wf_memory_map(rest)) by {
            assert(forall|i: int| 0 <= i < rest.len() ==> rest[i] == regions[i + 1]);
        }
        lemma_usable_frames_increasing(rest);
        let head = region_frames(r0);
        let tail = usable_frames(rest);
        assert(usable_frames(regions) == head + tail);
        // Frames of the head region are aligned, bounded and increasing.
        assert forall|i: int| 0 <= i < head.len() implies (#[trigger] head[i]) % PAGE_SIZE == 0
            && head[i] + PAGE_SIZE <= r0.end by {
            assert(head[i] == r0.start + i * (PAGE_SIZE as int));
            assert(r0.start % 4096 == 0 ==> (r0.start + i * 4096) % 4096 == 0) by (nonlinear_arith);
            assert((i + 1) * 4096 <= ((r0.end - r0.start) / 4096) * 4096) by (nonlinear_arith)
                requires
                    i + 1 <= (r0.end - r0.start) / 4096,
            ;
            assert(((r0.end - r0.start) / 4096) * 4096 <= r0.end - r0.start) by (nonlinear_arith);
        }
        assert forall|i: int, j: int| 0 <= i < j < head.len() implies #[trigger] head[i] + PAGE_SIZE
            <= #[trigger] head[j] by {
            assert(r0.start + (i + 1) * 4096 <= r0.start + j * 4096) by (nonlinear_arith)
                requires
                    i + 1 <= j,
            ;
        }
        // Every frame of the tail lies at or above the next region's start,
        // hence above the whole head region.
        if rest.len() > 0 {
            assert forall|j: int| 0 <= j < tail.len() implies r0.end <= #[trigger] tail[j] by {
                lemma_usable_frames_first_region_bound(rest, j);
                assert(regions[1] == rest[0]);
            }
        }
    }
}

/// Every usable frame of a well-formed map lies at or above the start of
/// the map's first region.
#[verifier::rlimit(50)]
proof fn lemma_usable_frames_first_region_bound(regions: Seq<MemoryRegion>, j: int)
    requires
        wf_memory_map(regions),
        regions.len() > 0,
        0 <= j < usable_frames(regions).len(),
    ensures
        regions[0].start <= usable_frames(regions)[j],
    decreases regions.len(),
{
    let r0 = regions[0];
    let head = region_frames(r0);
    let rest = regions.skip(1);
    assert(usable_frames(regions) == head + usable_frames(rest));
    if j < head.len() {
        assert(head[j] == r0.start + j * (PAGE_SIZE as int));
        assert(j * 4096 >= 0) by (nonlinear_arith)
            requires
                j >= 0,
        ;
    } else {
        assert(wf_memory_map(rest)) by {
            assert(forall|i: int| 0 <= i < rest.len() ==> rest[i] == regions[i + 1]);
        }
        lemma_usable_frames_first_region_bound(rest, j - head.len());
        assert(rest[0] == regions[1]);
    }
}

/// A frame allocator that never has a frame to give; usable before a real
/// memory map exists.
pub struct EmptyFrameAllocator;

impl EmptyFrameAllocator {
    /// Always fails.
    pub fn allocate_frame(&mut self) -> (r: Option<PhysFrame>)
        ensures
            r is None,
    {
        None
    }
}

/// A frame allocator handing out the usable frames of the bootloader's
/// memory map in ascending address order.
///
/// `next` counts the calls made so far; the n-th call returns
/// `usable_frames(map)[n]`, and once the cursor passes the total usable
/// frame count every further call fails. Nothing is ever returned to this
/// allocator: it is a boot-time cursor over physical memory, distinct from
/// the heap's own allocators.
pub struct BootInfoFrameAllocator {
    pub memory_map: Vec<MemoryRegion>,
    pub next: usize,
}

impl BootInfoFrameAllocator {
    /// The allocator's memory map is well-formed.
    pub open spec fn wf(self) -> bool {
        wf_memory_map(self.memory_map@)
    }

    /// The usable frames this allocator draws from.
    pub open spec fn spec_usable_frames(self) -> Seq<u64> {
        usable_frames(self.memory_map@)
    }

    /// Create a frame allocator from the passed memory map.
    ///
    /// The caller vouches for the map as the boot contract does: regions
    /// are page-aligned, sorted and disjoint, and the frames marked usable
    /// are really unused.
    pub fn init(memory_map: Vec<MemoryRegion>) -> (r: Self)
        requires
            wf_memory_map(memory_map@),
        ensures
            r.wf(),
            r.memory_map == memory_map,
            r.next == 0,
    {
        BootInfoFrameAllocator { memory_map, next: 0 }
    }

    /// Return the `self.next`-th usable frame of the map, if the map still
    /// holds that many.
    ///
    /// The cursor advances on every call, so calls `0 .. K` over a map of
    /// `K` usable frames succeed with strictly increasing frames and every
    /// later call fails.
    pub fn allocate_frame(&mut self) -> (r: Option<PhysFrame>)
        requires
            old(self).wf(),
            old(self).next < usize::MAX,
        ensures
            final(self).wf(),
            final(self).memory_map == old(self).memory_map,
            final(self).next == old(self).next + 1,
            old(self).next < old(self).spec_usable_frames().len() ==> r == Some(
                PhysFrame { start: old(self).spec_usable_frames()[old(self).next as int] },
            ),
            old(self).next >= old(self).spec_usable_frames().len() ==> r is None,
            r matches Some(fr) ==> fr.wf(),
    {
        let frame = self.nth_usable_frame(self.next);
        proof {
            lemma_usable_frames_increasing(self.memory_map@);
        }
        self.next = self.next + 1;
        frame
    }

    /// Walk the memory map to the `n`-th usable frame.
    fn nth_usable_frame(&self, n: usize) -> (r: Option<PhysFrame>)
        requires
            self.wf(),
        ensures
            n < self.spec_usable_frames().len() ==> r == Some(
                PhysFrame { start: self.spec_usable_frames()[n as int] },
            ),
            n >= self.spec_usable_frames().len() ==> r is None,
    {
        let regions = &self.memory_map;
        let ghost all = self.memory_map@;
        let mut i: usize = 0;
        let mut remaining: u64 = n as u64;
        proof {
            assert(all.take(0) == Seq::<MemoryRegion>::empty());
            assert(all.skip(0) == all);
            assert(usable_frames(all) == usable_frames(all.take(0)) + usable_frames(all.skip(0)))
                by {
                assert(Seq::<u64>::empty() + usable_frames(all) =~= usable_frames(all));
            }
        }
        while i < regions.len()
            invariant
                self.wf(),
                regions == &self.memory_map,
                all == self.memory_map@,
                i <= all.len(),
                remaining <= n,
                n as int - remaining == usable_frames(all.take(i as int)).len(),
                usable_frames(all) == usable_frames(all.take(i as int)) + usable_frames(
                    all.skip(i as int),
                ),
            decreases regions.len() - i,
        {
            let r = regions[i];
            proof {
                lemma_usable_frames_split(all, i as int);
                lemma_usable_frames_split(all, i as int + 1);
                assert(all.take(i as int + 1) == all.take(i as int).push(all[i as int]));
                lemma_usable_frames_split(all.take(i as int + 1), i as int);
                assert(all.take(i as int + 1).take(i as int) == all.take(i as int));
                assert(all.take(i as int + 1).skip(i as int) == seq![all[i as int]]);
                assert(usable_frames(seq![all[i as int]]) == region_frames(all[i as int])) by {
                    assert(seq![all[i as int]].skip(1) == Seq::<MemoryRegion>::empty());
                    assert(region_frames(all[i as int]) + usable_frames(
                        Seq::<MemoryRegion>::empty(),
                    ) =~= region_frames(all[i as int]));
                }
            }
            let count: u64 = match r.region_type {
                MemoryRegionType::Usable => (r.end - r.start) / PAGE_SIZE,
                MemoryRegionType::Reserved => 0,
            };
            if remaining < count {
                proof {
                    let fr = region_frames(all[i as int]);
                    assert(usable_frames(all)[n as int] == fr[remaining as int]);
                    assert(r.start + (remaining as int) * 4096 <= r.start + ((count as int) - 1)
                        * 4096 < r.end) by (nonlinear_arith)
                        requires
                            remaining < count,
                            count == (r.end - r.start) / 4096,
                            r.start <= r.end,
                            r.end % 4096 == 0,
                            r.start % 4096 == 0,
                    ;
                }
                return Some(PhysFrame { start: r.start + remaining * PAGE_SIZE });
            }
            remaining = remaining - count;
            i = i + 1;
        }
        proof {
            assert(all.skip(all.len() as int) == Seq::<MemoryRegion>::empty());
        }
        None
    }
}

/// Initialize a mapper that uses the given offset to convert virtual to
/// physical addresses.
///
/// The boot contract supplies the offset at which all of physical memory
/// is linearly mapped, and the page-table-base register names the root
/// frame; the caller reads that register and passes the frame here. The
/// mapper starts with that single root table empty and tracks every
/// mapping made through it.
pub fn init(physical_memory_offset: u64, root_frame: PhysFrame) -> (r: OffsetMapper)
    requires
        root_frame.wf(),
    ensures
        r.wf(),
        r.is_pristine(),
        r.root == root_frame.start,
        r.phys_offset == physical_memory_offset,
        forall|va: u64| spec_translate(r.table_view@, r.root, va) == Translation::Unmapped,
{
    crate::paging::make_mapper(physical_memory_offset, root_frame)
}

} // verus!
