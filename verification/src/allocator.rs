//! The kernel heap: the region mapper that backs a fixed virtual range
//! with physical frames, and the allocation strategies that carve that
//! range up.

use vstd::prelude::*;

pub mod bump;
pub mod linked_list;

use crate::memory::BootInfoFrameAllocator;
use crate::paging::{
    FLAG_PRESENT, FLAG_WRITABLE, MapToError, OffsetMapper, PAGE_SIZE, Page, Translation,
    frames_fresh, is_canonical, lemma_new_entries_writable_trans, lemma_pristine_unmapped,
    lemma_same_page_same_mapped, map_preserves_entries, new_entries_writable, no_huge,
    spec_p2_index, spec_p3_index, spec_p4_index, spec_page_base, spec_translate, tables_ready,
};

verus! {

/// Memory address where the heap starts.
pub const HEAP_START: u64 = 0x0000_4444_4444_0000;

/// Size of the heap in bytes.
pub const HEAP_SIZE: u64 = 100 * 1024;

/// Number of pages backing the heap.
pub const HEAP_PAGE_COUNT: u64 = HEAP_SIZE / PAGE_SIZE;

/// The base address of the `i`-th heap page.
pub open spec fn heap_page_start(i: int) -> u64 {
    (HEAP_START + i * (PAGE_SIZE as int)) as u64
}

/// Heap pages are aligned, canonical, below the sign-extension boundary,
/// and share their three upper table indices.
proof fn lemma_heap_page_facts(i: u64)
    by (bit_vector)
    requires
        i < 25,
    ensures
        ((HEAP_START + i * PAGE_SIZE) as u64) % 4096 == 0,
        is_canonical((HEAP_START + i * PAGE_SIZE) as u64),
        spec_page_base((HEAP_START + i * PAGE_SIZE) as u64) == (HEAP_START + i * PAGE_SIZE) as u64,
        spec_p4_index((HEAP_START + i * PAGE_SIZE) as u64) == spec_p4_index(HEAP_START),
        spec_p3_index((HEAP_START + i * PAGE_SIZE) as u64) == spec_p3_index(HEAP_START),
        spec_p2_index((HEAP_START + i * PAGE_SIZE) as u64) == spec_p2_index(HEAP_START),
        (HEAP_START + i * PAGE_SIZE) as u64 == HEAP_START + i * PAGE_SIZE,
        ((HEAP_START + i * PAGE_SIZE) as u64) < 0x0000_8000_0000_0000,
{
}

/// Distinct heap pages have distinct base addresses.
proof fn lemma_heap_pages_distinct(i: u64, j: u64)
    by (bit_vector)
    requires
        i < 25,
        j < 25,
        i != j,
    ensures
        (HEAP_START + i * PAGE_SIZE) as u64 != (HEAP_START + j * PAGE_SIZE) as u64,
{
}

/// Heap page `i` translates to one of `frames[lo..hi]`.
pub open spec fn page_backed(
    m: Map<u64, crate::paging::TableView>,
    root: u64,
    frames: Seq<u64>,
    lo: int,
    hi: int,
    i: int,
) -> bool {
    exists|j: int|
        #![trigger frames[j]]
        lo <= j < hi && spec_translate(m, root, heap_page_start(i)) == Translation::Mapped(
            frames[j],
        )
}

/// Every heap page below `n` translates to a frame drawn from
/// `frames[lo..hi]`: the heap is backed exactly by frames the allocator
/// handed out.
pub open spec fn heap_backed_upto(
    m: Map<u64, crate::paging::TableView>,
    root: u64,
    frames: Seq<u64>,
    lo: int,
    hi: int,
    n: int,
) -> bool {
    forall|i: int| 0 <= i < n ==> #[trigger] page_backed(m, root, frames, lo, hi, i)
}

/// Every heap page has a translation.
pub open spec fn all_heap_pages_mapped(m: Map<u64, crate::paging::TableView>, root: u64) -> bool {
    forall|i: int|
        #![trigger heap_page_start(i)]
        0 <= i < HEAP_PAGE_COUNT ==> spec_translate(m, root, heap_page_start(i)) is Mapped
}

/// Distinct heap pages translate to distinct physical addresses: each is
/// backed by its own frame.
pub open spec fn heap_pages_distinct(m: Map<u64, crate::paging::TableView>, root: u64) -> bool {
    forall|i1: int, i2: int|
        0 <= i1 < i2 < HEAP_PAGE_COUNT ==> #[trigger] spec_translate(
            m,
            root,
            heap_page_start(i1),
        ) != #[trigger] spec_translate(m, root, heap_page_start(i2))
}

/// Map every page of the heap's fixed virtual range to a freshly
/// allocated frame, present and writable.
///
/// Pages are mapped in ascending order; the first failed frame allocation
/// aborts with `FrameAllocationFailed` and pages already mapped are not
/// rolled back, so a caller observing an error must treat heap
/// initialization as fatal.
#[verifier::rlimit(100)]
#[verifier::spinoff_prover]
pub fn init_heap(
    mapper: &mut OffsetMapper,
    frame_allocator: &mut BootInfoFrameAllocator,
) -> (r: Result<(), MapToError>)
    requires
        old(mapper).wf(),
        no_huge(old(mapper).table_view@),
        old(frame_allocator).wf(),
        old(frame_allocator).next + 100 <= usize::MAX,
        frames_fresh(*old(frame_allocator), old(mapper).table_view@),
    ensures
        final(mapper).wf(),
        final(mapper).root == old(mapper).root,
        final(mapper).phys_offset == old(mapper).phys_offset,
        no_huge(final(mapper).table_view@),
        final(frame_allocator).wf(),
        final(frame_allocator).memory_map == old(frame_allocator).memory_map,
        old(frame_allocator).next <= final(frame_allocator).next <= old(frame_allocator).next
            + 100,
        frames_fresh(*final(frame_allocator), final(mapper).table_view@),
        map_preserves_entries(old(mapper).table_view@, final(mapper).table_view@),
        new_entries_writable(old(mapper).table_view@, final(mapper).table_view@),
        forall|va: u64|
            #![trigger spec_translate(final(mapper).table_view@, old(mapper).root, va)]
            is_canonical(va) && spec_translate(old(mapper).table_view@, old(mapper).root, va)
                is Mapped ==> spec_translate(final(mapper).table_view@, old(mapper).root, va)
                == spec_translate(old(mapper).table_view@, old(mapper).root, va),
        forall|va: u64|
            #![trigger spec_translate(final(mapper).table_view@, old(mapper).root, va)]
            is_canonical(va) && !(HEAP_START <= spec_page_base(va) < HEAP_START + HEAP_SIZE)
                ==> spec_translate(final(mapper).table_view@, old(mapper).root, va)
                == spec_translate(old(mapper).table_view@, old(mapper).root, va),
        r matches Err(e) ==> e != MapToError::ParentEntryHugePage,
        r matches Err(e) ==> (e == MapToError::FrameAllocationFailed
            <==> final(frame_allocator).spec_usable_frames().len()
            < final(frame_allocator).next),
        r matches Err(e) && e == MapToError::PageAlreadyMapped ==> exists|i: int|
            #![trigger heap_page_start(i)]
            0 <= i < HEAP_PAGE_COUNT && spec_translate(
                old(mapper).table_view@,
                old(mapper).root,
                heap_page_start(i),
            ) is Mapped,
        r is Ok ==> all_heap_pages_mapped(final(mapper).table_view@, final(mapper).root),
        r is Ok ==> heap_backed_upto(
            final(mapper).table_view@,
            final(mapper).root,
            old(frame_allocator).spec_usable_frames(),
            old(frame_allocator).next as int,
            final(frame_allocator).next as int,
            HEAP_PAGE_COUNT as int,
        ),
        r is Ok ==> heap_pages_distinct(final(mapper).table_view@, final(mapper).root),
        old(mapper).is_pristine() && old(frame_allocator).spec_usable_frames().len() >= old(
            frame_allocator,
        ).next + 28 ==> r is Ok,
{
    let ghost m0 = mapper.table_view@;
    let ghost a0 = *frame_allocator;
    let ghost root = mapper.root;
    let ghost premise = old(mapper).is_pristine() && a0.spec_usable_frames().len() >= a0.next
        + 28;
    proof {
        if old(mapper).is_pristine() {
            crate::paging::lemma_pristine_unmapped(*old(mapper));
        }
    }
    let mut k: u64 = 0;
    while k < HEAP_SIZE / PAGE_SIZE
        invariant
            root == old(mapper).root,
            m0 == old(mapper).table_view@,
            a0 == *old(frame_allocator),
            premise == (old(mapper).is_pristine() && a0.spec_usable_frames().len() >= a0.next
                + 28),
            mapper.wf(),
            mapper.root == root,
            mapper.phys_offset == old(mapper).phys_offset,
            no_huge(mapper.table_view@),
            frame_allocator.wf(),
            frame_allocator.memory_map == old(frame_allocator).memory_map,
            frame_allocator.spec_usable_frames() == a0.spec_usable_frames(),
            frames_fresh(*frame_allocator, mapper.table_view@),
            map_preserves_entries(m0, mapper.table_view@),
            k <= 25,
            HEAP_SIZE / PAGE_SIZE == 25,
            HEAP_PAGE_COUNT == 25,
            a0.next <= frame_allocator.next <= a0.next + 4 * k,
            frame_allocator.next + 100 - 4 * k <= usize::MAX,
            forall|i: int|
                0 <= i < k ==> #[trigger] page_backed(
                    mapper.table_view@,
                    root,
                    a0.spec_usable_frames(),
                    a0.next as int,
                    frame_allocator.next as int,
                    i,
                ),
            forall|i1: int, i2: int|
                0 <= i1 < i2 < k ==> #[trigger] spec_translate(
                    mapper.table_view@,
                    root,
                    heap_page_start(i1),
                ) != #[trigger] spec_translate(mapper.table_view@, root, heap_page_start(i2)),
            new_entries_writable(old(mapper).table_view@, mapper.table_view@),
            forall|i: int|
                #![trigger heap_page_start(i)]
                k <= i < 25 ==> spec_translate(mapper.table_view@, root, heap_page_start(i))
                    == spec_translate(old(mapper).table_view@, root, heap_page_start(i)),
            forall|va: u64|
                #![trigger spec_translate(mapper.table_view@, old(mapper).root, va)]
                is_canonical(va) && spec_translate(
                    old(mapper).table_view@,
                    old(mapper).root,
                    va,
                ) is Mapped ==> spec_translate(mapper.table_view@, old(mapper).root, va)
                    == spec_translate(old(mapper).table_view@, old(mapper).root, va),
            forall|va: u64|
                #![trigger spec_translate(mapper.table_view@, old(mapper).root, va)]
                is_canonical(va) && !(HEAP_START <= spec_page_base(va) < HEAP_START + HEAP_SIZE)
                    ==> spec_translate(mapper.table_view@, old(mapper).root, va)
                    == spec_translate(old(mapper).table_view@, old(mapper).root, va),
            premise ==> forall|i: int|
                #![trigger heap_page_start(i)]
                k <= i < 25 ==> spec_translate(mapper.table_view@, root, heap_page_start(i))
                    == Translation::Unmapped,
            premise && k >= 1 ==> tables_ready(mapper.table_view@, root, heap_page_start(0)),
            premise && k >= 1 ==> frame_allocator.next <= a0.next + 3 + k,
        decreases 25 - k,
    {
        let ghost m_iter = mapper.table_view@;
        let ghost a_iter = *frame_allocator;
        proof {
            lemma_heap_page_facts(k);
            crate::memory::lemma_usable_frames_increasing(frame_allocator.memory_map@);
        }
        let page = Page { start: HEAP_START + k * PAGE_SIZE };
        let frame = match frame_allocator.allocate_frame() {
            Some(f) => f,
            None => {
                proof {
                    if premise {
                        assert(a_iter.next < a0.next + 28 <= a0.spec_usable_frames().len());
                        assert(false);
                    }
                    // The cursor has passed the map's end: the allocator
                    // ran dry.
                    assert(frame_allocator.spec_usable_frames().len() < frame_allocator.next);
                }
                return Err(MapToError::FrameAllocationFailed);
            },
        };
        let ghost a_mid = *frame_allocator;
        let flags = FLAG_PRESENT | FLAG_WRITABLE;
        proof {
            assert((FLAG_PRESENT | FLAG_WRITABLE) == 3u64 && 3u64 & 1 == 1u64 && 3u64 & 2 == 2u64
                && 3u64 < 4096) by (bit_vector);
        }
        match mapper.map_to(page, frame, flags, frame_allocator) {
            Ok(_) => {},
            Err(e) => {
                proof {
                    if premise {
                        // Under the pristine premise every obstruction is
                        // ruled out: the page is unmapped, no huge entry
                        // exists, and enough frames remain.
                        assert(spec_translate(m_iter, root, heap_page_start(k as int))
                            == Translation::Unmapped);
                        if k >= 1 {
                            assert(tables_ready(m_iter, root, heap_page_start(0)));
                            lemma_heap_page_facts(0);
                            assert(tables_ready(m_iter, root, heap_page_start(k as int)));
                        } else {
                            assert(a_mid.spec_usable_frames().len() >= a_mid.next + 3);
                        }
                        assert(false);
                    }
                    let m_cur = mapper.table_view@;
                    // Mapped pages and pages outside the heap keep their
                    // translations: this failed call moved none at all.
                    assert forall|va: u64|
                        #![trigger spec_translate(m_cur, old(mapper).root, va)]
                        is_canonical(va) && (spec_translate(
                            old(mapper).table_view@,
                            old(mapper).root,
                            va,
                        ) is Mapped || !(HEAP_START <= spec_page_base(va) < HEAP_START
                            + HEAP_SIZE)) implies spec_translate(m_cur, old(mapper).root, va)
                        == spec_translate(old(mapper).table_view@, old(mapper).root, va) by {
                        assert(spec_translate(m_cur, root, va) == spec_translate(
                            m_iter,
                            root,
                            va,
                        ));
                        assert(spec_translate(m_iter, old(mapper).root, va) == spec_translate(
                            old(mapper).table_view@,
                            old(mapper).root,
                            va,
                        ));
                    }
                    lemma_new_entries_writable_trans(old(mapper).table_view@, m_iter, m_cur);
                    // A huge-page error is ruled out, and the error names
                    // frame exhaustion exactly when the cursor passed the
                    // map's end.
                    assert(e != MapToError::ParentEntryHugePage);
                    if e == MapToError::PageAlreadyMapped {
                        assert(frame_allocator.next == a_mid.next);
                        assert(a_iter.next < a0.spec_usable_frames().len());
                        assert(!(frame_allocator.spec_usable_frames().len()
                            < frame_allocator.next));
                        // The obstruction is a heap page that was mapped
                        // before this call began.
                        assert(heap_page_start(k as int) == HEAP_START + k * PAGE_SIZE);
                        assert(spec_translate(m_iter, root, heap_page_start(k as int))
                            is Mapped);
                        assert(spec_translate(
                            old(mapper).table_view@,
                            old(mapper).root,
                            heap_page_start(k as int),
                        ) is Mapped);
                        assert(0 <= k < HEAP_PAGE_COUNT);
                    }
                }
                return Err(e);
            },
        }
        proof {
            let m_new = mapper.table_view@;
            let ghost pk = heap_page_start(k as int);
            let frames = a0.spec_usable_frames();
            let lo = a0.next as int;
            let hi_old = a_iter.next as int;
            let hi_new = frame_allocator.next as int;
            // The page just mapped is backed by the data frame drawn at
            // the start of this iteration.
            assert(spec_translate(m_new, root, pk) == Translation::Mapped(frame.start));
            assert(frame.start == frames[hi_old]);
            assert(lo <= hi_old < hi_new);
            // Earlier pages keep their frames: their pages differ.
            assert forall|i: int| 0 <= i < k implies #[trigger] spec_translate(
                m_new,
                root,
                heap_page_start(i),
            ) == spec_translate(m_iter, root, heap_page_start(i)) by {
                lemma_heap_page_facts(i as u64);
                lemma_heap_pages_distinct(i as u64, k);
                assert(spec_page_base(heap_page_start(i)) == heap_page_start(i));
                assert(spec_page_base(heap_page_start(i)) != pk);
            }
            // Pages above the one just mapped keep whatever translation
            // they had when the call began.
            assert forall|i: int| k + 1 <= i < 25 implies #[trigger] spec_translate(
                m_new,
                root,
                heap_page_start(i),
            ) == spec_translate(
                old(mapper).table_view@,
                root,
                heap_page_start(i),
            ) by {
                lemma_heap_page_facts(i as u64);
                lemma_heap_pages_distinct(i as u64, k);
                assert(spec_page_base(heap_page_start(i)) == heap_page_start(i));
                assert(spec_translate(m_new, root, heap_page_start(i)) == spec_translate(
                    m_iter,
                    root,
                    heap_page_start(i),
                ));
            }
            // Mapped pages stay mapped: the page just mapped was unmapped
            // before, so nothing a caller had mapped moved.
            assert forall|va: u64|
                #![trigger spec_translate(m_new, old(mapper).root, va)]
                is_canonical(va) && spec_translate(
                    old(mapper).table_view@,
                    old(mapper).root,
                    va,
                ) is Mapped implies spec_translate(m_new, old(mapper).root, va)
                == spec_translate(old(mapper).table_view@, old(mapper).root, va) by {
                assert(spec_translate(m_iter, old(mapper).root, va) == spec_translate(
                    old(mapper).table_view@,
                    old(mapper).root,
                    va,
                ));
                if spec_page_base(va) == pk {
                    assert(spec_page_base(pk) == pk);
                    lemma_same_page_same_mapped(m_iter, root, va, pk);
                    assert(spec_translate(m_iter, root, pk) == Translation::Unmapped);
                    assert(false);
                } else {
                    assert(spec_translate(m_new, root, va) == spec_translate(m_iter, root, va));
                }
            }
            // Pages outside the heap's range are untouched.
            assert forall|va: u64|
                #![trigger spec_translate(m_new, old(mapper).root, va)]
                is_canonical(va) && !(HEAP_START <= spec_page_base(va) < HEAP_START
                    + HEAP_SIZE) implies spec_translate(m_new, old(mapper).root, va)
                == spec_translate(old(mapper).table_view@, old(mapper).root, va) by {
                assert(spec_translate(m_iter, old(mapper).root, va) == spec_translate(
                    old(mapper).table_view@,
                    old(mapper).root,
                    va,
                ));
                assert(HEAP_START <= pk < HEAP_START + HEAP_SIZE);
                assert(spec_page_base(va) != pk);
                assert(spec_translate(m_new, root, va) == spec_translate(m_iter, root, va));
            }
            // Whatever this iteration mapped, it mapped writable.
            lemma_new_entries_writable_trans(old(mapper).table_view@, m_iter, m_new);
            // Earlier pages stay backed, and the new one is backed by
            // its own frame.
            assert forall|i: int| 0 <= i < k + 1 implies #[trigger] page_backed(
                m_new,
                root,
                frames,
                lo,
                hi_new,
                i,
            ) by {
                if i < k {
                    assert(page_backed(m_iter, root, frames, lo, hi_old, i));
                    let j0 = choose|j: int|
                        lo <= j < hi_old && spec_translate(m_iter, root, heap_page_start(i))
                            == Translation::Mapped(#[trigger] frames[j]);
                    assert(lo <= j0 < hi_new && spec_translate(m_new, root, heap_page_start(i))
                        == Translation::Mapped(frames[j0]));
                } else {
                    assert(spec_translate(m_new, root, heap_page_start(i))
                        == Translation::Mapped(frames[hi_old]));
                }
            }
            // Later pages stay unmapped under the premise.
            if premise {
                assert forall|i: int| k + 1 <= i < 25 implies spec_translate(
                    m_new,
                    root,
                    #[trigger] heap_page_start(i),
                ) == Translation::Unmapped by {
                    lemma_heap_page_facts(i as u64);
                    lemma_heap_pages_distinct(i as u64, k);
                    assert(spec_page_base(heap_page_start(i)) == heap_page_start(i));
                    assert(spec_translate(m_new, root, heap_page_start(i)) == spec_translate(
                        m_iter,
                        root,
                        heap_page_start(i),
                    ));
                }
                if k >= 1 {
                    assert(tables_ready(m_iter, root, heap_page_start(0)));
                    lemma_heap_page_facts(0);
                    assert(tables_ready(m_iter, root, heap_page_start(k as int)));
                    assert(frame_allocator.next == a_mid.next);
                }
                assert(tables_ready(m_new, root, heap_page_start(k as int)));
                assert(tables_ready(m_new, root, heap_page_start(0)));
            }
            // The new page's frame is above every frame drawn before it.
            assert forall|i1: int| 0 <= i1 < k implies #[trigger] spec_translate(
                m_new,
                root,
                heap_page_start(i1),
            ) != spec_translate(m_new, root, pk) by {
                assert(page_backed(m_iter, root, frames, lo, hi_old, i1));
                let j1 = choose|j: int|
                    lo <= j < hi_old && spec_translate(m_iter, root, heap_page_start(i1))
                        == Translation::Mapped(#[trigger] frames[j]);
                assert(frames[j1] + PAGE_SIZE <= frames[hi_old]);
            }
        }
        k = k + 1;
    }
    proof {
        let frames = a0.spec_usable_frames();
        let lo = a0.next as int;
        let hi = frame_allocator.next as int;
        assert forall|i: int|
            #![trigger heap_page_start(i)]
            0 <= i < HEAP_PAGE_COUNT implies spec_translate(
            mapper.table_view@,
            mapper.root,
            heap_page_start(i),
        ) is Mapped by {
            assert(page_backed(mapper.table_view@, root, frames, lo, hi, i));
            let j0 = choose|j: int|
                lo <= j < hi && spec_translate(mapper.table_view@, root, heap_page_start(i))
                    == Translation::Mapped(#[trigger] frames[j]);
            assert(spec_translate(mapper.table_view@, root, heap_page_start(i))
                == Translation::Mapped(frames[j0]));
        }
        // The invariant's backing facts carry over verbatim: the ghost
        // snapshots name the same allocator the contract speaks of.
        assert(frames == old(frame_allocator).spec_usable_frames());
        assert forall|i: int|
            0 <= i < HEAP_PAGE_COUNT as int implies #[trigger] page_backed(
            mapper.table_view@,
            mapper.root,
            old(frame_allocator).spec_usable_frames(),
            old(frame_allocator).next as int,
            frame_allocator.next as int,
            i,
        ) by {
            assert(page_backed(mapper.table_view@, root, frames, lo, hi, i));
        }
        assert(heap_backed_upto(
            mapper.table_view@,
            mapper.root,
            old(frame_allocator).spec_usable_frames(),
            old(frame_allocator).next as int,
            frame_allocator.next as int,
            HEAP_PAGE_COUNT as int,
        ));
    }
    Ok(())
}

/// `addr` rounded up to the next multiple of `align`.
pub open spec fn spec_align_up(addr: int, align: int) -> int {
    if addr % align == 0 {
        addr
    } else {
        addr + (align - addr % align)
    }
}

/// Rounding up lands on a multiple of the alignment, moves the address
/// forward by less than one alignment step, and never backwards.
pub proof fn lemma_align_up_bounds(addr: int, align: int)
    requires
        addr >= 0,
        align >= 1,
    ensures
        addr <= spec_align_up(addr, align) < addr + align,
        spec_align_up(addr, align) % align == 0,
{
    vstd::arithmetic::div_mod::lemma_mod_bound(addr, align);
    if addr % align != 0 {
        vstd::arithmetic::div_mod::lemma_fundamental_div_mod(addr, align);
        let q = addr / align;
        assert(spec_align_up(addr, align) == align * (q + 1)) by {
            assert(addr == q * align + addr % align);
            assert(align * (q + 1) == q * align + align) by (nonlinear_arith);
        }
        vstd::arithmetic::div_mod::lemma_mod_multiples_basic(q + 1, align);
    }
}

/// Round `addr` up to the next multiple of `align`, or fail when that
/// multiple does not fit in the address width.
pub fn exec_align_up(addr: u64, align: u64) -> (r: Option<u64>)
    requires
        align >= 1,
    ensures
        match r {
            Some(a) => a == spec_align_up(addr as int, align as int),
            None => spec_align_up(addr as int, align as int) > u64::MAX,
        },
{
    let rem = addr % align;
    if rem == 0 {
        Some(addr)
    } else {
        let pad = align - rem;
        if addr <= u64::MAX - pad {
            Some(addr + pad)
        } else {
            None
        }
    }
}

/// The null heap allocator installed before a real heap exists: every
/// request fails, and nothing is ever handed out to be freed.
pub struct Dummy;

impl Dummy {
    /// Always fails.
    pub fn allocate(&self, _size: u64, _align: u64) -> (r: Option<u64>)
        ensures
            r is None,
    {
        None
    }
}

/// The little-endian byte `k` of a 32-bit value.
pub open spec fn spec_le_byte(v: u32, k: int) -> u8 {
    ((v >> (8 * k)) & 0xff) as u8
}

/// The 32-bit value laid out little-endian at `off`.
pub open spec fn spec_u32_at(bytes: Seq<u8>, off: int) -> u32 {
    (bytes[off] + bytes[off + 1] * 0x100 + bytes[off + 2] * 0x1_0000 + bytes[off + 3]
        * 0x100_0000) as u32
}

/// The heap's backing bytes, as an arena indexed by heap addresses.
///
/// The model's allocators hand out addresses inside the heap's virtual
/// range; this arena holds the bytes those addresses denote, so that a
/// stored value can be read back and checked.
pub struct HeapMemory {
    pub bytes: Vec<u8>,
}

impl HeapMemory {
    /// The arena spans exactly the heap.
    pub open spec fn wf(self) -> bool {
        self.bytes@.len() == HEAP_SIZE
    }

    /// The byte index of a heap address.
    pub open spec fn spec_offset(addr: u64) -> int {
        addr - HEAP_START
    }

    /// A zeroed heap arena.
    pub fn new() -> (r: Self)
        ensures
            r.wf(),
    {
        let mut bytes: Vec<u8> = Vec::new();
        let mut i: u64 = 0;
        while i < HEAP_SIZE
            invariant
                i <= HEAP_SIZE,
                bytes@.len() == i,
            decreases HEAP_SIZE - i,
        {
            bytes.push(0);
            i = i + 1;
        }
        HeapMemory { bytes }
    }

    /// Store `v` little-endian at the four bytes starting at `addr`.
    pub fn write_u32(&mut self, addr: u64, v: u32)
        requires
            old(self).wf(),
            HEAP_START <= addr,
            addr - HEAP_START + 4 <= HEAP_SIZE,
        ensures
            final(self).wf(),
            forall|j: int|
                0 <= j < HEAP_SIZE && !(Self::spec_offset(addr) <= j < Self::spec_offset(addr)
                    + 4) ==> final(self).bytes@[j] == old(self).bytes@[j],
            forall|k: int|
                0 <= k < 4 ==> final(self).bytes@[Self::spec_offset(addr) + k] == spec_le_byte(
                    v,
                    k,
                ),
    {
        let off = (addr - HEAP_START) as usize;
        self.bytes[off] = (v & 0xff) as u8;
        self.bytes[off + 1] = ((v >> 8) & 0xff) as u8;
        self.bytes[off + 2] = ((v >> 16) & 0xff) as u8;
        self.bytes[off + 3] = ((v >> 24) & 0xff) as u8;
        proof {
            assert forall|k: int| 0 <= k < 4 implies self.bytes@[Self::spec_offset(addr) + k]
                == spec_le_byte(v, k) by {
                assert((v & 0xff) as u8 == ((v >> (8 * 0)) & 0xff) as u8 && ((v >> 8)
                    & 0xff) as u8 == ((v >> (8 * 1)) & 0xff) as u8 && ((v >> 16) & 0xff) as u8 == ((
                v >> (8 * 2)) & 0xff) as u8 && ((v >> 24) & 0xff) as u8 == ((v >> (8 * 3))
                    & 0xff) as u8) by (bit_vector);
            }
        }
    }

    /// Read the 32-bit value laid out little-endian at `addr`.
    pub fn read_u32(&self, addr: u64) -> (r: u32)
        requires
            self.wf(),
            HEAP_START <= addr,
            addr - HEAP_START + 4 <= HEAP_SIZE,
        ensures
            r == spec_u32_at(self.bytes@, Self::spec_offset(addr)),
    {
        let off = (addr - HEAP_START) as usize;
        let b0 = self.bytes[off];
        let b1 = self.bytes[off + 1];
        let b2 = self.bytes[off + 2];
        let b3 = self.bytes[off + 3];
        let r = (b0 as u32) | ((b1 as u32) << 8) | ((b2 as u32) << 16) | ((b3 as u32) << 24);
        proof {
            assert((b0 as u32) | ((b1 as u32) << 8) | ((b2 as u32) << 16) | ((b3 as u32) << 24)
                == (b0 + b1 * 0x100 + b2 * 0x1_0000 + b3 * 0x100_0000) as u32) by (bit_vector);
        }
        r
    }
}

} // verus!
