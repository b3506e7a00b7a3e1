//! Addresses, frames and pages of the four-level paging structure.
//!
//! A virtual address decomposes into four nine-bit table indices and a
//! twelve-bit page offset; its top sixteen bits must sign-extend bit 47
//! (the canonical-address rule). Physical memory is handed out in 4 KiB
//! frames, virtual memory in 4 KiB pages.

use vstd::prelude::*;

use crate::memory::{BootInfoFrameAllocator, lemma_usable_frames_increasing};

verus! {

/// Size of one page or frame in bytes.
pub const PAGE_SIZE: u64 = 4096;

/// Number of entries in one page table.
pub const ENTRY_COUNT: usize = 512;

/// Entry flag: the entry is present.
pub const FLAG_PRESENT: u64 = 1;

/// Entry flag: the mapped memory is writable.
pub const FLAG_WRITABLE: u64 = 2;

/// Entry flag: the entry maps a huge page instead of pointing at the next
/// table level.
pub const FLAG_HUGE_PAGE: u64 = 0x80;

/// Mask of the frame-address bits of a page-table entry.
pub const ENTRY_ADDR_MASK: u64 = 0x000f_ffff_ffff_f000;

/// Exclusive upper bound of the physical address space (52 address bits).
pub const MAX_PHYS_ADDR: u64 = 0x0010_0000_0000_0000;

/// A virtual address obeys the canonical-address rule when bits 48..64
/// are copies of bit 47.
pub open spec fn is_canonical(va: u64) -> bool {
    (va >> 47) == 0 || (va >> 47) == 0x1ffff
}

/// The twelve-bit offset of an address within its page.
pub open spec fn spec_page_offset(va: u64) -> u64 {
    va & 0xfff
}

/// The base address of the page containing `va`.
pub open spec fn spec_page_base(va: u64) -> u64 {
    va & 0xffff_ffff_ffff_f000
}

/// The level-4 table index of `va` (bits 39..48).
pub open spec fn spec_p4_index(va: u64) -> u64 {
    (va >> 39) & 0x1ff
}

/// The level-3 table index of `va` (bits 30..39).
pub open spec fn spec_p3_index(va: u64) -> u64 {
    (va >> 30) & 0x1ff
}

/// The level-2 table index of `va` (bits 21..30).
pub open spec fn spec_p2_index(va: u64) -> u64 {
    (va >> 21) & 0x1ff
}

/// The level-1 table index of `va` (bits 12..21).
pub open spec fn spec_p1_index(va: u64) -> u64 {
    (va >> 12) & 0x1ff
}

/// Whether a page-table entry is present.
pub open spec fn spec_entry_present(e: u64) -> bool {
    e & FLAG_PRESENT == FLAG_PRESENT
}

/// Whether a page-table entry maps a huge page.
pub open spec fn spec_entry_huge(e: u64) -> bool {
    e & FLAG_HUGE_PAGE == FLAG_HUGE_PAGE
}

/// The frame address held in a page-table entry.
pub open spec fn spec_entry_addr(e: u64) -> u64 {
    e & ENTRY_ADDR_MASK
}

/// A 64-bit address in the CPU's linear space.
///
/// Values are only constructed canonical, and every function of this crate
/// keeps them so.
#[derive(PartialEq, Eq, Structural, Clone, Copy, Debug)]
pub struct VirtAddr {
    pub value: u64,
}

impl VirtAddr {
    /// Make a virtual address from a canonical 64-bit value.
    pub fn new(value: u64) -> (r: VirtAddr)
        requires
            is_canonical(value),
        ensures
            r.value == value,
    {
        VirtAddr { value }
    }

    /// Make a virtual address from any 64-bit value, rejecting
    /// non-canonical ones.
    pub fn try_new(value: u64) -> (r: Option<VirtAddr>)
        ensures
            is_canonical(value) ==> r == Some(VirtAddr { value }),
            !is_canonical(value) ==> r is None,
    {
        let high: u64 = value >> 47;
        if high == 0 || high == 0x1ffff {
            Some(VirtAddr { value })
        } else {
            None
        }
    }

    /// The offset of this address within its page.
    pub fn page_offset(self) -> (r: u64)
        ensures
            r == spec_page_offset(self.value),
    {
        self.value & 0xfff
    }

    /// The level-4 table index of this address.
    pub fn p4_index(self) -> (r: usize)
        ensures
            r == spec_p4_index(self.value),
            r < 512,
    {
        proof {
            let v = self.value;
            assert((v >> 39) & 0x1ff < 512) by (bit_vector);
            assert(v == self.value);
        }
        ((self.value >> 39) & 0x1ff) as usize
    }

    /// The level-3 table index of this address.
    pub fn p3_index(self) -> (r: usize)
        ensures
            r == spec_p3_index(self.value),
            r < 512,
    {
        proof {
            let v = self.value;
            assert((v >> 30) & 0x1ff < 512) by (bit_vector);
            assert(v == self.value);
        }
        ((self.value >> 30) & 0x1ff) as usize
    }

    /// The level-2 table index of this address.
    pub fn p2_index(self) -> (r: usize)
        ensures
            r == spec_p2_index(self.value),
            r < 512,
    {
        proof {
            let v = self.value;
            assert((v >> 21) & 0x1ff < 512) by (bit_vector);
            assert(v == self.value);
        }
        ((self.value >> 21) & 0x1ff) as usize
    }

    /// The level-1 table index of this address.
    pub fn p1_index(self) -> (r: usize)
        ensures
            r == spec_p1_index(self.value),
            r < 512,
    {
        proof {
            let v = self.value;
            assert((v >> 12) & 0x1ff < 512) by (bit_vector);
            assert(v == self.value);
        }
        ((self.value >> 12) & 0x1ff) as usize
    }
}

/// A 4 KiB unit of physical memory, named by its base address.
#[derive(PartialEq, Eq, Structural, Clone, Copy, Debug)]
pub struct PhysFrame {
    pub start: u64,
}

impl PhysFrame {
    /// A frame base address is page-aligned and within the physical
    /// address space.
    pub open spec fn wf(self) -> bool {
        &&& self.start % PAGE_SIZE == 0
        &&& self.start < MAX_PHYS_ADDR
    }

    /// The frame containing the given physical address.
    pub fn containing_address(addr: u64) -> (r: PhysFrame)
        requires
            addr < MAX_PHYS_ADDR,
        ensures
            r.start == spec_page_base(addr),
            r.wf(),
    {
        proof {
            assert(addr < 0x0010_0000_0000_0000 ==> (addr & 0xffff_ffff_ffff_f000)
                % 4096 == 0 && (addr & 0xffff_ffff_ffff_f000) < 0x0010_0000_0000_0000)
                by (bit_vector);
        }
        PhysFrame { start: addr & 0xffff_ffff_ffff_f000 }
    }
}

/// A 4 KiB unit of virtual memory, named by its base address.
#[derive(PartialEq, Eq, Structural, Clone, Copy, Debug)]
pub struct Page {
    pub start: u64,
}

impl Page {
    /// A page base address is page-aligned and canonical.
    pub open spec fn wf(self) -> bool {
        &&& self.start % PAGE_SIZE == 0
        &&& is_canonical(self.start)
    }

    /// The page containing the given virtual address.
    pub fn containing_address(addr: VirtAddr) -> (r: Page)
        requires
            is_canonical(addr.value),
        ensures
            r.start == spec_page_base(addr.value),
            r.wf(),
    {
        proof {
            let va = addr.value;
            assert((va & 0xffff_ffff_ffff_f000) % 4096 == 0) by (bit_vector);
            assert(((va >> 47) == 0 || (va >> 47) == 0x1ffff) ==> (((va
                & 0xffff_ffff_ffff_f000) >> 47) == 0 || ((va & 0xffff_ffff_ffff_f000) >> 47)
                == 0x1ffff)) by (bit_vector);
        }
        Page { start: addr.value & 0xffff_ffff_ffff_f000 }
    }
}

/// Ghost image of one page table: its level and its 512 raw entries.
pub ghost struct TableView {
    pub level: int,
    pub entries: Seq<u64>,
}

/// The 512 entries of a freshly zeroed table.
pub open spec fn zero_entries() -> Seq<u64> {
    Seq::new(512, |i: int| 0u64)
}

/// One level of the four-level translation structure, as the model holds
/// it: the physical base address its frame would occupy, its level, and
/// its raw entries.
pub struct SimPageTable {
    pub base: u64,
    pub level: u8,
    pub entries: Vec<u64>,
}

impl SimPageTable {
    /// The ghost image of this table.
    pub open spec fn view_of(self) -> TableView {
        TableView { level: self.level as int, entries: self.entries@ }
    }
}

/// The outcome of walking the page tables for one virtual address.
///
/// An absent entry anywhere on the walk yields `Unmapped`, a normal,
/// expected outcome. A huge-page entry above the final level is
/// unsupported by this walker and reported as such.
#[derive(PartialEq, Eq, Structural, Clone, Copy, Debug)]
pub enum Translation {
    /// The physical address the virtual address maps to.
    Mapped(u64),
    /// No translation exists.
    Unmapped,
    /// The walk met a huge-page entry, which this walker does not handle.
    UnsupportedHugePage,
}

/// Walk the four table levels for `va` over the ghost table map.
///
/// At each level the entry named by the address's nine-bit index field is
/// inspected: absent means unmapped, a huge-page marker above the final
/// level fails fast, and at the final level the entry's frame address plus
/// the address's page offset is the result.
#[verifier::opaque]
pub open spec fn spec_translate(tables: Map<u64, TableView>, root: u64, va: u64) -> Translation {
    if !tables.contains_key(root) {
        Translation::Unmapped
    } else {
        let e4 = tables[root].entries[spec_p4_index(va) as int];
        if !spec_entry_present(e4) {
            Translation::Unmapped
        } else if spec_entry_huge(e4) {
            Translation::UnsupportedHugePage
        } else if !tables.contains_key(spec_entry_addr(e4)) {
            Translation::Unmapped
        } else {
            let e3 = tables[spec_entry_addr(e4)].entries[spec_p3_index(va) as int];
            if !spec_entry_present(e3) {
                Translation::Unmapped
            } else if spec_entry_huge(e3) {
                Translation::UnsupportedHugePage
            } else if !tables.contains_key(spec_entry_addr(e3)) {
                Translation::Unmapped
            } else {
                let e2 = tables[spec_entry_addr(e3)].entries[spec_p2_index(va) as int];
                if !spec_entry_present(e2) {
                    Translation::Unmapped
                } else if spec_entry_huge(e2) {
                    Translation::UnsupportedHugePage
                } else if !tables.contains_key(spec_entry_addr(e2)) {
                    Translation::Unmapped
                } else {
                    let e1 = tables[spec_entry_addr(e2)].entries[spec_p1_index(va) as int];
                    if !spec_entry_present(e1) {
                        Translation::Unmapped
                    } else {
                        Translation::Mapped((spec_entry_addr(e1) + spec_page_offset(va)) as u64)
                    }
                }
            }
        }
    }
}

/// A mapped physical address carries the virtual address's page offset.
///
/// This is the offset half of the translation round-trip law: whatever
/// tables the walk runs over, a successful translation returns an address
/// whose low twelve bits equal those of the translated virtual address.
pub proof fn lemma_translate_offset(tables: Map<u64, TableView>, root: u64, va: u64)
    ensures
        spec_translate(tables, root, va) matches Translation::Mapped(pa) ==> spec_page_offset(pa)
            == spec_page_offset(va),
{
    reveal(spec_translate);
    assert forall|e: u64|
        spec_page_offset((spec_entry_addr(e) + spec_page_offset(va)) as u64) == spec_page_offset(
            va,
        ) by {
        assert(((e & 0x000f_ffff_ffff_f000) + (va & 0xfff)) as u64 & 0xfff == va & 0xfff)
            by (bit_vector);
    }
}

/// Addresses of one page are mapped or unmapped together: the walk reads
/// the same entries for both and only the final page offset differs.
pub proof fn lemma_same_page_same_mapped(m: Map<u64, TableView>, root: u64, va: u64, w: u64)
    requires
        spec_page_base(va) == spec_page_base(w),
    ensures
        spec_translate(m, root, va) is Mapped <==> spec_translate(m, root, w) is Mapped,
{
    reveal(spec_translate);
    lemma_same_page_same_indices(va, w);
}

/// Whether an entry is present.
pub fn entry_present(e: u64) -> (r: bool)
    ensures
        r == spec_entry_present(e),
{
    e & FLAG_PRESENT == FLAG_PRESENT
}

/// Whether an entry maps a huge page.
pub fn entry_huge(e: u64) -> (r: bool)
    ensures
        r == spec_entry_huge(e),
{
    e & FLAG_HUGE_PAGE == FLAG_HUGE_PAGE
}

/// The frame address held in an entry.
pub fn entry_addr(e: u64) -> (r: u64)
    ensures
        r == spec_entry_addr(e),
{
    e & ENTRY_ADDR_MASK
}

/// Bit facts about a composed entry `frame | flags` and about the zero
/// entry, stated once for the mapper's proofs.
proof fn lemma_entry_bits(f: u64, flags: u64)
    by (bit_vector)
    requires
        f % 4096 == 0,
        f < 0x0010_0000_0000_0000,
        flags < 4096,
    ensures
        spec_entry_addr(f | flags) == f,
        spec_entry_present(f | flags) == (flags & 1 == 1),
        spec_entry_huge(f | flags) == (flags & 0x80 == 0x80),
        !spec_entry_present(0),
        !spec_entry_huge(0),
{
}

/// Addresses of one page share all four table indices.
proof fn lemma_same_page_same_indices(va: u64, w: u64)
    by (bit_vector)
    requires
        va & 0xffff_ffff_ffff_f000 == w & 0xffff_ffff_ffff_f000,
    ensures
        spec_p4_index(va) == spec_p4_index(w),
        spec_p3_index(va) == spec_p3_index(w),
        spec_p2_index(va) == spec_p2_index(w),
        spec_p1_index(va) == spec_p1_index(w),
{
}

/// Every table index is a nine-bit value.
proof fn lemma_indices_in_range(va: u64)
    by (bit_vector)
    ensures
        spec_p4_index(va) < 512,
        spec_p3_index(va) < 512,
        spec_p2_index(va) < 512,
        spec_p1_index(va) < 512,
{
}

/// Canonical addresses with equal table indices share their page.
proof fn lemma_same_indices_same_page(va: u64, w: u64)
    by (bit_vector)
    requires
        is_canonical(va),
        is_canonical(w),
        spec_p4_index(va) == spec_p4_index(w),
        spec_p3_index(va) == spec_p3_index(w),
        spec_p2_index(va) == spec_p2_index(w),
        spec_p1_index(va) == spec_p1_index(w),
    ensures
        va & 0xffff_ffff_ffff_f000 == w & 0xffff_ffff_ffff_f000,
{
}

/// Entry `k` of the table at `b` points at a lower-level table.
pub open spec fn map_is_pointer(m: Map<u64, TableView>, b: u64, k: int) -> bool {
    &&& m.contains_key(b)
    &&& m[b].level >= 2
    &&& 0 <= k < 512
    &&& spec_entry_present(m[b].entries[k])
    &&& !spec_entry_huge(m[b].entries[k])
}

/// The table address entry `k` of the table at `b` points at.
pub open spec fn map_pointee(m: Map<u64, TableView>, b: u64, k: int) -> u64 {
    spec_entry_addr(m[b].entries[k])
}

/// The arena's tables form well-levelled trees.
///
/// Every table is page-aligned, bounded, 512 entries long and carries a
/// level between 1 and 4; the root has level 4; every pointer entry of a
/// level-l table names a level-(l-1) table of the arena; and no two
/// pointer entries name the same table, so every table is read at exactly
/// one walk position.
pub open spec fn map_wf(m: Map<u64, TableView>, root: u64) -> bool {
    &&& forall|b: u64|
        #[trigger] m.contains_key(b) ==> 1 <= m[b].level <= 4 && m[b].entries.len() == 512 && b
            % PAGE_SIZE == 0 && b < MAX_PHYS_ADDR
    &&& m.contains_key(root)
    &&& m[root].level == 4
    &&& forall|b: u64, k: int|
        #[trigger] map_is_pointer(m, b, k) ==> m.contains_key(map_pointee(m, b, k)) && m[map_pointee(
            m,
            b,
            k,
        )].level == m[b].level - 1
    &&& forall|b1: u64, k1: int, b2: u64, k2: int|
        #[trigger] map_is_pointer(m, b1, k1) && #[trigger] map_is_pointer(m, b2, k2)
            && map_pointee(m, b1, k1) == map_pointee(m, b2, k2) ==> b1 == b2 && k1 == k2
}

/// The mapper over the model page tables.
///
/// Physical memory is modelled as an arena of page tables, each named by
/// the physical base address its frame would occupy; `table_view` is the
/// ghost image of that arena. `phys_offset` records the virtual base at
/// which the boot contract maps all of physical memory; the model reads
/// its tables from the arena directly, which is exactly what that linear
/// mapping lets the real walker do.
pub struct OffsetMapper {
    pub phys_offset: u64,
    pub root: u64,
    pub tables: Vec<SimPageTable>,
    pub table_view: Ghost<Map<u64, TableView>>,
}

impl OffsetMapper {
    /// The ghost arena this mapper works over.
    pub open spec fn view_map(self) -> Map<u64, TableView> {
        self.table_view@
    }

    /// The table vector and the ghost arena name the same tables.
    pub open spec fn tables_match_view(self) -> bool {
        let m = self.table_view@;
        &&& forall|i: int|
            0 <= i < self.tables.len() ==> m.contains_key((#[trigger] self.tables[i]).base)
                && m[self.tables[i].base] == self.tables[i].view_of()
        &&& forall|i: int, j: int|
            0 <= i < j < self.tables.len() ==> (#[trigger] self.tables[i]).base != (
            #[trigger] self.tables[j]).base
        &&& forall|b: u64|
            #[trigger] self.table_view@.contains_key(b) ==> exists|i: int|
                0 <= i < self.tables.len() && (#[trigger] self.tables[i]).base == b
    }

    /// The mapper's invariant: the vector and the ghost arena agree, and
    /// the arena's tables form well-levelled trees.
    pub open spec fn wf(self) -> bool {
        &&& self.tables_match_view()
        &&& map_wf(self.table_view@, self.root)
    }

    /// The mapper holds exactly one table: an all-zero root.
    pub open spec fn is_pristine(self) -> bool {
        &&& self.table_view@.dom() == Set::<u64>::empty().insert(self.root)
        &&& self.table_view@[self.root].entries == zero_entries()
    }

    /// Locate a table of the arena in the table vector.
    fn find_table(&self, base: u64) -> (r: Option<usize>)
        requires
            self.tables_match_view(),
        ensures
            match r {
                Some(i) => i < self.tables.len() && self.tables[i as int].base == base
                    && self.table_view@.contains_key(base),
                None => !self.table_view@.contains_key(base),
            },
    {
        let mut i: usize = 0;
        while i < self.tables.len()
            invariant
                self.tables_match_view(),
                i <= self.tables.len(),
                forall|j: int| 0 <= j < i ==> (#[trigger] self.tables[j]).base != base,
            decreases self.tables.len() - i,
        {
            if self.tables[i].base == base {
                return Some(i);
            }
            i = i + 1;
        }
        None
    }

    /// Walk the four table levels and translate `addr`, without touching
    /// the tables.
    ///
    /// An absent entry yields `Unmapped`; a huge-page entry above the
    /// final level yields `UnsupportedHugePage`; otherwise the mapped
    /// physical address is the final entry's frame base plus the
    /// address's page offset.
    pub fn translate_addr(&self, addr: VirtAddr) -> (r: Translation)
        requires
            self.wf(),
        ensures
            r == spec_translate(self.table_view@, self.root, addr.value),
    {
        proof {
            reveal(spec_translate);
        }
        let mut base = self.root;
        let i4 = addr.p4_index();
        let i3 = addr.p3_index();
        let i2 = addr.p2_index();
        let i1 = addr.p1_index();

        // Level 4.
        let t4 = match self.find_table(base) {
            Some(t) => t,
            None => { return Translation::Unmapped; },
        };
        let e4: u64 = self.tables[t4].entries[i4];
        if !entry_present(e4) {
            return Translation::Unmapped;
        }
        if entry_huge(e4) {
            return Translation::UnsupportedHugePage;
        }
        base = entry_addr(e4);

        // Level 3.
        let t3 = match self.find_table(base) {
            Some(t) => t,
            None => { return Translation::Unmapped; },
        };
        let e3: u64 = self.tables[t3].entries[i3];
        if !entry_present(e3) {
            return Translation::Unmapped;
        }
        if entry_huge(e3) {
            return Translation::UnsupportedHugePage;
        }
        base = entry_addr(e3);

        // Level 2.
        let t2 = match self.find_table(base) {
            Some(t) => t,
            None => { return Translation::Unmapped; },
        };
        let e2: u64 = self.tables[t2].entries[i2];
        if !entry_present(e2) {
            return Translation::Unmapped;
        }
        if entry_huge(e2) {
            return Translation::UnsupportedHugePage;
        }
        base = entry_addr(e2);

        // Level 1.
        let t1 = match self.find_table(base) {
            Some(t) => t,
            None => { return Translation::Unmapped; },
        };
        let e1: u64 = self.tables[t1].entries[i1];
        if !entry_present(e1) {
            return Translation::Unmapped;
        }
        proof {
            let v = addr.value;
            assert((e1 & 0x000f_ffff_ffff_f000) + (v & 0xfff) <= 0x000f_ffff_ffff_ffff)
                by (bit_vector);
        }
        Translation::Mapped(entry_addr(e1) + addr.page_offset())
    }
}

/// Fill a fresh table's 512 entries with zero.
fn zero_entries_vec() -> (r: Vec<u64>)
    ensures
        r@ == zero_entries(),
{
    let mut v: Vec<u64> = Vec::new();
    let mut i: usize = 0;
    while i < ENTRY_COUNT
        invariant
            i <= 512,
            v@.len() == i,
            forall|j: int| 0 <= j < i ==> v@[j] == 0u64,
        decreases 512 - i,
    {
        v.push(0);
        i = i + 1;
    }
    proof {
        assert(v@ =~= zero_entries());
    }
    v
}

/// Build the mapper for the active address space; the worker behind
/// `memory::init`.
pub(crate) fn make_mapper(physical_memory_offset: u64, root_frame: PhysFrame) -> (r: OffsetMapper)
    requires
        root_frame.wf(),
    ensures
        r.wf(),
        r.is_pristine(),
        r.root == root_frame.start,
        r.phys_offset == physical_memory_offset,
        forall|va: u64| spec_translate(r.table_view@, r.root, va) == Translation::Unmapped,
{
    let entries = zero_entries_vec();
    let root_table = SimPageTable { base: root_frame.start, level: 4, entries };
    let ghost m = Map::<u64, TableView>::empty().insert(
        root_frame.start,
        TableView { level: 4, entries: zero_entries() },
    );
    let mapper = OffsetMapper {
        phys_offset: physical_memory_offset,
        root: root_frame.start,
        tables: vec![root_table],
        table_view: Ghost(m),
    };
    proof {
        assert(mapper.tables[0].base == root_frame.start);
        assert(forall|b: u64| #[trigger] m.contains_key(b) ==> b == root_frame.start);
        assert(!spec_entry_present(0u64)) by (bit_vector);
        assert(forall|b: u64, k: int| map_is_pointer(m, b, k) ==> false);
        assert(m.dom() =~= Set::<u64>::empty().insert(root_frame.start));
        assert forall|va: u64|
            spec_translate(m, root_frame.start, va) == Translation::Unmapped by {
            reveal(spec_translate);
            lemma_indices_in_range(va);
            assert(m[root_frame.start].entries[spec_p4_index(va) as int] == 0u64);
        }
    }
    mapper
}

/// Adding a fresh all-zero table to the arena changes no translation:
/// walks never reached the fresh table before, and in it they only read
/// absent entries.
proof fn lemma_insert_zero_preserves(
    m: Map<u64, TableView>,
    root: u64,
    f: u64,
    lvl: int,
    va: u64,
)
    requires
        !m.contains_key(f),
    ensures
        spec_translate(m.insert(f, TableView { level: lvl, entries: zero_entries() }), root, va)
            == spec_translate(m, root, va),
{
    reveal(spec_translate);
    lemma_indices_in_range(va);
    assert(!spec_entry_present(0u64)) by (bit_vector);
}

/// Turning an absent entry of a level-2-or-higher table into a pointer at
/// an all-zero table changes no translation: walks through that entry
/// found nothing before and find only absent entries behind it now, and
/// the level discipline keeps the entry away from the final walk position.
proof fn lemma_set_pointer_preserves(
    m: Map<u64, TableView>,
    root: u64,
    parent: u64,
    k: int,
    f: u64,
    lvl: int,
    va: u64,
)
    requires
        map_wf(m, root),
        m.contains_key(parent),
        m[parent].level >= 2,
        0 <= k < 512,
        !spec_entry_present(m[parent].entries[k]),
        m.contains_key(f),
        m[f].entries == zero_entries(),
        f != parent,
        f % PAGE_SIZE == 0,
        f < MAX_PHYS_ADDR,
    ensures
        spec_translate(
            m.insert(
                parent,
                TableView {
                    level: m[parent].level,
                    entries: m[parent].entries.update(k, f | (FLAG_PRESENT | FLAG_WRITABLE)),
                },
            ),
            root,
            va,
        ) == spec_translate(m, root, va),
{
    reveal(spec_translate);
    lemma_indices_in_range(va);
    assert((FLAG_PRESENT | FLAG_WRITABLE) == 3u64 && 3u64 & 1 == 1 && 3u64 & 0x80 != 0x80)
        by (bit_vector);
    lemma_entry_bits(f, FLAG_PRESENT | FLAG_WRITABLE);
    assert(!spec_entry_present(0u64)) by (bit_vector);
    let m2 = m.insert(
        parent,
        TableView {
            level: m[parent].level,
            entries: m[parent].entries.update(k, f | (FLAG_PRESENT | FLAG_WRITABLE)),
        },
    );
    let i4 = spec_p4_index(va) as int;
    let i3 = spec_p3_index(va) as int;
    let i2 = spec_p2_index(va) as int;
    let i1 = spec_p1_index(va) as int;
    if m.contains_key(root) {
        let e4 = m[root].entries[i4];
        let e4n = m2[root].entries[i4];
        if root == parent && i4 == k {
            // Walk dies here in m; in m2 it continues into the zero table.
            assert(spec_translate(m, root, va) == Translation::Unmapped);
            assert(e4n == (f | (FLAG_PRESENT | FLAG_WRITABLE)));
            assert(m2[f].entries[i3] == 0u64);
            assert(spec_translate(m2, root, va) == Translation::Unmapped);
        } else {
            assert(e4n == e4);
            if spec_entry_present(e4) && !spec_entry_huge(e4) {
                assert(map_is_pointer(m, root, i4));
                let b3 = spec_entry_addr(e4);
                assert(m.contains_key(b3) && m[b3].level == 3);
                let e3 = m[b3].entries[i3];
                let e3n = m2[b3].entries[i3];
                if b3 == parent && i3 == k {
                    assert(m[parent].level == 3);
                    assert(spec_translate(m, root, va) == Translation::Unmapped);
                    assert(m2[f].entries[i2] == 0u64);
                    assert(spec_translate(m2, root, va) == Translation::Unmapped);
                } else {
                    assert(e3n == e3);
                    if spec_entry_present(e3) && !spec_entry_huge(e3) {
                        assert(map_is_pointer(m, b3, i3));
                        let b2 = spec_entry_addr(e3);
                        assert(m.contains_key(b2) && m[b2].level == 2);
                        let e2 = m[b2].entries[i2];
                        let e2n = m2[b2].entries[i2];
                        if b2 == parent && i2 == k {
                            assert(spec_translate(m, root, va) == Translation::Unmapped);
                            assert(m2[f].entries[i1] == 0u64);
                            assert(spec_translate(m2, root, va) == Translation::Unmapped);
                        } else {
                            assert(e2n == e2);
                            if spec_entry_present(e2) && !spec_entry_huge(e2) {
                                assert(map_is_pointer(m, b2, i2));
                                let b1 = spec_entry_addr(e2);
                                assert(m.contains_key(b1) && m[b1].level == 1);
                                // A level-1 table is never the updated parent.
                                assert(b1 != parent);
                                assert(m2[b1] == m[b1]);
                                assert(spec_translate(m2, root, va) == spec_translate(m, root, va));
                            }
                        }
                    }
                }
            }
        }
    } else {
        assert(root != parent);
        assert(!m2.contains_key(root));
    }
}

/// After the final-level entry for `page` is written, every address of
/// that page translates to the written frame plus its page offset.
proof fn lemma_set_leaf_target(
    m: Map<u64, TableView>,
    root: u64,
    b3: u64,
    b2: u64,
    b1: u64,
    page: u64,
    frame: u64,
    flags: u64,
    va: u64,
)
    requires
        map_wf(m, root),
        page % PAGE_SIZE == 0,
        is_canonical(page),
        map_is_pointer(m, root, spec_p4_index(page) as int),
        map_pointee(m, root, spec_p4_index(page) as int) == b3,
        map_is_pointer(m, b3, spec_p3_index(page) as int),
        map_pointee(m, b3, spec_p3_index(page) as int) == b2,
        map_is_pointer(m, b2, spec_p2_index(page) as int),
        map_pointee(m, b2, spec_p2_index(page) as int) == b1,
        frame % PAGE_SIZE == 0,
        frame < MAX_PHYS_ADDR,
        flags < 4096,
        flags & FLAG_PRESENT == FLAG_PRESENT,
        is_canonical(va),
        spec_page_base(va) == page,
    ensures
        spec_translate(
            m.insert(
                b1,
                TableView {
                    level: m[b1].level,
                    entries: m[b1].entries.update(
                        spec_p1_index(page) as int,
                        frame | flags,
                    ),
                },
            ),
            root,
            va,
        ) == Translation::Mapped((frame + spec_page_offset(va)) as u64),
{
    reveal(spec_translate);
    lemma_indices_in_range(va);
    lemma_indices_in_range(page);
    lemma_entry_bits(frame, flags);
    assert(m[b3].level == 3 && m[b2].level == 2 && m[b1].level == 1);
    assert(va & 0xffff_ffff_ffff_f000 == page & 0xffff_ffff_ffff_f000) by (bit_vector)
        requires
            va & 0xffff_ffff_ffff_f000 == page,
            page % 4096 == 0,
    ;
    lemma_same_page_same_indices(va, page);
    let m2 = m.insert(
        b1,
        TableView {
            level: m[b1].level,
            entries: m[b1].entries.update(spec_p1_index(page) as int, frame | flags),
        },
    );
    assert(b1 != root && b1 != b3 && b1 != b2);
    assert(m2[root] == m[root] && m2[b3] == m[b3] && m2[b2] == m[b2]);
    assert(m2[b1].entries[spec_p1_index(va) as int] == (frame | flags));
}

/// Writing the final-level entry for `page` leaves the translation of
/// every other page unchanged.
///
/// A walk that read the written entry would, by the arena's injectivity,
/// have followed the same pointer chain and therefore carry the same four
/// indices, which for canonical addresses forces the same page.
proof fn lemma_set_leaf_other(
    m: Map<u64, TableView>,
    root: u64,
    b3: u64,
    b2: u64,
    b1: u64,
    page: u64,
    frame: u64,
    flags: u64,
    va: u64,
)
    requires
        map_wf(m, root),
        page % PAGE_SIZE == 0,
        is_canonical(page),
        map_is_pointer(m, root, spec_p4_index(page) as int),
        map_pointee(m, root, spec_p4_index(page) as int) == b3,
        map_is_pointer(m, b3, spec_p3_index(page) as int),
        map_pointee(m, b3, spec_p3_index(page) as int) == b2,
        map_is_pointer(m, b2, spec_p2_index(page) as int),
        map_pointee(m, b2, spec_p2_index(page) as int) == b1,
        is_canonical(va),
        spec_page_base(va) != page,
    ensures
        spec_translate(
            m.insert(
                b1,
                TableView {
                    level: m[b1].level,
                    entries: m[b1].entries.update(
                        spec_p1_index(page) as int,
                        frame | flags,
                    ),
                },
            ),
            root,
            va,
        ) == spec_translate(m, root, va),
{
    reveal(spec_translate);
    lemma_indices_in_range(va);
    lemma_indices_in_range(page);
    assert(m[b3].level == 3 && m[b2].level == 2 && m[b1].level == 1);
    let k = spec_p1_index(page) as int;
    let m2 = m.insert(
        b1,
        TableView { level: m[b1].level, entries: m[b1].entries.update(k, frame | flags) },
    );
    let i4 = spec_p4_index(va) as int;
    let i3 = spec_p3_index(va) as int;
    let i2 = spec_p2_index(va) as int;
    let i1 = spec_p1_index(va) as int;
    assert(b1 != root && b1 != b3 && b1 != b2);
    assert(m2[root] == m[root]);
    let e4 = m[root].entries[i4];
    if spec_entry_present(e4) && !spec_entry_huge(e4) {
        assert(map_is_pointer(m, root, i4));
        let x3 = spec_entry_addr(e4);
        assert(m.contains_key(x3) && m[x3].level == 3);
        assert(x3 != b1);
        assert(m2[x3] == m[x3]);
        let e3 = m[x3].entries[i3];
        if spec_entry_present(e3) && !spec_entry_huge(e3) {
            assert(map_is_pointer(m, x3, i3));
            let x2 = spec_entry_addr(e3);
            assert(m.contains_key(x2) && m[x2].level == 2);
            assert(x2 != b1);
            assert(m2[x2] == m[x2]);
            let e2 = m[x2].entries[i2];
            if spec_entry_present(e2) && !spec_entry_huge(e2) {
                assert(map_is_pointer(m, x2, i2));
                let x1 = spec_entry_addr(e2);
                assert(m.contains_key(x1) && m[x1].level == 1);
                if x1 == b1 {
                    // The walk reaches the written table: by injectivity it
                    // followed the same pointers, so all indices match.
                    assert(map_pointee(m, x2, i2) == map_pointee(m, b2, spec_p2_index(page) as int));
                    assert(x2 == b2 && i2 == spec_p2_index(page) as int);
                    assert(map_pointee(m, x3, i3) == map_pointee(m, b3, spec_p3_index(page) as int));
                    assert(x3 == b3 && i3 == spec_p3_index(page) as int);
                    assert(map_pointee(m, root, i4) == map_pointee(
                        m,
                        root,
                        spec_p4_index(page) as int,
                    ));
                    assert(i4 == spec_p4_index(page) as int);
                    if i1 == k {
                        // All four indices equal would put va on `page`.
                        lemma_same_indices_same_page(va, page);
                        assert(spec_page_base(page) == page) by (bit_vector)
                            requires
                                page % 4096 == 0,
                        ;
                        assert(false);
                    }
                    assert(m2[b1].entries[i1] == m[b1].entries[i1]);
                } else {
                    assert(m2[x1] == m[x1]);
                }
            }
        }
    }
}

/// Why a mapping attempt failed.
#[derive(PartialEq, Eq, Structural, Clone, Copy, Debug)]
pub enum MapToError {
    /// The frame allocator had no frame left for a page table or could
    /// not back the page.
    FrameAllocationFailed,
    /// The walk met a huge-page entry above the final level.
    ParentEntryHugePage,
    /// The final-level entry for the page is already in use.
    PageAlreadyMapped,
}

/// The frames the allocator has yet to hand out name no table of the
/// arena, so a freshly allocated frame can carry a fresh table.
pub open spec fn frames_fresh(alloc: BootInfoFrameAllocator, m: Map<u64, TableView>) -> bool {
    forall|j: int|
        alloc.next <= j < alloc.spec_usable_frames().len() ==> !m.contains_key(
            #[trigger] alloc.spec_usable_frames()[j],
        )
}

/// `m2` keeps every table of `m1` at its level and every present entry
/// unchanged; mapping only fills absent entries and adds tables.
pub open spec fn map_preserves_entries(m1: Map<u64, TableView>, m2: Map<u64, TableView>) -> bool {
    forall|b: u64|
        #[trigger] m1.contains_key(b) ==> m2.contains_key(b) && m2[b].level == m1[b].level
            && (forall|k: int|
            0 <= k < 512 && spec_entry_present(#[trigger] m1[b].entries[k]) ==> m2[b].entries[k]
                == m1[b].entries[k])
}

/// Every entry present in `m2` but not in `m1` is writable: whatever a
/// mapping operation added, it added with write permission.
pub open spec fn new_entries_writable(m1: Map<u64, TableView>, m2: Map<u64, TableView>) -> bool {
    forall|b: u64, j: int|
        #![trigger m2[b].entries[j]]
        m2.contains_key(b) && 0 <= j < 512 && spec_entry_present(m2[b].entries[j]) && !(
        m1.contains_key(b) && spec_entry_present(m1[b].entries[j])) ==> m2[b].entries[j]
            & FLAG_WRITABLE == FLAG_WRITABLE
}

/// Writability of new entries composes across two mapping steps that
/// never overwrite present entries.
pub proof fn lemma_new_entries_writable_trans(
    m0: Map<u64, TableView>,
    m1: Map<u64, TableView>,
    m2: Map<u64, TableView>,
)
    requires
        new_entries_writable(m0, m1),
        new_entries_writable(m1, m2),
        map_preserves_entries(m1, m2),
    ensures
        new_entries_writable(m0, m2),
{
    assert forall|b: u64, j: int|
        #![trigger m2[b].entries[j]]
        m2.contains_key(b) && 0 <= j < 512 && spec_entry_present(m2[b].entries[j]) && !(
        m0.contains_key(b) && spec_entry_present(m0[b].entries[j])) implies m2[b].entries[j]
        & FLAG_WRITABLE == FLAG_WRITABLE by {
        if m1.contains_key(b) && spec_entry_present(m1[b].entries[j]) {
            assert(m2[b].entries[j] == m1[b].entries[j]);
            assert(m1[b].entries[j] & FLAG_WRITABLE == FLAG_WRITABLE);
        }
    }
}

/// No table above the final level holds a huge-page entry.
pub open spec fn no_huge(m: Map<u64, TableView>) -> bool {
    forall|b: u64, k: int|
        #![trigger m[b].entries[k]]
        m.contains_key(b) && m[b].level >= 2 && 0 <= k < 512 ==> !spec_entry_huge(
            m[b].entries[k],
        )
}

impl OffsetMapper {
    /// Follow entry `idx` of the table at `parent` one level down,
    /// creating the missing child table from a freshly allocated frame if
    /// the entry is absent.
    fn descend(
        &mut self,
        parent: u64,
        idx: usize,
        frame_allocator: &mut BootInfoFrameAllocator,
    ) -> (r: Result<u64, MapToError>)
        requires
            old(self).wf(),
            old(self).table_view@.contains_key(parent),
            old(self).table_view@[parent].level >= 2,
            idx < 512,
            old(frame_allocator).wf(),
            old(frame_allocator).next < usize::MAX,
            frames_fresh(*old(frame_allocator), old(self).table_view@),
        ensures
            final(self).wf(),
            final(self).root == old(self).root,
            final(self).phys_offset == old(self).phys_offset,
            final(frame_allocator).wf(),
            final(frame_allocator).memory_map == old(frame_allocator).memory_map,
            old(frame_allocator).next <= final(frame_allocator).next <= old(frame_allocator).next
                + 1,
            frames_fresh(*final(frame_allocator), final(self).table_view@),
            forall|va: u64|
                spec_translate(final(self).table_view@, old(self).root, va) == spec_translate(
                    old(self).table_view@,
                    old(self).root,
                    va,
                ),
            map_preserves_entries(old(self).table_view@, final(self).table_view@),
            new_entries_writable(old(self).table_view@, final(self).table_view@),
            no_huge(old(self).table_view@) ==> no_huge(final(self).table_view@),
            match r {
                Ok(c) => {
                    &&& final(self).table_view@.contains_key(c)
                    &&& final(self).table_view@[c].level == old(self).table_view@[parent].level - 1
                    &&& map_is_pointer(final(self).table_view@, parent, idx as int)
                    &&& map_pointee(final(self).table_view@, parent, idx as int) == c
                    &&& (spec_entry_present(old(self).table_view@[parent].entries[idx as int])
                        ==> final(self).table_view@ == old(self).table_view@
                        && *final(frame_allocator) == *old(frame_allocator))
                    &&& (!spec_entry_present(old(self).table_view@[parent].entries[idx as int])
                        ==> final(frame_allocator).next == old(frame_allocator).next + 1
                        && !old(self).table_view@.contains_key(c)
                        && final(self).table_view@[c].entries == zero_entries()
                        && final(self).table_view@.dom()
                        == old(self).table_view@.dom().insert(c))
                },
                Err(e) => {
                    &&& final(self).table_view@ == old(self).table_view@
                    &&& e != MapToError::PageAlreadyMapped
                    &&& (e == MapToError::ParentEntryHugePage <==> spec_entry_present(
                        old(self).table_view@[parent].entries[idx as int],
                    ) && spec_entry_huge(old(self).table_view@[parent].entries[idx as int]))
                    &&& (e == MapToError::ParentEntryHugePage
                        ==> *final(frame_allocator) == *old(frame_allocator))
                    &&& (e == MapToError::FrameAllocationFailed ==> !spec_entry_present(
                        old(self).table_view@[parent].entries[idx as int],
                    ) && old(frame_allocator).next >= old(frame_allocator).spec_usable_frames().len()
                        && final(frame_allocator).next == old(frame_allocator).next + 1)
                },
            },
    {
        let ghost m = self.table_view@;
        let ti = match self.find_table(parent) {
            Some(t) => t,
            None => {
                return vstd::pervasive::unreached();
            },
        };
        let e: u64 = self.tables[ti].entries[idx];
        if entry_present(e) {
            if entry_huge(e) {
                return Err(MapToError::ParentEntryHugePage);
            }
            let c = entry_addr(e);
            proof {
                assert(map_is_pointer(m, parent, idx as int));
            }
            return Ok(c);
        }
        let f = match frame_allocator.allocate_frame() {
            Some(f) => f,
            None => {
                return Err(MapToError::FrameAllocationFailed);
            },
        };
        let child_level = self.tables[ti].level - 1;
        let zeros = zero_entries_vec();
        self.tables.push(SimPageTable { base: f.start, level: child_level, entries: zeros });
        let val = f.start | (FLAG_PRESENT | FLAG_WRITABLE);
        self.tables[ti].entries[idx] = val;
        proof {
            let plevel = m[parent].level;
            let m1 = m.insert(f.start, TableView { level: plevel - 1, entries: zero_entries() });
            let m2 = m1.insert(
                parent,
                TableView {
                    level: plevel,
                    entries: m[parent].entries.update(idx as int, val),
                },
            );
            self.table_view@ = m2;
            assert((FLAG_PRESENT | FLAG_WRITABLE) == 3u64 && 3u64 & 1 == 1 && 3u64 & 0x80 != 0x80)
                by (bit_vector);
            lemma_entry_bits(f.start, FLAG_PRESENT | FLAG_WRITABLE);
            // The fresh frame names no existing table.
            assert(!m.contains_key(f.start));
            assert(f.start != parent);
            // The vector and the new ghost arena still agree.
            let n0 = old(self).tables.len() as int;
            assert(self.tables.len() == n0 + 1);
            assert(old(self).tables[ti as int].base == parent);
            assert forall|i: int| 0 <= i < self.tables.len() implies m2.contains_key(
                (#[trigger] self.tables[i]).base,
            ) && m2[self.tables[i].base] == self.tables[i].view_of() by {
                if i == ti {
                    assert(self.tables[i].base == parent);
                    assert(self.tables[i].entries@ == m[parent].entries.update(idx as int, val));
                    assert(self.tables[i].level == old(self).tables[i].level);
                } else if i == n0 {
                    assert(self.tables[i].base == f.start);
                } else {
                    assert(self.tables[i] == old(self).tables[i]);
                    assert(m.contains_key(self.tables[i].base));
                    assert(self.tables[i].base != parent);
                    assert(self.tables[i].base != f.start);
                    assert(m2[self.tables[i].base] == m[self.tables[i].base]);
                }
            }
            assert forall|i: int, j: int| 0 <= i < j < self.tables.len() implies (
            #[trigger] self.tables[i]).base != (#[trigger] self.tables[j]).base by {
                if j == n0 {
                    assert(self.tables[i].base == old(self).tables[i].base);
                    assert(m.contains_key(old(self).tables[i].base));
                    assert(self.tables[j].base == f.start);
                } else {
                    assert(self.tables[i].base == old(self).tables[i].base);
                    assert(self.tables[j].base == old(self).tables[j].base);
                }
            }
            assert forall|b: u64| #[trigger] m2.contains_key(b) implies exists|i: int|
                0 <= i < self.tables.len() && (#[trigger] self.tables[i]).base == b by {
                if b == f.start {
                    assert(self.tables[n0].base == b);
                } else {
                    assert(m.contains_key(b));
                    let i0 = choose|i: int|
                        0 <= i < old(self).tables.len() && (#[trigger] old(
                            self,
                        ).tables[i]).base == b;
                    assert(self.tables[i0].base == b);
                }
            }
            assert(self.tables_match_view());
            // Level bookkeeping and tree shape survive.
            assert forall|b: u64, k: int| #[trigger]
                map_is_pointer(m2, b, k) implies m2.contains_key(map_pointee(m2, b, k))
                && m2[map_pointee(m2, b, k)].level == m2[b].level - 1 by {
                if b == f.start {
                    assert(m2[b].entries[k] == 0u64);
                    assert(!spec_entry_present(0u64)) by (bit_vector);
                } else if b == parent && k == idx as int {
                    assert(map_pointee(m2, b, k) == f.start);
                } else {
                    assert(m2[b].entries[k] == m[b].entries[k]);
                    assert(map_is_pointer(m, b, k));
                }
            }
            assert forall|b1: u64, k1: int, b2: u64, k2: int| #[trigger]
                map_is_pointer(m2, b1, k1) && #[trigger] map_is_pointer(m2, b2, k2)
                && map_pointee(m2, b1, k1) == map_pointee(m2, b2, k2) implies b1 == b2 && k1
                == k2 by {
                assert(!spec_entry_present(0u64)) by (bit_vector);
                if b1 == parent && k1 == idx as int {
                    if !(b2 == parent && k2 == idx as int) {
                        assert(m2[b2].entries[k2] == m[b2].entries[k2]);
                        assert(map_is_pointer(m, b2, k2));
                        assert(m.contains_key(map_pointee(m, b2, k2)));
                        assert(false);
                    }
                } else if b2 == parent && k2 == idx as int {
                    assert(m2[b1].entries[k1] == m[b1].entries[k1]);
                    assert(map_is_pointer(m, b1, k1));
                    assert(m.contains_key(map_pointee(m, b1, k1)));
                    assert(false);
                } else {
                    assert(m2[b1].entries[k1] == m[b1].entries[k1]);
                    assert(m2[b2].entries[k2] == m[b2].entries[k2]);
                    assert(map_is_pointer(m, b1, k1) && map_is_pointer(m, b2, k2));
                }
            }
            assert(map_wf(m2, self.root));
            // The arena with just the zero table added is itself
            // well-levelled, which the pointer-update lemma needs.
            assert forall|b: u64, k: int| #[trigger]
                map_is_pointer(m1, b, k) implies m1.contains_key(map_pointee(m1, b, k))
                && m1[map_pointee(m1, b, k)].level == m1[b].level - 1 by {
                assert(!spec_entry_present(0u64)) by (bit_vector);
                if b != f.start {
                    assert(m1[b] == m[b]);
                    assert(map_is_pointer(m, b, k));
                    assert(map_pointee(m, b, k) != f.start);
                }
            }
            assert forall|b1: u64, k1: int, b2: u64, k2: int| #[trigger]
                map_is_pointer(m1, b1, k1) && #[trigger] map_is_pointer(m1, b2, k2)
                && map_pointee(m1, b1, k1) == map_pointee(m1, b2, k2) implies b1 == b2 && k1
                == k2 by {
                assert(!spec_entry_present(0u64)) by (bit_vector);
                assert(b1 != f.start && b2 != f.start);
                assert(map_is_pointer(m, b1, k1) && map_is_pointer(m, b2, k2));
            }
            assert(map_wf(m1, old(self).root));
            // No translation moved.
            assert forall|va: u64|
                spec_translate(m2, old(self).root, va) == spec_translate(
                    m,
                    old(self).root,
                    va,
                ) by {
                lemma_insert_zero_preserves(m, old(self).root, f.start, plevel - 1, va);
                lemma_set_pointer_preserves(
                    m1,
                    old(self).root,
                    parent,
                    idx as int,
                    f.start,
                    plevel - 1,
                    va,
                );
            }
            // The remaining frames are still fresh for the grown arena.
            assert forall|j: int|
                frame_allocator.next <= j
                    < frame_allocator.spec_usable_frames().len() implies !m2.contains_key(
                #[trigger] frame_allocator.spec_usable_frames()[j],
            ) by {
                lemma_usable_frames_increasing(frame_allocator.memory_map@);
                assert(frame_allocator.spec_usable_frames()[j] != f.start);
            }
            assert(m2.dom() =~= m.dom().insert(f.start));
            // The one entry this step added is the pointer at the parent,
            // and it carries the writable flag.
            assert(val & FLAG_WRITABLE == FLAG_WRITABLE) by {
                let fs = f.start;
                assert((fs | (FLAG_PRESENT | FLAG_WRITABLE)) & FLAG_WRITABLE == FLAG_WRITABLE)
                    by (bit_vector);
            }
            assert forall|b: u64, j: int|
                #![trigger m2[b].entries[j]]
                m2.contains_key(b) && 0 <= j < 512 && spec_entry_present(m2[b].entries[j]) && !(
                m.contains_key(b) && spec_entry_present(m[b].entries[j])) implies m2[b].entries[j]
                & FLAG_WRITABLE == FLAG_WRITABLE by {
                assert(!spec_entry_present(0u64)) by (bit_vector);
                if b == f.start {
                    assert(m2[b].entries[j] == 0u64);
                } else if b == parent {
                    assert(j == idx as int);
                }
            }
        }
        Ok(f.start)
    }
}

/// The three intermediate tables for `va`'s walk are present and chained.
pub open spec fn tables_ready(m: Map<u64, TableView>, root: u64, va: u64) -> bool {
    let e4 = m[root].entries[spec_p4_index(va) as int];
    let e3 = m[spec_entry_addr(e4)].entries[spec_p3_index(va) as int];
    let e2 = m[spec_entry_addr(e3)].entries[spec_p2_index(va) as int];
    &&& m.contains_key(root)
    &&& spec_entry_present(e4)
    &&& !spec_entry_huge(e4)
    &&& m.contains_key(spec_entry_addr(e4))
    &&& spec_entry_present(e3)
    &&& !spec_entry_huge(e3)
    &&& m.contains_key(spec_entry_addr(e3))
    &&& spec_entry_present(e2)
    &&& !spec_entry_huge(e2)
    &&& m.contains_key(spec_entry_addr(e2))
}


/// Effects of writing the final-level entry for `page`: the page maps to
/// the frame, every other translation stands, and the arena stays
/// well-levelled.
#[verifier::rlimit(100)]
proof fn lemma_leaf_write(
    m: Map<u64, TableView>,
    root: u64,
    b3: u64,
    b2: u64,
    b1: u64,
    page: u64,
    frame: u64,
    flags: u64,
)
    requires
        map_wf(m, root),
        page % PAGE_SIZE == 0,
        is_canonical(page),
        map_is_pointer(m, root, spec_p4_index(page) as int),
        map_pointee(m, root, spec_p4_index(page) as int) == b3,
        map_is_pointer(m, b3, spec_p3_index(page) as int),
        map_pointee(m, b3, spec_p3_index(page) as int) == b2,
        map_is_pointer(m, b2, spec_p2_index(page) as int),
        map_pointee(m, b2, spec_p2_index(page) as int) == b1,
        !spec_entry_present(m[b1].entries[spec_p1_index(page) as int]),
        frame % PAGE_SIZE == 0,
        frame < MAX_PHYS_ADDR,
        flags < 4096,
        flags & FLAG_PRESENT == FLAG_PRESENT,
    ensures
        ({
            let m4 = m.insert(
                b1,
                TableView {
                    level: m[b1].level,
                    entries: m[b1].entries.update(
                        spec_p1_index(page) as int,
                        frame | flags,
                    ),
                },
            );
            &&& map_wf(m4, root)
            &&& m4.dom() == m.dom()
            &&& forall|va: u64|
                is_canonical(va) && spec_page_base(va) == page ==> spec_translate(m4, root, va)
                    == Translation::Mapped((frame + spec_page_offset(va)) as u64)
            &&& forall|va: u64|
                is_canonical(va) && spec_page_base(va) != page ==> spec_translate(m4, root, va)
                    == spec_translate(m, root, va)
            &&& spec_translate(m4, root, page) == Translation::Mapped(frame)
            &&& spec_translate(m, root, page) == Translation::Unmapped
            &&& tables_ready(m4, root, page)
            &&& (no_huge(m) ==> no_huge(m4))
            &&& map_preserves_entries(m, m4)
        }),
{
    lemma_indices_in_range(page);
    lemma_entry_bits(frame, flags);
    assert(m[b3].level == 3 && m[b2].level == 2 && m[b1].level == 1);
    assert(b1 != root && b1 != b3 && b1 != b2);
    let k = spec_p1_index(page) as int;
    let m4 = m.insert(
        b1,
        TableView { level: m[b1].level, entries: m[b1].entries.update(k, frame | flags) },
    );
    assert(spec_page_base(page) == page && spec_page_offset(page) == 0) by {
        let pg = page;
        assert(pg % 4096 == 0 ==> (pg & 0xffff_ffff_ffff_f000) == pg && pg & 0xfff == 0)
            by (bit_vector);
    }
    // Only a final-level table changed, so the tree shape stands.
    assert forall|b: u64, k2: int| #[trigger]
        map_is_pointer(m4, b, k2) implies map_is_pointer(m, b, k2) && map_pointee(m4, b, k2)
        == map_pointee(m, b, k2) by {
        assert(b != b1);
        assert(m4[b] == m[b]);
    }
    assert(map_wf(m4, root));
    assert forall|va: u64| is_canonical(va) && spec_page_base(va) == page
        implies spec_translate(m4, root, va) == Translation::Mapped(
        (frame + spec_page_offset(va)) as u64,
    ) by {
        lemma_set_leaf_target(m, root, b3, b2, b1, page, frame, flags, va);
    }
    assert forall|va: u64| is_canonical(va) && spec_page_base(va) != page
        implies spec_translate(m4, root, va) == spec_translate(m, root, va) by {
        lemma_set_leaf_other(m, root, b3, b2, b1, page, frame, flags, va);
    }
    assert(spec_translate(m4, root, page) == Translation::Mapped(frame)) by {
        reveal(spec_translate);
    }
    assert(spec_translate(m, root, page) == Translation::Unmapped) by {
        reveal(spec_translate);
    }
    assert(m4.dom() =~= m.dom());
    assert(tables_ready(m4, root, page));
}


/// With the walk's three pointers in place and the final entry present,
/// the page translates to some physical address.
proof fn lemma_ready_leaf_mapped(
    m: Map<u64, TableView>,
    root: u64,
    b3: u64,
    b2: u64,
    b1: u64,
    page: u64,
)
    requires
        map_wf(m, root),
        map_is_pointer(m, root, spec_p4_index(page) as int),
        map_pointee(m, root, spec_p4_index(page) as int) == b3,
        map_is_pointer(m, b3, spec_p3_index(page) as int),
        map_pointee(m, b3, spec_p3_index(page) as int) == b2,
        map_is_pointer(m, b2, spec_p2_index(page) as int),
        map_pointee(m, b2, spec_p2_index(page) as int) == b1,
        spec_entry_present(m[b1].entries[spec_p1_index(page) as int]),
    ensures
        spec_translate(m, root, page) is Mapped,
        tables_ready(m, root, page),
{
    reveal(spec_translate);
}


impl OffsetMapper {
    /// Map `page` to `frame` with the given low flag bits, creating any
    /// missing intermediate tables from the frame allocator.
    ///
    /// On success the page translates to the frame and no other page's
    /// translation moves. A huge-page entry on the walk, an already-used
    /// final entry, and frame exhaustion while a table is being created
    /// each fail with their error; tables created before a failure are
    /// kept, never rolled back.
    #[verifier::rlimit(100)]
    #[verifier::spinoff_prover]
    pub fn map_to(
        &mut self,
        page: Page,
        frame: PhysFrame,
        flags: u64,
        frame_allocator: &mut BootInfoFrameAllocator,
    ) -> (r: Result<(), MapToError>)
        requires
            old(self).wf(),
            page.wf(),
            frame.wf(),
            flags < 4096,
            flags & FLAG_PRESENT == FLAG_PRESENT,
            old(frame_allocator).wf(),
            old(frame_allocator).next + 3 <= usize::MAX,
            frames_fresh(*old(frame_allocator), old(self).table_view@),
        ensures
            final(self).wf(),
            final(self).root == old(self).root,
            final(self).phys_offset == old(self).phys_offset,
            final(frame_allocator).wf(),
            final(frame_allocator).memory_map == old(frame_allocator).memory_map,
            old(frame_allocator).next <= final(frame_allocator).next <= old(frame_allocator).next
                + 3,
            frames_fresh(*final(frame_allocator), final(self).table_view@),
            map_preserves_entries(old(self).table_view@, final(self).table_view@),
            flags & FLAG_WRITABLE == FLAG_WRITABLE ==> new_entries_writable(
                old(self).table_view@,
                final(self).table_view@,
            ),
            no_huge(old(self).table_view@) ==> no_huge(final(self).table_view@),
            no_huge(old(self).table_view@) ==> !(r matches Err(e)
                && e == MapToError::ParentEntryHugePage),
            match r {
                Ok(_) => {
                    &&& spec_translate(old(self).table_view@, old(self).root, page.start)
                        == Translation::Unmapped
                    &&& forall|va: u64|
                        is_canonical(va) && spec_page_base(va) == page.start ==> spec_translate(
                            final(self).table_view@,
                            old(self).root,
                            va,
                        ) == Translation::Mapped((frame.start + spec_page_offset(va)) as u64)
                    &&& forall|va: u64|
                        is_canonical(va) && spec_page_base(va) != page.start ==> spec_translate(
                            final(self).table_view@,
                            old(self).root,
                            va,
                        ) == spec_translate(old(self).table_view@, old(self).root, va)
                    &&& spec_translate(final(self).table_view@, old(self).root, page.start)
                        == Translation::Mapped(frame.start)
                    &&& tables_ready(final(self).table_view@, old(self).root, page.start)
                    &&& (tables_ready(old(self).table_view@, old(self).root, page.start)
                        ==> final(frame_allocator).next == old(frame_allocator).next)
                },
                Err(e) => {
                    &&& forall|va: u64|
                        spec_translate(final(self).table_view@, old(self).root, va)
                            == spec_translate(old(self).table_view@, old(self).root, va)
                    &&& (e == MapToError::PageAlreadyMapped ==> final(self).table_view@ == old(
                        self,
                    ).table_view@ && *final(frame_allocator) == *old(frame_allocator)
                        && spec_translate(
                        old(self).table_view@,
                        old(self).root,
                        page.start,
                    ) is Mapped)
                    &&& (e == MapToError::FrameAllocationFailed
                        ==> final(frame_allocator).spec_usable_frames().len()
                        < final(frame_allocator).next)
                },
            },
            (no_huge(old(self).table_view@) && spec_translate(
                old(self).table_view@,
                old(self).root,
                page.start,
            ) == Translation::Unmapped && (tables_ready(
                old(self).table_view@,
                old(self).root,
                page.start,
            ) || old(frame_allocator).spec_usable_frames().len() >= old(frame_allocator).next + 3))
                ==> r is Ok,
    {
        let pv = VirtAddr { value: page.start };
        let i4 = pv.p4_index();
        let i3 = pv.p3_index();
        let i2 = pv.p2_index();
        let i1 = pv.p1_index();
        let ghost m0 = self.table_view@;
        let ghost a0 = *frame_allocator;
        let ghost root = self.root;

        let b3 = match self.descend(self.root, i4, frame_allocator) {
            Ok(c) => c,
            Err(e) => {
                proof {
                    if no_huge(m0) {
                        assert(e != MapToError::ParentEntryHugePage) by {
                            if e == MapToError::ParentEntryHugePage {
                                assert(m0[root].entries[i4 as int]
                                    == m0[root].entries[i4 as int]);
                            }
                        }
                    }
                    if tables_ready(m0, root, page.start) {
                        assert(spec_entry_present(m0[root].entries[i4 as int]));
                    }
                }
                return Err(e);
            },
        };
        let ghost m1 = self.table_view@;
        let ghost a1 = *frame_allocator;
        let b2 = match self.descend(b3, i3, frame_allocator) {
            Ok(c) => c,
            Err(e) => {
                proof {
                    lemma_new_entries_writable_trans(m0, m1, self.table_view@);
                    assert(forall|va: u64|
                        spec_translate(self.table_view@, root, va) == spec_translate(
                            m0,
                            root,
                            va,
                        ));
                    if no_huge(m0) {
                        assert(no_huge(m1));
                    }
                    if tables_ready(m0, root, page.start) {
                        // The first step found its entry, so the second
                        // entry is the one the ready walk shows present.
                        assert(spec_entry_present(m0[root].entries[i4 as int]));
                        assert(m1 == m0);
                        assert(b3 == spec_entry_addr(m0[root].entries[i4 as int]));
                        assert(spec_entry_present(m0[b3].entries[i3 as int]));
                    }
                }
                return Err(e);
            },
        };
        let ghost m2 = self.table_view@;
        let ghost a2 = *frame_allocator;
        let b1 = match self.descend(b2, i2, frame_allocator) {
            Ok(c) => c,
            Err(e) => {
                proof {
                    lemma_new_entries_writable_trans(m0, m1, m2);
                    lemma_new_entries_writable_trans(m0, m2, self.table_view@);
                    assert(forall|va: u64|
                        spec_translate(self.table_view@, root, va) == spec_translate(
                            m0,
                            root,
                            va,
                        ));
                    if no_huge(m0) {
                        assert(no_huge(m2));
                    }
                    if tables_ready(m0, root, page.start) {
                        assert(spec_entry_present(m0[root].entries[i4 as int]));
                        assert(m1 == m0);
                        assert(b3 == spec_entry_addr(m0[root].entries[i4 as int]));
                        assert(spec_entry_present(m0[b3].entries[i3 as int]));
                        assert(m2 == m0);
                        assert(b2 == spec_entry_addr(m0[b3].entries[i3 as int]));
                        assert(spec_entry_present(m0[b2].entries[i2 as int]));
                    }
                }
                return Err(e);
            },
        };
        let ghost m3 = self.table_view@;
        let ghost a3 = *frame_allocator;
        proof {
            lemma_new_entries_writable_trans(m0, m1, m2);
            lemma_new_entries_writable_trans(m0, m2, m3);
            // The path laid down by the three steps stands in the arena.
            assert(map_is_pointer(m3, root, i4 as int) && map_pointee(m3, root, i4 as int)
                == b3);
            assert(map_is_pointer(m3, b3, i3 as int) && map_pointee(m3, b3, i3 as int) == b2);
            assert(map_is_pointer(m3, b2, i2 as int) && map_pointee(m3, b2, i2 as int) == b1);
            assert(m3[b1].level == 1);
        }
        let ti1 = match self.find_table(b1) {
            Some(t) => t,
            None => {
                return vstd::pervasive::unreached();
            },
        };
        let e1: u64 = self.tables[ti1].entries[i1];
        if entry_present(e1) {
            proof {
                // A present final entry means every step found its table:
                // a created table is all zero, and zero entries are absent.
                assert(!spec_entry_present(0u64)) by (bit_vector);
                assert(spec_entry_present(m0[root].entries[i4 as int]));
                assert(m1 == m0 && a1 == a0);
                assert(spec_entry_present(m0[b3].entries[i3 as int]));
                assert(m2 == m0 && a2 == a1);
                assert(spec_entry_present(m0[b2].entries[i2 as int]));
                assert(m3 == m0 && a3 == a2);
                lemma_ready_leaf_mapped(m0, root, b3, b2, b1, page.start);
            }
            return Err(MapToError::PageAlreadyMapped);
        }
        let ghost tabs3 = self.tables@;
        let val = frame.start | flags;
        self.tables[ti1].entries[i1] = val;
        proof {
            assert(self.tables@ =~= tabs3.update(ti1 as int, self.tables@[ti1 as int]));
            let m4 = m3.insert(
                b1,
                TableView {
                    level: m3[b1].level,
                    entries: m3[b1].entries.update(i1 as int, val),
                },
            );
            self.table_view@ = m4;
            lemma_leaf_write(m3, root, b3, b2, b1, page.start, frame.start, flags);
            // The vector and the arena still agree.
            assert forall|i: int| 0 <= i < self.tables.len() implies m4.contains_key(
                (#[trigger] self.tables[i]).base,
            ) && m4[self.tables[i].base] == self.tables[i].view_of() by {
                if i != ti1 {
                    assert(self.tables[i].base != b1);
                    assert(m4[self.tables[i].base] == m3[self.tables[i].base]);
                }
            }
            assert forall|i: int, j: int| 0 <= i < j < self.tables.len() implies (
            #[trigger] self.tables[i]).base != (#[trigger] self.tables[j]).base by {
                assert(self.tables[i].base == tabs3[i].base);
                assert(self.tables[j].base == tabs3[j].base);
            }
            assert forall|b: u64| #[trigger] m4.contains_key(b) implies exists|i: int|
                0 <= i < self.tables.len() && (#[trigger] self.tables[i]).base == b by {
                assert(m3.contains_key(b));
                let i0 = choose|i: int| 0 <= i < tabs3.len() && (#[trigger] tabs3[i]).base == b;
                assert(self.tables[i0].base == b);
            }
            assert(self.tables_match_view());
            // The leaf write fills one absent slot, so present entries
            // survive, and under writable flags the new leaf is writable.
            assert(map_preserves_entries(m3, m4));
            if flags & FLAG_WRITABLE == FLAG_WRITABLE {
                assert(val & FLAG_WRITABLE == FLAG_WRITABLE) by {
                    let fs = frame.start;
                    let fl = flags;
                    assert(fl & 2 == 2 ==> (fs | fl) & 2 == 2) by (bit_vector);
                }
                assert forall|b: u64, j: int|
                    #![trigger m4[b].entries[j]]
                    m4.contains_key(b) && 0 <= j < 512 && spec_entry_present(m4[b].entries[j])
                    && !(m3.contains_key(b) && spec_entry_present(
                    m3[b].entries[j],
                )) implies m4[b].entries[j] & FLAG_WRITABLE == FLAG_WRITABLE by {
                    assert(b == b1 && j == i1 as int);
                }
                lemma_new_entries_writable_trans(m0, m3, m4);
            }
            // The walk died at the absent final entry before the write.
            assert(spec_translate(m0, root, page.start) == Translation::Unmapped);
            if tables_ready(m0, root, page.start) {
                assert(spec_entry_present(m0[root].entries[i4 as int]));
                assert(m1 == m0 && a1 == a0);
                assert(spec_entry_present(m0[b3].entries[i3 as int]));
                assert(m2 == m0 && a2 == a1);
                assert(spec_entry_present(m0[b2].entries[i2 as int]));
                assert(m3 == m0 && a3 == a2);
            }
        }
        Ok(())
    }
}

/// A pristine mapper translates nothing: its only table is the empty
/// root.
pub proof fn lemma_pristine_unmapped(mapper: OffsetMapper)
    requires
        mapper.is_pristine(),
    ensures
        forall|va: u64|
            spec_translate(mapper.table_view@, mapper.root, va) == Translation::Unmapped,
{
    reveal(spec_translate);
    let m = mapper.table_view@;
    assert forall|va: u64|
        spec_translate(m, mapper.root, va) == Translation::Unmapped by {
        lemma_indices_in_range(va);
        assert(!spec_entry_present(0u64)) by (bit_vector);
        if m.contains_key(mapper.root) {
            assert(m[mapper.root].entries[spec_p4_index(va) as int] == 0u64);
        }
    }
}

} // verus!
