//! The bump allocation strategy: a cursor that only moves forward, and
//! reclaims the whole region at once when the last live allocation is
//! freed.

use vstd::prelude::*;

use crate::allocator::{exec_align_up, spec_align_up};

verus! {

/// Bump-allocator bookkeeping.
///
/// `next` always lies within `[heap_start, heap_end]`, and returns to
/// `heap_start` exactly when `allocations` reaches zero; space freed
/// earlier is not reclaimed until then, by design.
pub struct BumpAllocator {
    pub heap_start: u64,
    pub heap_end: u64,
    pub next: u64,
    pub allocations: u64,
}

/// One allocation step: round the cursor up to the alignment, fail if the
/// rounded block would pass the heap's end, else hand out the rounded
/// address and advance.
pub open spec fn spec_bump_alloc(s: BumpAllocator, size: u64, align: u64) -> (BumpAllocator, Option<
    u64,
>) {
    let astart = spec_align_up(s.next as int, align as int);
    if astart + size <= s.heap_end && s.allocations < u64::MAX {
        (
            BumpAllocator {
                next: (astart + size) as u64,
                allocations: (s.allocations + 1) as u64,
                ..s
            },
            Some(astart as u64),
        )
    } else {
        (s, None)
    }
}

/// One deallocation step: drop the live count; when it reaches zero the
/// cursor returns to the heap's start, reclaiming the entire region.
pub open spec fn spec_bump_dealloc(s: BumpAllocator) -> BumpAllocator {
    let n = (s.allocations - 1) as u64;
    BumpAllocator { next: if n == 0 { s.heap_start } else { s.next }, allocations: n, ..s }
}

/// Run a sequence of allocation requests `(size, align)`.
pub open spec fn run_bump_allocs(s: BumpAllocator, reqs: Seq<(u64, u64)>) -> (BumpAllocator, Seq<
    Option<u64>,
>)
    decreases reqs.len(),
{
    if reqs.len() == 0 {
        (s, Seq::empty())
    } else {
        let step = spec_bump_alloc(s, reqs[0].0, reqs[0].1);
        let rest = run_bump_allocs(step.0, reqs.skip(1));
        (rest.0, seq![step.1] + rest.1)
    }
}

/// How many of the results are successful allocations.
pub open spec fn count_successes(rs: Seq<Option<u64>>) -> int
    decreases rs.len(),
{
    if rs.len() == 0 {
        0
    } else {
        (if rs[0] is Some {
            1int
        } else {
            0int
        }) + count_successes(rs.skip(1))
    }
}

/// Run `n` deallocation steps.
pub open spec fn run_bump_deallocs(s: BumpAllocator, n: nat) -> BumpAllocator
    decreases n,
{
    if n == 0 {
        s
    } else {
        run_bump_deallocs(spec_bump_dealloc(s), (n - 1) as nat)
    }
}

impl BumpAllocator {
    /// The cursor stays inside the heap and rests at its start whenever
    /// nothing is live.
    pub open spec fn wf(self) -> bool {
        &&& self.heap_start <= self.next <= self.heap_end
        &&& self.allocations == 0 ==> self.next == self.heap_start
    }

    /// An empty bump allocator.
    pub fn new() -> (r: Self)
        ensures
            r == (BumpAllocator { heap_start: 0, heap_end: 0, next: 0, allocations: 0 }),
            r.wf(),
    {
        BumpAllocator { heap_start: 0, heap_end: 0, next: 0, allocations: 0 }
    }

    /// Hand the allocator its heap region.
    ///
    /// The caller passes the bounds of a memory range it owns and will
    /// not hand to anything else.
    pub fn init(&mut self, heap_start: u64, heap_size: u64)
        requires
            heap_start + heap_size <= u64::MAX,
        ensures
            *final(self) == (BumpAllocator {
                heap_start,
                heap_end: (heap_start + heap_size) as u64,
                next: heap_start,
                allocations: 0,
            }),
            final(self).wf(),
    {
        self.heap_start = heap_start;
        self.heap_end = heap_start + heap_size;
        self.next = heap_start;
        self.allocations = 0;
    }

    /// Allocate `size` bytes at alignment `align`.
    ///
    /// Returns the cursor rounded up to the alignment, or nothing when
    /// the rounded block would pass the heap's end; the heap region
    /// itself is untouched either way.
    pub fn allocate(&mut self, size: u64, align: u64) -> (r: Option<u64>)
        requires
            old(self).wf(),
            align >= 1,
            old(self).allocations < u64::MAX,
        ensures
            final(self).wf(),
            (*final(self), r) == spec_bump_alloc(*old(self), size, align),
            r matches Some(a) ==> old(self).heap_start <= a && a + size <= old(self).heap_end
                && a % align == 0 && a as int == spec_align_up(old(self).next as int, align as int),
    {
        let astart = match exec_align_up(self.next, align) {
            Some(a) => a,
            None => {
                proof {
                    crate::allocator::lemma_align_up_bounds(self.next as int, align as int);
                }
                return None;
            },
        };
        proof {
            crate::allocator::lemma_align_up_bounds(self.next as int, align as int);
        }
        if astart > self.heap_end || size > self.heap_end - astart {
            return None;
        }
        let result = astart;
        self.next = astart + size;
        self.allocations = self.allocations + 1;
        Some(result)
    }

    /// Free one allocation.
    ///
    /// Only the live count changes until it reaches zero; then the cursor
    /// snaps back to the heap's start and the whole region is reusable.
    pub fn deallocate(&mut self)
        requires
            old(self).wf(),
            old(self).allocations >= 1,
        ensures
            final(self).wf(),
            *final(self) == spec_bump_dealloc(*old(self)),
    {
        self.allocations = self.allocations - 1;
        if self.allocations == 0 {
            self.next = self.heap_start;
        }
    }
}

/// Running a request sequence never moves the heap bounds, keeps the
/// cursor inside them, adds exactly the successful allocations to the
/// live count, and changes nothing at all when every request fails.
proof fn lemma_run_allocs_facts(s: BumpAllocator, reqs: Seq<(u64, u64)>)
    requires
        s.wf(),
        forall|i: int| 0 <= i < reqs.len() ==> (#[trigger] reqs[i]).1 >= 1,
    ensures
        ({
            let (s1, rs) = run_bump_allocs(s, reqs);
            &&& rs.len() == reqs.len()
            &&& count_successes(rs) >= 0
            &&& s1.heap_start == s.heap_start
            &&& s1.heap_end == s.heap_end
            &&& s1.allocations == s.allocations + count_successes(rs)
            &&& s1.heap_start <= s1.next <= s1.heap_end
            &&& (count_successes(rs) == 0 ==> s1 == s)
        }),
    decreases reqs.len(),
{
    if reqs.len() > 0 {
        let step = spec_bump_alloc(s, reqs[0].0, reqs[0].1);
        lemma_align_up_ge(s.next as int, reqs[0].1 as int);
        assert(step.0.wf());
        assert(forall|i: int|
            0 <= i < reqs.skip(1).len() ==> (#[trigger] reqs.skip(1)[i]).1 >= 1);
        lemma_run_allocs_facts(step.0, reqs.skip(1));
        let rest = run_bump_allocs(step.0, reqs.skip(1));
        assert((seq![step.1] + rest.1).skip(1) == rest.1);
        assert(count_successes(seq![step.1] + rest.1) == (if step.1 is Some {
            1int
        } else {
            0int
        }) + count_successes(rest.1));
    }
}

/// Rounding up does not move an address backwards.
proof fn lemma_align_up_ge(addr: int, align: int)
    requires
        addr >= 0,
        align >= 1,
    ensures
        spec_align_up(addr, align) >= addr,
{
    crate::allocator::lemma_align_up_bounds(addr, align);
}

/// Freeing exactly the live count returns the allocator to rest: nothing
/// live, cursor at the heap's start.
proof fn lemma_run_deallocs_rest(s: BumpAllocator, n: nat)
    requires
        n == s.allocations,
        s.heap_start <= s.next <= s.heap_end,
    ensures
        run_bump_deallocs(s, n) == (BumpAllocator {
            heap_start: s.heap_start,
            heap_end: s.heap_end,
            next: if n == 0 {
                s.next
            } else {
                s.heap_start
            },
            allocations: 0,
        }),
    decreases n,
{
    if n > 0 {
        let s2 = spec_bump_dealloc(s);
        lemma_run_deallocs_rest(s2, (n - 1) as nat);
    }
}

/// The bump allocator's round trip: from a quiescent allocator, running
/// any sequence of allocation requests and then freeing all of the
/// successful ones (deallocations are indistinguishable, so their order
/// cannot matter) restores the exact starting state; replaying the same
/// request sequence therefore reproduces byte-identical addresses.
pub proof fn lemma_bump_round_trip(s: BumpAllocator, reqs: Seq<(u64, u64)>)
    requires
        s.wf(),
        s.allocations == 0,
        forall|i: int| 0 <= i < reqs.len() ==> (#[trigger] reqs[i]).1 >= 1,
    ensures
        ({
            let (s1, rs) = run_bump_allocs(s, reqs);
            let s2 = run_bump_deallocs(s1, count_successes(rs) as nat);
            &&& s2 == s
            &&& run_bump_allocs(s2, reqs) == run_bump_allocs(s, reqs)
        }),
{
    let (s1, rs) = run_bump_allocs(s, reqs);
    lemma_run_allocs_facts(s, reqs);
    lemma_run_deallocs_rest(s1, count_successes(rs) as nat);
}

} // verus!
