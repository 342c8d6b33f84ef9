//! First-fit free-list allocator.
//!
//! The allocator manages a heap window as a list of free regions.  In the
//! running kernel each free region hosts its own list node (a size field and
//! a link, written into the first bytes of the region); here the list is
//! bookkeeping over plain addresses, and the node footprint survives as the
//! constraints `NODE_SIZE` and `NODE_ALIGN` that every free region and every
//! allocated block must satisfy so that the region can host a node when it
//! is freed again.
//!
//! A ghost map of live allocations records, for every address handed out,
//! the adjusted size and alignment of its block.  The well-formedness
//! invariant ties free regions and live blocks together: all of them lie in
//! the heap window and no two of them overlap.

use vstd::prelude::*;
use crate::align::{
    align_up,
    align_up_checked,
    align_up_spec,
    lemma_align_up,
    lemma_mod_sum_zero,
    lemma_mod_zero_transitive,
    lemma_pow2_le_divides,
};
use vstd::arithmetic::div_mod::lemma_mod_self_0;
use vstd::arithmetic::power2::is_pow2;

verus! {

/// Bytes a free region must be able to spare for its in-place list node:
/// a size field and a link, two machine words.
pub const NODE_SIZE: usize = 16;

/// Alignment of the in-place list node, one machine word.
pub const NODE_ALIGN: usize = 8;

/// One currently free region of the heap: `size` bytes starting at `addr`.
#[derive(Clone, Copy, PartialEq, Eq, Structural, Debug)]
pub struct FreeRegion {
    pub addr: usize,
    pub size: usize,
}

impl FreeRegion {
    /// First address past the region.
    pub open spec fn end_addr(self) -> int {
        self.addr + self.size
    }
}

/// Two half-open address ranges do not intersect.
pub open spec fn ranges_disjoint(a1: int, s1: int, a2: int, s2: int) -> bool {
    a1 + s1 <= a2 || a2 + s2 <= a1
}

/// The alignment actually used for a request: at least the node alignment.
pub open spec fn adjusted_align(align: usize) -> int {
    if align >= NODE_ALIGN {
        align as int
    } else {
        NODE_ALIGN as int
    }
}

/// The size actually carved out for a request: the requested size rounded up
/// to the adjusted alignment, and at least the node size, so the block can
/// host a free-list node once it is returned.
pub open spec fn adjusted_size(size: usize, align: usize) -> int {
    let padded = align_up_spec(size as int, adjusted_align(align));
    if padded >= NODE_SIZE {
        padded
    } else {
        NODE_SIZE as int
    }
}

/// A request the allocator accepts without panicking: the alignment is a
/// power of two and padding the size cannot overflow (the bound a layout
/// must satisfy anyway).
pub open spec fn valid_request(size: usize, align: usize) -> bool {
    &&& is_pow2(align as int)
    &&& align_up_spec(size as int, adjusted_align(align)) <= isize::MAX as int
}

/// Facts about the adjusted layout of an acceptable request.
pub proof fn lemma_adjusted(size: usize, align: usize)
    requires
        valid_request(size, align),
    ensures
        align >= 1,
        adjusted_align(align) >= NODE_ALIGN,
        adjusted_align(align) >= align,
        is_pow2(adjusted_align(align)),
        adjusted_align(align) % (NODE_ALIGN as int) == 0,
        adjusted_align(align) % (align as int) == 0,
        adjusted_size(size, align) >= NODE_SIZE,
        adjusted_size(size, align) >= size,
        adjusted_size(size, align) % (NODE_ALIGN as int) == 0,
        adjusted_size(size, align) <= isize::MAX as int,
{
    reveal_with_fuel(is_pow2, 5);
    assert(is_pow2(8));
    assert(align >= 1);
    let aalign = adjusted_align(align);
    if align >= NODE_ALIGN {
        lemma_pow2_le_divides(NODE_ALIGN as int, align as int);
        lemma_mod_self_0(align as int);
    } else {
        lemma_pow2_le_divides(align as int, NODE_ALIGN as int);
        lemma_mod_self_0(NODE_ALIGN as int);
    }
    lemma_align_up(size as int, aalign);
    let padded = align_up_spec(size as int, aalign);
    if padded >= NODE_SIZE {
        lemma_mod_zero_transitive(padded, aalign, NODE_ALIGN as int);
    }
}

/// An allocation with the given adjusted size and alignment can be placed
/// inside `region` at the first suitably aligned address.
pub open spec fn fits(region: FreeRegion, asize: int, aalign: int) -> bool
    recommends
        aalign >= 1,
{
    align_up_spec(region.addr as int, aalign) + asize <= region.end_addr()
}

/// Index of the first region at or after position `k` that fits the request.
pub open spec fn first_fit_from(s: Seq<FreeRegion>, asize: int, aalign: int, k: int) -> Option<
    int,
>
    recommends
        0 <= k <= s.len(),
    decreases s.len() - k,
    when 0 <= k <= s.len()
{
    if k >= s.len() {
        None
    } else if fits(s[k], asize, aalign) {
        Some(k)
    } else {
        first_fit_from(s, asize, aalign, k + 1)
    }
}

/// Index of the first region in list order that fits the request.
pub open spec fn first_fit(s: Seq<FreeRegion>, asize: int, aalign: int) -> Option<int> {
    first_fit_from(s, asize, aalign, 0)
}

/// What `first_fit_from` finds is a fitting region, and nothing before it
/// fits; when it finds nothing, nothing at or after `k` fits.
pub proof fn lemma_first_fit_from(s: Seq<FreeRegion>, asize: int, aalign: int, k: int)
    requires
        0 <= k <= s.len(),
    ensures
        match first_fit_from(s, asize, aalign, k) {
            Some(j) => k <= j < s.len() && fits(s[j], asize, aalign) && forall|i: int|
                k <= i < j ==> !fits(#[trigger] s[i], asize, aalign),
            None => forall|i: int| k <= i < s.len() ==> !fits(#[trigger] s[i], asize, aalign),
        },
    decreases s.len() - k,
{
    if k < s.len() && !fits(s[k], asize, aalign) {
        lemma_first_fit_from(s, asize, aalign, k + 1);
    }
}

/// The address allocation returns against the given free list: the
/// aligned address inside the first fitting region, or `None` when no
/// region fits.
pub open spec fn spec_allocate_result_seq(
    regions: Seq<FreeRegion>,
    size: usize,
    align: usize,
) -> Option<usize> {
    let asize = adjusted_size(size, align);
    let aalign = adjusted_align(align);
    match first_fit(regions, asize, aalign) {
        None => None,
        Some(j) => Some(align_up_spec(regions[j].addr as int, aalign) as usize),
    }
}

/// The free list allocation leaves behind: the chosen region is removed,
/// and its leftover tail is re-inserted at the head when it can host a
/// node (and silently forfeited otherwise).
pub open spec fn spec_allocate_regions_seq(
    regions: Seq<FreeRegion>,
    size: usize,
    align: usize,
) -> Seq<FreeRegion> {
    let asize = adjusted_size(size, align);
    let aalign = adjusted_align(align);
    match first_fit(regions, asize, aalign) {
        None => regions,
        Some(j) => {
            let reg = regions[j];
            let a = align_up_spec(reg.addr as int, aalign);
            let excess = reg.end_addr() - (a + asize);
            if excess >= NODE_SIZE {
                regions.remove(j).insert(
                    0,
                    (FreeRegion { addr: (a + asize) as usize, size: excess as usize }),
                )
            } else {
                regions.remove(j)
            }
        },
    }
}

/// The address `LinkedListAllocator::allocate` returns for a request
/// against the given pre-state.
pub open spec fn spec_allocate_result(
    pre: LinkedListAllocator,
    size: usize,
    align: usize,
) -> Option<usize> {
    spec_allocate_result_seq(pre.regions@, size, align)
}

/// The free list `LinkedListAllocator::allocate` leaves behind.
pub open spec fn spec_allocate_regions(
    pre: LinkedListAllocator,
    size: usize,
    align: usize,
) -> Seq<FreeRegion> {
    spec_allocate_regions_seq(pre.regions@, size, align)
}

/// The ghost live map `LinkedListAllocator::allocate` leaves behind: on
/// success the new block is recorded under its address.
pub open spec fn spec_allocate_live(pre: LinkedListAllocator, size: usize, align: usize) -> Map<
    int,
    (int, int),
> {
    let asize = adjusted_size(size, align);
    let aalign = adjusted_align(align);
    match first_fit(pre.regions@, asize, aalign) {
        None => pre.live@,
        Some(j) => {
            let a = align_up_spec(pre.regions@[j].addr as int, aalign);
            pre.live@.insert(a, (asize, aalign))
        },
    }
}

/// The free list after one allocate-free round for the given layout: a
/// block is carved from the first fitting region (per
/// `spec_allocate_regions_seq`) and immediately freed again, which
/// inserts it at the head (per `deallocate`'s contract).  When nothing
/// fits, nothing changes.
pub open spec fn spec_round_trip(
    regions: Seq<FreeRegion>,
    size: usize,
    align: usize,
) -> Seq<FreeRegion> {
    let asize = adjusted_size(size, align);
    let aalign = adjusted_align(align);
    match first_fit(regions, asize, aalign) {
        None => regions,
        Some(j) => spec_allocate_regions_seq(regions, size, align).insert(
            0,
            (FreeRegion {
                addr: spec_allocate_result_seq(regions, size, align)->Some_0,
                size: asize as usize,
            }),
        ),
    }
}

/// The free list after `n` allocate-free rounds for the given layout.
pub open spec fn spec_round_trips(
    regions: Seq<FreeRegion>,
    size: usize,
    align: usize,
    n: nat,
) -> Seq<FreeRegion>
    decreases n,
{
    if n == 0 {
        regions
    } else {
        spec_round_trips(spec_round_trip(regions, size, align), size, align, (n - 1) as nat)
    }
}

/// Every region of the free list lies below the top of the address
/// space (as any region inside a heap window does).
pub open spec fn regions_bounded(regions: Seq<FreeRegion>) -> bool {
    forall|i: int|
        0 <= i < regions.len() ==> (#[trigger] regions[i]).end_addr() <= usize::MAX as int
}

/// One allocate-free round keeps the request servable: the freed block
/// returns to the head of the list and fits the same layout exactly.
pub proof fn lemma_round_trip_serves(regions: Seq<FreeRegion>, size: usize, align: usize)
    requires
        valid_request(size, align),
        regions_bounded(regions),
        first_fit(regions, adjusted_size(size, align), adjusted_align(align)) is Some,
    ensures
        first_fit(
            spec_round_trip(regions, size, align),
            adjusted_size(size, align),
            adjusted_align(align),
        ) == Some(0int),
        regions_bounded(spec_round_trip(regions, size, align)),
{
    let asize = adjusted_size(size, align);
    let aalign = adjusted_align(align);
    lemma_adjusted(size, align);
    lemma_first_fit_from(regions, asize, aalign, 0);
    let j = first_fit(regions, asize, aalign)->Some_0;
    let reg = regions[j];
    assert(fits(reg, asize, aalign));
    lemma_align_up(reg.addr as int, aalign);
    let a = align_up_spec(reg.addr as int, aalign);
    let next = spec_round_trip(regions, size, align);
    // the freed block starts aligned, so it accepts the layout exactly
    assert(next[0] == (FreeRegion { addr: a as usize, size: asize as usize }));
    lemma_align_up(a, aalign);
    assert(align_up_spec(a, aalign) == a);
    assert(fits(next[0], asize, aalign));
    assert(first_fit(next, asize, aalign) == Some(0int));
    let carved = spec_allocate_regions_seq(regions, size, align);
    let excess = reg.end_addr() - (a + asize);
    assert forall|i: int| 0 <= i < next.len() implies (#[trigger] next[i]).end_addr()
        <= usize::MAX as int by {
        if i > 0 {
            assert(next[i] == carved[i - 1]);
            if excess >= NODE_SIZE {
                if i == 1 {
                    assert(carved[0].end_addr() == reg.end_addr());
                } else {
                    assert(carved[i - 1] == regions.remove(j)[i - 2]);
                    assert(regions.remove(j)[i - 2] == (if i - 2 < j {
                        regions[i - 2]
                    } else {
                        regions[i - 1]
                    }));
                }
            } else {
                assert(carved[i - 1] == regions.remove(j)[i - 1]);
                assert(regions.remove(j)[i - 1] == (if i - 1 < j {
                    regions[i - 1]
                } else {
                    regions[i]
                }));
            }
        }
    }
}

/// Stress idempotence: when a request can be served at all, any number
/// of allocate-free rounds with that layout still serves it — the freed
/// block always returns to the pool, so the loop never exhausts the
/// heap.
pub proof fn lemma_stress_idempotence(
    regions: Seq<FreeRegion>,
    size: usize,
    align: usize,
    n: nat,
)
    requires
        valid_request(size, align),
        regions_bounded(regions),
        first_fit(regions, adjusted_size(size, align), adjusted_align(align)) is Some,
    ensures
        first_fit(
            spec_round_trips(regions, size, align, n),
            adjusted_size(size, align),
            adjusted_align(align),
        ) is Some,
    decreases n,
{
    if n > 0 {
        lemma_round_trip_serves(regions, size, align);
        lemma_stress_idempotence(
            spec_round_trip(regions, size, align),
            size,
            align,
            (n - 1) as nat,
        );
    }
}

/// The first-fit free-list allocator.
///
/// `regions` is the free list; index 0 is the head, and freed blocks are
/// inserted at the head.  `live` is the ghost record of outstanding
/// allocations: block address to (adjusted size, adjusted alignment).
pub struct LinkedListAllocator {
    pub regions: Vec<FreeRegion>,
    pub heap_start: usize,
    pub heap_size: usize,
    pub live: Ghost<Map<int, (int, int)>>,
}

impl LinkedListAllocator {
    /// First address past the heap window.
    pub open spec fn heap_end(self) -> int {
        self.heap_start + self.heap_size
    }

    /// A free region lies inside the heap window.
    pub open spec fn region_in_heap(self, r: FreeRegion) -> bool {
        self.heap_start <= r.addr && r.end_addr() <= self.heap_end()
    }

    /// A free region can host its in-place node.
    pub open spec fn region_wf(r: FreeRegion) -> bool {
        &&& (r.addr as int) % (NODE_ALIGN as int) == 0
        &&& r.size >= NODE_SIZE
    }

    /// A live block is inside the heap, respects the node constraints, and
    /// starts at an address aligned to its recorded alignment.
    pub open spec fn live_block_wf(self, a: int) -> bool
        recommends
            self.live@.dom().contains(a),
    {
        let (sz, al) = self.live@[a];
        &&& al >= NODE_ALIGN
        &&& al % (NODE_ALIGN as int) == 0
        &&& a % al == 0
        &&& sz >= NODE_SIZE
        &&& self.heap_start <= a
        &&& a + sz <= self.heap_end()
    }

    /// Well-formedness: everything lies in the heap window and no two
    /// regions or blocks overlap.
    pub open spec fn wf(self) -> bool {
        &&& self.heap_end() <= usize::MAX as int
        &&& self.heap_size > 0 ==> self.heap_start > 0
        &&& (self.heap_start as int) % (NODE_ALIGN as int) == 0
        &&& forall|i: int|
            0 <= i < self.regions@.len() ==> Self::region_wf(#[trigger] self.regions@[i])
                && self.region_in_heap(self.regions@[i])
        &&& forall|i: int, j: int|
            0 <= i < self.regions@.len() && 0 <= j < self.regions@.len() && i != j
                ==> ranges_disjoint(
                #[trigger] self.regions@[i].addr as int,
                self.regions@[i].size as int,
                #[trigger] self.regions@[j].addr as int,
                self.regions@[j].size as int,
            )
        &&& self.live@.dom().finite()
        &&& forall|a: int| #[trigger] self.live@.dom().contains(a) ==> self.live_block_wf(a)
        &&& forall|a: int, i: int|
            #[trigger] self.live@.dom().contains(a) && 0 <= i < self.regions@.len()
                ==> ranges_disjoint(
                a,
                self.live@[a].0,
                #[trigger] self.regions@[i].addr as int,
                self.regions@[i].size as int,
            )
        &&& forall|a: int, b: int|
            #[trigger] self.live@.dom().contains(a) && #[trigger] self.live@.dom().contains(b)
                && a != b ==> ranges_disjoint(a, self.live@[a].0, b, self.live@[b].0)
    }

    /// Creates an empty allocator: no heap, no free regions, no live blocks.
    pub fn new() -> (r: Self)
        ensures
            r.wf(),
            r.regions@.len() == 0,
            r.heap_start == 0,
            r.heap_size == 0,
            r.live@ == Map::<int, (int, int)>::empty(),
    {
        LinkedListAllocator {
            regions: Vec::new(),
            heap_start: 0,
            heap_size: 0,
            live: Ghost(Map::empty()),
        }
    }

    /// A well-formed allocator whose heap has size zero holds no free
    /// regions and no live blocks: it was never initialized.
    pub proof fn lemma_uninitialized_is_empty(self)
        requires
            self.wf(),
            self.heap_size == 0,
        ensures
            self.regions@.len() == 0,
            self.live@ =~= Map::<int, (int, int)>::empty(),
    {
        assert(self.regions@.len() == 0) by {
            if self.regions@.len() > 0 {
                assert(Self::region_wf(self.regions@[0]));
                assert(self.region_in_heap(self.regions@[0]));
            }
        }
        assert forall|a: int| !self.live@.dom().contains(a) by {
            if self.live@.dom().contains(a) {
                assert(self.live_block_wf(a));
            }
        }
    }

    /// Adds the given memory region to the front of the free list.
    ///
    /// The caller guarantees the region is inside the heap, can host a list
    /// node, and does not overlap any free region or live block.
    pub fn add_free_region(&mut self, addr: usize, size: usize)
        requires
            old(self).wf(),
            addr % NODE_ALIGN == 0,
            size >= NODE_SIZE,
            old(self).heap_start <= addr,
            addr + size <= old(self).heap_end(),
            forall|i: int|
                0 <= i < old(self).regions@.len() ==> ranges_disjoint(
                    addr as int,
                    size as int,
                    #[trigger] old(self).regions@[i].addr as int,
                    old(self).regions@[i].size as int,
                ),
            forall|a: int|
                #[trigger] old(self).live@.dom().contains(a) ==> ranges_disjoint(
                    a,
                    old(self).live@[a].0,
                    addr as int,
                    size as int,
                ),
        ensures
            final(self).wf(),
            final(self).regions@ == old(self).regions@.insert(
                0,
                (FreeRegion { addr, size }),
            ),
            final(self).heap_start == old(self).heap_start,
            final(self).heap_size == old(self).heap_size,
            final(self).live@ == old(self).live@,
    {
        self.regions.insert(0, FreeRegion { addr, size });
        proof {
            let s2 = self.regions@;
            let s1 = old(self).regions@;
            assert forall|i: int| 0 <= i < s2.len() implies Self::region_wf(#[trigger] s2[i])
                && self.region_in_heap(s2[i]) by {
                if i > 0 {
                    assert(s2[i] == s1[i - 1]);
                }
            }
            assert forall|i: int, j: int|
                0 <= i < s2.len() && 0 <= j < s2.len() && i != j implies ranges_disjoint(
                #[trigger] s2[i].addr as int,
                s2[i].size as int,
                #[trigger] s2[j].addr as int,
                s2[j].size as int,
            ) by {
                if i > 0 && j > 0 {
                    assert(s2[i] == s1[i - 1]);
                    assert(s2[j] == s1[j - 1]);
                } else if i == 0 {
                    assert(s2[j] == s1[j - 1]);
                } else {
                    assert(s2[i] == s1[i - 1]);
                }
            }
            assert forall|a: int, i: int|
                #[trigger] self.live@.dom().contains(a) && 0 <= i < s2.len()
                    implies ranges_disjoint(
                a,
                self.live@[a].0,
                #[trigger] s2[i].addr as int,
                s2[i].size as int,
            ) by {
                if i > 0 {
                    assert(s2[i] == s1[i - 1]);
                }
            }
        }
    }

    /// Initialize the allocator with the given heap bounds.
    ///
    /// The whole window becomes a single free region.  The caller guarantees
    /// the window is valid, unused memory; the allocator must be initialized
    /// only once (its heap must still be empty).
    pub fn init(&mut self, heap_start: usize, heap_size: usize)
        requires
            old(self).wf(),
            old(self).heap_size == 0,
            heap_start > 0,
            heap_start % NODE_ALIGN == 0,
            heap_size >= NODE_SIZE,
            heap_start + heap_size <= usize::MAX,
        ensures
            final(self).wf(),
            final(self).heap_start == heap_start,
            final(self).heap_size == heap_size,
            final(self).regions@ =~= seq![(FreeRegion { addr: heap_start, size: heap_size })],
            final(self).live@ =~= Map::<int, (int, int)>::empty(),
    {
        proof {
            self.lemma_uninitialized_is_empty();
        }
        self.heap_start = heap_start;
        self.heap_size = heap_size;
        self.add_free_region(heap_start, heap_size);
    }

    /// Try to place an allocation with the given adjusted size and alignment
    /// in `region`; on success, return the allocation start address.
    fn alloc_from_region(region: &FreeRegion, size: usize, align: usize) -> (r: Option<usize>)
        requires
            align >= 1,
            region.end_addr() <= usize::MAX,
        ensures
            match r {
                Some(v) => fits(*region, size as int, align as int) && v == align_up_spec(
                    region.addr as int,
                    align as int,
                ),
                None => !fits(*region, size as int, align as int),
            },
    {
        match align_up_checked(region.addr, align) {
            None => None,
            Some(alloc_start) => match alloc_start.checked_add(size) {
                None => None,
                Some(alloc_end) => if alloc_end <= region.addr + region.size {
                    Some(alloc_start)
                } else {
                    None
                },
            },
        }
    }

    /// Looks for a free region that fits the given adjusted size and
    /// alignment and removes it from the list.
    ///
    /// Scans head to tail and takes the first region that fits.  Returns
    /// the removed region and the allocation start address inside it.
    pub fn find_region(&mut self, size: usize, align: usize) -> (r: Option<(FreeRegion, usize)>)
        requires
            old(self).wf(),
            align >= 1,
        ensures
            final(self).heap_start == old(self).heap_start,
            final(self).heap_size == old(self).heap_size,
            final(self).live@ == old(self).live@,
            final(self).wf(),
            match first_fit(old(self).regions@, size as int, align as int) {
                None => r is None && *final(self) == *old(self),
                Some(j) => {
                    let reg = old(self).regions@[j];
                    &&& r == Some((reg, align_up_spec(reg.addr as int, align as int) as usize))
                    &&& final(self).regions@ == old(self).regions@.remove(j)
                },
            },
    {
        let ghost s = self.regions@;
        let mut idx: usize = 0;
        while idx < self.regions.len()
            invariant
                *self == *old(self),
                old(self).wf(),
                align >= 1,
                0 <= idx <= s.len(),
                s == self.regions@,
                first_fit(s, size as int, align as int) == first_fit_from(
                    s,
                    size as int,
                    align as int,
                    idx as int,
                ),
            decreases s.len() - idx,
        {
            let region: FreeRegion = self.regions[idx];
            match Self::alloc_from_region(&region, size, align) {
                Some(alloc_start) => {
                    let removed: FreeRegion = self.regions.remove(idx);
                    proof {
                        let s2 = self.regions@;
                        assert forall|i: int|
                            0 <= i < s2.len() implies Self::region_wf(#[trigger] s2[i])
                            && self.region_in_heap(s2[i]) by {
                            assert(s2[i] == if i < idx {
                                s[i]
                            } else {
                                s[i + 1]
                            });
                        }
                        assert forall|i: int, j: int|
                            0 <= i < s2.len() && 0 <= j < s2.len() && i != j
                                implies ranges_disjoint(
                            #[trigger] s2[i].addr as int,
                            s2[i].size as int,
                            #[trigger] s2[j].addr as int,
                            s2[j].size as int,
                        ) by {
                            assert(s2[i] == if i < idx {
                                s[i]
                            } else {
                                s[i + 1]
                            });
                            assert(s2[j] == if j < idx {
                                s[j]
                            } else {
                                s[j + 1]
                            });
                        }
                        assert forall|a: int, i: int|
                            #[trigger] self.live@.dom().contains(a) && 0 <= i < s2.len()
                                implies ranges_disjoint(
                            a,
                            self.live@[a].0,
                            #[trigger] s2[i].addr as int,
                            s2[i].size as int,
                        ) by {
                            assert(s2[i] == if i < idx {
                                s[i]
                            } else {
                                s[i + 1]
                            });
                        }
                    }
                    return Some((removed, alloc_start));
                },
                None => {
                    idx = idx + 1;
                },
            }
        }
        None
    }

    /// Adjust the given layout so that the allocated block can also host a
    /// free-list node once it is returned: alignment at least the node
    /// alignment, size padded to that alignment and at least the node size.
    pub fn adjust_layout(size: usize, align: usize) -> (r: (usize, usize))
        requires
            valid_request(size, align),
        ensures
            r.0 == adjusted_size(size, align),
            r.1 == adjusted_align(align),
    {
        proof {
            lemma_adjusted(size, align);
        }
        let aalign: usize = if align < NODE_ALIGN {
            NODE_ALIGN
        } else {
            align
        };
        let padded: usize = align_up(size, aalign);
        let asize: usize = if padded < NODE_SIZE {
            NODE_SIZE
        } else {
            padded
        };
        (asize, aalign)
    }

    /// Allocates a block for the given size and alignment.
    ///
    /// The request is adjusted, and the first free region in list order that
    /// can hold the adjusted layout at an aligned address serves it.  The
    /// leftover tail of the chosen region is re-inserted at the head of the
    /// list when it can host a node, and silently forfeited otherwise.
    /// Returns `None` when no region fits.
    ///
    /// On success the returned address is aligned, the block lies inside the
    /// heap window, and it overlaps no other live allocation.
    pub fn allocate(&mut self, size: usize, align: usize) -> (r: Option<usize>)
        requires
            old(self).wf(),
            valid_request(size, align),
        ensures
            final(self).wf(),
            final(self).heap_start == old(self).heap_start,
            final(self).heap_size == old(self).heap_size,
            r == spec_allocate_result(*old(self), size, align),
            final(self).regions@ == spec_allocate_regions(*old(self), size, align),
            final(self).live@ == spec_allocate_live(*old(self), size, align),
            r matches Some(a) ==> {
                &&& a != 0
                &&& (a as int) % (align as int) == 0
                &&& old(self).heap_start <= a
                &&& a + size <= old(self).heap_end()
                &&& forall|b: int|
                    #[trigger] old(self).live@.dom().contains(b) ==> ranges_disjoint(
                        b,
                        old(self).live@[b].0,
                        a as int,
                        adjusted_size(size, align),
                    )
            },
    {
        proof {
            lemma_adjusted(size, align);
            lemma_first_fit_from(old(self).regions@, adjusted_size(size, align), adjusted_align(align), 0);
        }
        let (asize, aalign) = Self::adjust_layout(size, align);
        match self.find_region(asize, aalign) {
            None => None,
            Some((region, alloc_start)) => {
                proof {
                    let j = first_fit(old(self).regions@, asize as int, aalign as int)->Some_0;
                    assert(Self::region_wf(old(self).regions@[j]));
                    assert(old(self).region_in_heap(old(self).regions@[j]));
                    lemma_align_up(region.addr as int, aalign as int);
                    let a_int = align_up_spec(region.addr as int, aalign as int);
                    assert(fits(region, asize as int, aalign as int));
                    assert(alloc_start as int == a_int);
                    lemma_mod_zero_transitive(a_int, aalign as int, NODE_ALIGN as int);
                    lemma_mod_zero_transitive(a_int, aalign as int, align as int);
                }
                let alloc_end: usize = alloc_start + asize;
                let region_end: usize = region.addr + region.size;
                let excess: usize = region_end - alloc_end;
                self.live = Ghost(
                    self.live@.insert(alloc_start as int, (asize as int, aalign as int)),
                );
                proof {
                    let j = first_fit(old(self).regions@, asize as int, aalign as int)->Some_0;
                    let prior = old(self).regions@;
                    let s2 = self.regions@;
                    // the block lies inside the chosen region, which was
                    // disjoint from every remaining region and live block
                    assert forall|a: int| #[trigger] self.live@.dom().contains(a)
                        implies self.live_block_wf(a) by {
                        if a != alloc_start as int {
                            assert(old(self).live@.dom().contains(a));
                            assert(old(self).live_block_wf(a));
                        } else {
                            lemma_mod_zero_transitive(a, aalign as int, NODE_ALIGN as int);
                        }
                    }
                    assert forall|a: int, i: int|
                        #[trigger] self.live@.dom().contains(a) && 0 <= i < s2.len()
                            implies ranges_disjoint(
                        a,
                        self.live@[a].0,
                        #[trigger] s2[i].addr as int,
                        s2[i].size as int,
                    ) by {
                        assert(s2[i] == if i < j {
                            prior[i]
                        } else {
                            prior[i + 1]
                        });
                        if a == alloc_start as int {
                            let m = if i < j {
                                i
                            } else {
                                i + 1
                            };
                            assert(ranges_disjoint(
                                prior[m].addr as int,
                                prior[m].size as int,
                                prior[j].addr as int,
                                prior[j].size as int,
                            ));
                        } else {
                            assert(old(self).live@.dom().contains(a));
                        }
                    }
                    assert forall|a: int, b: int|
                        #[trigger] self.live@.dom().contains(a)
                            && #[trigger] self.live@.dom().contains(b) && a != b
                            implies ranges_disjoint(a, self.live@[a].0, b, self.live@[b].0) by {
                        if a != alloc_start as int && b != alloc_start as int {
                            assert(old(self).live@.dom().contains(a));
                            assert(old(self).live@.dom().contains(b));
                        } else if a == alloc_start as int {
                            assert(old(self).live@.dom().contains(b));
                            assert(ranges_disjoint(
                                b,
                                old(self).live@[b].0,
                                prior[j].addr as int,
                                prior[j].size as int,
                            ));
                        } else {
                            assert(old(self).live@.dom().contains(a));
                            assert(ranges_disjoint(
                                a,
                                old(self).live@[a].0,
                                prior[j].addr as int,
                                prior[j].size as int,
                            ));
                        }
                    }
                    assert(self.wf());
                }
                if excess >= NODE_SIZE {
                    proof {
                        let j = first_fit(old(self).regions@, asize as int, aalign as int)->Some_0;
                        let prior = old(self).regions@;
                        lemma_mod_sum_zero(alloc_start as int, asize as int, NODE_ALIGN as int);
                        assert forall|i: int|
                            0 <= i < self.regions@.len() implies ranges_disjoint(
                            alloc_end as int,
                            excess as int,
                            #[trigger] self.regions@[i].addr as int,
                            self.regions@[i].size as int,
                        ) by {
                            assert(self.regions@[i] == if i < j {
                                prior[i]
                            } else {
                                prior[i + 1]
                            });
                            let m = if i < j {
                                i
                            } else {
                                i + 1
                            };
                            assert(ranges_disjoint(
                                prior[m].addr as int,
                                prior[m].size as int,
                                prior[j].addr as int,
                                prior[j].size as int,
                            ));
                        }
                    }
                    self.add_free_region(alloc_end, excess);
                }
                proof {
                    let j = first_fit(old(self).regions@, asize as int, aalign as int)->Some_0;
                    let prior = old(self).regions@;
                    assert forall|b: int| #[trigger] old(self).live@.dom().contains(b)
                        implies ranges_disjoint(
                        b,
                        old(self).live@[b].0,
                        alloc_start as int,
                        asize as int,
                    ) by {
                        assert(ranges_disjoint(
                            b,
                            old(self).live@[b].0,
                            prior[j].addr as int,
                            prior[j].size as int,
                        ));
                    }
                }
                Some(alloc_start)
            },
        }
    }

    /// Frees the block at `ptr` that was allocated with the given size and
    /// alignment.
    ///
    /// The same layout adjustment is recomputed and a free region covering
    /// the whole block is inserted at the head of the list.  Adjacent free
    /// regions are not coalesced: neighbours stay separate nodes even when
    /// physically contiguous, a deliberate simplicity/fragmentation
    /// trade-off.  The caller must pass the pointer and the exact layout of
    /// a live allocation.
    pub fn deallocate(&mut self, ptr: usize, size: usize, align: usize)
        requires
            old(self).wf(),
            valid_request(size, align),
            old(self).live@.contains_pair(
                ptr as int,
                (adjusted_size(size, align), adjusted_align(align)),
            ),
        ensures
            final(self).wf(),
            final(self).heap_start == old(self).heap_start,
            final(self).heap_size == old(self).heap_size,
            final(self).regions@ == old(self).regions@.insert(
                0,
                (FreeRegion {
                    addr: ptr,
                    size: adjusted_size(size, align) as usize,
                }),
            ),
            final(self).live@ == old(self).live@.remove(ptr as int),
            final(self).regions@.len() > 0,
            fits(final(self).regions@[0], adjusted_size(size, align), adjusted_align(align)),
    {
        proof {
            lemma_adjusted(size, align);
            assert(old(self).live_block_wf(ptr as int));
            lemma_mod_zero_transitive(ptr as int, adjusted_align(align), NODE_ALIGN as int);
        }
        let (asize, aalign) = Self::adjust_layout(size, align);
        self.live = Ghost(self.live@.remove(ptr as int));
        proof {
            assert(self.wf());
        }
        self.add_free_region(ptr, asize);
        proof {
            lemma_align_up(ptr as int, aalign as int);
        }
    }

    /// What holds of every address `allocate` hands out: it is nonzero,
    /// aligned to the requested alignment, and the whole adjusted block
    /// lies inside the heap window.
    pub proof fn lemma_allocate_result_props(pre: LinkedListAllocator, size: usize, align: usize)
        requires
            pre.wf(),
            valid_request(size, align),
            spec_allocate_result(pre, size, align) is Some,
        ensures
            ({
                let a = spec_allocate_result(pre, size, align)->Some_0;
                &&& a != 0
                &&& (a as int) % adjusted_align(align) == 0
                &&& (a as int) % (align as int) == 0
                &&& pre.heap_start <= a
                &&& a + size <= pre.heap_end()
                &&& a + adjusted_size(size, align) <= pre.heap_end()
            }),
    {
        let asize = adjusted_size(size, align);
        let aalign = adjusted_align(align);
        lemma_adjusted(size, align);
        lemma_first_fit_from(pre.regions@, asize, aalign, 0);
        let j = first_fit(pre.regions@, asize, aalign)->Some_0;
        let reg = pre.regions@[j];
        assert(Self::region_wf(reg));
        assert(pre.region_in_heap(reg));
        lemma_align_up(reg.addr as int, aalign);
        let a_int = align_up_spec(reg.addr as int, aalign);
        assert(fits(reg, asize, aalign));
        lemma_mod_zero_transitive(a_int, aalign, align as int);
    }

    /// Non-overlap of live allocations: in any well-formed allocator state,
    /// the address ranges of two distinct live blocks do not intersect.
    pub proof fn lemma_live_blocks_disjoint(self)
        requires
            self.wf(),
        ensures
            forall|a: int, b: int|
                #[trigger] self.live@.dom().contains(a) && #[trigger] self.live@.dom().contains(b)
                    && a != b ==> ranges_disjoint(a, self.live@[a].0, b, self.live@[b].0),
    {
    }

    /// Null on exhaustion: a request whose adjusted size exceeds the total
    /// heap capacity fits no free region, so `alloc` must return `None`.
    pub proof fn lemma_alloc_exhaustion(self, size: usize, align: usize)
        requires
            self.wf(),
            valid_request(size, align),
            adjusted_size(size, align) > self.heap_size,
        ensures
            first_fit(self.regions@, adjusted_size(size, align), adjusted_align(align)) is None,
    {
        let asize = adjusted_size(size, align);
        let aalign = adjusted_align(align);
        lemma_adjusted(size, align);
        assert forall|i: int| 0 <= i < self.regions@.len() implies !fits(
            #[trigger] self.regions@[i],
            asize,
            aalign,
        ) by {
            lemma_align_up(self.regions@[i].addr as int, aalign);
        }
        lemma_first_fit_from(self.regions@, asize, aalign, 0);
        if first_fit(self.regions@, asize, aalign) is Some {
            let j = first_fit(self.regions@, asize, aalign)->Some_0;
            assert(!fits(self.regions@[j], asize, aalign));
        }
    }

    /// Reuse after free: when the head region fits a request — as `dealloc`
    /// guarantees right after a block with that layout is freed — the next
    /// `alloc` with that layout chooses the head region and must succeed.
    pub proof fn lemma_reuse_after_free(self, size: usize, align: usize)
        requires
            self.wf(),
            valid_request(size, align),
            self.regions@.len() > 0,
            fits(self.regions@[0], adjusted_size(size, align), adjusted_align(align)),
        ensures
            first_fit(self.regions@, adjusted_size(size, align), adjusted_align(align)) == Some(
                0int,
            ),
    {
    }

    /// Empty allocator: an allocator that was never initialized has no free
    /// regions, so every `alloc` call must return `None`.
    pub proof fn lemma_empty_allocator_rejects_all(self)
        requires
            self.wf(),
            self.heap_size == 0,
        ensures
            forall|asize: int, aalign: int|
                #[trigger] first_fit(self.regions@, asize, aalign) is None,
    {
        self.lemma_uninitialized_is_empty();
    }
}

} // verus!
