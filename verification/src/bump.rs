//! Bump allocator: a trivial monotonic-pointer strategy.
//!
//! Allocation rounds the bump pointer up to the requested alignment and
//! advances it; deallocation only counts.  Memory is reclaimed all at once:
//! when the outstanding-allocation count returns to zero the bump pointer
//! resets to the start of the heap.  The strategy suits short-lived setup
//! allocations where individual reuse is not needed.

use vstd::prelude::*;
use crate::align::{align_up_checked, align_up_spec, lemma_align_up, lemma_pow2_pos};
use crate::linked_list::ranges_disjoint;
use vstd::arithmetic::power2::is_pow2;
use vstd::multiset::Multiset;

verus! {

broadcast use vstd::multiset::group_multiset_axioms;

/// The bump allocator.
///
/// `live` is the ghost record of outstanding allocations, each a
/// (address, size) pair; `allocation_count` always equals its cardinality.
pub struct BumpAllocator {
    pub heap_start: usize,
    pub heap_end: usize,
    pub next_free: usize,
    pub allocation_count: usize,
    pub live: Ghost<Multiset<(usize, usize)>>,
}

impl BumpAllocator {
    /// Well-formedness: the bump pointer stays inside the heap window, the
    /// count matches the ghost record, and every live block lies below the
    /// bump pointer, no two of them overlapping.
    pub open spec fn wf(self) -> bool {
        &&& self.heap_start <= self.next_free <= self.heap_end
        &&& self.allocation_count == self.live@.len()
        &&& forall|b: (usize, usize)|
            #![trigger self.live@.count(b)]
            self.live@.count(b) > 0 ==> self.heap_start <= b.0 && b.0 + b.1 <= self.next_free
        &&& forall|b1: (usize, usize), b2: (usize, usize)|
            #![trigger self.live@.count(b1), self.live@.count(b2)]
            self.live@.count(b1) > 0 && self.live@.count(b2) > 0 && b1 != b2
                ==> ranges_disjoint(b1.0 as int, b1.1 as int, b2.0 as int, b2.1 as int)
    }

    /// Creates an empty bump allocator over a zero-capacity heap; every
    /// allocation of a nonzero size fails until `init` is called.
    pub fn new() -> (r: Self)
        ensures
            r.wf(),
            r.heap_start == 0,
            r.heap_end == 0,
            r.next_free == 0,
            r.allocation_count == 0,
            r.live@ == Multiset::<(usize, usize)>::empty(),
    {
        BumpAllocator {
            heap_start: 0,
            heap_end: 0,
            next_free: 0,
            allocation_count: 0,
            live: Ghost(Multiset::empty()),
        }
    }

    /// Initialize the allocator with the given heap bounds.
    ///
    /// The caller guarantees the window is valid, unused memory, and that
    /// the allocator holds no outstanding allocations.
    pub fn init(&mut self, heap_start: usize, heap_size: usize)
        requires
            old(self).wf(),
            old(self).allocation_count == 0,
            heap_start + heap_size <= usize::MAX,
        ensures
            final(self).wf(),
            final(self).heap_start == heap_start,
            final(self).heap_end == heap_start + heap_size,
            final(self).next_free == heap_start,
            final(self).allocation_count == 0,
            final(self).live@ == old(self).live@,
    {
        proof {
            assert(old(self).live@ =~= Multiset::<(usize, usize)>::empty());
        }
        self.heap_start = heap_start;
        self.heap_end = heap_start + heap_size;
        self.next_free = heap_start;
    }

    /// Allocates a block: rounds the bump pointer up to `align`, and when
    /// the block still fits below the end of the heap, advances the pointer
    /// past it.  Returns `None` (without changing anything) when the block
    /// would not fit.
    pub fn allocate(&mut self, size: usize, align: usize) -> (r: Option<usize>)
        requires
            old(self).wf(),
            is_pow2(align as int),
            old(self).allocation_count < usize::MAX,
        ensures
            final(self).wf(),
            final(self).heap_start == old(self).heap_start,
            final(self).heap_end == old(self).heap_end,
            ({
                let a = align_up_spec(old(self).next_free as int, align as int);
                if a + size > old(self).heap_end {
                    r is None && *final(self) == *old(self)
                } else {
                    &&& r == Some(a as usize)
                    &&& final(self).next_free == a + size
                    &&& final(self).allocation_count == old(self).allocation_count + 1
                    &&& final(self).live@ == old(self).live@.insert((a as usize, size))
                }
            }),
            r matches Some(a) ==> {
                &&& (a as int) % (align as int) == 0
                &&& old(self).heap_start <= a
                &&& a + size <= old(self).heap_end
                &&& forall|b: (usize, usize)|
                    #![trigger old(self).live@.count(b)]
                    old(self).live@.count(b) > 0 ==> ranges_disjoint(
                        b.0 as int,
                        b.1 as int,
                        a as int,
                        size as int,
                    )
            },
    {
        proof {
            lemma_pow2_pos(align as int);
            lemma_align_up(self.next_free as int, align as int);
        }
        match align_up_checked(self.next_free, align) {
            None => None,
            Some(alloc_start) => match alloc_start.checked_add(size) {
                None => None,
                Some(alloc_end) => {
                    if alloc_end > self.heap_end {
                        None
                    } else {
                        self.next_free = alloc_end;
                        self.allocation_count = self.allocation_count + 1;
                        self.live = Ghost(self.live@.insert((alloc_start, size)));
                        Some(alloc_start)
                    }
                },
            },
        }
    }

    /// Frees one outstanding allocation.
    ///
    /// The individual block is not reclaimed; only the count drops.  When
    /// the last outstanding allocation is freed, the whole heap is
    /// reclaimed at once by resetting the bump pointer.  The caller must
    /// pass the address and size of a live allocation.
    pub fn deallocate(&mut self, ptr: usize, size: usize)
        requires
            old(self).wf(),
            old(self).live@.count((ptr, size)) > 0,
        ensures
            final(self).wf(),
            final(self).heap_start == old(self).heap_start,
            final(self).heap_end == old(self).heap_end,
            final(self).allocation_count == old(self).allocation_count - 1,
            final(self).live@ == old(self).live@.remove((ptr, size)),
            final(self).next_free == if old(self).allocation_count == 1 {
                old(self).heap_start
            } else {
                old(self).next_free
            },
    {
        proof {
            assert(Multiset::singleton((ptr, size)).subset_of(old(self).live@)) by {
                assert(forall|b: (usize, usize)|
                    Multiset::singleton((ptr, size)).count(b) <= old(self).live@.count(b));
            }
        }
        self.live = Ghost(self.live@.remove((ptr, size)));
        self.allocation_count = self.allocation_count - 1;
        if self.allocation_count == 0 {
            self.next_free = self.heap_start;
            proof {
                assert forall|b: (usize, usize)|
                    #![trigger self.live@.count(b)]
                    self.live@.count(b) > 0 implies self.heap_start <= b.0 && b.0 + b.1
                    <= self.next_free by {
                    vstd::multiset::lemma_multiset_empty_len(self.live@);
                }
            }
        }
    }

    /// Non-overlap of live allocations: in any well-formed bump allocator
    /// state, the address ranges of two distinct live blocks do not
    /// intersect.
    pub proof fn lemma_live_blocks_disjoint(self)
        requires
            self.wf(),
        ensures
            forall|b1: (usize, usize), b2: (usize, usize)|
                #![trigger self.live@.count(b1), self.live@.count(b2)]
                self.live@.count(b1) > 0 && self.live@.count(b2) > 0 && b1 != b2
                    ==> ranges_disjoint(b1.0 as int, b1.1 as int, b2.0 as int, b2.1 as int),
    {
    }
}

} // verus!
