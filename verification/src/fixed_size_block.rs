//! Segregated fixed-size-block allocator.
//!
//! Requests are served from one intrusive free list per power-of-two size
//! class; each class's blocks are uniformly sized, so any freed block can
//! serve any later request that maps to the same class.  Requests outside
//! the class table — too large, over-aligned, or on a heap too small for
//! the class — fall back to the general first-fit free-list allocator,
//! which also carves the very first block of every class.
//!
//! In the running kernel a freed block hosts the link node of its class's
//! free list in place; here each free list is bookkeeping over the block
//! addresses.  Every block a class list holds stays recorded in the
//! fallback allocator's ghost live map (class blocks are never returned to
//! the fallback arena), so the fallback invariant keeps all blocks of all
//! classes disjoint.

use vstd::prelude::*;
use crate::align::{lemma_mod_zero_transitive, lemma_pow2_le_divides};
use crate::linked_list::{
    adjusted_align,
    adjusted_size,
    first_fit,
    lemma_adjusted,
    ranges_disjoint,
    spec_allocate_live,
    spec_allocate_regions,
    spec_allocate_result,
    valid_request,
    FreeRegion,
    LinkedListAllocator,
    NODE_ALIGN,
    NODE_SIZE,
};
use vstd::arithmetic::power2::is_pow2;

verus! {

/// The number of block classes, and of free lists.
pub const FREE_LISTS_COUNT: usize = 9;

/// The block size of each class; the block alignment of a class equals its
/// size.  Classes are strictly increasing powers of two from 8 to 2048.
pub open spec fn class_size(i: int) -> usize {
    if i == 0 {
        8
    } else if i == 1 {
        16
    } else if i == 2 {
        32
    } else if i == 3 {
        64
    } else if i == 4 {
        128
    } else if i == 5 {
        256
    } else if i == 6 {
        512
    } else if i == 7 {
        1024
    } else {
        2048
    }
}

/// The adjusted layout size the fallback allocator carves for a block of
/// class `i` (its blocks must be able to host a free-list node, so class 8
/// blocks occupy 16 bytes of arena).
pub open spec fn class_adjusted_size(i: int) -> int {
    adjusted_size(class_size(i), class_size(i))
}

/// Every class size is a power of two, at least 8, and the classes are
/// strictly increasing.
pub proof fn lemma_class_sizes()
    ensures
        forall|i: int| 0 <= i < FREE_LISTS_COUNT ==> is_pow2(#[trigger] class_size(i) as int),
        forall|i: int| 0 <= i < FREE_LISTS_COUNT ==> #[trigger] class_size(i) >= 8,
        forall|i: int, j: int|
            0 <= i < j < FREE_LISTS_COUNT ==> #[trigger] class_size(i) < #[trigger] class_size(j),
{
    reveal_with_fuel(is_pow2, 12);
    assert(is_pow2(8));
    assert(is_pow2(16));
    assert(is_pow2(32));
    assert(is_pow2(64));
    assert(is_pow2(128));
    assert(is_pow2(256));
    assert(is_pow2(512));
    assert(is_pow2(1024));
    assert(is_pow2(2048));
}

/// The block size of class `index`.
pub fn class_block_size(index: usize) -> (r: usize)
    requires
        index < FREE_LISTS_COUNT,
    ensures
        r == class_size(index as int),
{
    if index == 0 {
        8
    } else if index == 1 {
        16
    } else if index == 2 {
        32
    } else if index == 3 {
        64
    } else if index == 4 {
        128
    } else if index == 5 {
        256
    } else if index == 6 {
        512
    } else if index == 7 {
        1024
    } else {
        2048
    }
}

/// Whether class `i` can serve a request: the class must be smaller than
/// the whole heap, and both the requested size and alignment must fit in
/// one of its blocks.
pub open spec fn class_matches(i: int, size: int, align: int, heap_size: int) -> bool {
    &&& (class_size(i) as int) < heap_size
    &&& size <= class_size(i) as int
    &&& align <= class_size(i) as int
}

/// Index of the first matching class at or after `k`, if any.
pub open spec fn class_index_from(size: int, align: int, heap_size: int, k: int) -> Option<int>
    recommends
        0 <= k <= FREE_LISTS_COUNT,
    decreases FREE_LISTS_COUNT - k,
    when 0 <= k <= FREE_LISTS_COUNT
{
    if k >= FREE_LISTS_COUNT {
        None
    } else if class_matches(k, size, align, heap_size) {
        Some(k)
    } else {
        class_index_from(size, align, heap_size, k + 1)
    }
}

/// The class chosen for a request: the smallest matching class, if any.
pub open spec fn class_index_spec(size: int, align: int, heap_size: int) -> Option<int> {
    class_index_from(size, align, heap_size, 0)
}

/// The chosen class matches and no smaller class does; when no class is
/// chosen, none matches.
pub proof fn lemma_class_index_from(size: int, align: int, heap_size: int, k: int)
    requires
        0 <= k <= FREE_LISTS_COUNT,
    ensures
        match class_index_from(size, align, heap_size, k) {
            Some(j) => k <= j < FREE_LISTS_COUNT && class_matches(j, size, align, heap_size)
                && forall|i: int| k <= i < j ==> !#[trigger] class_matches(
                i,
                size,
                align,
                heap_size,
            ),
            None => forall|i: int| k <= i < FREE_LISTS_COUNT ==> !#[trigger] class_matches(
                i,
                size,
                align,
                heap_size,
            ),
        },
    decreases FREE_LISTS_COUNT - k,
{
    if k < FREE_LISTS_COUNT && !class_matches(k, size, align, heap_size) {
        lemma_class_index_from(size, align, heap_size, k + 1);
    }
}

/// The address `FixedSizeBlockAllocator::allocate` returns for a request
/// against the given pre-state: the head of the matching class's free
/// list; or, when that list is empty, what the fallback arena returns for
/// the class's uniform block layout; or, when no class matches, what the
/// fallback arena returns for the request itself.
pub open spec fn spec_fsb_allocate_result(
    pre: FixedSizeBlockAllocator,
    size: usize,
    align: usize,
) -> Option<usize> {
    match class_index_spec(size as int, align as int, pre.fallback_allocator.heap_size as int) {
        None => spec_allocate_result(pre.fallback_allocator, size, align),
        Some(i) => if pre.free_list_heads@[i]@.len() > 0 {
            Some(pre.free_list_heads@[i]@.last())
        } else {
            spec_allocate_result(pre.fallback_allocator, class_size(i), class_size(i))
        },
    }
}

/// The segregated fixed-size-block allocator.
///
/// `free_list_heads` holds one stack of free block addresses per class
/// (the last element is the list head); `fallback_allocator` is the
/// general-purpose arena behind all classes and all out-of-range requests.
pub struct FixedSizeBlockAllocator {
    pub free_list_heads: Vec<Vec<usize>>,
    pub fallback_allocator: LinkedListAllocator,
}

impl FixedSizeBlockAllocator {
    /// The address `a` sits on some class free list.
    pub open spec fn free_listed(self, a: int) -> bool {
        exists|i: int, k: int|
            #![trigger self.free_list_heads@[i]@[k]]
            0 <= i < FREE_LISTS_COUNT && 0 <= k < self.free_list_heads@[i]@.len()
                && self.free_list_heads@[i]@[k] == a
    }

    /// Well-formedness: the fallback arena is well-formed, there is one
    /// free list per class, every listed block is recorded in the fallback
    /// arena's live map with its class's uniform layout, and no block sits
    /// on a list twice or on two lists.
    pub open spec fn wf(self) -> bool {
        &&& self.fallback_allocator.wf()
        &&& self.free_list_heads@.len() == FREE_LISTS_COUNT
        &&& forall|i: int, k: int|
            0 <= i < FREE_LISTS_COUNT && 0 <= k < self.free_list_heads@[i]@.len()
                ==> self.fallback_allocator.live@.contains_pair(
                #[trigger] self.free_list_heads@[i]@[k] as int,
                (class_adjusted_size(i), class_size(i) as int),
            )
        &&& forall|i: int, k: int, i2: int, k2: int|
            0 <= i < FREE_LISTS_COUNT && 0 <= k < self.free_list_heads@[i]@.len() && 0 <= i2
                < FREE_LISTS_COUNT && 0 <= k2 < self.free_list_heads@[i2]@.len() && (i != i2 || k
                != k2) ==> #[trigger] self.free_list_heads@[i]@[k]
                != #[trigger] self.free_list_heads@[i2]@[k2]
    }

    /// Creates an empty allocator: no heap, so every allocation fails until
    /// `init` is called.
    pub fn empty() -> (r: Self)
        ensures
            r.wf(),
            r.fallback_allocator.heap_size == 0,
            r.fallback_allocator.regions@.len() == 0,
            r.fallback_allocator.live@ == Map::<int, (int, int)>::empty(),
            forall|i: int|
                0 <= i < FREE_LISTS_COUNT ==> #[trigger] r.free_list_heads@[i]@.len() == 0,
    {
        let mut heads: Vec<Vec<usize>> = Vec::new();
        heads.push(Vec::new());
        heads.push(Vec::new());
        heads.push(Vec::new());
        heads.push(Vec::new());
        heads.push(Vec::new());
        heads.push(Vec::new());
        heads.push(Vec::new());
        heads.push(Vec::new());
        heads.push(Vec::new());
        FixedSizeBlockAllocator {
            free_list_heads: heads,
            fallback_allocator: LinkedListAllocator::new(),
        }
    }

    /// Creates a new allocator over the given heap bounds.
    ///
    /// The caller guarantees the window is valid, unused memory.
    pub fn new(heap_start: usize, heap_size: usize) -> (r: Self)
        requires
            heap_start > 0,
            heap_start % NODE_ALIGN == 0,
            heap_size >= NODE_SIZE,
            heap_start + heap_size <= usize::MAX,
        ensures
            r.wf(),
            r.fallback_allocator.heap_start == heap_start,
            r.fallback_allocator.heap_size == heap_size,
            r.fallback_allocator.regions@ =~= seq![
                (FreeRegion { addr: heap_start, size: heap_size }),
            ],
            r.fallback_allocator.live@ =~= Map::<int, (int, int)>::empty(),
            forall|i: int|
                0 <= i < FREE_LISTS_COUNT ==> #[trigger] r.free_list_heads@[i]@.len() == 0,
    {
        let mut allocator = Self::empty();
        allocator.init(heap_start, heap_size);
        allocator
    }

    /// Initialize an empty allocator with the given heap bounds.
    ///
    /// The whole window goes to the fallback arena.  The caller guarantees
    /// the window is valid, unused memory; the allocator must be empty and
    /// initialized only once.
    pub fn init(&mut self, heap_start: usize, heap_size: usize)
        requires
            old(self).wf(),
            old(self).fallback_allocator.heap_size == 0,
            heap_start > 0,
            heap_start % NODE_ALIGN == 0,
            heap_size >= NODE_SIZE,
            heap_start + heap_size <= usize::MAX,
        ensures
            final(self).wf(),
            final(self).fallback_allocator.heap_start == heap_start,
            final(self).fallback_allocator.heap_size == heap_size,
            final(self).fallback_allocator.regions@ =~= seq![
                (FreeRegion { addr: heap_start, size: heap_size }),
            ],
            final(self).fallback_allocator.live@ =~= Map::<int, (int, int)>::empty(),
            final(self).free_list_heads@ == old(self).free_list_heads@,
    {
        proof {
            old(self).fallback_allocator.lemma_uninitialized_is_empty();
        }
        self.fallback_allocator.init(heap_start, heap_size);
        proof {
            assert forall|i: int, k: int|
                0 <= i < FREE_LISTS_COUNT && 0 <= k < self.free_list_heads@[i]@.len()
                    implies self.fallback_allocator.live@.contains_pair(
                #[trigger] self.free_list_heads@[i]@[k] as int,
                (class_adjusted_size(i), class_size(i) as int),
            ) by {
                // before initialization nothing was ever allocated, so no
                // class free list can hold a block: the premise is vacuous
                assert(old(self).fallback_allocator.live@.contains_pair(
                    self.free_list_heads@[i]@[k] as int,
                    (class_adjusted_size(i), class_size(i) as int),
                ));
                assert(false);
            }
        }
    }

    /// Choose the free list for a request: the smallest class that is
    /// smaller than the heap and whose block size and alignment cover the
    /// request; `None` sends the request to the fallback arena.
    fn free_list_index(&self, size: usize, align: usize) -> (r: Option<usize>)
        ensures
            match class_index_spec(
                size as int,
                align as int,
                self.fallback_allocator.heap_size as int,
            ) {
                Some(i) => r == Some(i as usize),
                None => r is None,
            },
    {
        let heap_size: usize = self.fallback_allocator.heap_size;
        let ghost hs = heap_size as int;
        let mut index: usize = 0;
        while index < FREE_LISTS_COUNT
            invariant
                0 <= index <= FREE_LISTS_COUNT,
                heap_size == self.fallback_allocator.heap_size,
                class_index_spec(size as int, align as int, hs) == class_index_from(
                    size as int,
                    align as int,
                    hs,
                    index as int,
                ),
                hs == heap_size as int,
            decreases FREE_LISTS_COUNT - index,
        {
            let block_size: usize = class_block_size(index);
            if block_size < heap_size && size <= block_size && align <= block_size {
                return Some(index);
            }
            index = index + 1;
        }
        None
    }

    /// Allocates a block using the fallback arena.
    fn fallback_allocate(&mut self, size: usize, align: usize) -> (r: Option<usize>)
        requires
            old(self).wf(),
            valid_request(size, align),
        ensures
            final(self).wf(),
            final(self).free_list_heads@ == old(self).free_list_heads@,
            final(self).fallback_allocator.heap_start == old(self).fallback_allocator.heap_start,
            final(self).fallback_allocator.heap_size == old(self).fallback_allocator.heap_size,
            r == spec_allocate_result(old(self).fallback_allocator, size, align),
            final(self).fallback_allocator.regions@ == spec_allocate_regions(
                old(self).fallback_allocator,
                size,
                align,
            ),
            final(self).fallback_allocator.live@ == spec_allocate_live(
                old(self).fallback_allocator,
                size,
                align,
            ),
            r matches Some(a) ==> {
                &&& a != 0
                &&& (a as int) % (align as int) == 0
                &&& old(self).fallback_allocator.heap_start <= a
                &&& a + size <= old(self).fallback_allocator.heap_end()
                &&& !old(self).fallback_allocator.live@.dom().contains(a as int)
            },
    {
        let r = self.fallback_allocator.allocate(size, align);
        proof {
            if r is Some {
                let a = r->Some_0;
                // a fresh block does not overlap any recorded block, and
                // blocks are nonempty, so its address is not yet recorded
                if old(self).fallback_allocator.live@.dom().contains(a as int) {
                    assert(old(self).fallback_allocator.live_block_wf(a as int));
                    assert(ranges_disjoint(
                        a as int,
                        old(self).fallback_allocator.live@[a as int].0,
                        a as int,
                        adjusted_size(size, align),
                    ));
                    lemma_adjusted(size, align);
                    assert(false);
                }
            }
            let lists = self.free_list_heads@;
            assert forall|i: int, k: int|
                0 <= i < FREE_LISTS_COUNT && 0 <= k < lists[i]@.len()
                    implies self.fallback_allocator.live@.contains_pair(
                #[trigger] lists[i]@[k] as int,
                (class_adjusted_size(i), class_size(i) as int),
            ) by {
                assert(old(self).fallback_allocator.live@.contains_pair(
                    lists[i]@[k] as int,
                    (class_adjusted_size(i), class_size(i) as int),
                ));
            }
        }
        r
    }

    /// Allocates a block from the class free list with the given index, or
    /// from the fallback arena — with the class's uniform block layout —
    /// when that list is empty.
    fn free_list_allocate(&mut self, index: usize) -> (r: Option<usize>)
        requires
            old(self).wf(),
            index < FREE_LISTS_COUNT,
        ensures
            final(self).wf(),
            final(self).fallback_allocator.heap_start == old(self).fallback_allocator.heap_start,
            final(self).fallback_allocator.heap_size == old(self).fallback_allocator.heap_size,
            ({
                let lists = old(self).free_list_heads@;
                if lists[index as int]@.len() > 0 {
                    &&& r == Some(lists[index as int]@.last())
                    &&& final(self).fallback_allocator == old(self).fallback_allocator
                    &&& final(self).free_list_heads@.len() == FREE_LISTS_COUNT
                    &&& final(self).free_list_heads@[index as int]@
                        == lists[index as int]@.drop_last()
                    &&& forall|m: int|
                        0 <= m < FREE_LISTS_COUNT && m != index
                            ==> #[trigger] final(self).free_list_heads@[m]@ == lists[m]@
                } else {
                    let bs = class_size(index as int);
                    &&& r == spec_allocate_result(old(self).fallback_allocator, bs, bs)
                    &&& final(self).fallback_allocator.regions@ == spec_allocate_regions(
                        old(self).fallback_allocator,
                        bs,
                        bs,
                    )
                    &&& final(self).fallback_allocator.live@ == spec_allocate_live(
                        old(self).fallback_allocator,
                        bs,
                        bs,
                    )
                    &&& final(self).free_list_heads@.len() == FREE_LISTS_COUNT
                    &&& forall|m: int|
                        0 <= m < FREE_LISTS_COUNT
                            ==> #[trigger] final(self).free_list_heads@[m]@ == lists[m]@
                }
            }),
    {
        proof {
            lemma_class_sizes();
        }
        let list = &mut self.free_list_heads[index];
        let head = list.pop();
        match head {
            Some(node) => {
                proof {
                    let lists = old(self).free_list_heads@;
                    let cur = self.free_list_heads@;
                    assert(cur == lists.update(
                        index as int,
                        cur[index as int],
                    ));
                    assert forall|i: int, k: int|
                        0 <= i < FREE_LISTS_COUNT && 0 <= k < cur[i]@.len()
                            implies self.fallback_allocator.live@.contains_pair(
                        #[trigger] cur[i]@[k] as int,
                        (class_adjusted_size(i), class_size(i) as int),
                    ) by {
                        if i == index as int {
                            assert(cur[i]@[k] == lists[i]@[k]);
                        }
                    }
                    assert forall|i: int, k: int, i2: int, k2: int|
                        0 <= i < FREE_LISTS_COUNT && 0 <= k < cur[i]@.len() && 0 <= i2
                            < FREE_LISTS_COUNT && 0 <= k2 < cur[i2]@.len() && (i != i2 || k != k2)
                            implies #[trigger] cur[i]@[k] != #[trigger] cur[i2]@[k2] by {
                        assert(cur[i]@[k] == lists[i]@[k]);
                        assert(cur[i2]@[k2] == lists[i2]@[k2]);
                    }
                }
                Some(node)
            },
            None => {
                let block_size: usize = class_block_size(index);
                proof {
                    lemma_adjusted(block_size, block_size);
                }
                self.fallback_allocate(block_size, block_size)
            },
        }
    }

    /// Allocates a block of memory for the given size and alignment.
    ///
    /// When a class matches the request, its free list serves it in O(1)
    /// (or the fallback arena carves a block with the class's uniform
    /// layout); otherwise the request goes to the fallback arena as it is.
    ///
    /// On success the returned address is nonzero and aligned, and the
    /// block lies inside the heap window.
    pub fn allocate(&mut self, size: usize, align: usize) -> (r: Option<usize>)
        requires
            old(self).wf(),
            valid_request(size, align),
        ensures
            final(self).wf(),
            final(self).fallback_allocator.heap_start == old(self).fallback_allocator.heap_start,
            final(self).fallback_allocator.heap_size == old(self).fallback_allocator.heap_size,
            r == spec_fsb_allocate_result(*old(self), size, align),
            ({
                let hs = old(self).fallback_allocator.heap_size as int;
                let lists = old(self).free_list_heads@;
                match class_index_spec(size as int, align as int, hs) {
                    None => {
                        &&& r == spec_allocate_result(old(self).fallback_allocator, size, align)
                        &&& final(self).fallback_allocator.regions@ == spec_allocate_regions(
                            old(self).fallback_allocator,
                            size,
                            align,
                        )
                        &&& final(self).fallback_allocator.live@ == spec_allocate_live(
                            old(self).fallback_allocator,
                            size,
                            align,
                        )
                        &&& final(self).free_list_heads@ == lists
                    },
                    Some(i) => if lists[i]@.len() > 0 {
                        &&& r == Some(lists[i]@.last())
                        &&& final(self).fallback_allocator == old(self).fallback_allocator
                        &&& final(self).free_list_heads@.len() == FREE_LISTS_COUNT
                        &&& final(self).free_list_heads@[i]@ == lists[i]@.drop_last()
                        &&& forall|m: int|
                            0 <= m < FREE_LISTS_COUNT && m != i
                                ==> #[trigger] final(self).free_list_heads@[m]@ == lists[m]@
                    } else {
                        let bs = class_size(i);
                        &&& r == spec_allocate_result(old(self).fallback_allocator, bs, bs)
                        &&& final(self).fallback_allocator.regions@ == spec_allocate_regions(
                            old(self).fallback_allocator,
                            bs,
                            bs,
                        )
                        &&& final(self).fallback_allocator.live@ == spec_allocate_live(
                            old(self).fallback_allocator,
                            bs,
                            bs,
                        )
                        &&& final(self).free_list_heads@.len() == FREE_LISTS_COUNT
                        &&& forall|m: int|
                            0 <= m < FREE_LISTS_COUNT
                                ==> #[trigger] final(self).free_list_heads@[m]@ == lists[m]@
                    },
                }
            }),
            r matches Some(a) ==> {
                &&& a != 0
                &&& (a as int) % (align as int) == 0
                &&& old(self).fallback_allocator.heap_start <= a
                &&& a + size <= old(self).fallback_allocator.heap_end()
            },
    {
        let ghost hs = old(self).fallback_allocator.heap_size as int;
        proof {
            lemma_class_sizes();
            lemma_class_index_from(size as int, align as int, hs, 0);
        }
        match self.free_list_index(size, align) {
            Some(index) => {
                let r = self.free_list_allocate(index);
                proof {
                    let i = index as int;
                    if r is Some {
                        let a = r->Some_0;
                        lemma_adjusted(size, align);
                        lemma_adjusted(class_size(i), class_size(i));
                        if old(self).free_list_heads@[i]@.len() > 0 {
                            // the block came off the class list: the
                            // fallback live map records its class layout
                            let lists = old(self).free_list_heads@;
                            let k = lists[i]@.len() - 1;
                            assert(a == lists[i]@[k]);
                            assert(old(self).fallback_allocator.live@.contains_pair(
                                lists[i]@[k] as int,
                                (class_adjusted_size(i), class_size(i) as int),
                            ));
                            assert(old(self).fallback_allocator.live@[a as int] == (
                                class_adjusted_size(i),
                                class_size(i) as int,
                            ));
                            assert(old(self).fallback_allocator.live_block_wf(a as int));
                            assert((a as int) % (class_size(i) as int) == 0);
                            lemma_pow2_le_divides(align as int, class_size(i) as int);
                            lemma_mod_zero_transitive(
                                a as int,
                                class_size(i) as int,
                                align as int,
                            );
                        } else {
                            // the block came from the fallback arena with
                            // the class's uniform layout
                            LinkedListAllocator::lemma_allocate_result_props(
                                old(self).fallback_allocator,
                                class_size(i),
                                class_size(i),
                            );
                            lemma_pow2_le_divides(align as int, class_size(i) as int);
                            lemma_mod_zero_transitive(
                                a as int,
                                class_size(i) as int,
                                align as int,
                            );
                        }
                    }
                }
                r
            },
            None => self.fallback_allocate(size, align),
        }
    }

    /// Frees the block at `ptr` that was allocated with the given size and
    /// alignment.
    ///
    /// A null pointer is a documented no-op (it is never forwarded to the
    /// fallback arena).  The class selection is recomputed with the same
    /// rule as `allocate`: when a class matches, the block is pushed onto
    /// that class's free list for O(1) reuse; otherwise it returns to the
    /// fallback arena.  The caller must pass the pointer and the exact
    /// layout of a live allocation.
    pub fn deallocate(&mut self, ptr: usize, size: usize, align: usize)
        requires
            old(self).wf(),
            ptr != 0 ==> valid_request(size, align),
            ptr != 0 ==> !old(self).free_listed(ptr as int),
            ptr != 0 ==> match class_index_spec(
                size as int,
                align as int,
                old(self).fallback_allocator.heap_size as int,
            ) {
                Some(i) => old(self).fallback_allocator.live@.contains_pair(
                    ptr as int,
                    (class_adjusted_size(i), class_size(i) as int),
                ),
                None => old(self).fallback_allocator.live@.contains_pair(
                    ptr as int,
                    (adjusted_size(size, align), adjusted_align(align)),
                ),
            },
        ensures
            final(self).wf(),
            final(self).fallback_allocator.heap_start == old(self).fallback_allocator.heap_start,
            final(self).fallback_allocator.heap_size == old(self).fallback_allocator.heap_size,
            ptr == 0 ==> *final(self) == *old(self),
            ptr != 0 ==> ({
                let hs = old(self).fallback_allocator.heap_size as int;
                let lists = old(self).free_list_heads@;
                match class_index_spec(size as int, align as int, hs) {
                    Some(i) => {
                        &&& final(self).fallback_allocator == old(self).fallback_allocator
                        &&& final(self).free_list_heads@.len() == FREE_LISTS_COUNT
                        &&& final(self).free_list_heads@[i]@ == lists[i]@.push(ptr)
                        &&& forall|m: int|
                            0 <= m < FREE_LISTS_COUNT && m != i
                                ==> #[trigger] final(self).free_list_heads@[m]@ == lists[m]@
                    },
                    None => {
                        &&& final(self).free_list_heads@ == lists
                        &&& final(self).fallback_allocator.regions@
                            == old(self).fallback_allocator.regions@.insert(
                            0,
                            (FreeRegion {
                                addr: ptr,
                                size: adjusted_size(size, align) as usize,
                            }),
                        )
                        &&& final(self).fallback_allocator.live@
                            == old(self).fallback_allocator.live@.remove(ptr as int)
                    },
                }
            }),
    {
        if ptr == 0 {
            return ;
        }
        let ghost hs = old(self).fallback_allocator.heap_size as int;
        proof {
            lemma_class_index_from(size as int, align as int, hs, 0);
        }
        match self.free_list_index(size, align) {
            Some(index) => {
                let list = &mut self.free_list_heads[index];
                list.push(ptr);
                proof {
                    let lists = old(self).free_list_heads@;
                    let cur = self.free_list_heads@;
                    let i0 = index as int;
                    assert forall|i: int, k: int|
                        0 <= i < FREE_LISTS_COUNT && 0 <= k < cur[i]@.len()
                            implies self.fallback_allocator.live@.contains_pair(
                        #[trigger] cur[i]@[k] as int,
                        (class_adjusted_size(i), class_size(i) as int),
                    ) by {
                        if i == i0 && k == lists[i0]@.len() {
                            assert(cur[i]@[k] == ptr);
                        } else {
                            assert(cur[i]@[k] == lists[i]@[k]);
                        }
                    }
                    assert forall|i: int, k: int, i2: int, k2: int|
                        0 <= i < FREE_LISTS_COUNT && 0 <= k < cur[i]@.len() && 0 <= i2
                            < FREE_LISTS_COUNT && 0 <= k2 < cur[i2]@.len() && (i != i2 || k != k2)
                            implies #[trigger] cur[i]@[k] != #[trigger] cur[i2]@[k2] by {
                        if i == i0 && k == lists[i0]@.len() {
                            assert(cur[i]@[k] == ptr);
                            assert(cur[i2]@[k2] == lists[i2]@[k2]);
                        } else if i2 == i0 && k2 == lists[i0]@.len() {
                            assert(cur[i2]@[k2] == ptr);
                            assert(cur[i]@[k] == lists[i]@[k]);
                        } else {
                            assert(cur[i]@[k] == lists[i]@[k]);
                            assert(cur[i2]@[k2] == lists[i2]@[k2]);
                        }
                    }
                }
            },
            None => {
                self.fallback_allocator.deallocate(ptr, size, align);
                proof {
                    let lists = self.free_list_heads@;
                    assert forall|i: int, k: int|
                        0 <= i < FREE_LISTS_COUNT && 0 <= k < lists[i]@.len()
                            implies self.fallback_allocator.live@.contains_pair(
                        #[trigger] lists[i]@[k] as int,
                        (class_adjusted_size(i), class_size(i) as int),
                    ) by {
                        assert(old(self).fallback_allocator.live@.contains_pair(
                            lists[i]@[k] as int,
                            (class_adjusted_size(i), class_size(i) as int),
                        ));
                        assert(lists[i]@[k] != ptr);
                    }
                }
            },
        }
    }

    /// Non-overlap: in any well-formed allocator state, the fallback
    /// arena's live map records every block handed out by any path — the
    /// blocks currently held by the class free lists included — and no two
    /// of those blocks intersect.  Live allocations visible to callers are
    /// the recorded blocks that sit on no class free list, so in
    /// particular no two of them intersect either.
    pub proof fn lemma_live_blocks_disjoint(self)
        requires
            self.wf(),
        ensures
            forall|a: int, b: int|
                #[trigger] self.fallback_allocator.live@.dom().contains(a)
                    && #[trigger] self.fallback_allocator.live@.dom().contains(b) && a != b
                    ==> ranges_disjoint(
                    a,
                    self.fallback_allocator.live@[a].0,
                    b,
                    self.fallback_allocator.live@[b].0,
                ),
    {
        self.fallback_allocator.lemma_live_blocks_disjoint();
    }

    /// Null on exhaustion: a request larger than the whole heap matches no
    /// class, and its adjusted layout fits no free region of the fallback
    /// arena, so `allocate` must return `None`.
    pub proof fn lemma_allocate_exhaustion(self, size: usize, align: usize)
        requires
            self.wf(),
            valid_request(size, align),
            size > self.fallback_allocator.heap_size,
        ensures
            class_index_spec(
                size as int,
                align as int,
                self.fallback_allocator.heap_size as int,
            ) is None,
            first_fit(
                self.fallback_allocator.regions@,
                adjusted_size(size, align),
                adjusted_align(align),
            ) is None,
    {
        let hs = self.fallback_allocator.heap_size as int;
        lemma_class_index_from(size as int, align as int, hs, 0);
        if class_index_spec(size as int, align as int, hs) is Some {
            let i = class_index_spec(size as int, align as int, hs)->Some_0;
            assert(class_matches(i, size as int, align as int, hs));
            assert(false);
        }
        lemma_adjusted(size, align);
        self.fallback_allocator.lemma_alloc_exhaustion(size, align);
    }

    /// Empty allocator: an allocator on which `init` was never called has
    /// a zero-capacity heap, so no class ever matches and the fallback
    /// arena holds no free region; every `allocate` call returns `None`.
    pub proof fn lemma_empty_allocator_rejects_all(self)
        requires
            self.wf(),
            self.fallback_allocator.heap_size == 0,
        ensures
            forall|size: int, align: int|
                #[trigger] class_index_spec(size, align, 0) is None,
            self.fallback_allocator.regions@.len() == 0,
            forall|asize: int, aalign: int|
                #[trigger] first_fit(self.fallback_allocator.regions@, asize, aalign) is None,
    {
        assert forall|size: int, align: int| #[trigger] class_index_spec(size, align, 0) is None by {
            lemma_class_index_from(size, align, 0, 0);
            if class_index_spec(size, align, 0) is Some {
                let i = class_index_spec(size, align, 0)->Some_0;
                assert(class_matches(i, size, align, 0));
                assert(false);
            }
        }
        self.fallback_allocator.lemma_uninitialized_is_empty();
        self.fallback_allocator.lemma_empty_allocator_rejects_all();
    }

    /// Stress idempotence: from any state where the matching class's
    /// free list is not empty — as after the first allocate-free round
    /// with a class-served layout — `allocate` pops exactly the head
    /// block, and freeing it pushes it back, which by `allocate`'s and
    /// `deallocate`'s contracts restores the class lists exactly and
    /// leaves the fallback arena untouched.  Each allocate-free round is
    /// therefore the identity on the allocator's state, so rounds with
    /// that layout can continue forever: the loop never exhausts the
    /// heap.
    pub proof fn lemma_stress_idempotence(self, size: usize, align: usize)
        requires
            self.wf(),
            valid_request(size, align),
            class_index_spec(
                size as int,
                align as int,
                self.fallback_allocator.heap_size as int,
            ) matches Some(i) && self.free_list_heads@[i]@.len() > 0,
        ensures
            ({
                let i = class_index_spec(
                    size as int,
                    align as int,
                    self.fallback_allocator.heap_size as int,
                )->Some_0;
                let l = self.free_list_heads@[i]@;
                &&& spec_fsb_allocate_result(self, size, align) == Some(l.last())
                &&& l.drop_last().push(l.last()) == l
            }),
    {
        let i = class_index_spec(
            size as int,
            align as int,
            self.fallback_allocator.heap_size as int,
        )->Some_0;
        let l = self.free_list_heads@[i]@;
        assert(l.drop_last().push(l.last()) =~= l);
    }

    /// Reuse after free: when a class matches a request and its free list
    /// is not empty — as is the case right after `deallocate` pushed a
    /// block with that layout — `allocate` pops that list and must
    /// succeed, returning the block most recently freed to the class.
    pub proof fn lemma_reuse_after_free(self, size: usize, align: usize)
        requires
            self.wf(),
            valid_request(size, align),
            class_index_spec(
                size as int,
                align as int,
                self.fallback_allocator.heap_size as int,
            ) matches Some(i) && self.free_list_heads@[i]@.len() > 0,
        ensures
            ({
                let i = class_index_spec(
                    size as int,
                    align as int,
                    self.fallback_allocator.heap_size as int,
                )->Some_0;
                spec_fsb_allocate_result(self, size, align) == Some(
                    self.free_list_heads@[i]@.last(),
                )
            }),
    {
    }
}

} // verus!
