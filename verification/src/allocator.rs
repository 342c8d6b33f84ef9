//! The process-wide allocator: one of three interchangeable strategies
//! behind a single capability interface (`init`, `allocate`, `deallocate`).
//!
//! The strategy is selected when the process-wide allocator value is built,
//! before the heap is initialized.  The allocator state is explicit and is
//! passed through the call path; serializing concurrent access to it (a
//! busy-wait lock in a kernel with no scheduler to yield to) is the
//! unverified shell's duty, and exclusive access is what `&mut self`
//! stands for here.
//!
//! A caveat that shell must respect: with a non-reentrant busy-wait lock,
//! an interrupt handler that allocates while the interrupted code holds
//! the lock busy-waits forever on a single core.  Either interrupts are
//! masked around every allocator critical section, or interrupt handlers
//! must not allocate.

use vstd::prelude::*;
use crate::align::align_up_spec;
use crate::bump::BumpAllocator;
use crate::fixed_size_block::{
    class_adjusted_size,
    class_index_spec,
    class_size,
    spec_fsb_allocate_result,
    FixedSizeBlockAllocator,
    FREE_LISTS_COUNT,
};
use crate::linked_list::{
    adjusted_align,
    adjusted_size,
    fits,
    spec_allocate_live,
    spec_allocate_regions,
    spec_allocate_result,
    valid_request,
    FreeRegion,
    LinkedListAllocator,
    NODE_ALIGN,
    NODE_SIZE,
};

verus! {

/// The closed set of allocation strategies.
pub enum KernelAllocator {
    Bump(BumpAllocator),
    FreeList(LinkedListAllocator),
    FixedSizeBlock(FixedSizeBlockAllocator),
}

impl KernelAllocator {
    /// Well-formedness of the installed strategy.
    pub open spec fn wf(self) -> bool {
        match self {
            KernelAllocator::Bump(b) => b.wf(),
            KernelAllocator::FreeList(l) => l.wf(),
            KernelAllocator::FixedSizeBlock(f) => f.wf(),
        }
    }

    /// Start of the heap window the strategy manages.
    pub open spec fn heap_start(self) -> int {
        match self {
            KernelAllocator::Bump(b) => b.heap_start as int,
            KernelAllocator::FreeList(l) => l.heap_start as int,
            KernelAllocator::FixedSizeBlock(f) => f.fallback_allocator.heap_start as int,
        }
    }

    /// Size of the heap window the strategy manages.
    pub open spec fn heap_size(self) -> int {
        match self {
            KernelAllocator::Bump(b) => b.heap_end - b.heap_start,
            KernelAllocator::FreeList(l) => l.heap_size as int,
            KernelAllocator::FixedSizeBlock(f) => f.fallback_allocator.heap_size as int,
        }
    }

    /// First address past the heap window.
    pub open spec fn heap_end(self) -> int {
        self.heap_start() + self.heap_size()
    }

    /// The strategy was never initialized: it manages no memory yet and
    /// holds no allocations.
    pub open spec fn uninitialized(self) -> bool {
        match self {
            KernelAllocator::Bump(b) => b.heap_end == 0 && b.allocation_count == 0,
            KernelAllocator::FreeList(l) => l.heap_size == 0,
            KernelAllocator::FixedSizeBlock(f) => f.fallback_allocator.heap_size == 0,
        }
    }

    /// The address the installed strategy hands out for a request, or
    /// `None` when it must fail.
    pub open spec fn spec_allocate(self, size: usize, align: usize) -> Option<usize> {
        match self {
            KernelAllocator::Bump(b) => {
                let a = align_up_spec(b.next_free as int, align as int);
                if a + size > b.heap_end {
                    None
                } else {
                    Some(a as usize)
                }
            },
            KernelAllocator::FreeList(l) => spec_allocate_result(l, size, align),
            KernelAllocator::FixedSizeBlock(f) => spec_fsb_allocate_result(f, size, align),
        }
    }

    /// What a caller must guarantee before freeing `(ptr, size, align)`:
    /// exactly the pointer and layout of a live allocation of the
    /// installed strategy (for the fixed-size-block strategy, a null
    /// pointer is also accepted and ignored).
    pub open spec fn can_deallocate(self, ptr: usize, size: usize, align: usize) -> bool {
        match self {
            KernelAllocator::Bump(b) => b.live@.count((ptr, size)) > 0,
            KernelAllocator::FreeList(l) => valid_request(size, align)
                && l.live@.contains_pair(
                ptr as int,
                (adjusted_size(size, align), adjusted_align(align)),
            ),
            KernelAllocator::FixedSizeBlock(f) => ptr != 0 ==> valid_request(size, align)
                && !f.free_listed(ptr as int) && match class_index_spec(
                size as int,
                align as int,
                f.fallback_allocator.heap_size as int,
            ) {
                Some(i) => f.fallback_allocator.live@.contains_pair(
                    ptr as int,
                    (class_adjusted_size(i), class_size(i) as int),
                ),
                None => f.fallback_allocator.live@.contains_pair(
                    ptr as int,
                    (adjusted_size(size, align), adjusted_align(align)),
                ),
            },
        }
    }

    /// Initializes the installed strategy with the given heap bounds.
    ///
    /// The caller guarantees the window is valid, mapped, unused memory,
    /// and that the strategy was never initialized before.
    pub fn init(&mut self, heap_start: usize, heap_size: usize)
        requires
            old(self).wf(),
            old(self).uninitialized(),
            heap_start > 0,
            heap_start % NODE_ALIGN == 0,
            heap_size >= NODE_SIZE,
            heap_start + heap_size <= usize::MAX,
        ensures
            final(self).wf(),
            final(self).heap_start() == heap_start,
            final(self).heap_size() == heap_size,
            (*old(self)) is Bump ==> (*final(self)) is Bump,
            (*old(self)) is FreeList ==> (*final(self)) is FreeList,
            (*old(self)) is FixedSizeBlock ==> (*final(self)) is FixedSizeBlock,
    {
        match self {
            KernelAllocator::Bump(b) => b.init(heap_start, heap_size),
            KernelAllocator::FreeList(l) => l.init(heap_start, heap_size),
            KernelAllocator::FixedSizeBlock(f) => f.init(heap_start, heap_size),
        }
    }

    /// Allocates a block for the given size and alignment through the
    /// installed strategy.  Never panics: exhaustion is reported as
    /// `None`, and out-of-memory policy stays with the caller.
    ///
    /// On success the returned address is aligned and the block lies
    /// inside the heap window.
    pub fn allocate(&mut self, size: usize, align: usize) -> (r: Option<usize>)
        requires
            old(self).wf(),
            valid_request(size, align),
            (*old(self)) matches KernelAllocator::Bump(b) ==> b.allocation_count < usize::MAX,
        ensures
            final(self).wf(),
            final(self).heap_start() == old(self).heap_start(),
            final(self).heap_size() == old(self).heap_size(),
            r == old(self).spec_allocate(size, align),
            r matches Some(a) ==> {
                &&& (a as int) % (align as int) == 0
                &&& old(self).heap_start() <= a
                &&& a + size <= old(self).heap_end()
            },
            (*old(self)) matches KernelAllocator::Bump(b0) ==> (*final(self)) matches KernelAllocator::Bump(b1) && {
                let a = align_up_spec(b0.next_free as int, align as int);
                if a + size > b0.heap_end {
                    b1 == b0
                } else {
                    &&& b1.next_free == a + size
                    &&& b1.allocation_count == b0.allocation_count + 1
                    &&& b1.live@ == b0.live@.insert((a as usize, size))
                }
            },
            (*old(self)) matches KernelAllocator::FreeList(l0) ==> (*final(self)) matches KernelAllocator::FreeList(l1) && {
                &&& l1.regions@ == spec_allocate_regions(l0, size, align)
                &&& l1.live@ == spec_allocate_live(l0, size, align)
            },
            (*old(self)) matches KernelAllocator::FixedSizeBlock(f0)
                ==> (*final(self)) matches KernelAllocator::FixedSizeBlock(f1) && ({
                let hs = f0.fallback_allocator.heap_size as int;
                match class_index_spec(size as int, align as int, hs) {
                    None => {
                        &&& f1.fallback_allocator.regions@ == spec_allocate_regions(
                            f0.fallback_allocator,
                            size,
                            align,
                        )
                        &&& f1.fallback_allocator.live@ == spec_allocate_live(
                            f0.fallback_allocator,
                            size,
                            align,
                        )
                        &&& f1.free_list_heads@ == f0.free_list_heads@
                    },
                    Some(i) => if f0.free_list_heads@[i]@.len() > 0 {
                        &&& f1.fallback_allocator == f0.fallback_allocator
                        &&& f1.free_list_heads@.len() == FREE_LISTS_COUNT
                        &&& f1.free_list_heads@[i]@ == f0.free_list_heads@[i]@.drop_last()
                        &&& forall|m: int|
                            0 <= m < FREE_LISTS_COUNT && m != i
                                ==> #[trigger] f1.free_list_heads@[m]@ == f0.free_list_heads@[m]@
                    } else {
                        let bs = class_size(i);
                        &&& f1.fallback_allocator.regions@ == spec_allocate_regions(
                            f0.fallback_allocator,
                            bs,
                            bs,
                        )
                        &&& f1.fallback_allocator.live@ == spec_allocate_live(
                            f0.fallback_allocator,
                            bs,
                            bs,
                        )
                        &&& f1.free_list_heads@.len() == FREE_LISTS_COUNT
                        &&& forall|m: int|
                            0 <= m < FREE_LISTS_COUNT
                                ==> #[trigger] f1.free_list_heads@[m]@ == f0.free_list_heads@[m]@
                    },
                }
            }),
    {
        match self {
            KernelAllocator::Bump(b) => {
                proof {
                    crate::linked_list::lemma_adjusted(size, align);
                }
                b.allocate(size, align)
            },
            KernelAllocator::FreeList(l) => l.allocate(size, align),
            KernelAllocator::FixedSizeBlock(f) => f.allocate(size, align),
        }
    }

    /// Frees the block at `ptr` that was allocated with the given size and
    /// alignment, through the installed strategy.
    pub fn deallocate(&mut self, ptr: usize, size: usize, align: usize)
        requires
            old(self).wf(),
            old(self).can_deallocate(ptr, size, align),
        ensures
            final(self).wf(),
            final(self).heap_start() == old(self).heap_start(),
            final(self).heap_size() == old(self).heap_size(),
            (*old(self)) matches KernelAllocator::Bump(b0) ==> (*final(self)) matches KernelAllocator::Bump(b1) && {
                &&& b1.allocation_count == b0.allocation_count - 1
                &&& b1.live@ == b0.live@.remove((ptr, size))
                &&& b1.next_free == if b0.allocation_count == 1 {
                    b0.heap_start
                } else {
                    b0.next_free
                }
            },
            (*old(self)) matches KernelAllocator::FreeList(l0) ==> (*final(self)) matches KernelAllocator::FreeList(l1) && {
                &&& l1.regions@ == l0.regions@.insert(
                    0,
                    (FreeRegion { addr: ptr, size: adjusted_size(size, align) as usize }),
                )
                &&& l1.live@ == l0.live@.remove(ptr as int)
                &&& fits(l1.regions@[0], adjusted_size(size, align), adjusted_align(align))
            },
            (*old(self)) matches KernelAllocator::FixedSizeBlock(f0) ==> (*final(self)) matches KernelAllocator::FixedSizeBlock(f1) && (ptr != 0 ==> match class_index_spec(
                size as int,
                align as int,
                f0.fallback_allocator.heap_size as int,
            ) {
                Some(i) => {
                    &&& f1.fallback_allocator == f0.fallback_allocator
                    &&& f1.free_list_heads@.len() == FREE_LISTS_COUNT
                    &&& f1.free_list_heads@[i]@ == f0.free_list_heads@[i]@.push(ptr)
                    &&& forall|m: int|
                        0 <= m < FREE_LISTS_COUNT && m != i
                            ==> #[trigger] f1.free_list_heads@[m]@ == f0.free_list_heads@[m]@
                },
                None => {
                    &&& f1.free_list_heads@ == f0.free_list_heads@
                    &&& f1.fallback_allocator.regions@ == f0.fallback_allocator.regions@.insert(
                        0,
                        (FreeRegion { addr: ptr, size: adjusted_size(size, align) as usize }),
                    )
                    &&& f1.fallback_allocator.live@ == f0.fallback_allocator.live@.remove(
                        ptr as int,
                    )
                },
            }) && (ptr == 0 ==> f1 == f0),
    {
        match self {
            KernelAllocator::Bump(b) => b.deallocate(ptr, size),
            KernelAllocator::FreeList(l) => l.deallocate(ptr, size, align),
            KernelAllocator::FixedSizeBlock(f) => f.deallocate(ptr, size, align),
        }
    }

    /// Null on exhaustion: whatever the installed strategy, a request for
    /// more bytes than the whole heap capacity must be refused.
    pub proof fn lemma_allocate_exhaustion(self, size: usize, align: usize)
        requires
            self.wf(),
            valid_request(size, align),
            size > self.heap_size(),
        ensures
            self.spec_allocate(size, align) is None,
    {
        crate::linked_list::lemma_adjusted(size, align);
        match self {
            KernelAllocator::Bump(b) => {
                crate::align::lemma_align_up(b.next_free as int, align as int);
            },
            KernelAllocator::FreeList(l) => {
                l.lemma_alloc_exhaustion(size, align);
            },
            KernelAllocator::FixedSizeBlock(f) => {
                f.lemma_allocate_exhaustion(size, align);
            },
        }
    }

    /// Empty allocator: whatever the installed strategy, an allocator on
    /// which `init` was never called refuses every request for at least
    /// one byte.
    pub proof fn lemma_uninitialized_rejects_all(self, size: usize, align: usize)
        requires
            self.wf(),
            self.uninitialized(),
            valid_request(size, align),
            size >= 1,
        ensures
            self.spec_allocate(size, align) is None,
    {
        crate::linked_list::lemma_adjusted(size, align);
        match self {
            KernelAllocator::Bump(b) => {
                crate::align::lemma_align_up(b.next_free as int, align as int);
            },
            KernelAllocator::FreeList(l) => {
                l.lemma_empty_allocator_rejects_all();
            },
            KernelAllocator::FixedSizeBlock(f) => {
                f.lemma_empty_allocator_rejects_all();
            },
        }
    }
}

/// Initializes the process-wide allocator with the given mapped heap
/// region.
///
/// The caller guarantees that the region is already mapped and is not
/// used anywhere else, and calls this exactly once, before the first
/// allocation.
pub fn init_heap(allocator: &mut KernelAllocator, heap_start: usize, heap_size: usize)
    requires
        old(allocator).wf(),
        old(allocator).uninitialized(),
        heap_start > 0,
        heap_start % NODE_ALIGN == 0,
        heap_size >= NODE_SIZE,
        heap_start + heap_size <= usize::MAX,
    ensures
        final(allocator).wf(),
        final(allocator).heap_start() == heap_start,
        final(allocator).heap_size() == heap_size,
        (*old(allocator)) is Bump ==> (*final(allocator)) is Bump,
        (*old(allocator)) is FreeList ==> (*final(allocator)) is FreeList,
        (*old(allocator)) is FixedSizeBlock ==> (*final(allocator)) is FixedSizeBlock,
{
    allocator.init(heap_start, heap_size);
}

} // verus!
