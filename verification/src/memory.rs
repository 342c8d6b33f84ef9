//! Mapping the virtual heap window to physical memory.
//!
//! Before any allocator strategy can serve requests, every page of the
//! fixed heap window must be backed by a physical frame.  The walk runs
//! exactly once at boot: for each page, one frame is pulled from the frame
//! source and one translation is installed through the page mapper; the
//! walk stops at the first failure, and boot aborts on that error, so a
//! partially mapped heap is never used.
//!
//! The frame source and the page mapper are collaborators specified at
//! their interfaces: the source is a one-shot cursor that supplies unique
//! physical frames with no release operation, and the mapper installs a
//! (page, frame) translation with the given protection flags.  On success
//! the walk therefore leaves every page of its range mapped with exactly
//! those flags, each page to its own fresh frame.  A software model of a
//! page table, `MappingTable`, implements the mapper interface.

use vstd::prelude::*;
use crate::allocator::KernelAllocator;
use crate::linked_list::{NODE_ALIGN, NODE_SIZE};

verus! {

/// The page size in bytes.
pub const PAGE_SIZE: u64 = 4096;

/// The start of the region of virtual memory dedicated to the heap.
pub const HEAP_START: u64 = 0x4444_4444_0000;

/// The size of the heap in bytes.
pub const HEAP_SIZE: u64 = 100 * 1024;

/// Failure of the boot-time heap mapping.  All of these are fatal: boot
/// aborts and nothing is retried.
#[derive(Clone, Copy, Debug, PartialEq, Eq, Structural)]
pub enum MapError {
    /// The frame source is exhausted.
    FrameAllocationFailed,
    /// A translation for the page is already installed.
    PageAlreadyMapped,
    /// The translation would live under a huge-page parent entry.
    ParentEntryHugePage,
}

/// Protection flags of an installed translation.
#[derive(Clone, Copy, Debug, PartialEq, Eq, Structural)]
pub struct PageFlags {
    pub present: bool,
    pub writable: bool,
}

/// An inclusive range of pages, numbered by their index in the virtual
/// address space.
#[derive(Clone, Copy, Debug, PartialEq, Eq, Structural)]
pub struct PageRange {
    pub first: u64,
    pub last: u64,
}

/// The number of the page holding the given address.
pub open spec fn page_containing(addr: int) -> int {
    addr / (PAGE_SIZE as int)
}

/// The heap window invariant: its start address is page-aligned and its
/// size is a whole number of pages, so the window is exactly the pages
/// the boot-time walk maps.
pub proof fn lemma_heap_window_is_whole_pages()
    ensures
        HEAP_START as int % (PAGE_SIZE as int) == 0,
        HEAP_SIZE as int % (PAGE_SIZE as int) == 0,
        HEAP_START > 0,
        HEAP_SIZE > 0,
{
}

/// Converts a virtual memory region to the range of its constituent
/// pages.  `end_address` is the last valid address of the region.
pub fn region_pages(start_address: u64, end_address: u64) -> (r: PageRange)
    ensures
        r.first == page_containing(start_address as int),
        r.last == page_containing(end_address as int),
{
    PageRange { first: start_address / PAGE_SIZE, last: end_address / PAGE_SIZE }
}

/// A source of physical page frames: a one-shot consumable cursor over
/// the frames marked usable at boot, with no release operation.  The
/// source supplies unique frames: one it has handed out never comes back.
/// Whether the next frame comes at all is the source's own business.
pub trait FrameSource {
    /// The source's own validity condition, guaranteed by whoever built
    /// it (for the boot-time source: a well-formed memory map).
    spec fn inv(&self) -> bool;

    /// The frames the source has already handed out.
    spec fn frames_allocated(&self) -> Set<u64>;

    /// Returns the start address of the next usable physical frame —
    /// never one handed out before — or `None` when the source is
    /// exhausted.
    fn allocate_frame(&mut self) -> (r: Option<u64>)
        requires
            old(self).inv(),
        ensures
            final(self).inv(),
            r matches Some(f) ==> !old(self).frames_allocated().contains(f) && final(self).frames_allocated() == old(self).frames_allocated().insert(f),
            r is None ==> final(self).frames_allocated() == old(self).frames_allocated(),
    ;
}

/// Installs (page, frame) translations with given protection flags.
pub trait PageMapper {
    /// The translations currently installed: page number to the frame
    /// address and the protection flags it was installed with.
    spec fn mappings(&self) -> Map<u64, (u64, PageFlags)>;

    /// Installs a translation for `page` to `frame` with `flags`.  On
    /// success exactly that translation is added; on failure nothing
    /// changes.
    fn map_page(&mut self, page: u64, frame: u64, flags: PageFlags) -> (r: Result<
        (),
        MapError,
    >)
        ensures
            r is Ok ==> final(self).mappings() == old(self).mappings().insert(
                page,
                (frame, flags),
            ),
            r is Err ==> final(self).mappings() == old(self).mappings(),
    ;
}

/// Maps the given pages to physical memory.
///
/// For each page of the range, in ascending order, pulls one frame from
/// `frame_allocator` (failing with `FrameAllocationFailed` when the
/// source is exhausted) and installs a translation through `mapper`.
/// Stops at the first failure.  On success every page of the range is
/// mapped with the given flags, each to its own frame that the source
/// had never handed out before the walk.  Pages outside the range are
/// never touched, installed translations are never removed, and an empty
/// range trivially succeeds.
pub fn map_pages_to_physical_memory<M: PageMapper, F: FrameSource>(
    mapper: &mut M,
    frame_allocator: &mut F,
    region: PageRange,
    flags: PageFlags,
) -> (r: Result<(), MapError>)
    requires
        region.last < u64::MAX,
        old(frame_allocator).inv(),
    ensures
        final(frame_allocator).inv(),
        region.first > region.last ==> r is Ok && *final(mapper) == *old(mapper) && *final(frame_allocator) == *old(frame_allocator),
        forall|p: u64|
            old(mapper).mappings().contains_key(p) ==> final(mapper).mappings().contains_key(p),
        forall|p: u64|
            !(region.first <= p <= region.last) ==> (#[trigger] final(mapper).mappings().contains_key(p) <==> old(mapper).mappings().contains_key(p)),
        forall|p: u64|
            !(region.first <= p <= region.last) && old(mapper).mappings().contains_key(p)
                ==> #[trigger] final(mapper).mappings()[p] == old(mapper).mappings()[p],
        forall|f: u64|
            old(frame_allocator).frames_allocated().contains(f) ==> final(frame_allocator).frames_allocated().contains(f),
        r is Ok ==> forall|p: u64|
            region.first <= p <= region.last ==> {
                &&& #[trigger] final(mapper).mappings().contains_key(p)
                &&& final(mapper).mappings()[p].1 == flags
                &&& !old(frame_allocator).frames_allocated().contains(
                    final(mapper).mappings()[p].0,
                )
                &&& final(frame_allocator).frames_allocated().contains(
                    final(mapper).mappings()[p].0,
                )
            },
        r is Ok ==> forall|p1: u64, p2: u64|
            region.first <= p1 <= region.last && region.first <= p2 <= region.last && p1 != p2
                ==> (#[trigger] final(mapper).mappings()[p1]).0 != (#[trigger] final(mapper).mappings()[p2]).0,
{
    let mut page: u64 = region.first;
    if page > region.last {
        return Ok(());
    }
    while page <= region.last
        invariant
            region.first <= page <= region.last + 1,
            region.last < u64::MAX,
            frame_allocator.inv(),
            forall|p: u64|
                old(mapper).mappings().contains_key(p) ==> mapper.mappings().contains_key(p),
            forall|p: u64|
                !(region.first <= p < page) ==> (#[trigger] mapper.mappings().contains_key(p)
                    <==> old(mapper).mappings().contains_key(p)),
            forall|p: u64|
                !(region.first <= p < page) && old(mapper).mappings().contains_key(p)
                    ==> #[trigger] mapper.mappings()[p] == old(mapper).mappings()[p],
            forall|f: u64|
                old(frame_allocator).frames_allocated().contains(f)
                    ==> frame_allocator.frames_allocated().contains(f),
            forall|p: u64|
                region.first <= p < page ==> {
                    &&& #[trigger] mapper.mappings().contains_key(p)
                    &&& mapper.mappings()[p].1 == flags
                    &&& !old(frame_allocator).frames_allocated().contains(mapper.mappings()[p].0)
                    &&& frame_allocator.frames_allocated().contains(mapper.mappings()[p].0)
                },
            forall|p1: u64, p2: u64|
                region.first <= p1 < page && region.first <= p2 < page && p1 != p2
                    ==> (#[trigger] mapper.mappings()[p1]).0 != (#[trigger] mapper.mappings()[
                    p2]).0,
        decreases region.last + 1 - page,
    {
        let ghost taken0 = frame_allocator.frames_allocated();
        let ghost maps0 = mapper.mappings();
        proof {
            assert forall|p: u64| region.first <= p < page implies maps0.contains_key(p)
                && taken0.contains((#[trigger] maps0[p]).0) by {
                assert(mapper.mappings().contains_key(p));
            }
        }
        let frame: u64 = match frame_allocator.allocate_frame() {
            Some(frame) => frame,
            None => {
                return Err(MapError::FrameAllocationFailed);
            },
        };
        match mapper.map_page(page, frame, flags) {
            Ok(_) => {},
            Err(e) => {
                return Err(e);
            },
        }
        proof {
            // the fresh frame differs from every frame already behind a
            // walked page, which the source had recorded before this step
            assert(!taken0.contains(frame));
            assert forall|p1: u64, p2: u64|
                region.first <= p1 < page + 1 && region.first <= p2 < page + 1 && p1 != p2
                implies (#[trigger] mapper.mappings()[p1]).0 != (#[trigger] mapper.mappings()[
                p2]).0 by {
                if p1 == page {
                    assert(mapper.mappings()[p2] == maps0[p2]);
                    assert(taken0.contains(maps0[p2].0));
                } else if p2 == page {
                    assert(mapper.mappings()[p1] == maps0[p1]);
                    assert(taken0.contains(maps0[p1].0));
                } else {
                    assert(mapper.mappings()[p1] == maps0[p1]);
                    assert(mapper.mappings()[p2] == maps0[p2]);
                }
            }
        }
        page = page + 1;
    }
    Ok(())
}

/// Maps the heap window to physical memory, page by page, with
/// present-and-writable translations.  On success every page of the
/// window is mapped present and writable, each to its own fresh frame.
pub fn map_heap_to_physical_memory<M: PageMapper, F: FrameSource>(
    mapper: &mut M,
    frame_allocator: &mut F,
) -> (r: Result<(), MapError>)
    requires
        old(frame_allocator).inv(),
    ensures
        final(frame_allocator).inv(),
        forall|p: u64|
            old(mapper).mappings().contains_key(p) ==> final(mapper).mappings().contains_key(p),
        r is Ok ==> forall|p: u64|
            page_containing(HEAP_START as int) <= p <= page_containing(
                HEAP_START as int + HEAP_SIZE as int - 1,
            ) ==> {
                &&& #[trigger] final(mapper).mappings().contains_key(p)
                &&& final(mapper).mappings()[p].1 == (PageFlags { present: true, writable: true })
                &&& !old(frame_allocator).frames_allocated().contains(
                    final(mapper).mappings()[p].0,
                )
            },
        r is Ok ==> forall|p1: u64, p2: u64|
            page_containing(HEAP_START as int) <= p1 <= page_containing(
                HEAP_START as int + HEAP_SIZE as int - 1,
            ) && page_containing(HEAP_START as int) <= p2 <= page_containing(
                HEAP_START as int + HEAP_SIZE as int - 1,
            ) && p1 != p2 ==> (#[trigger] final(mapper).mappings()[p1]).0 != (#[trigger] final(mapper).mappings()[p2]).0,
{
    let flags = PageFlags { present: true, writable: true };
    let heap_pages = region_pages(HEAP_START, HEAP_START + HEAP_SIZE - 1);
    let r = map_pages_to_physical_memory(mapper, frame_allocator, heap_pages, flags);
    proof {
        let first = page_containing(HEAP_START as int);
        let last = page_containing(HEAP_START as int + HEAP_SIZE as int - 1);
        if r is Ok {
            assert forall|p: u64| first <= p <= last implies {
                &&& #[trigger] mapper.mappings().contains_key(p)
                &&& mapper.mappings()[p].1 == flags
                &&& !old(frame_allocator).frames_allocated().contains(mapper.mappings()[p].0)
            } by {
                assert(heap_pages.first <= p <= heap_pages.last);
            }
        }
    }
    r
}

/// Initializes the heap: maps the whole heap window to physical memory,
/// and on success hands the window to the given (never yet initialized)
/// allocator.  On failure the allocator stays untouched and boot must
/// abort.  Must be called exactly once, before the first allocation.
///
/// On success every page of the heap window is mapped present and
/// writable, each to its own fresh frame, and the allocator serves the
/// window.
pub fn init_heap<M: PageMapper, F: FrameSource>(
    mapper: &mut M,
    frame_allocator: &mut F,
    allocator: &mut KernelAllocator,
) -> (r: Result<(), MapError>)
    requires
        old(allocator).wf(),
        old(allocator).uninitialized(),
        old(frame_allocator).inv(),
        HEAP_START as int + HEAP_SIZE as int <= usize::MAX as int,
    ensures
        final(allocator).wf(),
        final(frame_allocator).inv(),
        r is Ok ==> {
            &&& final(allocator).heap_start() == HEAP_START
            &&& final(allocator).heap_size() == HEAP_SIZE
            &&& forall|p: u64|
                page_containing(HEAP_START as int) <= p <= page_containing(
                    HEAP_START as int + HEAP_SIZE as int - 1,
                ) ==> {
                    &&& #[trigger] final(mapper).mappings().contains_key(p)
                    &&& final(mapper).mappings()[p].1 == (PageFlags {
                        present: true,
                        writable: true,
                    })
                    &&& !old(frame_allocator).frames_allocated().contains(
                        final(mapper).mappings()[p].0,
                    )
                }
            &&& forall|p1: u64, p2: u64|
                page_containing(HEAP_START as int) <= p1 <= page_containing(
                    HEAP_START as int + HEAP_SIZE as int - 1,
                ) && page_containing(HEAP_START as int) <= p2 <= page_containing(
                    HEAP_START as int + HEAP_SIZE as int - 1,
                ) && p1 != p2 ==> (#[trigger] final(mapper).mappings()[p1]).0 != (
                #[trigger] final(mapper).mappings()[p2]).0
        },
        r is Err ==> *final(allocator) == *old(allocator),
        (*old(allocator)) is Bump ==> (*final(allocator)) is Bump,
        (*old(allocator)) is FreeList ==> (*final(allocator)) is FreeList,
        (*old(allocator)) is FixedSizeBlock ==> (*final(allocator)) is FixedSizeBlock,
{
    match map_heap_to_physical_memory(mapper, frame_allocator) {
        Ok(_) => {
            allocator.init(HEAP_START as usize, HEAP_SIZE as usize);
            Ok(())
        },
        Err(e) => Err(e),
    }
}

/// One installed translation of a `MappingTable`.
#[derive(Clone, Copy, Debug, PartialEq, Eq, Structural)]
pub struct MappingEntry {
    pub page: u64,
    pub frame: u64,
    pub flags: PageFlags,
}

/// The translations a `MappingTable` holds, read off its entry list; a
/// later entry for the same page wins (installation refuses duplicates,
/// so the case never arises).
pub open spec fn entries_map(s: Seq<MappingEntry>) -> Map<u64, (u64, PageFlags)>
    decreases s.len(),
{
    if s.len() == 0 {
        Map::empty()
    } else {
        entries_map(s.drop_last()).insert(s.last().page, (s.last().frame, s.last().flags))
    }
}

/// A page is in the translation map exactly when some entry carries it.
pub proof fn lemma_entries_map_domain(s: Seq<MappingEntry>)
    ensures
        forall|p: u64|
            entries_map(s).contains_key(p) <==> exists|k: int|
                0 <= k < s.len() && (#[trigger] s[k]).page == p,
    decreases s.len(),
{
    if s.len() > 0 {
        let head = s.drop_last();
        lemma_entries_map_domain(head);
        assert forall|p: u64| entries_map(s).contains_key(p) implies exists|k: int|
            0 <= k < s.len() && (#[trigger] s[k]).page == p by {
            if p == s.last().page {
                assert((s[s.len() - 1]).page == p);
            } else {
                assert(entries_map(head).contains_key(p));
                let k = choose|k: int| 0 <= k < head.len() && (#[trigger] head[k]).page == p;
                assert(s[k] == head[k]);
                assert((s[k]).page == p);
            }
        }
        assert forall|p: u64|
            exists|k: int| 0 <= k < s.len() && (#[trigger] s[k]).page == p implies entries_map(
            s,
        ).contains_key(p) by {
            let k = choose|k: int| 0 <= k < s.len() && (#[trigger] s[k]).page == p;
            if k < s.len() - 1 {
                assert((head[k]).page == p);
                assert(entries_map(head).contains_key(p));
            }
        }
    }
}

/// A software page table: the list of installed translations.  A model
/// of the hardware table walker at the mapper interface; it refuses to
/// map a page twice.
pub struct MappingTable {
    pub entries: Vec<MappingEntry>,
}

impl MappingTable {
    /// Creates an empty table with no translations installed.
    pub fn new() -> (r: Self)
        ensures
            r.entries@.len() == 0,
            r.mappings() == Map::<u64, (u64, PageFlags)>::empty(),
    {
        MappingTable { entries: Vec::new() }
    }

    /// Installs a translation, refusing a page that already has one.
    pub fn insert_mapping(&mut self, page: u64, frame: u64, flags: PageFlags) -> (r: Result<
        (),
        MapError,
    >)
        ensures
            r is Ok <==> !entries_map(old(self).entries@).contains_key(page),
            r is Ok ==> entries_map(final(self).entries@) == entries_map(
                old(self).entries@,
            ).insert(page, (frame, flags)),
            r is Err ==> r == Result::<(), MapError>::Err(MapError::PageAlreadyMapped)
                && *final(self) == *old(self),
    {
        let n: usize = self.entries.len();
        let mut idx: usize = 0;
        while idx < n
            invariant
                0 <= idx <= n,
                n == self.entries@.len(),
                *self == *old(self),
                forall|k: int| 0 <= k < idx ==> (#[trigger] self.entries@[k]).page != page,
            decreases n - idx,
        {
            let entry = self.entries[idx];
            if entry.page == page {
                proof {
                    lemma_entries_map_domain(old(self).entries@);
                    assert((old(self).entries@[idx as int]).page == page);
                }
                return Err(MapError::PageAlreadyMapped);
            }
            idx = idx + 1;
        }
        proof {
            lemma_entries_map_domain(old(self).entries@);
            assert(!entries_map(old(self).entries@).contains_key(page));
        }
        self.entries.push(MappingEntry { page, frame, flags });
        proof {
            assert(self.entries@.drop_last() =~= old(self).entries@);
        }
        Ok(())
    }
}

impl PageMapper for MappingTable {
    open spec fn mappings(&self) -> Map<u64, (u64, PageFlags)> {
        entries_map(self.entries@)
    }

    fn map_page(&mut self, page: u64, frame: u64, flags: PageFlags) -> (r: Result<
        (),
        MapError,
    >) {
        self.insert_mapping(page, frame, flags)
    }
}

} // verus!
