use myos::allocator::KernelAllocator;
use myos::boot_info_frame_allocator::{BootInfoFrameAllocator, MemoryRegion};
use myos::bump::BumpAllocator;
use myos::fixed_size_block::FixedSizeBlockAllocator;
use myos::linked_list::LinkedListAllocator;
use myos::memory::{
    init_heap,
    map_pages_to_physical_memory,
    region_pages,
    MapError,
    MappingEntry,
    MappingTable,
    PageFlags,
    PageRange,
    HEAP_SIZE,
    HEAP_START,
};

fn boot_memory_map() -> Vec<MemoryRegion> {
    vec![
        MemoryRegion { start: 0x0, end: 0x1000, usable: false },
        MemoryRegion { start: 0x1000, end: 0x4000, usable: true },
        MemoryRegion { start: 0x4000, end: 0x8000, usable: false },
        MemoryRegion { start: 0x10_0000, end: 0x20_0000, usable: true },
    ]
}

#[test]
fn frame_allocator_walks_usable_regions_in_order() {
    let mut frame_allocator = BootInfoFrameAllocator::init(boot_memory_map());

    assert_eq!(frame_allocator.next_usable_frame(), Some(0x1000));
    assert_eq!(frame_allocator.next_usable_frame(), Some(0x2000));
    assert_eq!(frame_allocator.next_usable_frame(), Some(0x3000));
    assert_eq!(frame_allocator.next_usable_frame(), Some(0x10_0000));
    assert_eq!(frame_allocator.next_usable_frame(), Some(0x10_1000));
}

#[test]
fn frame_allocator_reports_exhaustion() {
    let map = vec![MemoryRegion { start: 0x1000, end: 0x3000, usable: true }];
    let mut frame_allocator = BootInfoFrameAllocator::init(map);

    assert_eq!(frame_allocator.next_usable_frame(), Some(0x1000));
    assert_eq!(frame_allocator.next_usable_frame(), Some(0x2000));
    assert_eq!(frame_allocator.next_usable_frame(), None);
    assert_eq!(frame_allocator.next_usable_frame(), None);
}

#[test]
fn frame_addresses_are_aligned_down_to_their_page() {
    // a region that does not start on a page boundary lies outside the
    // boot loader's guarantee, but the cursor is defensive: it still
    // yields page-aligned frame addresses
    let map = vec![MemoryRegion { start: 0x1800, end: 0x3800, usable: true }];
    let mut frame_allocator = BootInfoFrameAllocator::init(map);

    assert_eq!(frame_allocator.next_usable_frame(), Some(0x1000));
    assert_eq!(frame_allocator.next_usable_frame(), Some(0x2000));
}

#[test]
fn region_pages_covers_the_region_inclusively() {
    let range = region_pages(0x5000, 0x7fff);
    assert_eq!(range.first, 5);
    assert_eq!(range.last, 7);
}

#[test]
fn mapping_table_refuses_a_double_mapping() {
    let flags = PageFlags { present: true, writable: false };
    let mut mapper = MappingTable::new();

    assert_eq!(mapper.insert_mapping(7, 0x1000, flags), Ok(()));
    assert_eq!(mapper.insert_mapping(8, 0x2000, flags), Ok(()));
    assert_eq!(mapper.insert_mapping(7, 0x3000, flags), Err(MapError::PageAlreadyMapped));
}

#[test]
fn mapping_pages_pulls_one_frame_per_page() {
    let map = vec![MemoryRegion { start: 0x1000, end: 0x6000, usable: true }];
    let mut frame_allocator = BootInfoFrameAllocator::init(map);
    let mut mapper = MappingTable::new();
    let flags = PageFlags { present: true, writable: true };

    let region = PageRange { first: 100, last: 103 };
    let result = map_pages_to_physical_memory(&mut mapper, &mut frame_allocator, region, flags);
    assert_eq!(result, Ok(()));
    assert_eq!(
        mapper.entries,
        vec![
            MappingEntry { page: 100, frame: 0x1000, flags },
            MappingEntry { page: 101, frame: 0x2000, flags },
            MappingEntry { page: 102, frame: 0x3000, flags },
            MappingEntry { page: 103, frame: 0x4000, flags },
        ]
    );
}

#[test]
fn mapping_an_empty_range_succeeds_and_changes_nothing() {
    let map = vec![MemoryRegion { start: 0x1000, end: 0x2000, usable: true }];
    let mut frame_allocator = BootInfoFrameAllocator::init(map);
    let mut mapper = MappingTable::new();
    let flags = PageFlags { present: true, writable: true };

    let region = PageRange { first: 9, last: 3 };
    let result = map_pages_to_physical_memory(&mut mapper, &mut frame_allocator, region, flags);
    assert_eq!(result, Ok(()));
    assert!(mapper.entries.is_empty());
    assert_eq!(frame_allocator.next_usable_frame(), Some(0x1000));
}

#[test]
fn the_frame_source_never_repeats_a_frame() {
    let mut frame_allocator = BootInfoFrameAllocator::init(boot_memory_map());

    let mut frames = Vec::new();
    while let Some(frame) = frame_allocator.next_usable_frame() {
        frames.push(frame);
    }
    assert!(!frames.is_empty());
    for (i, &f1) in frames.iter().enumerate() {
        for &f2 in frames.iter().skip(i + 1) {
            assert_ne!(f1, f2);
        }
    }
}

#[test]
fn mapping_stops_at_frame_exhaustion() {
    let map = vec![MemoryRegion { start: 0x1000, end: 0x3000, usable: true }];
    let mut frame_allocator = BootInfoFrameAllocator::init(map);
    let mut mapper = MappingTable::new();
    let flags = PageFlags { present: true, writable: true };

    let region = PageRange { first: 0, last: 4 };
    let result = map_pages_to_physical_memory(&mut mapper, &mut frame_allocator, region, flags);
    assert_eq!(result, Err(MapError::FrameAllocationFailed));
    assert_eq!(mapper.entries.len(), 2);
}

fn frames_for_the_whole_heap() -> Vec<MemoryRegion> {
    // the heap needs HEAP_SIZE / 4096 frames; provide a few more
    let frames = HEAP_SIZE / 4096 + 2;
    vec![MemoryRegion { start: 0x10_0000, end: 0x10_0000 + frames * 4096, usable: true }]
}

#[test]
fn init_heap_maps_every_heap_page_and_initializes_the_allocator() {
    let mut frame_allocator = BootInfoFrameAllocator::init(frames_for_the_whole_heap());
    let mut mapper = MappingTable::new();
    let mut allocator = KernelAllocator::FixedSizeBlock(FixedSizeBlockAllocator::empty());

    let result = init_heap(&mut mapper, &mut frame_allocator, &mut allocator);
    assert_eq!(result, Ok(()));
    assert_eq!(mapper.entries.len() as u64, HEAP_SIZE / 4096);
    assert_eq!(mapper.entries[0].page, HEAP_START / 4096);

    // every heap page is mapped present and writable, each to its own
    // fresh frame
    for entry in &mapper.entries {
        assert_eq!(entry.flags, PageFlags { present: true, writable: true });
    }
    for (i, e1) in mapper.entries.iter().enumerate() {
        for e2 in mapper.entries.iter().skip(i + 1) {
            assert_ne!(e1.frame, e2.frame);
        }
    }

    // the allocator now serves requests out of the heap window
    let block = allocator.allocate(64, 8).expect("allocation failed");
    assert_eq!(block as u64, HEAP_START);
}

#[test]
fn init_heap_fails_and_leaves_the_allocator_untouched_when_frames_run_out() {
    let map = vec![MemoryRegion { start: 0x1000, end: 0x5000, usable: true }];
    let mut frame_allocator = BootInfoFrameAllocator::init(map);
    let mut mapper = MappingTable::new();
    let mut allocator = KernelAllocator::FreeList(LinkedListAllocator::new());

    let result = init_heap(&mut mapper, &mut frame_allocator, &mut allocator);
    assert_eq!(result, Err(MapError::FrameAllocationFailed));
    assert!(allocator.allocate(8, 8).is_none());
}

#[test]
fn init_heap_hands_the_window_to_the_allocator() {
    let mut allocator = KernelAllocator::FreeList(LinkedListAllocator::new());
    myos::allocator::init_heap(&mut allocator, 0x8000, 512);

    let block = allocator.allocate(100, 8).expect("allocation failed");
    assert_eq!(block, 0x8000);
}

#[test]
fn every_strategy_refuses_a_request_past_its_capacity() {
    let strategies = [
        KernelAllocator::Bump(BumpAllocator::new()),
        KernelAllocator::FreeList(LinkedListAllocator::new()),
        KernelAllocator::FixedSizeBlock(FixedSizeBlockAllocator::empty()),
    ];
    for mut allocator in strategies {
        allocator.init(0x4000, 1024);
        assert!(allocator.allocate(2048, 8).is_none());
        assert!(allocator.allocate(1024, 8).is_some());
    }
}

#[test]
fn every_strategy_serves_requests_through_the_common_interface() {
    let strategies = [
        KernelAllocator::Bump(BumpAllocator::new()),
        KernelAllocator::FreeList(LinkedListAllocator::new()),
        KernelAllocator::FixedSizeBlock(FixedSizeBlockAllocator::empty()),
    ];
    for mut allocator in strategies {
        // uninitialized: every allocation fails
        assert!(allocator.allocate(64, 8).is_none());
        allocator.init(0x4000, 1024);
        let block = allocator.allocate(64, 8).expect("allocation failed");
        assert_eq!(block % 8, 0);
        assert!(block >= 0x4000 && block + 64 <= 0x4000 + 1024);
        allocator.deallocate(block, 64, 8);
        let again = allocator.allocate(64, 8).expect("allocation failed");
        assert_eq!(again % 8, 0);
    }
}
