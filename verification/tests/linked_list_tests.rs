use myos::linked_list::LinkedListAllocator;

const HEAP_START: usize = 0x8000;

#[test]
fn uninitialized_allocator_returns_null() {
    let mut allocator = LinkedListAllocator::new();

    assert!(allocator.allocate(1, 1).is_none());
    assert!(allocator.allocate(64, 8).is_none());
}

#[test]
fn request_larger_than_the_heap_returns_null() {
    let mut allocator = LinkedListAllocator::new();
    allocator.init(HEAP_START, 256);

    assert!(allocator.allocate(512, 8).is_none());
}

#[test]
fn first_allocation_starts_at_the_heap_start() {
    let mut allocator = LinkedListAllocator::new();
    allocator.init(HEAP_START, 256);

    assert_eq!(allocator.allocate(16, 8), Some(HEAP_START));
}

#[test]
fn allocations_are_aligned() {
    let mut allocator = LinkedListAllocator::new();
    allocator.init(HEAP_START, 4096);

    for align in [1usize, 2, 4, 8, 32, 128] {
        let block = allocator.allocate(10, align).expect("allocation failed");
        assert_eq!(block % align, 0);
    }
}

#[test]
fn allocations_stay_inside_the_heap() {
    let heap_size = 512;
    let mut allocator = LinkedListAllocator::new();
    allocator.init(HEAP_START, heap_size);

    let mut count = 0;
    while let Some(addr) = allocator.allocate(48, 16) {
        assert!(addr >= HEAP_START);
        assert!(addr + 48 <= HEAP_START + heap_size);
        count += 1;
    }
    assert!(count > 0);
}

#[test]
fn live_allocations_do_not_overlap() {
    let mut allocator = LinkedListAllocator::new();
    allocator.init(HEAP_START, 2048);

    let mut live: Vec<(usize, usize)> = Vec::new();
    for &(size, align) in [(24usize, 8usize), (150, 8), (3, 64), (500, 4)].iter() {
        let addr = allocator.allocate(size, align).expect("allocation failed");
        live.push((addr, size));
    }
    for (i, &(a1, s1)) in live.iter().enumerate() {
        for &(a2, s2) in live.iter().skip(i + 1) {
            assert!(a1 + s1 <= a2 || a2 + s2 <= a1);
        }
    }
}

#[test]
fn freed_block_is_reused() {
    let mut allocator = LinkedListAllocator::new();
    allocator.init(HEAP_START, 256);

    let block = allocator.allocate(150, 8).expect("allocation failed");
    allocator.deallocate(block, 150, 8);
    let again = allocator.allocate(150, 8).expect("allocation failed");
    assert_eq!(block, again);
}

#[test]
fn alloc_and_free_in_a_loop_never_exhausts_the_heap() {
    let heap_size = 100 * 1024;
    let mut allocator = LinkedListAllocator::new();
    allocator.init(HEAP_START, heap_size);

    for i in 0..heap_size {
        let block = allocator
            .allocate(8, 8)
            .unwrap_or_else(|| panic!("exhausted at iteration {}", i));
        allocator.deallocate(block, 8, 8);
    }
}

#[test]
fn large_leftover_is_kept_as_a_free_region() {
    let mut allocator = LinkedListAllocator::new();
    allocator.init(HEAP_START, 64);

    // 40 bytes are carved; the 24-byte leftover can host a node and stays
    // allocatable
    let first = allocator.allocate(40, 8).expect("allocation failed");
    assert_eq!(first, HEAP_START);
    let second = allocator.allocate(24, 8).expect("allocation failed");
    assert_eq!(second, HEAP_START + 40);
}

#[test]
fn small_leftover_is_silently_forfeited() {
    let mut allocator = LinkedListAllocator::new();
    allocator.init(HEAP_START, 64);

    // 56 bytes are carved; the 8-byte leftover cannot host a node and is
    // lost to fragmentation
    let block = allocator.allocate(56, 8).expect("allocation failed");
    assert_eq!(block, HEAP_START);
    assert!(allocator.allocate(8, 8).is_none());
}

#[test]
fn freed_neighbours_are_not_coalesced() {
    let mut allocator = LinkedListAllocator::new();
    allocator.init(HEAP_START, 64);

    let first = allocator.allocate(40, 8).expect("allocation failed");
    let second = allocator.allocate(24, 8).expect("allocation failed");
    allocator.deallocate(first, 40, 8);
    allocator.deallocate(second, 24, 8);

    // the two freed neighbours are physically contiguous, but they stay
    // separate free regions, so a request spanning both fails
    assert!(allocator.allocate(56, 8).is_none());
    assert_eq!(allocator.allocate(24, 8), Some(HEAP_START + 40));
    assert_eq!(allocator.allocate(40, 8), Some(HEAP_START));
}
