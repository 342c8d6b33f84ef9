use myos::bump::BumpAllocator;

const HEAP_START: usize = 0x2000;

#[test]
fn empty_bump_allocator_rejects_nonzero_requests() {
    let mut allocator = BumpAllocator::new();

    assert!(allocator.allocate(1, 1).is_none());
    assert!(allocator.allocate(8, 8).is_none());
}

#[test]
fn bump_allocations_are_monotonic_and_distinct() {
    let mut allocator = BumpAllocator::new();
    allocator.init(HEAP_START, 256);

    let first = allocator.allocate(4, 8).expect("allocation failed");
    let second = allocator.allocate(4, 8).expect("allocation failed");
    assert_eq!(first, HEAP_START);
    // the bump pointer advances past the block and re-aligns to 8
    assert_eq!(second, HEAP_START + 8);
    assert!(first != second);
}

#[test]
fn bump_allocations_are_aligned() {
    let mut allocator = BumpAllocator::new();
    allocator.init(HEAP_START, 1024);

    allocator.allocate(3, 1).expect("allocation failed");
    for align in [1usize, 2, 8, 64, 128] {
        let block = allocator.allocate(5, align).expect("allocation failed");
        assert_eq!(block % align, 0);
    }
}

#[test]
fn bump_rejects_request_past_the_heap_end() {
    let mut allocator = BumpAllocator::new();
    allocator.init(HEAP_START, 256);

    assert!(allocator.allocate(512, 8).is_none());
    assert!(allocator.allocate(256, 8).is_some());
    assert!(allocator.allocate(1, 1).is_none());
}

#[test]
fn bump_reclaims_the_heap_once_all_allocations_are_freed() {
    let mut allocator = BumpAllocator::new();
    allocator.init(HEAP_START, 256);

    let first = allocator.allocate(16, 8).expect("allocation failed");
    let second = allocator.allocate(16, 8).expect("allocation failed");
    allocator.deallocate(first, 16);
    // one allocation still lives: the pointer does not move back
    let third = allocator.allocate(16, 8).expect("allocation failed");
    assert_eq!(third, HEAP_START + 32);
    allocator.deallocate(second, 16);
    allocator.deallocate(third, 16);
    // the count returned to zero: the whole heap is reclaimed
    let again = allocator.allocate(16, 8).expect("allocation failed");
    assert_eq!(again, HEAP_START);
}
