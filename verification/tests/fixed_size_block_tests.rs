use myos::fixed_size_block::FixedSizeBlockAllocator;

const HEAP_START: usize = 0x1000;

#[test]
fn empty_allocator_always_returns_null() {
    let mut allocator = FixedSizeBlockAllocator::empty();

    assert!(allocator.allocate(14, 8).is_none());
}

#[test]
fn alloc_with_too_big_size_returns_null() {
    let mut allocator = FixedSizeBlockAllocator::new(HEAP_START, 256);

    assert!(allocator.allocate(2 * 256, 8).is_none());
}

#[test]
fn alloc_with_fittable_size_succeeds() {
    let mut allocator = FixedSizeBlockAllocator::new(HEAP_START, 256);

    assert!(allocator.allocate(256 / 2, 8).is_some());
}

#[test]
fn different_allocations_return_different_blocks() {
    let mut allocator = FixedSizeBlockAllocator::new(HEAP_START, 256);

    let first_block = allocator.allocate(4, 8);
    let second_block = allocator.allocate(4, 8);

    assert!(first_block.is_some());
    assert!(second_block.is_some());
    assert!(first_block != second_block);
}

#[test]
fn deallocated_memory_can_be_reused() {
    let mut allocator = FixedSizeBlockAllocator::new(HEAP_START, 256);

    let block = allocator.allocate(150, 8);
    assert!(block.is_some());
    allocator.deallocate(block.unwrap(), 150, 8);
    let block = allocator.allocate(150, 8);
    assert!(block.is_some());
}

#[test]
fn fsb_allocations_are_aligned() {
    let mut allocator = FixedSizeBlockAllocator::new(HEAP_START, 4096);

    for align in [1usize, 2, 4, 8, 16, 64, 256] {
        let block = allocator.allocate(5, align).expect("allocation failed");
        assert_eq!(block % align, 0);
    }
}

#[test]
fn fsb_allocations_stay_inside_the_heap() {
    let heap_size = 1024;
    let mut allocator = FixedSizeBlockAllocator::new(HEAP_START, heap_size);

    let mut live: Vec<(usize, usize)> = Vec::new();
    for _ in 0..8 {
        if let Some(addr) = allocator.allocate(32, 8) {
            assert!(addr >= HEAP_START);
            assert!(addr + 32 <= HEAP_START + heap_size);
            live.push((addr, 32));
        }
    }
    assert!(!live.is_empty());
}

#[test]
fn fsb_live_allocations_do_not_overlap() {
    let mut allocator = FixedSizeBlockAllocator::new(HEAP_START, 4096);

    let mut live: Vec<(usize, usize)> = Vec::new();
    for &(size, align) in [(4usize, 4usize), (150, 8), (32, 32), (9, 2), (64, 64)].iter() {
        let addr = allocator.allocate(size, align).expect("allocation failed");
        live.push((addr, size));
    }
    for (i, &(a1, s1)) in live.iter().enumerate() {
        for &(a2, s2) in live.iter().skip(i + 1) {
            assert!(a1 + s1 <= a2 || a2 + s2 <= a1);
        }
    }
}

#[test]
fn class_block_is_reused_after_free() {
    let mut allocator = FixedSizeBlockAllocator::new(HEAP_START, 4096);

    let first = allocator.allocate(24, 8).expect("allocation failed");
    allocator.deallocate(first, 24, 8);
    // another request of the same class pops the freed block
    let second = allocator.allocate(17, 4).expect("allocation failed");
    assert_eq!(first, second);
}

#[test]
fn oversized_request_is_served_by_the_fallback_arena() {
    // 4096 exceeds the largest size class (2048), so the request bypasses
    // every class and is served by the fallback arena, and is freed
    // correctly back through the same path
    let heap_size = 16 * 1024;
    let mut allocator = FixedSizeBlockAllocator::new(HEAP_START, heap_size);

    let block = allocator.allocate(4096, 8).expect("allocation failed");
    assert!(block >= HEAP_START && block + 4096 <= HEAP_START + heap_size);
    allocator.deallocate(block, 4096, 8);
    let again = allocator.allocate(4096, 8).expect("allocation failed");
    assert_eq!(block, again);
}

#[test]
fn null_dealloc_is_a_no_op() {
    let mut allocator = FixedSizeBlockAllocator::new(HEAP_START, 256);

    allocator.deallocate(0, 8, 8);
    assert!(allocator.allocate(8, 8).is_some());
}

#[test]
fn fsb_alloc_and_free_loop_never_exhausts_the_heap() {
    let heap_size = 100 * 1024;
    let mut allocator = FixedSizeBlockAllocator::new(HEAP_START, heap_size);

    for i in 0..heap_size {
        let block = allocator
            .allocate(8, 8)
            .unwrap_or_else(|| panic!("exhausted at iteration {}", i));
        allocator.deallocate(block, 8, 8);
    }
}
