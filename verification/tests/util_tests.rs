use myos::align::{align_up, align_up_checked};
use myos::fixed_size_block::class_block_size;
use myos::ist::{InterruptStack, InterruptStackTable, STACK_SIZE, STACK_SLOTS};
use myos::linked_list::LinkedListAllocator;

#[test]
fn align_up_rounds_to_the_next_boundary() {
    assert_eq!(align_up(0, 1), 0);
    assert_eq!(align_up(0, 4096), 0);
    assert_eq!(align_up(1, 8), 8);
    assert_eq!(align_up(8, 8), 8);
    assert_eq!(align_up(9, 8), 16);
    assert_eq!(align_up(4097, 4096), 8192);
}

#[test]
fn align_up_checked_reports_overflow() {
    assert_eq!(align_up_checked(usize::MAX - 2, 4), None);
    assert_eq!(align_up_checked(usize::MAX - 3, 4), Some(usize::MAX - 3));
    assert_eq!(align_up_checked(7, 4), Some(8));
}

#[test]
fn adjust_layout_pads_requests_for_the_list_node() {
    // the size is padded to the adjusted alignment and to the node size,
    // and the alignment is raised to the node alignment
    assert_eq!(LinkedListAllocator::adjust_layout(1, 1), (16, 8));
    assert_eq!(LinkedListAllocator::adjust_layout(16, 8), (16, 8));
    assert_eq!(LinkedListAllocator::adjust_layout(17, 8), (24, 8));
    assert_eq!(LinkedListAllocator::adjust_layout(150, 8), (152, 8));
    assert_eq!(LinkedListAllocator::adjust_layout(9, 32), (32, 32));
    assert_eq!(LinkedListAllocator::adjust_layout(8, 64), (64, 64));
}

#[test]
fn class_sizes_double_from_8_to_2048() {
    let mut expected: usize = 8;
    for index in 0..9 {
        assert_eq!(class_block_size(index), expected);
        expected *= 2;
    }
}

#[test]
fn interrupt_stacks_are_zero_filled() {
    let stack = InterruptStack::new();
    assert_eq!(stack.0.len(), STACK_SIZE);
    assert!(stack.0.iter().all(|&b| b == 0));
}

#[test]
fn interrupt_stack_table_fills_every_slot_with_zeroed_stacks() {
    let table = InterruptStackTable::new();
    for slot in 0..STACK_SLOTS {
        let stack = table.get(slot).as_ref().expect("empty slot");
        assert!(stack.0.iter().all(|&b| b == 0));
    }
}
