//! Interrupt stacks: the storage behind the interrupt-stack-table entries
//! of the task state segment.
//!
//! Each entry is a fixed-size, zero-initialized stack allocated on the
//! heap; the table holds one optional stack per hardware slot.  Handing
//! the stacks' end addresses to the hardware table is the unverified
//! shell's work.

use vstd::prelude::*;

verus! {

/// The size of each stack in the table, in bytes.
pub const STACK_SIZE: usize = 4096;

/// The number of interrupt-stack-table slots the hardware provides.
pub const STACK_SLOTS: usize = 7;

/// One interrupt stack: a fixed-size byte buffer.
pub struct InterruptStack(pub [u8; 4096]);

impl InterruptStack {
    /// Creates a zero-filled stack.
    pub fn new() -> (r: Self)
        ensures
            forall|i: int| 0 <= i < STACK_SIZE ==> r.0@[i] == 0u8,
            r.0@.len() == STACK_SIZE,
    {
        InterruptStack([0u8; 4096])
    }
}

/// The interrupt stack table: one optional heap-allocated stack per slot.
pub struct InterruptStackTable(pub Vec<Option<Box<InterruptStack>>>);

impl InterruptStackTable {
    /// Creates a table with every slot populated by a fresh zero-filled
    /// stack.
    pub fn new() -> (r: Self)
        ensures
            r.0@.len() == STACK_SLOTS,
            forall|i: int|
                0 <= i < STACK_SLOTS ==> ((#[trigger] r.0@[i]) matches Some(stack) && forall|
                    j: int,
                |
                    0 <= j < STACK_SIZE ==> stack.0@[j] == 0u8),
    {
        let mut table: Vec<Option<Box<InterruptStack>>> = Vec::new();
        let mut i: usize = 0;
        while i < STACK_SLOTS
            invariant
                0 <= i <= STACK_SLOTS,
                table@.len() == i,
                forall|k: int|
                    0 <= k < i ==> ((#[trigger] table@[k]) matches Some(stack) && forall|j: int|
                        0 <= j < STACK_SIZE ==> stack.0@[j] == 0u8),
            decreases STACK_SLOTS - i,
        {
            table.push(Some(Box::new(InterruptStack::new())));
            i = i + 1;
        }
        InterruptStackTable(table)
    }

    /// The stack in the given slot.
    pub fn get(&self, index: usize) -> (r: &Option<Box<InterruptStack>>)
        requires
            index < STACK_SLOTS,
            self.0@.len() == STACK_SLOTS,
        ensures
            *r == self.0@[index as int],
    {
        &self.0[index]
    }
}

} // verus!
