//! Memory-management core of a minimal operating-system kernel.
//!
//! The crate carves a fixed virtual address window into a dynamic-allocation
//! heap and services allocation and deallocation requests.  Three
//! interchangeable strategies are provided: a monotonic bump allocator, a
//! first-fit free-list allocator, and a segregated fixed-size-block allocator
//! that falls back to the free-list allocator for outliers.
//!
//! Every allocator here is a bookkeeping machine over plain addresses: it
//! decides which address range serves a request and which ranges are free,
//! and the decisions are verified (alignment, bounds, and non-overlap of
//! live allocations).  Writing the in-place free-list nodes into the managed
//! bytes themselves, and installing the page mappings in hardware tables, is
//! inherently unsafe work that a thin unverified shell must do with exactly
//! the addresses computed here.

pub mod align;
pub mod allocator;
pub mod boot_info_frame_allocator;
pub mod bump;
pub mod fixed_size_block;
pub mod ist;
pub mod linked_list;
pub mod memory;
pub mod vga_buffer;
