//! Virtual memory layout of the kernel and of user processes.

use vstd::prelude::*;

verus! {

/// Virtual base of the kernel image (the kernel is linked into the top 2 GiB).
pub const KERNEL_IMAGE_BASE: u64 = 0xffff_ffff_8000_0000;

/// Virtual base of the direct map of all physical memory.
pub const KERNEL_HHDM_BASE: u64 = 0xffff_8000_0000_0000;

/// Lowest address handed out for user mappings without a fixed address.
pub const USER_MMAP_BASE: u64 = 0x0000_1000_0000_0000;

/// Top of the user stack; user mappings without a fixed address end below it.
pub const USER_STACK_TOP: u64 = 0x0000_7fff_ffff_f000;

/// Virtual base of the region that holds the kernel stacks.
pub const KERNEL_STACKS_BASE: u64 = 0xffff_fe00_0000_0000;

/// Size of one kernel stack.
pub const KERNEL_STACK_SIZE: u64 = 0x4000;

/// Size of one kernel stack slot: an unmapped guard page below the stack, then the stack.
pub const KERNEL_STACK_SLOT_SIZE: u64 = 0x5000;

} // verus!
