//! Memory management: buddy frame allocator, VMAs, address spaces and page tables.

pub mod bits;
pub mod free_lists;
pub mod pmm;
pub mod vma;
pub mod vmm;
pub mod address_space;
pub mod layout;
pub mod boot_mapping;
pub mod mm_error;
pub mod user;
pub mod paging;
