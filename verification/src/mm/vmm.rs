//! Arch-independent VMM operations on address spaces.

use crate::mm::address_space::{insert_outcome, AddressSpace};
use crate::mm::vma::{Vma, VmaFlags};
use vstd::prelude::*;

verus! {

/// Namespace for all VMM methods.
pub struct Vmm;

/// VMM Error Enum with VMM error types.
#[derive(Clone, Copy, PartialEq, Eq, Structural, Debug)]
pub enum VmmError {
    VmaNotFound,
    VmaOverlap,
    OutOfMemory,
    InvalidUnmap,
    InvalidRemap,
}

impl Vmm {
    /// Map a virtual memory region by creating a VMA `[virt, virt + size)` in the given
    /// [`AddressSpace`].
    ///
    /// Returns [`VmmError::VmaOverlap`] if the region overlaps with an existing VMA.
    pub fn map_region(
        address_space: &mut AddressSpace,
        virt: u64,
        size: u64,
        vma_flags: VmaFlags,
    ) -> (r: Result<(), VmmError>)
        requires
            old(address_space).wf(),
            virt % 4096 == 0,
            size % 4096 == 0,
            virt + size <= u64::MAX,
        ensures
            final(address_space).wf(),
            final(address_space).root() == old(address_space).root(),
            match insert_outcome(
                old(address_space).areas(),
                Vma { start_addr: virt, end_addr: (virt + size) as u64, flags: vma_flags },
            ) {
                None => r == Err::<(), VmmError>(VmmError::VmaOverlap) && final(address_space)@
                    == old(address_space)@,
                Some(s) => r is Ok && final(address_space).areas() == s,
            },
    {
        address_space.insert_vma(Vma { start_addr: virt, end_addr: virt + size, flags: vma_flags })
    }
}

} // verus!
