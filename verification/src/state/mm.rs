//! The memory-management state of the kernel: the direct-map offset, the frame allocator, the
//! kernel address space and the next free kernel stack slot.

use crate::mm::address_space::AddressSpace;
use crate::mm::layout::{KERNEL_STACKS_BASE, KERNEL_STACK_SLOT_SIZE};
use crate::mm::pmm::Pmm;
use vstd::prelude::*;

verus! {

/// Memory-management state; the frame allocator and the kernel address space are each moved
/// in once during boot.
pub struct Mm {
    hhdm_offset: u64,
    pmm: Option<Pmm>,
    kernel_addr_space: Option<AddressSpace>,
    next_kernel_stack: u64,
}

impl Mm {
    /// The direct-map offset as last set.
    pub closed spec fn hhdm(&self) -> u64 {
        self.hhdm_offset
    }

    /// The frame allocator, once moved in.
    pub closed spec fn frames(&self) -> Option<Pmm> {
        self.pmm
    }

    /// The kernel address space, once moved in.
    pub closed spec fn kernel_space(&self) -> Option<AddressSpace> {
        self.kernel_addr_space
    }

    /// Start of the kernel stack slot that is handed out next.
    pub closed spec fn next_stack(&self) -> u64 {
        self.next_kernel_stack
    }

    /// Everything zeroed or not yet moved in.
    pub fn new() -> (r: Self)
        ensures
            r.hhdm() == 0,
            r.frames() is None,
            r.kernel_space() is None,
            r.next_stack() == 0,
    {
        Mm { hhdm_offset: 0, pmm: None, kernel_addr_space: None, next_kernel_stack: 0 }
    }

    /// Set the default values that are not zero: kernel stack slots start at the base of the
    /// kernel stack region.
    pub fn init(&mut self)
        ensures
            final(self).next_stack() == KERNEL_STACKS_BASE,
            final(self).hhdm() == old(self).hhdm(),
            final(self).frames() == old(self).frames(),
            final(self).kernel_space() == old(self).kernel_space(),
    {
        self.next_kernel_stack = KERNEL_STACKS_BASE;
    }

    /// Set the direct-map offset.
    pub fn set_hhdm_offset(&mut self, offset: u64)
        ensures
            final(self).hhdm() == offset,
            final(self).frames() == old(self).frames(),
            final(self).kernel_space() == old(self).kernel_space(),
            final(self).next_stack() == old(self).next_stack(),
    {
        self.hhdm_offset = offset;
    }

    /// Move the frame allocator in; this happens once.
    pub fn init_pmm(&mut self, pmm: Pmm)
        requires
            old(self).frames() is None,
        ensures
            final(self).frames() == Some(pmm),
            final(self).hhdm() == old(self).hhdm(),
            final(self).kernel_space() == old(self).kernel_space(),
            final(self).next_stack() == old(self).next_stack(),
    {
        self.pmm = Some(pmm);
    }

    /// Move the kernel address space in; this happens once.
    pub fn init_kernel_addr_space(&mut self, kernel_addr_space: AddressSpace)
        requires
            old(self).kernel_space() is None,
        ensures
            final(self).kernel_space() == Some(kernel_addr_space),
            final(self).hhdm() == old(self).hhdm(),
            final(self).frames() == old(self).frames(),
            final(self).next_stack() == old(self).next_stack(),
    {
        self.kernel_addr_space = Some(kernel_addr_space);
    }

    /// The direct-map offset.
    pub fn hhdm_offset(&self) -> (r: u64)
        ensures
            r == self.hhdm(),
    {
        self.hhdm_offset
    }

    /// The frame allocator; it must have been moved in.
    pub fn pmm(&mut self) -> (r: &mut Pmm)
        requires
            old(self).frames() is Some,
        ensures
            *r == old(self).frames()->0,
            final(self).frames() == Some(*final(r)),
            final(self).hhdm() == old(self).hhdm(),
            final(self).kernel_space() == old(self).kernel_space(),
            final(self).next_stack() == old(self).next_stack(),
    {
        self.pmm.as_mut().unwrap()
    }

    /// The kernel address space; it must have been moved in.
    pub fn kernel_addr_space(&mut self) -> (r: &mut AddressSpace)
        requires
            old(self).kernel_space() is Some,
        ensures
            *r == old(self).kernel_space()->0,
            final(self).kernel_space() == Some(*final(r)),
            final(self).hhdm() == old(self).hhdm(),
            final(self).frames() == old(self).frames(),
            final(self).next_stack() == old(self).next_stack(),
    {
        self.kernel_addr_space.as_mut().unwrap()
    }

    /// Hand out the start of the next kernel stack slot and move past it; the counter wraps
    /// as the atomic counter of a running kernel does.
    pub fn alloc_kernel_stack_slot(&mut self) -> (r: u64)
        ensures
            r == old(self).next_stack(),
            final(self).next_stack() == (old(self).next_stack() + KERNEL_STACK_SLOT_SIZE) % 0x1_0000_0000_0000_0000,
            final(self).hhdm() == old(self).hhdm(),
            final(self).frames() == old(self).frames(),
            final(self).kernel_space() == old(self).kernel_space(),
    {
        let addr = self.next_kernel_stack;
        self.next_kernel_stack = addr.wrapping_add(KERNEL_STACK_SLOT_SIZE);
        addr
    }
}

} // verus!
