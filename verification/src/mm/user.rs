//! High-level memory management functions used for allocating user-space memory.

use crate::mm::address_space::{free_range, insert_outcome, AddressSpace};
use crate::mm::layout::{USER_MMAP_BASE, USER_STACK_TOP};
use crate::mm::mm_error::MmError;
use crate::mm::vma::{Vma, VmaFlags};
use crate::mm::paging::{frame_is_free, frames_owned, region_frames_ok, tables_ok, tables_sound, translation, PageTableMemory};
use crate::mm::pmm::Pmm;
use crate::mm::vmm::Vmm;
use vstd::prelude::*;

verus! {

/// `size` rounded up to a whole number of frames.
pub open spec fn frame_round_up(size: u64) -> int {
    if size % 4096 == 0 {
        size as int
    } else {
        size - size % 4096 + 4096
    }
}

/// Where a user allocation of `size` (already a whole number of frames) goes: the fixed
/// address if one is given and frame-aligned, otherwise the lowest free range between
/// [`USER_MMAP_BASE`] and [`USER_STACK_TOP`] if it is frame-aligned.
pub open spec fn user_alloc_target(areas: Set<Vma>, fixed_addr: Option<u64>, size: u64) -> Option<u64> {
    match fixed_addr {
        Some(a) => if a % 4096 == 0 {
            Some(a)
        } else {
            None
        },
        None => match free_range(areas, USER_MMAP_BASE, USER_STACK_TOP, size) {
            Some(c) => if c % 4096 == 0 {
                Some(c)
            } else {
                None
            },
            None => None,
        },
    }
}

/// Lazily allocate memory in the given user process's address space: reserve a VMA of `size`
/// bytes rounded up to whole frames, with `flags` and the user flag, and return its start.
///
/// By passing the `fixed_addr` parameter, the caller can request the memory to be mapped into
/// a specific location in the address space. Returns [`MmError::MisalignedAddress`] for a
/// fixed address, or a found free range, that is not frame-aligned, [`MmError::OutOfMemory`]
/// if no free range is found, and [`MmError::Overlap`] if the region overlaps an existing VMA.
pub fn alloc_user_mem(
    addr_space: &mut AddressSpace,
    fixed_addr: Option<u64>,
    size: u64,
    flags: VmaFlags,
) -> (r: Result<u64, MmError>)
    requires
        old(addr_space).wf(),
        size <= u64::MAX - 4095,
        forall|a: u64| fixed_addr == Some(a) && a % 4096 == 0 ==> a + frame_round_up(size) <= u64::MAX,
    ensures
        final(addr_space).wf(),
        final(addr_space).root() == old(addr_space).root(),
        ({
            let sz = frame_round_up(size) as u64;
            match user_alloc_target(old(addr_space).areas(), fixed_addr, sz) {
                None => {
                    &&& r == Err::<u64, MmError>(
                        if fixed_addr is Some || free_range(
                            old(addr_space).areas(),
                            USER_MMAP_BASE,
                            USER_STACK_TOP,
                            sz,
                        ) is Some {
                            MmError::MisalignedAddress
                        } else {
                            MmError::OutOfMemory
                        },
                    )
                    &&& final(addr_space)@ == old(addr_space)@
                },
                Some(v) => match insert_outcome(
                    old(addr_space).areas(),
                    Vma { start_addr: v, end_addr: (v + sz) as u64, flags: VmaFlags(flags.0 | 8) },
                ) {
                    None => r == Err::<u64, MmError>(MmError::Overlap) && final(addr_space)@ == old(
                        addr_space,
                    )@,
                    Some(t) => r == Ok::<u64, MmError>(v) && final(addr_space).areas() == t,
                },
            }
        }),
{
    let size = if size % 4096 == 0 {
        size
    } else {
        size - size % 4096 + 4096
    };
    let virt = match fixed_addr {
        Some(addr) => {
            if addr % 4096 != 0 {
                return Err(MmError::MisalignedAddress);
            }
            addr
        },
        None => {
            match addr_space.find_free_range(USER_MMAP_BASE, USER_STACK_TOP, size) {
                Some(v) => {
                    if v % 4096 != 0 {
                        return Err(MmError::MisalignedAddress);
                    }
                    v
                },
                None => {
                    return Err(MmError::OutOfMemory);
                },
            }
        },
    };
    match Vmm::map_region(addr_space, virt, size, flags | VmaFlags::user()) {
        Ok(()) => Ok(virt),
        Err(e) => Err(MmError::from(e)),
    }
}


/// Free memory that [`alloc_user_mem`] allocated: remove the area that starts at `virt`,
/// unmap its pages and give their frames back to the PMM.
///
/// Returns [`MmError::NotFound`], and changes nothing, if no area starts at `virt`.
pub fn free_user_mem(
    pmm: &mut Pmm,
    addr_space: &mut AddressSpace,
    mem: &mut PageTableMemory,
    virt: u64,
) -> (r: Result<(), MmError>)
    requires
        old(pmm).wf(),
        old(addr_space).wf(),
        old(mem).wf(),
        virt % 4096 == 0,
        tables_ok(old(mem).tables(), old(mem).hhdm(), old(addr_space).root()),
        frames_owned(old(mem).tables(), old(mem).hhdm(), old(pmm)@),
        forall|w: Vma| #[trigger]
            old(addr_space).areas().contains(w) && w.start_addr == virt ==> region_frames_ok(
                old(mem).tables(),
                old(mem).hhdm(),
                old(addr_space).root(),
                w.start_addr,
                w.end_addr,
                old(pmm)@,
            ),
    ensures
        final(pmm).wf(),
        final(addr_space).wf(),
        final(addr_space).root() == old(addr_space).root(),
        final(mem).wf(),
        final(mem).hhdm() == old(mem).hhdm(),
        tables_ok(final(mem).tables(), final(mem).hhdm(), final(addr_space).root()),
        tables_sound(old(mem).tables(), old(mem).hhdm(), old(addr_space).root()) ==> tables_sound(
            final(mem).tables(),
            final(mem).hhdm(),
            old(addr_space).root(),
        ),
        frames_owned(final(mem).tables(), final(mem).hhdm(), final(pmm)@),
        (forall|w: Vma| #[trigger] old(addr_space).areas().contains(w) ==> w.start_addr != virt)
            ==> r == Err::<(), MmError>(MmError::NotFound) && final(addr_space)@ == old(addr_space)@
            && final(mem).tables() == old(mem).tables() && final(pmm)@ == old(pmm)@,
        forall|w: Vma|
            #![trigger old(addr_space).areas().contains(w)]
            old(addr_space).areas().contains(w) && w.start_addr == virt ==> {
                &&& r is Ok
                &&& final(addr_space).areas() == old(addr_space).areas().remove(w)
                &&& forall|v: u64|
                    #![trigger translation(final(mem).tables(), final(mem).hhdm(), old(addr_space).root(), v)]
                    w.start_addr <= v < w.end_addr && v % 4096 == 0 ==> translation(
                        final(mem).tables(),
                        final(mem).hhdm(),
                        old(addr_space).root(),
                        v,
                    ) is None
                &&& forall|v: u64|
                    #![trigger translation(old(mem).tables(), old(mem).hhdm(), old(addr_space).root(), v)]
                    w.start_addr <= v < w.end_addr && v % 4096 == 0 && translation(
                        old(mem).tables(),
                        old(mem).hhdm(),
                        old(addr_space).root(),
                        v,
                    ) is Some ==> frame_is_free(
                        final(pmm)@,
                        translation(old(mem).tables(), old(mem).hhdm(), old(addr_space).root(), v).unwrap().0,
                    )
            },
{
    match Vmm::unmap_region(pmm, addr_space, mem, virt) {
        Ok(()) => Ok(()),
        Err(e) => Err(MmError::from(e)),
    }
}

/// Change the access flags of an allocated memory region to `new_flags` plus the user flag,
/// remapping its mapped pages to match.
///
/// Returns [`MmError::NotFound`], and changes nothing, if no area starts at `virt`.
pub fn remap_user_mem(
    addr_space: &mut AddressSpace,
    mem: &mut PageTableMemory,
    virt: u64,
    new_flags: VmaFlags,
) -> (r: Result<(), MmError>)
    requires
        old(addr_space).wf(),
        old(mem).wf(),
        virt % 4096 == 0,
        tables_ok(old(mem).tables(), old(mem).hhdm(), old(addr_space).root()),
    ensures
        final(addr_space).wf(),
        final(addr_space).root() == old(addr_space).root(),
        final(mem).wf(),
        final(mem).hhdm() == old(mem).hhdm(),
        tables_ok(final(mem).tables(), final(mem).hhdm(), final(addr_space).root()),
        tables_sound(old(mem).tables(), old(mem).hhdm(), old(addr_space).root()) ==> tables_sound(
            final(mem).tables(),
            final(mem).hhdm(),
            old(addr_space).root(),
        ),
        forall|w: u64| #[trigger]
            translation(final(mem).tables(), final(mem).hhdm(), old(addr_space).root(), w)
                == translation(old(mem).tables(), old(mem).hhdm(), old(addr_space).root(), w),
        (forall|w: Vma| #[trigger] old(addr_space).areas().contains(w) ==> w.start_addr != virt)
            ==> r == Err::<(), MmError>(MmError::NotFound) && final(addr_space)@ == old(addr_space)@
            && final(mem).tables() == old(mem).tables(),
        forall|w: Vma|
            #![trigger old(addr_space).areas().contains(w)]
            old(addr_space).areas().contains(w) && w.start_addr == virt ==> r is Ok
                && final(addr_space).areas() == old(addr_space).areas().remove(w).insert(
                Vma { start_addr: w.start_addr, end_addr: w.end_addr, flags: VmaFlags(new_flags.0 | 8) },
            ),
{
    match Vmm::remap_region(addr_space, mem, virt, new_flags | VmaFlags::user()) {
        Ok(()) => Ok(()),
        Err(e) => Err(MmError::from(e)),
    }
}

} // verus!
