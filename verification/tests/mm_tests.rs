use ferrite::mm::address_space::AddressSpace;
use ferrite::mm::boot_mapping::{build_boot_mappings, KernelSectionInfo};
use ferrite::mm::layout::{KERNEL_HHDM_BASE, KERNEL_IMAGE_BASE, USER_MMAP_BASE, USER_STACK_TOP};
use ferrite::mm::mm_error::MmError;
use ferrite::mm::pmm::{MemmapEntry, Pmm, MEMMAP_RESERVED, MEMMAP_USABLE};
use ferrite::mm::user::alloc_user_mem;
use ferrite::mm::vma::{Vma, VmaFlags};
use ferrite::mm::vmm::{Vmm, VmmError};

fn usable(base: u64, length: u64) -> MemmapEntry {
    MemmapEntry { base, length, type_: MEMMAP_USABLE }
}

fn area(start: u64, end: u64, flags: u8) -> Vma {
    Vma { start_addr: start, end_addr: end, flags: VmaFlags(flags) }
}

/// Field-by-field comparison: `==` on areas looks at the start address only.
fn same_area(a: &Vma, b: &Vma) -> bool {
    a.start_addr == b.start_addr && a.end_addr == b.end_addr && a.flags == b.flags
}

fn same_areas(a: &[Vma], b: &[Vma]) -> bool {
    a.len() == b.len() && a.iter().zip(b.iter()).all(|(x, y)| same_area(x, y))
}

#[test]
fn pmm_hands_out_each_frame_once() {
    let mut pmm = Pmm::init(&[usable(0x10000, 0x2000)]);
    let a = pmm.alloc_frame().unwrap();
    let b = pmm.alloc_frame().unwrap();
    assert_eq!(a, 0x10000);
    assert_eq!(b, 0x11000);
    assert_eq!(pmm.alloc_frame(), None);
}

#[test]
fn pmm_skips_frame_zero_and_reserved_memory() {
    let entries = [usable(0, 0x2000), MemmapEntry { base: 0x20000, length: 0x1000, type_: MEMMAP_RESERVED }];
    let mut pmm = Pmm::init(&entries);
    assert_eq!(pmm.alloc_frame(), Some(0x1000));
    assert_eq!(pmm.alloc_frame(), None);
}

#[test]
fn pmm_merges_buddies_on_free() {
    let mut pmm = Pmm::init(&[usable(0x10000, 0x2000)]);
    let a = pmm.alloc_frame().unwrap();
    let b = pmm.alloc_frame().unwrap();
    assert_eq!(pmm.alloc_block(1), None);
    pmm.free_frame(a);
    pmm.free_frame(b);
    assert_eq!(pmm.alloc_block(1), Some(0x10000));
}

#[test]
fn pmm_alloc_then_free_restores_free_memory() {
    let mut pmm = Pmm::init(&[usable(0x40000, 0x40000)]);
    let a = pmm.alloc_block(3).unwrap();
    assert_eq!(a % (4096 << 3), 0);
    pmm.free(a, 3);
    // All of the region is free again: it is handed out as one block of order 6.
    assert_eq!(pmm.alloc_block(6), Some(0x40000));
    assert_eq!(pmm.alloc_frame(), None);
}

#[test]
fn pmm_alloc_block_splits_larger_block() {
    let mut pmm = Pmm::init(&[usable(0x40000, 0x40000)]);
    assert_eq!(pmm.alloc_block(0), Some(0x40000));
    assert_eq!(pmm.alloc_block(5), Some(0x60000));
    assert_eq!(pmm.alloc_block(5), None);
}

#[test]
fn vma_flags_operations() {
    let rw = VmaFlags::read() | VmaFlags::write();
    assert_eq!(rw.0, 3);
    assert!(rw.contains(VmaFlags::read()));
    assert!(!rw.contains(VmaFlags::exec()));
    assert_eq!((rw & VmaFlags::write()).0, 2);
    assert_eq!(VmaFlags::empty().0, 0);
    assert_eq!(VmaFlags::user().0, 8);
}

#[test]
fn vma_contains_and_overlaps() {
    let v = area(0x1000, 0x3000, 1);
    assert!(v.contains(0x1000));
    assert!(v.contains(0x2fff));
    assert!(!v.contains(0x3000));
    assert!(v.overlaps(&area(0x2000, 0x4000, 1)));
    assert!(!v.overlaps(&area(0x3000, 0x4000, 1)));
}

#[test]
fn address_space_insert_find_remove() {
    let mut a = AddressSpace::new(0x5000);
    assert_eq!(a.page_ptr(), 0x5000);
    assert_eq!(a.get_root_table_ptr(), 0x5000);
    assert!(a.insert_vma(area(0x2000, 0x3000, 1)).is_ok());
    assert!(a.insert_vma(area(0x1000, 0x2000, 3)).is_ok());
    assert_eq!(a.insert_vma(area(0x1800, 0x2800, 1)), Err(VmmError::VmaOverlap));
    assert_eq!(a.vmas().len(), 2);
    assert_eq!(a.vmas()[0].start_addr, 0x1000);
    assert!(same_area(a.find_vma(0x2800).unwrap(), &area(0x2000, 0x3000, 1)));
    assert!(a.find_vma(0x3000).is_none());
    assert!(same_area(&a.remove_vma(0x1000).unwrap(), &area(0x1000, 0x2000, 3)));
    assert!(a.remove_vma(0x1000).is_none());
    assert!(a.find_vma(0x1000).is_none());
}

#[test]
fn law_find_after_insert_example() {
    let mut a = AddressSpace::empty(0);
    a.insert_vma(area(0x10000, 0x20000, 1)).unwrap();
    let v = area(0x20000, 0x30000, 3);
    a.insert_vma(v).unwrap();
    for addr in [0x20000u64, 0x25000, 0x2ffff] {
        assert!(same_area(a.find_vma(addr).unwrap(), &v));
    }
}

#[test]
fn law_remove_after_insert_example() {
    let mut a = AddressSpace::empty(0);
    a.insert_vma(area(0x10000, 0x20000, 1)).unwrap();
    let before: Vec<Vma> = a.vmas().clone();
    let v = area(0x40000, 0x50000, 3);
    a.insert_vma(v).unwrap();
    assert!(same_area(&a.remove_vma(0x40000).unwrap(), &v));
    assert!(same_areas(a.vmas(), &before));
}

#[test]
fn find_free_range_first_fit() {
    let mut a = AddressSpace::empty(0);
    a.insert_vma(area(0x1000, 0x3000, 1)).unwrap();
    a.insert_vma(area(0x4000, 0x5000, 1)).unwrap();
    assert_eq!(a.find_free_range(0x1000, 0x10000, 0x1000), Some(0x3000));
    assert_eq!(a.find_free_range(0x1000, 0x10000, 0x2000), Some(0x5000));
    assert_eq!(a.find_free_range(0x1000, 0x6000, 0x2000), None);
    assert_eq!(a.find_free_range(0x0, 0x10000, 0x1000), Some(0x0));
}

#[test]
fn map_region_reports_overlap() {
    let mut a = AddressSpace::empty(0);
    assert!(Vmm::map_region(&mut a, 0x1000, 0x2000, VmaFlags::read()).is_ok());
    assert_eq!(Vmm::map_region(&mut a, 0x2000, 0x1000, VmaFlags::read()), Err(VmmError::VmaOverlap));
    assert!(same_area(a.find_vma(0x2fff).unwrap(), &area(0x1000, 0x3000, 1)));
}

#[test]
fn alloc_user_mem_placements_and_errors() {
    let mut a = AddressSpace::empty(0);
    let first = alloc_user_mem(&mut a, None, 100, VmaFlags::read()).unwrap();
    assert_eq!(first, USER_MMAP_BASE);
    assert!(same_area(a.find_vma(first).unwrap(), &area(first, first + 0x1000, 9)));
    let second = alloc_user_mem(&mut a, None, 0x1000, VmaFlags::write()).unwrap();
    assert_eq!(second, USER_MMAP_BASE + 0x1000);
    assert_eq!(alloc_user_mem(&mut a, Some(0x1234), 0x1000, VmaFlags::read()), Err(MmError::MisalignedAddress));
    assert_eq!(alloc_user_mem(&mut a, Some(USER_MMAP_BASE), 0x1000, VmaFlags::read()), Err(MmError::Overlap));
    assert_eq!(alloc_user_mem(&mut a, Some(0x10000), 1, VmaFlags::read()), Ok(0x10000));
}

#[test]
fn mm_error_from_vmm_error() {
    assert_eq!(MmError::from(VmmError::OutOfMemory), MmError::OutOfMemory);
    assert_eq!(MmError::from(VmmError::VmaOverlap), MmError::Overlap);
    assert_eq!(MmError::from(VmmError::VmaNotFound), MmError::NotFound);
    assert_eq!(MmError::from(VmmError::InvalidUnmap), MmError::NotFound);
    assert_eq!(MmError::from(VmmError::InvalidRemap), MmError::NotFound);
}

#[test]
fn boot_mappings_layout() {
    let sections = KernelSectionInfo {
        kernel_phys_start: 0x20_0000,
        kernel_start: KERNEL_IMAGE_BASE,
        kernel_text_end: KERNEL_IMAGE_BASE + 0x3000,
        kernel_rodata_end: KERNEL_IMAGE_BASE + 0x5000,
        kernel_end: KERNEL_IMAGE_BASE + 0x9000,
    };
    let m = build_boot_mappings(&sections, 0x4000_0000);
    assert_eq!(m[0].virt, KERNEL_HHDM_BASE);
    assert_eq!(m[0].phys, 0);
    assert_eq!(m[0].size, 0x4000_0000);
    assert!(m[0].can_overmap);
    assert_eq!(m[1].phys, 0x20_0000);
    assert_eq!(m[1].size, 0x3000);
    assert_eq!(m[1].flags.0, 5);
    assert_eq!(m[2].phys, 0x20_3000);
    assert_eq!(m[2].flags.0, 1);
    assert_eq!(m[3].virt, KERNEL_IMAGE_BASE + 0x5000);
    assert_eq!(m[3].size, 0x4000);
    assert_eq!(m[3].flags.0, 3);
    let mut a = AddressSpace::empty(0);
    assert!(a.setup_kernel_vmas(&m).is_ok());
    assert_eq!(a.vmas().len(), 4);
    assert_eq!(a.setup_kernel_vmas(&m), Err(VmmError::VmaOverlap));
}

#[test]
fn alloc_user_mem_out_of_address_space() {
    let mut a = AddressSpace::empty(0);
    let too_big = USER_STACK_TOP - USER_MMAP_BASE + 0x1000;
    assert_eq!(alloc_user_mem(&mut a, None, too_big, VmaFlags::read()), Err(MmError::OutOfMemory));
    let all = USER_STACK_TOP - USER_MMAP_BASE;
    assert_eq!(alloc_user_mem(&mut a, None, all, VmaFlags::read()), Ok(USER_MMAP_BASE));
    assert_eq!(alloc_user_mem(&mut a, None, 1, VmaFlags::read()), Err(MmError::OutOfMemory));
}

#[test]
fn vma_equality_is_by_start_address() {
    assert!(area(0x1000, 0x2000, 1) == area(0x1000, 0x5000, 3));
    assert!(area(0x1000, 0x2000, 1) != area(0x2000, 0x3000, 1));
}

#[test]
fn find_free_range_skips_area_straddling_from() {
    let mut a = AddressSpace::empty(0x1000);
    a.insert_vma(area(0x0, 0x3000, 1)).unwrap();
    assert_eq!(a.find_free_range(0x1000, 0x10000, 0x1000), Some(0x3000));
    let mut b = AddressSpace::empty(0x1000);
    b.insert_vma(area(0x0, 0x10000, 1)).unwrap();
    assert_eq!(b.find_free_range(0x1000, 0x10000, 0x1000), None);
    // An area crossing `to` leaves no room.
    assert_eq!(b.find_free_range(0x1000, 0x8000, 0x1000), None);
    // `from` above `to`: nothing fits.
    assert_eq!(a.find_free_range(0x9000, 0x8000, 0), None);
}

#[test]
fn pmm_init_merges_buddies() {
    let entries = [usable(0, 0x4000), MemmapEntry { base: 0x4000, length: 0x4000, type_: MEMMAP_RESERVED }];
    let mut pmm = Pmm::init(&entries);
    assert_eq!(pmm.alloc_block(1), Some(0x2000));
    assert_eq!(pmm.alloc_frame(), Some(0x1000));
    assert_eq!(pmm.alloc_frame(), None);
    // Two neighbouring regions that are buddies come out merged.
    let mut p2 = Pmm::init(&[usable(0x2000, 0x1000), usable(0x3000, 0x1000)]);
    assert_eq!(p2.alloc_block(1), Some(0x2000));
}

#[test]
fn alloc_user_mem_refuses_misaligned_free_range() {
    let mut a = AddressSpace::empty(0);
    a.insert_vma(area(USER_MMAP_BASE, USER_MMAP_BASE + 0x800, 1)).unwrap();
    assert_eq!(alloc_user_mem(&mut a, None, 0x1000, VmaFlags::read()), Err(MmError::MisalignedAddress));
}

#[test]
fn vma_calls_keep_the_root() {
    let mut a = AddressSpace::new(0x5000);
    assert!(a.insert_vma(area(0x2000, 0x3000, 1)).is_ok());
    assert!(a.insert_vma(area(0x2000, 0x4000, 1)).is_err());
    assert!(a.remove_vma(0x2000) == Some(area(0x2000, 0x3000, 1)));
    assert!(a.remove_vma(0x2000).is_none());
    assert!(a.find_vma(0x2000).is_none());
    assert_eq!(a.page_ptr(), 0x5000);
}
