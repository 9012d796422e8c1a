use ferrite::sched::copy::{segment_copy_chunks, SegmentChunk};
use ferrite::mm::address_space::AddressSpace;
use ferrite::mm::paging::{
    advance_current_pagetable, alloc_zeroed_frame, is_huge_page, is_present, PageTableMemory, PageType,
    ADDRESS_MASK, GLOBAL, HUGE_PAGE, NO_EXECUTE, PRESENT, USER_ACCESSIBLE, WRITABLE,
};
use ferrite::mm::pmm::{MemmapEntry, Pmm, MEMMAP_USABLE};
use ferrite::mm::user::{alloc_user_mem, free_user_mem, remap_user_mem};
use ferrite::mm::mm_error::MmError;
use ferrite::mm::vma::{Vma, VmaFlags};
use ferrite::mm::vmm::{Vmm, VmmError};

const HHDM: u64 = 0xffff_8000_0000_0000;
const BOOT_ROOT_FRAME: u64 = 0x1000;

/// A PMM over 1 MiB of frames and the kernel's root table built from an empty boot table.
fn setup() -> (Pmm, PageTableMemory, u64) {
    let mut pmm = Pmm::init(&[MemmapEntry { base: 0x10_0000, length: 0x10_0000, type_: MEMMAP_USABLE }]);
    let mut mem = PageTableMemory::new(HHDM);
    mem.insert_zeroed(HHDM + BOOT_ROOT_FRAME);
    let root = Vmm::setup_kernel_paging(&mut pmm, &mut mem, HHDM + BOOT_ROOT_FRAME).unwrap();
    (pmm, mem, root)
}

#[test]
fn entry_helpers() {
    assert!(is_present(0x1003));
    assert!(!is_present(0x1002));
    assert!(is_huge_page(0x81));
    assert!(!is_huge_page(0x1));
    assert_eq!(advance_current_pagetable(0x8000_0000_0012_3067, HHDM), HHDM + 0x12_3000);
    assert_eq!(PageType::Normal.size(), 4096);
    assert_eq!(PageType::HugePage2MiB.size(), 0x20_0000);
    assert_eq!(PageType::HugePage1GiB.size(), 0x4000_0000);
    assert_eq!(PageType::HugePage2MiB.name(), "HugePage(2MiB)");
}

#[test]
fn vma_flags_to_page_flags_values() {
    assert_eq!(Vmm::vma_flags_to_page_flags(VmaFlags(0)), PRESENT | NO_EXECUTE | GLOBAL);
    assert_eq!(Vmm::vma_flags_to_page_flags(VmaFlags(1)), 0x8000_0000_0000_0101);
    assert_eq!(Vmm::vma_flags_to_page_flags(VmaFlags(2 | 4 | 8)), PRESENT | WRITABLE | USER_ACCESSIBLE);
    assert_eq!(Vmm::vma_flags_to_page_flags(VmaFlags(1 | 2)), PRESENT | WRITABLE | NO_EXECUTE | GLOBAL);
}

#[test]
fn setup_kernel_paging_copies_higher_half() {
    let mut pmm = Pmm::init(&[MemmapEntry { base: 0x10_0000, length: 0x1000, type_: MEMMAP_USABLE }]);
    let mut mem = PageTableMemory::new(HHDM);
    let boot = HHDM + BOOT_ROOT_FRAME;
    mem.insert_zeroed(boot);
    mem.write(boot, 3, 0x5003);
    mem.write(boot, 300, 0x6003);
    let root = Vmm::setup_kernel_paging(&mut pmm, &mut mem, boot).unwrap();
    assert_eq!(root, HHDM + 0x10_0000);
    assert_eq!(mem.read(root, 3), 0);
    assert_eq!(mem.read(root, 300), 0x6003);
    // The only frame is used now.
    assert_eq!(Vmm::setup_kernel_paging(&mut pmm, &mut mem, boot), None);
}

#[test]
fn map_then_translate_normal_page() {
    let (mut pmm, mut mem, root) = setup();
    let virt = 0x0000_4000_0020_3000;
    assert_eq!(Vmm::translate(&mem, root, virt), None);
    assert_eq!(Vmm::map_page(&mut pmm, &mut mem, root, virt, 0x7000, PageType::Normal, WRITABLE), Ok(()));
    assert_eq!(Vmm::translate(&mem, root, virt), Some(0x7000));
    assert_eq!(Vmm::translate_with_size(&mem, root, virt + 0x123), Some((0x7123, 4096)));
    assert_eq!(Vmm::translate(&mem, root, virt + 0x1000), None);
}

#[test]
fn map_huge_pages() {
    let (mut pmm, mut mem, root) = setup();
    let v2 = 0x0000_0000_4020_0000;
    assert_eq!(Vmm::map_page(&mut pmm, &mut mem, root, v2, 0x20_0000, PageType::HugePage2MiB, 0), Ok(()));
    assert_eq!(Vmm::translate_with_size(&mem, root, v2 + 0x1234), Some((0x20_1234, 0x20_0000)));
    let v1 = 0x0000_0080_0000_0000;
    assert_eq!(Vmm::map_page(&mut pmm, &mut mem, root, v1, 0x4000_0000, PageType::HugePage1GiB, 0), Ok(()));
    assert_eq!(Vmm::translate_with_size(&mem, root, v1 + 0x12_3456), Some((0x4012_3456, 0x4000_0000)));
}

#[test]
fn map_page_reports_out_of_memory() {
    let mut pmm = Pmm::init(&[]);
    let mut mem = PageTableMemory::new(HHDM);
    let root = HHDM + BOOT_ROOT_FRAME;
    mem.insert_zeroed(root);
    assert_eq!(
        Vmm::map_page(&mut pmm, &mut mem, root, 0x40_0000, 0x7000, PageType::Normal, 0),
        Err(VmmError::OutOfMemory)
    );
    assert_eq!(Vmm::translate(&mem, root, 0x40_0000), None);
}

#[test]
fn map_page_needs_one_frame_per_missing_table() {
    // Two frames: not enough for the three tables a 4 KiB page needs.
    let mut pmm = Pmm::init(&[MemmapEntry { base: 0x10_0000, length: 0x2000, type_: MEMMAP_USABLE }]);
    let mut mem = PageTableMemory::new(HHDM);
    let root = HHDM + BOOT_ROOT_FRAME;
    mem.insert_zeroed(root);
    assert_eq!(
        Vmm::map_page(&mut pmm, &mut mem, root, 0x40_0000, 0x7000, PageType::Normal, 0),
        Err(VmmError::OutOfMemory)
    );
    // A 2 MiB page somewhere else needs only the two tables that now exist partly.
    let mut pmm = Pmm::init(&[MemmapEntry { base: 0x10_0000, length: 0x2000, type_: MEMMAP_USABLE }]);
    let mut mem = PageTableMemory::new(HHDM);
    mem.insert_zeroed(root);
    assert_eq!(
        Vmm::map_page(&mut pmm, &mut mem, root, 0x40_0000, 0x20_0000, PageType::HugePage2MiB, 0),
        Ok(())
    );
}

#[test]
fn unmap_then_translate_gives_none() {
    let (mut pmm, mut mem, root) = setup();
    let virt = 0x0000_4000_0020_3000;
    Vmm::map_page(&mut pmm, &mut mem, root, virt, 0x7000, PageType::Normal, WRITABLE).unwrap();
    Vmm::unmap_page(&mut mem, root, virt);
    assert_eq!(Vmm::translate(&mem, root, virt), None);
}

#[test]
fn unmap_huge_page() {
    let (mut pmm, mut mem, root) = setup();
    let v2 = 0x0000_0000_4020_0000;
    Vmm::map_page(&mut pmm, &mut mem, root, v2, 0x20_0000, PageType::HugePage2MiB, 0).unwrap();
    Vmm::unmap_page(&mut mem, root, v2 + 0x5000);
    assert_eq!(Vmm::translate(&mem, root, v2), None);
}

#[test]
fn remap_keeps_translation_and_sets_flags() {
    let (mut pmm, mut mem, root) = setup();
    let virt = 0x0000_4000_0020_3000;
    Vmm::map_page(&mut pmm, &mut mem, root, virt, 0x7000, PageType::Normal, WRITABLE).unwrap();
    let before = Vmm::translate_with_size(&mem, root, virt);
    Vmm::remap_page(&mut mem, root, virt, USER_ACCESSIBLE | NO_EXECUTE);
    assert_eq!(Vmm::translate_with_size(&mem, root, virt), before);
    // The leaf entry holds the address and the new flags.
    let pml4 = mem.read(root, 128);
    let pdpt = advance_current_pagetable(pml4, HHDM);
    let pd = advance_current_pagetable(mem.read(pdpt, 0), HHDM);
    let pt = advance_current_pagetable(mem.read(pd, 1), HHDM);
    assert_eq!(mem.read(pt, 3), 0x7000 | USER_ACCESSIBLE | NO_EXECUTE | PRESENT);
    assert_eq!(mem.read(pt, 3) & ADDRESS_MASK, 0x7000);
    assert_eq!(pml4 & (PRESENT | WRITABLE | USER_ACCESSIBLE | HUGE_PAGE), PRESENT | WRITABLE);
}

#[test]
fn alloc_zeroed_frame_places_empty_table() {
    let mut pmm = Pmm::init(&[MemmapEntry { base: 0x10_0000, length: 0x1000, type_: MEMMAP_USABLE }]);
    let mut mem = PageTableMemory::new(HHDM);
    let a = alloc_zeroed_frame(&mut pmm, &mut mem).unwrap();
    assert_eq!(a, 0x10_0000);
    assert!(mem.has_table(HHDM + a));
    assert_eq!(mem.read(HHDM + a, 511), 0);
    assert_eq!(alloc_zeroed_frame(&mut pmm, &mut mem), None);
}

#[test]
fn unmap_region_frees_frames() {
    let (mut pmm, mut mem, root) = setup();
    let mut a = AddressSpace::empty(root);
    let virt = 0x0000_5000_0000_0000;
    Vmm::map_region(&mut a, virt, 0x2000, VmaFlags::read()).unwrap();
    // Map the first page of the region to a frame taken from the PMM.
    let frame = pmm.alloc_frame().unwrap();
    Vmm::map_page(&mut pmm, &mut mem, root, virt, frame, PageType::Normal, 0).unwrap();
    assert_eq!(Vmm::unmap_region(&mut pmm, &mut a, &mut mem, virt), Ok(()));
    assert_eq!(Vmm::translate(&mem, root, virt), None);
    assert!(a.find_vma(virt).is_none());
    assert_eq!(Vmm::unmap_region(&mut pmm, &mut a, &mut mem, virt), Err(VmmError::VmaNotFound));
}

#[test]
fn remap_region_changes_area_flags() {
    let (mut pmm, mut mem, root) = setup();
    let mut a = AddressSpace::empty(root);
    let virt = 0x0000_5000_0000_0000;
    Vmm::map_region(&mut a, virt, 0x2000, VmaFlags::read()).unwrap();
    Vmm::map_page(&mut pmm, &mut mem, root, virt + 0x1000, 0x9000, PageType::Normal, 0).unwrap();
    assert_eq!(Vmm::remap_region(&mut a, &mut mem, virt, VmaFlags::write()), Ok(()));
    assert!(same_fields(a.find_vma(virt).unwrap(), &Vma { start_addr: virt, end_addr: virt + 0x2000, flags: VmaFlags(2) }));
    assert_eq!(Vmm::translate(&mem, root, virt + 0x1000), Some(0x9000));
    assert_eq!(Vmm::remap_region(&mut a, &mut mem, virt + 0x1000, VmaFlags::write()), Err(VmmError::VmaNotFound));
}

#[test]
fn user_memory_free_and_remap() {
    let (mut pmm, mut mem, root) = setup();
    let mut a = AddressSpace::empty(root);
    let virt = alloc_user_mem(&mut a, None, 0x1000, VmaFlags::read()).unwrap();
    assert_eq!(remap_user_mem(&mut a, &mut mem, virt, VmaFlags::write()), Ok(()));
    assert!(a.find_vma(virt).unwrap().flags == VmaFlags(2 | 8));
    assert_eq!(free_user_mem(&mut pmm, &mut a, &mut mem, virt), Ok(()));
    assert_eq!(free_user_mem(&mut pmm, &mut a, &mut mem, virt), Err(MmError::NotFound));
    assert_eq!(remap_user_mem(&mut a, &mut mem, virt, VmaFlags::write()), Err(MmError::NotFound));
}

#[test]
fn new_user_addr_space_shares_kernel_half() {
    let (mut pmm, mut mem, root) = setup();
    Vmm::map_page(&mut pmm, &mut mem, root, 0xffff_ff80_0000_0000, 0x7000, PageType::Normal, 0).unwrap();
    let user = AddressSpace::new_user_addr_space(&mut pmm, &mut mem, root).unwrap();
    assert!(user.vmas().is_empty());
    assert_eq!(Vmm::translate(&mem, user.page_ptr(), 0xffff_ff80_0000_0000), Some(0x7000));
}

/// `==` on areas compares start addresses only; this compares every field.
fn same_fields(a: &Vma, b: &Vma) -> bool {
    a.start_addr == b.start_addr && a.end_addr == b.end_addr && a.flags == b.flags
}

#[test]
fn map_and_unmap_leave_other_pages_alone() {
    let (mut pmm, mut mem, root) = setup();
    let a = 0x0000_4000_0020_3000;
    let b = a + 0x1000;
    let far = 0x0000_0000_4020_0000;
    assert_eq!(Vmm::map_page(&mut pmm, &mut mem, root, a, 0x7000, PageType::Normal, WRITABLE), Ok(()));
    assert_eq!(Vmm::map_page(&mut pmm, &mut mem, root, far, 0x20_0000, PageType::HugePage2MiB, 0), Ok(()));
    assert_eq!(Vmm::map_page(&mut pmm, &mut mem, root, b, 0x9000, PageType::Normal, 0), Ok(()));
    assert_eq!(Vmm::translate(&mem, root, a), Some(0x7000));
    assert_eq!(Vmm::translate(&mem, root, far + 8), Some(0x20_0008));
    Vmm::unmap_page(&mut mem, root, a);
    assert_eq!(Vmm::translate(&mem, root, a), None);
    assert_eq!(Vmm::translate(&mem, root, b), Some(0x9000));
    assert_eq!(Vmm::translate(&mem, root, far + 8), Some(0x20_0008));
}

fn segment(vaddr: u64, offset: u64, filesz: u64) -> ferrite::sched::elf::ElfPhdr {
    ferrite::sched::elf::ElfPhdr {
        p_type: ferrite::sched::elf::PT_LOAD,
        p_flags: 0,
        p_offset: offset,
        p_vaddr: vaddr,
        p_paddr: 0,
        p_filesz: filesz,
        p_memsz: filesz,
        p_align: 4096,
    }
}

#[test]
fn segment_copy_is_cut_at_page_boundaries() {
    let (mut pmm, mut mem, root) = setup();
    let base = 0x0000_4000_0040_0000;
    assert_eq!(Vmm::map_page(&mut pmm, &mut mem, root, base, 0x7000, PageType::Normal, WRITABLE), Ok(()));
    assert_eq!(Vmm::map_page(&mut pmm, &mut mem, root, base + 0x1000, 0x3000, PageType::Normal, WRITABLE), Ok(()));
    let chunks = segment_copy_chunks(&mem, root, &segment(base + 0xf00, 0x40, 0x300)).unwrap();
    assert_eq!(
        chunks,
        vec![
            SegmentChunk { phys: 0x7f00, file_offset: 0x40, len: 0x100 },
            SegmentChunk { phys: 0x3000, file_offset: 0x140, len: 0x200 },
        ]
    );
    assert_eq!(segment_copy_chunks(&mem, root, &segment(base, 0, 0)), Some(vec![]));
    // The third page is not mapped.
    assert_eq!(segment_copy_chunks(&mem, root, &segment(base + 0x1800, 0, 0x1000)), None);
}

/// The page table entry that maps `virt`, read by walking the tables by hand.
fn pt_entry_of(mem: &PageTableMemory, root: u64, virt: u64) -> u64 {
    let mut table = root;
    for shift in [39u64, 30, 21] {
        let e = mem.read(table, ((virt >> shift) & 0x1ff) as usize);
        table = advance_current_pagetable(e, HHDM);
    }
    mem.read(table, ((virt >> 12) & 0x1ff) as usize)
}

#[test]
fn map_page_writes_the_requested_flags() {
    let (mut pmm, mut mem, root) = setup();
    let virt = 0x0000_4000_0020_3000;
    let flags = WRITABLE | USER_ACCESSIBLE | NO_EXECUTE;
    assert_eq!(Vmm::map_page(&mut pmm, &mut mem, root, virt, 0x7000, PageType::Normal, flags), Ok(()));
    assert_eq!(pt_entry_of(&mem, root, virt), 0x7000 | flags | PRESENT);
    // The new PML4 entry links the new table with PRESENT, WRITABLE and the user bit.
    let e4 = mem.read(root, ((virt >> 39) & 0x1ff) as usize);
    assert_eq!(e4 & !ADDRESS_MASK, PRESENT | WRITABLE | USER_ACCESSIBLE);
    let v2 = 0x0000_0000_4020_0000;
    assert_eq!(Vmm::map_page(&mut pmm, &mut mem, root, v2, 0x20_0000, PageType::HugePage2MiB, 0), Ok(()));
    let pml4 = mem.read(root, 0);
    let pd = advance_current_pagetable(mem.read(advance_current_pagetable(pml4, HHDM), 1), HHDM);
    assert_eq!(mem.read(pd, 1), 0x20_0000 | PRESENT | HUGE_PAGE);
}

#[test]
fn remap_region_rewrites_every_mapped_page() {
    let (mut pmm, mut mem, root) = setup();
    let mut a = AddressSpace::empty(root);
    let virt = 0x0000_5000_0000_0000;
    Vmm::map_region(&mut a, virt, 0x3000, VmaFlags::read()).unwrap();
    Vmm::map_page(&mut pmm, &mut mem, root, virt, 0x8000, PageType::Normal, WRITABLE).unwrap();
    Vmm::map_page(&mut pmm, &mut mem, root, virt + 0x2000, 0x9000, PageType::Normal, WRITABLE).unwrap();
    assert_eq!(Vmm::remap_region(&mut a, &mut mem, virt, VmaFlags::exec() | VmaFlags::user()), Ok(()));
    let flags = Vmm::vma_flags_to_page_flags(VmaFlags::exec() | VmaFlags::user());
    assert_eq!(flags, PRESENT | USER_ACCESSIBLE);
    assert_eq!(pt_entry_of(&mem, root, virt), 0x8000 | flags);
    assert_eq!(pt_entry_of(&mem, root, virt + 0x2000), 0x9000 | flags);
}

#[test]
fn unmap_region_gives_every_frame_back() {
    let (mut pmm, mut mem, root) = setup();
    let mut a = AddressSpace::empty(root);
    let virt = 0x0000_5000_0000_0000;
    Vmm::map_region(&mut a, virt, 0x3000, VmaFlags::read()).unwrap();
    let f1 = pmm.alloc_frame().unwrap();
    let f2 = pmm.alloc_frame().unwrap();
    Vmm::map_page(&mut pmm, &mut mem, root, virt, f1, PageType::Normal, 0).unwrap();
    Vmm::map_page(&mut pmm, &mut mem, root, virt + 0x2000, f2, PageType::Normal, 0).unwrap();
    let mut taken = Vec::new();
    while let Some(f) = pmm.alloc_frame() {
        taken.push(f);
    }
    assert_eq!(Vmm::unmap_region(&mut pmm, &mut a, &mut mem, virt), Ok(()));
    let mut back = vec![pmm.alloc_frame().unwrap(), pmm.alloc_frame().unwrap()];
    back.sort();
    let mut expected = vec![f1, f2];
    expected.sort();
    assert_eq!(back, expected);
    assert_eq!(pmm.alloc_frame(), None);
}

#[test]
fn map_page_leaves_new_tables_empty_off_the_path() {
    let (mut pmm, mut mem, root) = setup();
    let virt = 0x0000_4000_0020_3000;
    Vmm::map_page(&mut pmm, &mut mem, root, virt, 0x7000, PageType::Normal, WRITABLE).unwrap();
    let pdpt = advance_current_pagetable(mem.read(root, 128), HHDM);
    let pd = advance_current_pagetable(mem.read(pdpt, 0), HHDM);
    let pt = advance_current_pagetable(mem.read(pd, 1), HHDM);
    for (table, used) in [(pdpt, 0usize), (pd, 1), (pt, 3)] {
        for i in 0..512 {
            if i != used {
                assert_eq!(mem.read(table, i), 0);
            }
        }
    }
    // Only the mapped page translates.
    assert_eq!(Vmm::translate(&mem, root, virt + 0x1000), None);
    assert_eq!(Vmm::translate(&mem, root, virt + 0x20_0000), None);
}

#[test]
fn can_translate_and_can_map_follow_the_loaded_tables() {
    let (mut pmm, mut mem, root) = setup();
    let virt = 0x0000_4000_0020_3000;
    // Nothing mapped: the walk stops at the absent PML4 entry.
    assert!(Vmm::can_translate(&mem, root, virt));
    assert!(Vmm::can_map_page(&mem, root, virt, PageType::Normal));
    // A table that is not loaded cannot be walked.
    assert!(!Vmm::can_translate(&mem, 0xdead_0000, virt));
    assert!(!Vmm::can_map_page(&mem, 0xdead_0000, virt, PageType::HugePage1GiB));
    Vmm::map_page(&mut pmm, &mut mem, root, virt, 0x7000, PageType::Normal, WRITABLE).unwrap();
    assert!(Vmm::can_translate(&mem, root, virt));
    // A PML4 entry marked huge has nothing to follow.
    let e = mem.read(root, 128);
    mem.write(root, 128, e | HUGE_PAGE);
    assert!(!Vmm::can_translate(&mem, root, virt));
    assert!(!Vmm::can_map_page(&mem, root, virt, PageType::HugePage1GiB));
    // A 2 MiB page on the way stops a 4 KiB mapping but not a 1 GiB one.
    mem.write(root, 128, e);
    let pdpt = advance_current_pagetable(mem.read(root, 128), HHDM);
    let pd_entry = mem.read(pdpt, 0);
    let pd = advance_current_pagetable(pd_entry, HHDM);
    let pt_entry = mem.read(pd, 1);
    mem.write(pd, 1, 0x20_0000 | PRESENT | HUGE_PAGE);
    assert!(Vmm::can_translate(&mem, root, virt));
    assert!(!Vmm::can_map_page(&mem, root, virt, PageType::Normal));
    assert!(Vmm::can_map_page(&mem, root, virt, PageType::HugePage2MiB));
    assert!(Vmm::can_map_page(&mem, root, virt, PageType::HugePage1GiB));
    mem.write(pd, 1, pt_entry);
    assert!(Vmm::can_map_page(&mem, root, virt, PageType::Normal));
}

#[test]
fn map_page_fills_one_entry_per_new_table() {
    let (mut pmm, mut mem, root) = setup();
    let virt = 0x0000_4000_4000_0000;
    Vmm::map_page(&mut pmm, &mut mem, root, virt, 0x4000_0000, PageType::HugePage1GiB, WRITABLE).unwrap();
    let pdpt = advance_current_pagetable(mem.read(root, 128), HHDM);
    let filled: Vec<usize> = (0..512).filter(|&i| mem.read(pdpt, i) != 0).collect();
    assert_eq!(filled, vec![1]);
    assert_eq!(mem.read(pdpt, 1), 0x4000_0000 | WRITABLE | PRESENT | HUGE_PAGE);
}

/// A PMM over 5 MiB, the kernel's root table, and a 2 MiB block mapped as one huge page at
/// `virt` inside an area of `area_size` bytes; every other frame is taken.
fn huge_page_area(virt: u64, area_size: u64) -> (Pmm, PageTableMemory, AddressSpace, u64, u64, Vec<u64>) {
    let mut pmm = Pmm::init(&[MemmapEntry { base: 0x10_0000, length: 0x50_0000, type_: MEMMAP_USABLE }]);
    let mut mem = PageTableMemory::new(HHDM);
    mem.insert_zeroed(HHDM + BOOT_ROOT_FRAME);
    let root = Vmm::setup_kernel_paging(&mut pmm, &mut mem, HHDM + BOOT_ROOT_FRAME).unwrap();
    let mut a = AddressSpace::empty(root);
    Vmm::map_region(&mut a, virt, area_size, VmaFlags::read()).unwrap();
    let block = pmm.alloc_block(9).unwrap();
    assert_eq!(block % 0x20_0000, 0);
    Vmm::map_page(&mut pmm, &mut mem, root, virt, block, PageType::HugePage2MiB, 0).unwrap();
    let mut taken = Vec::new();
    while let Some(f) = pmm.alloc_frame() {
        taken.push(f);
    }
    (pmm, mem, a, root, block, taken)
}

#[test]
fn unmap_region_gives_back_every_frame_of_a_huge_page() {
    let virt = 0x0000_5000_0000_0000;
    let (mut pmm, mut mem, mut a, root, block, _taken) = huge_page_area(virt, 0x20_0000);
    assert_eq!(Vmm::unmap_region(&mut pmm, &mut a, &mut mem, virt), Ok(()));
    assert_eq!(Vmm::translate(&mem, root, virt), None);
    assert_eq!(Vmm::translate(&mem, root, virt + 0x1f_f000), None);
    // All 512 frames came back and merged into the block again.
    assert_eq!(pmm.alloc_block(9), Some(block));
    assert_eq!(pmm.alloc_frame(), None);
}

#[test]
fn unmap_region_gives_back_the_frames_of_the_area_only() {
    let virt = 0x0000_5000_0000_0000;
    // The area covers the first half of the huge page.
    let (mut pmm, mut mem, mut a, root, block, _taken) = huge_page_area(virt, 0x10_0000);
    assert_eq!(Vmm::unmap_region(&mut pmm, &mut a, &mut mem, virt), Ok(()));
    assert_eq!(Vmm::translate(&mem, root, virt + 0x10_0000), None);
    let mut back = Vec::new();
    while let Some(f) = pmm.alloc_frame() {
        back.push(f);
    }
    back.sort();
    let expected: Vec<u64> = (0..256).map(|i| block + i * 0x1000).collect();
    assert_eq!(back, expected);
}

#[test]
fn map_page_keeps_the_other_translations() {
    let (mut pmm, mut mem, root) = setup();
    let a = 0x0000_4000_0020_3000;
    let b = 0x0000_4000_0020_4000;
    let c = 0x0000_4000_4000_0000;
    Vmm::map_page(&mut pmm, &mut mem, root, a, 0x7000, PageType::Normal, WRITABLE).unwrap();
    Vmm::map_page(&mut pmm, &mut mem, root, c, 0x4000_0000, PageType::HugePage1GiB, 0).unwrap();
    Vmm::map_page(&mut pmm, &mut mem, root, b, 0x9000, PageType::Normal, 0).unwrap();
    assert_eq!(Vmm::translate_with_size(&mem, root, a), Some((0x7000, 0x1000)));
    assert_eq!(Vmm::translate_with_size(&mem, root, b + 0x10), Some((0x9010, 0x1000)));
    assert_eq!(Vmm::translate_with_size(&mem, root, c + 0x1234), Some((0x4000_1234, 0x4000_0000)));
    assert_eq!(Vmm::translate(&mem, root, b + 0x1000), None);
}
