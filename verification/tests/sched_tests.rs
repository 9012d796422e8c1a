use ferrite::mm::address_space::AddressSpace;
use ferrite::mm::layout::USER_STACK_TOP;
use ferrite::mm::mm_error::MmError;
use ferrite::mm::vma::{Vma, VmaFlags};
use ferrite::sched::elf::{parse_phdrs, validate_elf, validate_header, ElfError, ElfHeader, PT_LOAD};
use ferrite::sched::load::{map_phdrs, setup_user_stack, USER_STACK_SIZE};
use ferrite::sched::process::{Process, ProcessStatus, SavedRegs};
use ferrite::sched::procs::Procs;
use ferrite::sched::sched::Sched;
use ferrite::sched::spawn::{spawn_from_elf, SpawnError};

/// An x86_64 executable with one loadable, readable and executable segment at 0x400000.
fn elf_image(vaddr: u64) -> Vec<u8> {
    let mut b = vec![0u8; 64 + 56];
    b[0..8].copy_from_slice(&[0x7f, b'E', b'L', b'F', 2, 1, 1, 0]);
    b[16..18].copy_from_slice(&2u16.to_le_bytes());
    b[18..20].copy_from_slice(&0x3eu16.to_le_bytes());
    b[20..24].copy_from_slice(&1u32.to_le_bytes());
    b[24..32].copy_from_slice(&(vaddr + 0x1000).to_le_bytes());
    b[32..40].copy_from_slice(&64u64.to_le_bytes());
    b[52..54].copy_from_slice(&64u16.to_le_bytes());
    b[54..56].copy_from_slice(&56u16.to_le_bytes());
    b[56..58].copy_from_slice(&1u16.to_le_bytes());
    let p = 64;
    b[p..p + 4].copy_from_slice(&1u32.to_le_bytes());
    b[p + 4..p + 8].copy_from_slice(&5u32.to_le_bytes());
    b[p + 16..p + 24].copy_from_slice(&vaddr.to_le_bytes());
    b[p + 24..p + 32].copy_from_slice(&vaddr.to_le_bytes());
    b[p + 32..p + 40].copy_from_slice(&0x78u64.to_le_bytes());
    b[p + 40..p + 48].copy_from_slice(&0x1800u64.to_le_bytes());
    b[p + 48..p + 56].copy_from_slice(&0x1000u64.to_le_bytes());
    b
}

#[test]
fn validate_elf_accepts_executable() {
    let elf = elf_image(0x40_0000);
    let (phdrs, entry) = validate_elf(&elf).unwrap();
    assert_eq!(entry, 0x40_1000);
    assert_eq!(phdrs.len(), 1);
    assert_eq!(phdrs[0].p_type, PT_LOAD);
    assert_eq!(phdrs[0].p_flags, 5);
    assert_eq!(phdrs[0].p_vaddr, 0x40_0000);
    assert_eq!(phdrs[0].p_memsz, 0x1800);
    let h = ElfHeader::new(&elf);
    assert_eq!(h.e_phnum, 1);
    assert_eq!(h.e_ident[..4], ElfHeader::ELF_MAGIC);
}

#[test]
fn validate_header_errors() {
    let good = elf_image(0x40_0000);
    assert_eq!(validate_header(&good[..63]).err(), Some(ElfError::TooSmall));
    let mut e = good.clone();
    e[1] = b'X';
    assert_eq!(validate_header(&e).err(), Some(ElfError::BadMagic));
    let mut e = good.clone();
    e[4] = 1;
    assert_eq!(validate_header(&e).err(), Some(ElfError::Not64Bit));
    let mut e = good.clone();
    e[5] = 2;
    assert_eq!(validate_header(&e).err(), Some(ElfError::NotLittleEndian));
    let mut e = good.clone();
    e[16] = 1;
    assert_eq!(validate_header(&e).err(), Some(ElfError::NotExecutable));
    let mut e = good.clone();
    e[16] = 3;
    assert!(validate_header(&e).is_ok());
    let mut e = good.clone();
    e[18] = 0x28;
    assert_eq!(validate_header(&e).err(), Some(ElfError::WrongArch));
    let mut e = good.clone();
    e[54] = 32;
    assert_eq!(validate_header(&e).err(), Some(ElfError::BadPhentsize));
}

#[test]
fn phdrs_out_of_bounds() {
    let mut e = elf_image(0x40_0000);
    e[56] = 2;
    let h = validate_header(&e).unwrap();
    assert_eq!(parse_phdrs(&e, &h).err(), Some(ElfError::PhdrsOutOfBounds));
    assert_eq!(validate_elf(&e).err(), Some(ElfError::PhdrsOutOfBounds));
}

#[test]
fn saved_regs_and_process() {
    let r = SavedRegs::new();
    assert_eq!(r.rflags, 0x202);
    assert_eq!(r.rip, 0);
    assert_eq!(r.rax, 0);
    let p = Process::new(7, 1, AddressSpace::empty(0x1000), 0xdead_0000);
    assert_eq!(p.pid, 7);
    assert_eq!(p.parent_pid, 1);
    assert_eq!(p.status, ProcessStatus::Ready);
    assert_eq!(p.kernel_stack_top, 0xdead_0000);
    assert_eq!(p.regs, SavedRegs::new());
    assert_eq!(p.addr_space.page_ptr(), 0x1000);
}

#[test]
fn sched_pids_and_table() {
    let mut s = Sched::new();
    assert_eq!(s.alloc_pid(), 0);
    s.init();
    assert_eq!(s.alloc_pid(), 1);
    assert_eq!(s.alloc_pid(), 2);
    s.set_active_pid(2);
    assert_eq!(s.active_pid(), 2);
    s.insert_process(Process::new(2, 1, AddressSpace::empty(0), 0));
    assert!(s.remove_process(3).is_none());
    assert_eq!(s.remove_process(2).unwrap().pid, 2);
    assert!(s.remove_process(2).is_none());
}

#[test]
fn procs_active_pid() {
    let mut p = Procs::new();
    assert_eq!(p.active_pid(), 0);
    p.set_active_pid(5);
    assert_eq!(p.active_pid(), 5);
}

#[test]
fn procs_table_starts_empty() {
    let mut p = Procs::new();
    p.init_procs();
    assert!(p.procs().is_empty());
    p.procs().insert(3, Process::new(3, 1, AddressSpace::empty(0), 0));
    assert_eq!(p.procs().get(&3).map(|q| q.parent_pid), Some(1));
    assert_eq!(p.procs().len(), 1);
}

#[test]
fn map_phdrs_and_user_stack() {
    let elf = elf_image(0x40_0123);
    let (phdrs, _) = validate_elf(&elf).unwrap();
    let mut a = AddressSpace::empty(0);
    assert_eq!(map_phdrs(&mut a, &phdrs), Ok(()));
    assert!(same_vma(a.find_vma(0x40_0000).unwrap(), &Vma { start_addr: 0x40_0000, end_addr: 0x40_2000, flags: VmaFlags(8 | 1 | 4) }));
    assert_eq!(map_phdrs(&mut a, &phdrs), Err(MmError::Overlap));
    assert_eq!(setup_user_stack(&mut a), Ok(USER_STACK_TOP));
    assert!(same_vma(a.find_vma(USER_STACK_TOP - 1).unwrap(), &Vma { start_addr: USER_STACK_TOP - USER_STACK_SIZE, end_addr: USER_STACK_TOP, flags: VmaFlags(11) }));
    assert_eq!(setup_user_stack(&mut a), Err(MmError::Overlap));
}

#[test]
fn spawn_process_from_elf() {
    let mut s = Sched::new();
    s.init();
    let elf = elf_image(0x40_0000);
    assert_eq!(spawn_from_elf(&mut s, &elf, 0, AddressSpace::empty(0x1000)), Ok(1));
    let p = s.remove_process(1).unwrap();
    assert_eq!(p.parent_pid, 0);
    assert_eq!(p.status, ProcessStatus::Ready);
    assert_eq!(p.regs.rip, 0x40_1000);
    assert_eq!(p.regs.rsp, USER_STACK_TOP);
    assert_eq!(p.regs.rflags, 0x202);
    assert_eq!(p.addr_space.vmas().len(), 2);
    assert_eq!(p.addr_space.page_ptr(), 0x1000);
}

#[test]
fn spawn_errors() {
    let mut s = Sched::new();
    s.init();
    let mut bad = elf_image(0x40_0000);
    bad[0] = 0;
    assert_eq!(spawn_from_elf(&mut s, &bad, 0, AddressSpace::empty(0)), Err(SpawnError::InvalidBinary));
    let clash = elf_image(USER_STACK_TOP - 0x1000);
    assert_eq!(spawn_from_elf(&mut s, &clash, 0, AddressSpace::empty(0)), Err(SpawnError::MappingCollision));
    // Nothing was spawned: the next PID is still 1.
    assert_eq!(s.alloc_pid(), 1);
}

#[test]
fn spawn_error_conversions() {
    assert_eq!(SpawnError::from(MmError::OutOfMemory), SpawnError::OutOfMemory);
    assert_eq!(SpawnError::from(MmError::Overlap), SpawnError::MappingCollision);
    assert_eq!(SpawnError::from(MmError::NotFound), SpawnError::InvalidBinary);
    assert_eq!(SpawnError::from(MmError::MisalignedAddress), SpawnError::InvalidBinary);
    assert_eq!(SpawnError::from(ElfError::WrongArch), SpawnError::InvalidBinary);
}

/// `==` on areas compares start addresses only; this compares every field.
fn same_vma(a: &Vma, b: &Vma) -> bool {
    a.start_addr == b.start_addr && a.end_addr == b.end_addr && a.flags == b.flags
}

#[test]
fn sched_with_process_runs_on_the_stored_process() {
    let mut s = Sched::new();
    s.init();
    s.insert_process(Process::new(4, 1, AddressSpace::empty(0), 0x9000));
    let r = s.with_process(4, |p| {
        p.kernel_stack_top += 0x1000;
        p.parent_pid
    });
    assert_eq!(r, Some(1));
    assert_eq!(s.with_process(5, |p| p.pid), None);
    s.set_active_pid(4);
    assert_eq!(s.with_active_process(|p| p.kernel_stack_top), Some(0xa000));
    s.set_active_pid(6);
    assert_eq!(s.with_active_process(|p| p.kernel_stack_top), None);
}

#[test]
fn pids_count_up_from_one() {
    let mut s = Sched::new();
    s.init();
    for expected in 1..=100 {
        assert_eq!(s.alloc_pid(), expected);
    }
}

#[test]
fn active_pid_is_the_last_one_set() {
    let mut s = Sched::new();
    s.init();
    assert_eq!(s.active_pid(), 0);
    s.set_active_pid(4);
    s.set_active_pid(7);
    assert_eq!(s.alloc_pid(), 1);
    s.init();
    assert_eq!(s.remove_process(1).is_none(), true);
    assert_eq!(s.active_pid(), 7);
}
