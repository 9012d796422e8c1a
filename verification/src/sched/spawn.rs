//! Spawning new processes from ELF images.

use crate::mm::address_space::{insert_all, insert_outcome, AddressSpace};
use crate::mm::layout::USER_STACK_TOP;
use crate::mm::mm_error::MmError;
use crate::sched::elf::{header_error, le64, phdrs_in_bounds, phdrs_of, validate_elf, ElfError};
use crate::sched::load::{load_vmas, map_phdrs, segments_in_range, setup_user_stack, user_stack_vma};
use crate::sched::process::{initial_regs, Process, ProcessStatus, SavedRegs};
use crate::sched::sched::{next_pid_after, Sched};
use vstd::prelude::*;

verus! {

/// Indicates an error when attempting to spawn a new process.
#[derive(Clone, Copy, PartialEq, Eq, Structural, Debug)]
pub enum SpawnError {
    InvalidBinary,
    OutOfMemory,
    MappingCollision,
}

/// The spawn error a memory management error is reported as.
pub open spec fn spawn_error_of_mm(value: MmError) -> SpawnError {
    match value {
        MmError::MisalignedAddress | MmError::NotFound => SpawnError::InvalidBinary,
        MmError::OutOfMemory => SpawnError::OutOfMemory,
        MmError::Overlap => SpawnError::MappingCollision,
    }
}

impl From<MmError> for SpawnError {
    /// Convert a given [`MmError`] into a [`SpawnError`].
    fn from(value: MmError) -> (r: Self) {
        match value {
            MmError::MisalignedAddress | MmError::NotFound => SpawnError::InvalidBinary,
            MmError::OutOfMemory => SpawnError::OutOfMemory,
            MmError::Overlap => SpawnError::MappingCollision,
        }
    }
}

impl vstd::std_specs::convert::FromSpecImpl<MmError> for SpawnError {
    open spec fn obeys_from_spec() -> bool {
        true
    }

    open spec fn from_spec(value: MmError) -> SpawnError {
        spawn_error_of_mm(value)
    }
}

impl From<ElfError> for SpawnError {
    /// Every ELF error makes the binary invalid.
    fn from(value: ElfError) -> (r: Self) {
        SpawnError::InvalidBinary
    }
}

impl vstd::std_specs::convert::FromSpecImpl<ElfError> for SpawnError {
    open spec fn obeys_from_spec() -> bool {
        true
    }

    open spec fn from_spec(value: ElfError) -> SpawnError {
        SpawnError::InvalidBinary
    }
}

/// The image is a valid ELF executable with its program headers inside it.
pub open spec fn elf_ok(elf: Seq<u8>) -> bool {
    header_error(elf) is None && phdrs_in_bounds(elf)
}

/// Spawn a new process from the ELF image `elf` in `addr_space`, returning its PID.
///
/// Creates the areas of the loadable segments and the user stack, allocates a PID and
/// adds a ready process that starts at the image's entry point with the stack pointer at
/// the stack top. Returns [`SpawnError::InvalidBinary`] for an invalid image and
/// [`SpawnError::MappingCollision`] when an area overlaps another one; then the process
/// table and the PID counter are unchanged.
pub fn spawn_from_elf(sched: &mut Sched, elf: &[u8], parent_pid: i32, addr_space: AddressSpace) -> (r:
    Result<i32, SpawnError>)
    requires
        addr_space.wf(),
        elf_ok(elf@) ==> segments_in_range(phdrs_of(elf@)),
    ensures
        final(sched).active() == old(sched).active(),
        !elf_ok(elf@) ==> r == Err::<i32, SpawnError>(SpawnError::InvalidBinary),
        r is Err ==> final(sched).table() == old(sched).table() && final(sched).next() == old(
            sched,
        ).next(),
        elf_ok(elf@) ==> ({
            let (t, ok) = insert_all(addr_space.areas(), load_vmas(phdrs_of(elf@)));
            match insert_outcome(t, user_stack_vma()) {
                Some(u) if ok => {
                    let pid = old(sched).next();
                    let p = final(sched).table()[pid];
                    &&& r == Ok::<i32, SpawnError>(pid)
                    &&& final(sched).next() == next_pid_after(pid)
                    &&& final(sched).table().contains_key(pid)
                    &&& final(sched).table().remove(pid) == old(sched).table().remove(pid)
                    &&& p.pid == pid
                    &&& p.parent_pid == parent_pid
                    &&& p.status == ProcessStatus::Ready
                    &&& p.kernel_stack_top == 0
                    &&& p.regs == regs_at_entry(le64(elf@, 24))
                    &&& p.addr_space.wf()
                    &&& p.addr_space.root() == addr_space.root()
                    &&& p.addr_space.areas() == u
                },
                _ => r == Err::<i32, SpawnError>(SpawnError::MappingCollision),
            }
        }),
{
    let (phdrs, e_entry) = match validate_elf(elf) {
        Ok(v) => v,
        Err(e) => {
            return Err(SpawnError::from(e));
        },
    };
    let mut addr_space = addr_space;
    match map_phdrs(&mut addr_space, phdrs.as_slice()) {
        Ok(()) => {},
        Err(e) => {
            return Err(SpawnError::from(e));
        },
    }
    let user_stack_top = match setup_user_stack(&mut addr_space) {
        Ok(t) => t,
        Err(e) => {
            return Err(SpawnError::from(e));
        },
    };
    let pid = sched.alloc_pid();
    let mut process = Process::new(pid, parent_pid, addr_space, 0);
    process.regs.rip = e_entry;
    process.regs.rsp = user_stack_top;
    sched.insert_process(process);
    Ok(pid)
}

/// The registers of a new process that starts at `entry` with the user stack.
pub open spec fn regs_at_entry(entry: u64) -> SavedRegs {
    SavedRegs { rip: entry, rsp: USER_STACK_TOP, ..initial_regs() }
}

} // verus!
