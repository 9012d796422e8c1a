//! The definition of a process (its data and state).

use crate::mm::address_space::AddressSpace;
use vstd::prelude::*;

verus! {

/// Represents all necessary data to manage a process.
pub struct Process {
    pub pid: i32,
    pub parent_pid: i32,
    pub addr_space: AddressSpace,
    pub status: ProcessStatus,
    pub kernel_stack_top: u64,
    pub regs: SavedRegs,
}

/// The status of a process.
#[derive(Clone, Copy, PartialEq, Eq, Structural, Debug)]
pub enum ProcessStatus {
    /// Ready to be run by the scheduler
    Ready,
    /// Currently running on a CPU
    Running,
    /// Waiting on a resource (I/O, a lock, ...)
    Waiting,
    /// Exited; also contains an exit code
    Zombie(i32),
}

/// The kernel stack of a process (start address and size).
#[derive(Clone, Copy, PartialEq, Eq, Structural, Debug)]
pub struct KernelStack {
    pub base: u64,
    pub size: u64,
}

/// The saved CPU registers for when execution was paused by the scheduler.
#[derive(Clone, Copy, PartialEq, Eq, Structural, Debug)]
pub struct SavedRegs {
    pub rax: u64,
    pub rbx: u64,
    pub rcx: u64,
    pub rdx: u64,
    pub rsi: u64,
    pub rdi: u64,
    pub rbp: u64,
    pub r8: u64,
    pub r9: u64,
    pub r10: u64,
    pub r11: u64,
    pub r12: u64,
    pub r13: u64,
    pub r14: u64,
    pub r15: u64,
    pub rip: u64,
    pub rsp: u64,
    pub rflags: u64,
}

/// The flags register of a new process: the reserved bit 1, which the CPU requires to be
/// set, and the interrupt flag, so that the process can be preempted.
pub const INITIAL_RFLAGS: u64 = 0x202;

/// The registers of a new process: all zero but the flags.
pub open spec fn initial_regs() -> SavedRegs {
    SavedRegs {
        rax: 0,
        rbx: 0,
        rcx: 0,
        rdx: 0,
        rsi: 0,
        rdi: 0,
        rbp: 0,
        r8: 0,
        r9: 0,
        r10: 0,
        r11: 0,
        r12: 0,
        r13: 0,
        r14: 0,
        r15: 0,
        rip: 0,
        rsp: 0,
        rflags: INITIAL_RFLAGS,
    }
}

impl SavedRegs {
    /// Construct a zeroed (except `rflags`) [`SavedRegs`] instance.
    pub fn new() -> (r: Self)
        ensures
            r == initial_regs(),
    {
        SavedRegs {
            rax: 0,
            rbx: 0,
            rcx: 0,
            rdx: 0,
            rsi: 0,
            rdi: 0,
            rbp: 0,
            r8: 0,
            r9: 0,
            r10: 0,
            r11: 0,
            r12: 0,
            r13: 0,
            r14: 0,
            r15: 0,
            rip: 0,
            rsp: 0,
            rflags: INITIAL_RFLAGS,
        }
    }
}

impl Process {
    /// Create a new, ready process which owns an address space.
    pub fn new(pid: i32, parent_pid: i32, addr_space: AddressSpace, kernel_stack_top: u64) -> (r:
        Self)
        ensures
            r.pid == pid,
            r.parent_pid == parent_pid,
            r.addr_space == addr_space,
            r.status == ProcessStatus::Ready,
            r.kernel_stack_top == kernel_stack_top,
            r.regs == initial_regs(),
    {
        Process {
            pid,
            parent_pid,
            addr_space,
            status: ProcessStatus::Ready,
            kernel_stack_top,
            regs: SavedRegs::new(),
        }
    }
}

} // verus!
