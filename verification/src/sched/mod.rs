//! Processes: ELF validation, process records, the process table and spawning.

pub mod elf;
pub mod process;
pub mod sched;
pub mod procs;
pub mod load;
pub mod spawn;
pub mod copy;
