//! Memory management, scheduling and screen logic of the Ferrite kernel, with
//! machine-checked contracts.

pub mod mm;
pub mod screen;
pub mod sched;
pub mod state;
