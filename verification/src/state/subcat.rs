//! Marker trait for the subsystem structs of the kernel state.

use vstd::prelude::*;

verus! {

/// Marks a struct as one subsystem slot of the kernel state. It has no methods.
pub trait KStateSubCategory {

}

impl KStateSubCategory for crate::state::cpu::Cpu {

}

impl KStateSubCategory for crate::sched::procs::Procs {

}

impl KStateSubCategory for crate::state::mm::Mm {

}

} // verus!
