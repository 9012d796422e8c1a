//! Kernel state: the early-boot output resources, the CPU selectors and the memory-management
//! state.

pub mod simple_state;
pub mod cpu;
pub mod subcat;
pub mod mm;
pub mod setting;
