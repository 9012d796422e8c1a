//! Errors of the high-level memory management functions.

use crate::mm::vmm::VmmError;
use vstd::prelude::*;

verus! {

/// An enum which describes possible memory management errors that can occur.
#[derive(Clone, Copy, PartialEq, Eq, Structural, Debug)]
pub enum MmError {
    /// No free memory left to allocate
    OutOfMemory,
    /// The given address is not frame aligned
    MisalignedAddress,
    /// The requested region overlaps with an existing one
    Overlap,
    /// No region at the given address found
    NotFound,
}

/// The memory management error a VMM error is reported as.
pub open spec fn mm_error_of(value: VmmError) -> MmError {
    match value {
        VmmError::OutOfMemory => MmError::OutOfMemory,
        VmmError::VmaOverlap => MmError::Overlap,
        VmmError::VmaNotFound => MmError::NotFound,
        VmmError::InvalidUnmap => MmError::NotFound,
        VmmError::InvalidRemap => MmError::NotFound,
    }
}

impl From<VmmError> for MmError {
    /// Convert a given [`VmmError`] to a [`MmError`].
    fn from(value: VmmError) -> (r: Self) {
        match value {
            VmmError::OutOfMemory => MmError::OutOfMemory,
            VmmError::VmaOverlap => MmError::Overlap,
            VmmError::VmaNotFound => MmError::NotFound,
            VmmError::InvalidUnmap | VmmError::InvalidRemap => MmError::NotFound,
        }
    }
}

impl vstd::std_specs::convert::FromSpecImpl<VmmError> for MmError {
    open spec fn obeys_from_spec() -> bool {
        true
    }

    open spec fn from_spec(value: VmmError) -> MmError {
        mm_error_of(value)
    }
}

} // verus!
