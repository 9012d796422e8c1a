//! Virtual memory areas: address ranges with access flags.

use vstd::prelude::*;

verus! {

/// Flags to describe the properties of a VMA.
#[derive(Clone, Copy, PartialEq, Eq, Structural)]
pub struct VmaFlags(pub u8);

impl VmaFlags {
    /// The area may be read.
    pub fn read() -> (r: Self)
        ensures
            r.0 == 1,
    {
        VmaFlags(1)
    }

    /// The area may be written.
    pub fn write() -> (r: Self)
        ensures
            r.0 == 2,
    {
        VmaFlags(2)
    }

    /// Code in the area may be executed.
    pub fn exec() -> (r: Self)
        ensures
            r.0 == 4,
    {
        VmaFlags(4)
    }

    /// The area is accessible from user mode.
    pub fn user() -> (r: Self)
        ensures
            r.0 == 8,
    {
        VmaFlags(8)
    }

    /// Constructor that returns an empty/zeroed `VmaFlags`.
    pub fn empty() -> (r: Self)
        ensures
            r.0 == 0,
    {
        VmaFlags(0)
    }

    /// Whether `self` has every flag of `other`.
    pub open spec fn has(self, other: Self) -> bool {
        self.0 & other.0 == other.0
    }

    /// Check whether the given `VmaFlags` inner value contains all the flags in `other`.
    pub fn contains(self, other: Self) -> (r: bool)
        ensures
            r == self.has(other),
    {
        self.0 & other.0 == other.0
    }
}

impl core::ops::BitOr for VmaFlags {
    type Output = Self;

    /// Apply the bitwise OR operation to the two values.
    fn bitor(self, rhs: Self) -> (r: Self) {
        VmaFlags(self.0 | rhs.0)
    }
}

impl vstd::std_specs::ops::BitOrSpecImpl for VmaFlags {
    open spec fn obeys_bitor_spec() -> bool {
        true
    }

    open spec fn bitor_req(self, rhs: Self) -> bool {
        true
    }

    open spec fn bitor_spec(self, rhs: Self) -> Self {
        VmaFlags(self.0 | rhs.0)
    }
}

impl core::ops::BitAnd for VmaFlags {
    type Output = Self;

    /// Apply the bitwise AND operation to the two values.
    fn bitand(self, rhs: Self) -> (r: Self) {
        VmaFlags(self.0 & rhs.0)
    }
}

impl vstd::std_specs::ops::BitAndSpecImpl for VmaFlags {
    open spec fn obeys_bitand_spec() -> bool {
        true
    }

    open spec fn bitand_req(self, rhs: Self) -> bool {
        true
    }

    open spec fn bitand_spec(self, rhs: Self) -> Self {
        VmaFlags(self.0 & rhs.0)
    }
}

/// A virtual memory area `[start_addr, end_addr)` (`end_addr` is exclusive) with its flags.
#[derive(Clone, Copy)]
pub struct Vma {
    pub start_addr: u64,
    pub end_addr: u64,
    pub flags: VmaFlags,
}

impl Vma {
    /// `addr` lies in the area.
    pub open spec fn holds(self, addr: u64) -> bool {
        self.start_addr <= addr < self.end_addr
    }

    /// The two areas share an address.
    pub open spec fn meets(self, other: Vma) -> bool {
        self.start_addr < other.end_addr && other.start_addr < self.end_addr
    }

    /// Whether `addr` lies in the area.
    pub fn contains(&self, addr: u64) -> (r: bool)
        ensures
            r == self.holds(addr),
    {
        self.start_addr <= addr && addr < self.end_addr
    }

    /// Whether the two areas share an address.
    pub fn overlaps(&self, other: &Vma) -> (r: bool)
        ensures
            r == self.meets(*other),
    {
        self.start_addr < other.end_addr && other.start_addr < self.end_addr
    }
}


impl PartialEq for Vma {
    /// Only checks equality for [`Vma::start_addr`] and no other property: areas are known
    /// by their start address.
    fn eq(&self, other: &Self) -> (r: bool) {
        self.start_addr == other.start_addr
    }
}

impl Eq for Vma {

}

impl vstd::std_specs::cmp::PartialEqSpecImpl for Vma {
    open spec fn obeys_eq_spec() -> bool {
        true
    }

    open spec fn eq_spec(&self, other: &Self) -> bool {
        self.start_addr == other.start_addr
    }
}

} // verus!
