//! Page table entries: their flags, the page sizes, and the indices a virtual address selects.

use super::walk::translation;
use vstd::prelude::*;

verus! {

/// The entry maps a frame or a next-level table.
pub const PRESENT: u64 = 0x1;

/// Writes are allowed through the entry.
pub const WRITABLE: u64 = 0x2;

/// User mode may access the memory behind the entry.
pub const USER_ACCESSIBLE: u64 = 0x4;

/// The entry maps a huge page directly (levels 3 and 2).
pub const HUGE_PAGE: u64 = 0x80;

/// The translation is global (kept in the TLB across address space switches).
pub const GLOBAL: u64 = 0x100;

/// Instruction fetches are not allowed through the entry.
pub const NO_EXECUTE: u64 = 0x8000_0000_0000_0000;

/// The bits of an entry that hold the physical address.
pub const ADDRESS_MASK: u64 = 0x000f_ffff_ffff_f000;

/// First physical address that does not exist (physical addresses have 52 bits).
pub const PHYS_LIMIT: u64 = 0x0010_0000_0000_0000;

/// Size of a 2 MiB huge page.
pub const HUGE_PAGE_SIZE_2MIB: u64 = 0x20_0000;

/// Size of a 1 GiB huge page.
pub const HUGE_PAGE_SIZE_1GIB: u64 = 0x4000_0000;

/// Number of entries of a page table.
pub const ENTRIES: usize = 512;

/// The size of page a mapping uses.
#[derive(Clone, Copy, PartialEq, Eq, Structural, Debug)]
pub enum PageType {
    Normal,
    HugePage2MiB,
    HugePage1GiB,
}

/// Bytes covered by a page of the given type.
pub open spec fn page_size(t: PageType) -> u64 {
    match t {
        PageType::Normal => 4096,
        PageType::HugePage2MiB => HUGE_PAGE_SIZE_2MIB,
        PageType::HugePage1GiB => HUGE_PAGE_SIZE_1GIB,
    }
}

impl PageType {
    /// Translates a page type to its size in bytes.
    pub fn size(self) -> (r: u64)
        ensures
            r == page_size(self),
    {
        match self {
            PageType::Normal => 4096,
            PageType::HugePage2MiB => HUGE_PAGE_SIZE_2MIB,
            PageType::HugePage1GiB => HUGE_PAGE_SIZE_1GIB,
        }
    }

    /// Human readable name of the page type.
    pub fn name(self) -> (r: &'static str)
        ensures
            r@ == (match self {
                PageType::Normal => "Normal(4KiB)"@,
                PageType::HugePage2MiB => "HugePage(2MiB)"@,
                PageType::HugePage1GiB => "HugePage(1GiB)"@,
            }),
    {
        match self {
            PageType::Normal => "Normal(4KiB)",
            PageType::HugePage2MiB => "HugePage(2MiB)",
            PageType::HugePage1GiB => "HugePage(1GiB)",
        }
    }
}

/// The entry has the `PRESENT` flag.
pub open spec fn present(e: u64) -> bool {
    e & PRESENT != 0
}

/// The entry has the `HUGE_PAGE` flag.
pub open spec fn huge(e: u64) -> bool {
    e & HUGE_PAGE != 0
}

/// The physical address held by the entry.
pub open spec fn entry_addr(e: u64) -> u64 {
    e & ADDRESS_MASK
}

/// The virtual address of the table an entry points to (its address plus the direct-map
/// offset, wrapping around the top of the address space).
pub open spec fn next_table(e: u64, hhdm: u64) -> u64 {
    vstd::wrapping::u64_specs::wrapping_add(entry_addr(e), hhdm)
}

/// Index into the table of the given level (4 = PML4 .. 1 = PT) for `v`.
pub open spec fn table_index(v: u64, level: int) -> int {
    if level == 4 {
        ((v >> 39u64) & 0x1ffu64) as int
    } else if level == 3 {
        ((v >> 30u64) & 0x1ffu64) as int
    } else if level == 2 {
        ((v >> 21u64) & 0x1ffu64) as int
    } else {
        ((v >> 12u64) & 0x1ffu64) as int
    }
}

/// The entry at index `i` of the table at `t`, or an empty entry if there is no such table.
pub open spec fn entry_at(tables: Map<u64, Seq<u64>>, t: u64, i: int) -> u64 {
    if tables.contains_key(t) && 0 <= i < tables[t].len() {
        tables[t][i]
    } else {
        0
    }
}

/// Check whether the given entry has the `PRESENT` flag.
pub fn is_present(entry: u64) -> (r: bool)
    ensures
        r == present(entry),
{
    entry & PRESENT != 0
}

/// Check whether the given entry has the `HUGE_PAGE` flag.
pub fn is_huge_page(entry: u64) -> (r: bool)
    ensures
        r == huge(entry),
{
    entry & HUGE_PAGE != 0
}

/// Returns the virtual address of the next page table an entry points to.
pub fn advance_current_pagetable(entry: u64, hhdm_offset: u64) -> (r: u64)
    ensures
        r == next_table(entry, hhdm_offset),
{
    (entry & ADDRESS_MASK).wrapping_add(hhdm_offset)
}

/// The address held by an entry is below the physical limit.
pub proof fn lemma_entry_addr_bound(e: u64)
    ensures
        entry_addr(e) < PHYS_LIMIT,
        entry_addr(e) % 4096 == 0,
{
    assert(e & 0x000f_ffff_ffff_f000u64 < 0x0010_0000_0000_0000u64 && (e
        & 0x000f_ffff_ffff_f000u64) % 4096 == 0) by (bit_vector);
}

/// Index of `v` into the table of the given level, as an executable value.
pub(crate) fn entry_index(v: u64, level: u8) -> (r: usize)
    requires
        1 <= level <= 4,
    ensures
        r == table_index(v, level as int),
        r < ENTRIES,
{
    proof {
        lemma_table_index_bound(v);
    }
    if level == 4 {
        ((v >> 39u64) & 0x1ffu64) as usize
    } else if level == 3 {
        ((v >> 30u64) & 0x1ffu64) as usize
    } else if level == 2 {
        ((v >> 21u64) & 0x1ffu64) as usize
    } else {
        ((v >> 12u64) & 0x1ffu64) as usize
    }
}

/// Every table index lies in `0..512`.
pub(crate) proof fn lemma_table_index_bound(v: u64)
    ensures
        0 <= table_index(v, 4) < 512,
        0 <= table_index(v, 3) < 512,
        0 <= table_index(v, 2) < 512,
        0 <= table_index(v, 1) < 512,
{
    assert((v >> 39u64) & 0x1ffu64 < 512 && (v >> 30u64) & 0x1ffu64 < 512 && (v >> 21u64)
        & 0x1ffu64 < 512 && (v >> 12u64) & 0x1ffu64 < 512) by (bit_vector);
}

/// An empty entry maps nothing.
pub(crate) proof fn lemma_zero_entry()
    ensures
        !present(0u64),
        !huge(0u64),
        entry_addr(0u64) == 0,
{
    assert(0u64 & 1u64 == 0 && 0u64 & 0x80u64 == 0 && 0u64 & 0x000f_ffff_ffff_f000u64 == 0)
        by (bit_vector);
}

} // verus!
