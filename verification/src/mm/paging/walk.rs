//! The page table walk: what an address translates to, and translating addresses.

use crate::mm::vma::VmaFlags;
use crate::mm::vmm::Vmm;
use super::entry::{ADDRESS_MASK, GLOBAL, HUGE_PAGE, HUGE_PAGE_SIZE_1GIB, HUGE_PAGE_SIZE_2MIB, NO_EXECUTE, PRESENT, USER_ACCESSIBLE, WRITABLE, advance_current_pagetable, entry_addr, entry_at, entry_index, huge, is_huge_page, is_present, lemma_entry_addr_bound, lemma_zero_entry, next_table, present, table_index};
use super::memory::PageTableMemory;
use vstd::prelude::*;

verus! {

/// The PML4 entry used to translate `v`.
pub open spec fn pml4_entry(m: Map<u64, Seq<u64>>, root: u64, v: u64) -> u64 {
    entry_at(m, root, table_index(v, 4))
}

/// The PDPT the walk for `v` reaches.
pub open spec fn pdpt_table(m: Map<u64, Seq<u64>>, h: u64, root: u64, v: u64) -> u64 {
    next_table(pml4_entry(m, root, v), h)
}

/// The PDPT entry used to translate `v`.
pub open spec fn pdpt_entry(m: Map<u64, Seq<u64>>, h: u64, root: u64, v: u64) -> u64 {
    entry_at(m, pdpt_table(m, h, root, v), table_index(v, 3))
}

/// The page directory the walk for `v` reaches.
pub open spec fn pd_table(m: Map<u64, Seq<u64>>, h: u64, root: u64, v: u64) -> u64 {
    next_table(pdpt_entry(m, h, root, v), h)
}

/// The page directory entry used to translate `v`.
pub open spec fn pd_entry(m: Map<u64, Seq<u64>>, h: u64, root: u64, v: u64) -> u64 {
    entry_at(m, pd_table(m, h, root, v), table_index(v, 2))
}

/// The page table the walk for `v` reaches.
pub open spec fn pt_table(m: Map<u64, Seq<u64>>, h: u64, root: u64, v: u64) -> u64 {
    next_table(pd_entry(m, h, root, v), h)
}

/// The page table entry used to translate `v`.
pub open spec fn pt_entry(m: Map<u64, Seq<u64>>, h: u64, root: u64, v: u64) -> u64 {
    entry_at(m, pt_table(m, h, root, v), table_index(v, 1))
}

/// The physical address `v` translates to and the size of the page it lies in, or `None`
/// if some level of the walk is not present. A `HUGE_PAGE` entry at the PDPT or page
/// directory level ends the walk with a 1 GiB or 2 MiB page.
pub open spec fn translation(m: Map<u64, Seq<u64>>, h: u64, root: u64, v: u64) -> Option<(u64, u64)> {
    let e4 = pml4_entry(m, root, v);
    let e3 = pdpt_entry(m, h, root, v);
    let e2 = pd_entry(m, h, root, v);
    let e1 = pt_entry(m, h, root, v);
    if !present(e4) || !present(e3) {
        None
    } else if huge(e3) {
        Some(((entry_addr(e3) + (v & 0x3fff_ffffu64)) as u64, HUGE_PAGE_SIZE_1GIB))
    } else if !present(e2) {
        None
    } else if huge(e2) {
        Some(((entry_addr(e2) + (v & 0x1f_ffffu64)) as u64, HUGE_PAGE_SIZE_2MIB))
    } else if !present(e1) {
        None
    } else {
        Some(((entry_addr(e1) + (v & 0xfffu64)) as u64, 4096u64))
    }
}

/// Every table the walk for `v` reads exists, and the PML4 entry it follows is not marked
/// huge (such an entry has no frame to follow).
pub open spec fn walk_ok(m: Map<u64, Seq<u64>>, h: u64, root: u64, v: u64) -> bool {
    let e4 = pml4_entry(m, root, v);
    let e3 = pdpt_entry(m, h, root, v);
    let e2 = pd_entry(m, h, root, v);
    &&& m.contains_key(root)
    &&& present(e4) ==> {
        &&& !huge(e4)
        &&& m.contains_key(pdpt_table(m, h, root, v))
        &&& (present(e3) && !huge(e3)) ==> {
            &&& m.contains_key(pd_table(m, h, root, v))
            &&& (present(e2) && !huge(e2)) ==> m.contains_key(pt_table(m, h, root, v))
        }
    }
}

/// The tables the walk for `v` visits, down to the table of the given level (3 = PDPT,
/// 2 = page directory, 1 = page table), are pairwise distinct.
pub open spec fn path_distinct_to(m: Map<u64, Seq<u64>>, h: u64, root: u64, v: u64, level: int) -> bool {
    let e4 = pml4_entry(m, root, v);
    let e3 = pdpt_entry(m, h, root, v);
    let e2 = pd_entry(m, h, root, v);
    let t3 = pdpt_table(m, h, root, v);
    let t2 = pd_table(m, h, root, v);
    let t1 = pt_table(m, h, root, v);
    &&& present(e4) ==> t3 != root
    &&& (level <= 2 && present(e4) && present(e3) && !huge(e3)) ==> t2 != root && t2 != t3
    &&& (level <= 1 && present(e4) && present(e3) && !huge(e3) && present(e2) && !huge(e2))
        ==> t1 != root && t1 != t3 && t1 != t2
}

/// The table holding the entry that maps `v` (the last one the walk reads).
pub open spec fn leaf_table(m: Map<u64, Seq<u64>>, h: u64, root: u64, v: u64) -> u64 {
    if huge(pdpt_entry(m, h, root, v)) {
        pdpt_table(m, h, root, v)
    } else if huge(pd_entry(m, h, root, v)) {
        pd_table(m, h, root, v)
    } else {
        pt_table(m, h, root, v)
    }
}

/// The index of the entry that maps `v` in its [`leaf_table`].
pub open spec fn leaf_index(m: Map<u64, Seq<u64>>, h: u64, root: u64, v: u64) -> int {
    if huge(pdpt_entry(m, h, root, v)) {
        table_index(v, 3)
    } else if huge(pd_entry(m, h, root, v)) {
        table_index(v, 2)
    } else {
        table_index(v, 1)
    }
}

/// The entry that maps `v`.
pub open spec fn leaf_entry(m: Map<u64, Seq<u64>>, h: u64, root: u64, v: u64) -> u64 {
    entry_at(m, leaf_table(m, h, root, v), leaf_index(m, h, root, v))
}

/// The page table flags that implement the given VMA flags.
pub open spec fn page_flags_for(f: VmaFlags) -> u64 {
    PRESENT | (if f.has(VmaFlags(2)) { WRITABLE } else { 0 }) | (if f.has(VmaFlags(4)) {
        0
    } else {
        NO_EXECUTE
    }) | (if f.has(VmaFlags(8)) { USER_ACCESSIBLE } else { GLOBAL })
}

/// The page table flags of VMA flags `f`: always present (bit 0); writable (bit 1) exactly
/// when `f` has WRITE (2); no-execute (bit 63) exactly when `f` lacks EXEC (4), whatever its
/// other flags; user-accessible (bit 2) exactly when `f` has USER (8), and global (bit 8)
/// exactly when it does not; no other bit.
pub proof fn law_page_flags_for(f: VmaFlags)
    ensures
        page_flags_for(f) & 1 == 1,
        (page_flags_for(f) & 2 == 2) == (f.0 & 2 == 2),
        (page_flags_for(f) & 0x8000_0000_0000_0000 == 0x8000_0000_0000_0000) == (f.0 & 4 == 0),
        (page_flags_for(f) & 4 == 4) == (f.0 & 8 == 8),
        (page_flags_for(f) & 0x100 == 0x100) == (f.0 & 8 == 0),
        page_flags_for(f) & 0x7fff_ffff_ffff_fef8 == 0,
{
    let x = f.0;
    let a: u64 = if f.has(VmaFlags(2)) { 2 } else { 0 };
    let b: u64 = if f.has(VmaFlags(4)) { 0 } else { 0x8000_0000_0000_0000 };
    let c: u64 = if f.has(VmaFlags(8)) { 4 } else { 0x100 };
    assert(page_flags_for(f) == 1u64 | a | b | c);
    assert((x & 2u8 == 2u8) == (x & 2 == 2) && (x & 4u8 == 4u8) == (x & 4 != 0) && (x & 8u8 == 8u8)
        == (x & 8 == 8) && (x & 8 == 8) == !(x & 8 == 0)) by (bit_vector);
    assert((a == 0 || a == 2) && (b == 0 || b == 0x8000_0000_0000_0000u64) && (c == 4 || c == 0x100)
        ==> (1u64 | a | b | c) & 1 == 1 && ((1u64 | a | b | c) & 2 == 2) == (a == 2) && ((1u64 | a | b
        | c) & 0x8000_0000_0000_0000u64 == 0x8000_0000_0000_0000u64) == (b != 0) && ((1u64 | a | b
        | c) & 4 == 4) == (c == 4) && ((1u64 | a | b | c) & 0x100 == 0x100) == (c == 0x100) && (1u64
        | a | b | c) & 0x7fff_ffff_ffff_fef8u64 == 0) by (bit_vector);
}

/// An address plus an offset below a gigabyte stays far below the top of `u64`.
pub(crate) proof fn lemma_offset_sum(e: u64, v: u64)
    ensures
        entry_addr(e) + (v & 0x3fff_ffffu64) < 0x0010_0000_4000_0000,
        entry_addr(e) + (v & 0x1f_ffffu64) < 0x0010_0000_4000_0000,
        entry_addr(e) + (v & 0xfffu64) < 0x0010_0000_4000_0000,
{
    lemma_entry_addr_bound(e);
    assert(v & 0x3fff_ffffu64 <= 0x3fff_ffffu64 && v & 0x1f_ffffu64 <= 0x3fff_ffffu64 && v
        & 0xfffu64 <= 0x3fff_ffffu64) by (bit_vector);
}

impl Vmm {
    /// Whether `mem` holds every table the walk for `virt` from `page_ptr` reads, with no
    /// huge PML4 entry on the way: what translating `virt` needs.
    pub fn can_translate(mem: &PageTableMemory, page_ptr: u64, virt: u64) -> (r: bool)
        requires
            mem.wf(),
        ensures
            r == walk_ok(mem.tables(), mem.hhdm(), page_ptr, virt),
    {
        let h = mem.hhdm_offset();
        if !mem.has_table(page_ptr) {
            return false;
        }
        let e4 = mem.read(page_ptr, entry_index(virt, 4));
        if !is_present(e4) {
            return true;
        }
        if is_huge_page(e4) {
            return false;
        }
        let t3 = advance_current_pagetable(e4, h);
        if !mem.has_table(t3) {
            return false;
        }
        let e3 = mem.read(t3, entry_index(virt, 3));
        if !is_present(e3) || is_huge_page(e3) {
            return true;
        }
        let t2 = advance_current_pagetable(e3, h);
        if !mem.has_table(t2) {
            return false;
        }
        let e2 = mem.read(t2, entry_index(virt, 2));
        if !is_present(e2) || is_huge_page(e2) {
            return true;
        }
        mem.has_table(advance_current_pagetable(e2, h))
    }

    /// Walk the page tables rooted at `page_ptr` and return the physical address mapped at
    /// `virt` together with the size of the page it lies in, or `None` if any level is not
    /// present.
    pub fn translate_with_size(mem: &PageTableMemory, page_ptr: u64, virt: u64) -> (r: Option<
        (u64, u64),
    >)
        requires
            mem.wf(),
            walk_ok(mem.tables(), mem.hhdm(), page_ptr, virt),
        ensures
            r == translation(mem.tables(), mem.hhdm(), page_ptr, virt),
    {
        let h = mem.hhdm_offset();
        let e4 = mem.read(page_ptr, entry_index(virt, 4));
        if !is_present(e4) {
            return None;
        }
        let t3 = advance_current_pagetable(e4, h);
        let e3 = mem.read(t3, entry_index(virt, 3));
        if !is_present(e3) {
            return None;
        }
        if is_huge_page(e3) {
            proof {
                lemma_offset_sum(e3, virt);
            }
            return Some(((e3 & ADDRESS_MASK) + (virt & 0x3fff_ffffu64), HUGE_PAGE_SIZE_1GIB));
        }
        let t2 = advance_current_pagetable(e3, h);
        let e2 = mem.read(t2, entry_index(virt, 2));
        if !is_present(e2) {
            return None;
        }
        if is_huge_page(e2) {
            proof {
                lemma_offset_sum(e2, virt);
            }
            return Some(((e2 & ADDRESS_MASK) + (virt & 0x1f_ffffu64), HUGE_PAGE_SIZE_2MIB));
        }
        let t1 = advance_current_pagetable(e2, h);
        let e1 = mem.read(t1, entry_index(virt, 1));
        if !is_present(e1) {
            return None;
        }
        proof {
            lemma_offset_sum(e1, virt);
        }
        Some(((e1 & ADDRESS_MASK) + (virt & 0xfffu64), 4096))
    }

    /// Walk the page tables rooted at `page_ptr` and return the physical address mapped at
    /// `virt`, or `None` if any level is not present.
    pub fn translate(mem: &PageTableMemory, page_ptr: u64, virt: u64) -> (r: Option<u64>)
        requires
            mem.wf(),
            walk_ok(mem.tables(), mem.hhdm(), page_ptr, virt),
        ensures
            r == (match translation(mem.tables(), mem.hhdm(), page_ptr, virt) {
                Some(t) => Some(t.0),
                None => None,
            }),
    {
        match Self::translate_with_size(mem, page_ptr, virt) {
            Some(t) => Some(t.0),
            None => None,
        }
    }

    /// Translate VMA flags to page table flags: always present, writable with `WRITE`,
    /// non-executable without `EXEC`, user-accessible with `USER` and global without it.
    pub fn vma_flags_to_page_flags(vma_flags: VmaFlags) -> (r: u64)
        ensures
            r == page_flags_for(vma_flags),
    {
        let mut flags = PRESENT;
        if vma_flags.contains(VmaFlags(2)) {
            flags = flags | WRITABLE;
        }
        if !vma_flags.contains(VmaFlags(4)) {
            flags = flags | NO_EXECUTE;
        }
        if vma_flags.contains(VmaFlags(8)) {
            flags = flags | USER_ACCESSIBLE;
        } else {
            flags = flags | GLOBAL;
        }
        proof {
            assert(forall|x: u64| #[trigger] (x | 0u64) == x) by (bit_vector);
        }
        flags
    }
}

/// Two entries that a walk cannot tell apart: both present or both not, both huge or both
/// not, with the same address.
pub open spec fn same_shape(a: u64, b: u64) -> bool {
    &&& present(a) == present(b)
    &&& huge(a) == huge(b)
    &&& entry_addr(a) == entry_addr(b)
}

/// Replacing one entry by one of the same shape changes no walk: every address translates
/// as before, and the same walks read existing tables only.
pub proof fn lemma_same_shape_write(
    m: Map<u64, Seq<u64>>,
    h: u64,
    t: u64,
    i: int,
    e: u64,
    root: u64,
    v: u64,
)
    requires
        m.contains_key(t),
        0 <= i < m[t].len(),
        same_shape(m[t][i], e),
    ensures
        ({
            let m2 = m.insert(t, m[t].update(i, e));
            &&& translation(m2, h, root, v) == translation(m, h, root, v)
            &&& walk_ok(m2, h, root, v) == walk_ok(m, h, root, v)
            &&& same_shape(pt_entry(m2, h, root, v), pt_entry(m, h, root, v))
            &&& same_shape(leaf_entry(m2, h, root, v), leaf_entry(m, h, root, v))
            &&& leaf_table(m2, h, root, v) == leaf_table(m, h, root, v)
            &&& leaf_index(m2, h, root, v) == leaf_index(m, h, root, v)
        }),
{
    let m2 = m.insert(t, m[t].update(i, e));
    assert forall|tt: u64, ii: int| same_shape(#[trigger] entry_at(m2, tt, ii), entry_at(m, tt, ii)) by {
        if tt == t && ii == i {
        } else {
            assert(entry_at(m2, tt, ii) == entry_at(m, tt, ii));
        }
    }
    assert(same_shape(pml4_entry(m2, root, v), pml4_entry(m, root, v)));
    assert(pdpt_table(m2, h, root, v) == pdpt_table(m, h, root, v));
    assert(same_shape(pdpt_entry(m2, h, root, v), pdpt_entry(m, h, root, v)));
    assert(pd_table(m2, h, root, v) == pd_table(m, h, root, v));
    assert(same_shape(pd_entry(m2, h, root, v), pd_entry(m, h, root, v)));
    assert(pt_table(m2, h, root, v) == pt_table(m, h, root, v));
    assert(same_shape(pt_entry(m2, h, root, v), pt_entry(m, h, root, v)));
}

/// [`lemma_same_shape_write`] for every address.
pub proof fn lemma_same_shape_write_all(m: Map<u64, Seq<u64>>, h: u64, t: u64, i: int, e: u64, root: u64)
    requires
        m.contains_key(t),
        0 <= i < m[t].len(),
        same_shape(m[t][i], e),
    ensures
        forall|w: u64| #[trigger]
            translation(m.insert(t, m[t].update(i, e)), h, root, w) == translation(m, h, root, w),
        forall|w: u64| #[trigger]
            walk_ok(m.insert(t, m[t].update(i, e)), h, root, w) == walk_ok(m, h, root, w),
        forall|w: u64|
            same_shape(
                #[trigger] pt_entry(m.insert(t, m[t].update(i, e)), h, root, w),
                pt_entry(m, h, root, w),
            ),
{
    assert forall|w: u64| #[trigger]
        translation(m.insert(t, m[t].update(i, e)), h, root, w) == translation(m, h, root, w) by {
        lemma_same_shape_write(m, h, t, i, e, root, w);
    }
    assert forall|w: u64| #[trigger]
        walk_ok(m.insert(t, m[t].update(i, e)), h, root, w) == walk_ok(m, h, root, w) by {
        lemma_same_shape_write(m, h, t, i, e, root, w);
    }
    assert forall|w: u64|
        same_shape(
            #[trigger] pt_entry(m.insert(t, m[t].update(i, e)), h, root, w),
            pt_entry(m, h, root, w),
        ) by {
        lemma_same_shape_write(m, h, t, i, e, root, w);
    }
}

/// Every walk through the tables rooted at `root` reads existing tables only, and no entry
/// that maps a 4 KiB page is marked huge.
pub open spec fn tables_ok(m: Map<u64, Seq<u64>>, h: u64, root: u64) -> bool {
    forall|v: u64|
        #![trigger walk_ok(m, h, root, v)]
        #![trigger translation(m, h, root, v)]
        walk_ok(m, h, root, v) && (translation(m, h, root, v) matches Some(t) && t.1 == 4096
            ==> !huge(pt_entry(m, h, root, v)))
}

/// Clearing one entry can only unmap: every address translates as before or not at all,
/// walks read no new tables, and an address still mapped uses the same page table entry.
pub proof fn lemma_clear_write(m: Map<u64, Seq<u64>>, h: u64, t: u64, i: int, root: u64, v: u64)
    requires
        m.contains_key(t),
        0 <= i < m[t].len(),
    ensures
        ({
            let m2 = m.insert(t, m[t].update(i, 0));
            &&& translation(m2, h, root, v) is None || translation(m2, h, root, v) == translation(
                m,
                h,
                root,
                v,
            )
            &&& walk_ok(m, h, root, v) ==> walk_ok(m2, h, root, v)
            &&& (translation(m2, h, root, v) matches Some(tt) && tt.1 == 4096) ==> pt_entry(
                m2,
                h,
                root,
                v,
            ) == pt_entry(m, h, root, v)
        }),
{
    let m2 = m.insert(t, m[t].update(i, 0));
    lemma_zero_entry();
    let i4 = table_index(v, 4);
    let i3 = table_index(v, 3);
    let i2 = table_index(v, 2);
    let i1 = table_index(v, 1);
    let t3 = pdpt_table(m, h, root, v);
    let t2 = pd_table(m, h, root, v);
    let t1 = pt_table(m, h, root, v);
    if root == t && i4 == i {
        assert(pml4_entry(m2, root, v) == 0);
    } else {
        assert(pml4_entry(m2, root, v) == pml4_entry(m, root, v));
        if t3 == t && i3 == i {
            assert(pdpt_entry(m2, h, root, v) == 0);
        } else {
            assert(pdpt_entry(m2, h, root, v) == pdpt_entry(m, h, root, v));
            if t2 == t && i2 == i {
                assert(pd_entry(m2, h, root, v) == 0);
            } else {
                assert(pd_entry(m2, h, root, v) == pd_entry(m, h, root, v));
                if t1 == t && i1 == i {
                    assert(pt_entry(m2, h, root, v) == 0);
                } else {
                    assert(pt_entry(m2, h, root, v) == pt_entry(m, h, root, v));
                }
            }
        }
    }
}

/// The walk for `v` reads entry `i` of table `t`.
pub open spec fn walk_reads(m: Map<u64, Seq<u64>>, h: u64, root: u64, v: u64, t: u64, i: int) -> bool {
    let e4 = pml4_entry(m, root, v);
    let e3 = pdpt_entry(m, h, root, v);
    let e2 = pd_entry(m, h, root, v);
    ||| t == root && i == table_index(v, 4)
    ||| present(e4) && t == pdpt_table(m, h, root, v) && i == table_index(v, 3)
    ||| present(e4) && present(e3) && !huge(e3) && t == pd_table(m, h, root, v) && i
        == table_index(v, 2)
    ||| present(e4) && present(e3) && !huge(e3) && present(e2) && !huge(e2) && t == pt_table(
        m,
        h,
        root,
        v,
    ) && i == table_index(v, 1)
}

/// Writing an entry that the walk for `v` does not read leaves what `v` translates to as it
/// was.
pub proof fn lemma_write_outside_walk(
    m: Map<u64, Seq<u64>>,
    h: u64,
    t: u64,
    i: int,
    e: u64,
    root: u64,
    v: u64,
)
    requires
        m.contains_key(t),
        0 <= i < m[t].len(),
        !walk_reads(m, h, root, v, t, i),
    ensures
        translation(m.insert(t, m[t].update(i, e)), h, root, v) == translation(m, h, root, v),
{
    let m2 = m.insert(t, m[t].update(i, e));
    assert forall|tt: u64, ii: int| (tt != t || ii != i) implies #[trigger] entry_at(m2, tt, ii)
        == entry_at(m, tt, ii) by {
        if tt == t {
            assert(m2[tt] == m[t].update(i, e));
        }
    }
    assert(pml4_entry(m2, root, v) == pml4_entry(m, root, v));
    if present(pml4_entry(m, root, v)) {
        assert(pdpt_entry(m2, h, root, v) == pdpt_entry(m, h, root, v));
        if present(pdpt_entry(m, h, root, v)) && !huge(pdpt_entry(m, h, root, v)) {
            assert(pd_entry(m2, h, root, v) == pd_entry(m, h, root, v));
            if present(pd_entry(m, h, root, v)) && !huge(pd_entry(m, h, root, v)) {
                assert(pt_entry(m2, h, root, v) == pt_entry(m, h, root, v));
            }
        }
    }
}

/// [`lemma_write_outside_walk`] for every address.
pub proof fn lemma_write_outside_walk_all(m: Map<u64, Seq<u64>>, h: u64, t: u64, i: int, e: u64, root: u64)
    requires
        m.contains_key(t),
        0 <= i < m[t].len(),
    ensures
        forall|w: u64|
            !walk_reads(m, h, root, w, t, i) ==> #[trigger] translation(
                m.insert(t, m[t].update(i, e)),
                h,
                root,
                w,
            ) == translation(m, h, root, w),
{
    assert forall|w: u64| !walk_reads(m, h, root, w, t, i) implies #[trigger] translation(
        m.insert(t, m[t].update(i, e)),
        h,
        root,
        w,
    ) == translation(m, h, root, w) by {
        lemma_write_outside_walk(m, h, t, i, e, root, w);
    }
}

/// Every entry of the tables of `m`, except entry `i` of table `t`, reads the same in `m2`.
pub open spec fn agree_except(m: Map<u64, Seq<u64>>, m2: Map<u64, Seq<u64>>, t: u64, i: int) -> bool {
    forall|tt: u64, ii: int|
        #![trigger entry_at(m2, tt, ii)]
        m.contains_key(tt) && !(tt == t && ii == i) ==> entry_at(m2, tt, ii) == entry_at(m, tt, ii)
}

/// Where the tables agree on every entry but one that the walk for `v` does not read, `v`
/// translates the same in both.
pub proof fn lemma_agree_except_translation(
    m: Map<u64, Seq<u64>>,
    m2: Map<u64, Seq<u64>>,
    h: u64,
    root: u64,
    t: u64,
    i: int,
    v: u64,
)
    requires
        agree_except(m, m2, t, i),
        walk_ok(m, h, root, v),
        !walk_reads(m, h, root, v, t, i),
    ensures
        translation(m2, h, root, v) == translation(m, h, root, v),
{
    assert(pml4_entry(m2, root, v) == pml4_entry(m, root, v));
    if present(pml4_entry(m, root, v)) {
        assert(pdpt_entry(m2, h, root, v) == pdpt_entry(m, h, root, v));
        if present(pdpt_entry(m, h, root, v)) && !huge(pdpt_entry(m, h, root, v)) {
            assert(pd_entry(m2, h, root, v) == pd_entry(m, h, root, v));
            if present(pd_entry(m, h, root, v)) && !huge(pd_entry(m, h, root, v)) {
                assert(pt_entry(m2, h, root, v) == pt_entry(m, h, root, v));
            }
        }
    }
}

/// A translated address lies well below the top of `u64`.
pub proof fn lemma_translation_bound(m: Map<u64, Seq<u64>>, h: u64, root: u64, v: u64)
    requires
        translation(m, h, root, v) is Some,
    ensures
        translation(m, h, root, v).unwrap().0 < 0x0010_0000_4000_0000,
{
    lemma_offset_sum(pdpt_entry(m, h, root, v), v);
    lemma_offset_sum(pd_entry(m, h, root, v), v);
    lemma_offset_sum(pt_entry(m, h, root, v), v);
}

} // verus!
