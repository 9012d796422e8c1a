//! Changing the mapping of one page: unmapping and remapping.

use crate::mm::vmm::Vmm;
use super::entry::{ADDRESS_MASK, HUGE_PAGE, PRESENT, advance_current_pagetable, entry_addr, entry_index, huge, is_huge_page, is_present, lemma_zero_entry, present};
use super::memory::PageTableMemory;
use super::sound::{lemma_sound_leaf_write, sound_with, tables_sound};
use super::walk::{leaf_entry, leaf_index, leaf_table, lemma_same_shape_write_all, lemma_write_outside_walk_all, pd_entry, pdpt_entry, pml4_entry, pt_entry, same_shape, translation, walk_ok, walk_reads};
use vstd::prelude::*;

verus! {

/// The entry `remap_page` writes over entry `e`: same address, the new flags, present, and
/// still huge if it maps a huge page.
pub open spec fn remapped_entry(e: u64, new_flags: u64, huge_page: bool) -> u64 {
    if huge_page {
        entry_addr(e) | new_flags | PRESENT | HUGE_PAGE
    } else {
        entry_addr(e) | new_flags | PRESENT
    }
}

/// What a remapped entry keeps and what it gets.
pub(crate) proof fn lemma_remapped_entry(e: u64, f: u64)
    requires
        f & ADDRESS_MASK == 0,
    ensures
        entry_addr(remapped_entry(e, f, true)) == entry_addr(e),
        present(remapped_entry(e, f, true)),
        huge(remapped_entry(e, f, true)),
        entry_addr(remapped_entry(e, f, false)) == entry_addr(e),
        present(remapped_entry(e, f, false)),
        f & HUGE_PAGE == 0 ==> !huge(remapped_entry(e, f, false)),
{
    assert(f & 0x000f_ffff_ffff_f000u64 == 0 ==> ((e & 0x000f_ffff_ffff_f000u64) | f | 1u64
        | 0x80u64) & 0x000f_ffff_ffff_f000u64 == e & 0x000f_ffff_ffff_f000u64 && ((e
        & 0x000f_ffff_ffff_f000u64) | f | 1u64 | 0x80u64) & 1u64 != 0 && ((e
        & 0x000f_ffff_ffff_f000u64) | f | 1u64 | 0x80u64) & 0x80u64 != 0 && ((e
        & 0x000f_ffff_ffff_f000u64) | f | 1u64) & 0x000f_ffff_ffff_f000u64 == e
        & 0x000f_ffff_ffff_f000u64 && ((e & 0x000f_ffff_ffff_f000u64) | f | 1u64) & 1u64 != 0
        && (f & 0x80u64 == 0 ==> ((e & 0x000f_ffff_ffff_f000u64) | f | 1u64) & 0x80u64 == 0))
        by (bit_vector);
}

impl Vmm {
    /// Unmap the page that maps `virt`: clear the entry the walk ends at. The page must be
    /// mapped: unmapping a page that never was is a kernel bug, on which the kernel panics
    /// before calling this.
    pub fn unmap_page(mem: &mut PageTableMemory, page_ptr: u64, virt: u64)
        requires
            old(mem).wf(),
            virt % 4096 == 0,
            walk_ok(old(mem).tables(), old(mem).hhdm(), page_ptr, virt),
            translation(old(mem).tables(), old(mem).hhdm(), page_ptr, virt) is Some,
        ensures
            final(mem).wf(),
            final(mem).hhdm() == old(mem).hhdm(),
            final(mem).tables() == old(mem).tables().insert(
                leaf_table(old(mem).tables(), old(mem).hhdm(), page_ptr, virt),
                old(mem).tables()[leaf_table(
                    old(mem).tables(),
                    old(mem).hhdm(),
                    page_ptr,
                    virt,
                )].update(leaf_index(old(mem).tables(), old(mem).hhdm(), page_ptr, virt), 0),
            ),
            translation(final(mem).tables(), final(mem).hhdm(), page_ptr, virt) is None,
            forall|w: u64|
                !walk_reads(
                    old(mem).tables(),
                    old(mem).hhdm(),
                    page_ptr,
                    w,
                    leaf_table(old(mem).tables(), old(mem).hhdm(), page_ptr, virt),
                    leaf_index(old(mem).tables(), old(mem).hhdm(), page_ptr, virt),
                ) ==> #[trigger] translation(final(mem).tables(), final(mem).hhdm(), page_ptr, w)
                    == translation(old(mem).tables(), old(mem).hhdm(), page_ptr, w),
            tables_sound(old(mem).tables(), old(mem).hhdm(), page_ptr) ==> tables_sound(
                final(mem).tables(),
                final(mem).hhdm(),
                page_ptr,
            ),
    {
        let ghost m_in = mem.tables();
        let h = mem.hhdm_offset();
        let i4 = entry_index(virt, 4);
        let e4 = mem.read(page_ptr, i4);
        if !is_present(e4) {
            return;
        }
        let t3 = advance_current_pagetable(e4, h);
        let i3 = entry_index(virt, 3);
        let e3 = mem.read(t3, i3);
        if !is_present(e3) {
            return;
        }
        if is_huge_page(e3) {
            mem.write(t3, i3, 0);
            proof {
                lemma_write_outside_walk_all(m_in, h, t3, i3 as int, 0, page_ptr);
                if tables_sound(m_in, h, page_ptr) {
                    let lv = choose|lv: Map<u64, int>| sound_with(m_in, h, page_ptr, lv);
                    lemma_sound_leaf_write(m_in, h, page_ptr, lv, virt, 0);
                }
            }
            proof {
                lemma_zero_entry();
                let m = mem.tables();
                if page_ptr == t3 && i4 == i3 {
                    assert(pml4_entry(m, page_ptr, virt) == 0);
                } else {
                    assert(pml4_entry(m, page_ptr, virt) == e4);
                    assert(pdpt_entry(m, h, page_ptr, virt) == 0);
                }
            }
            return;
        }
        let t2 = advance_current_pagetable(e3, h);
        let i2 = entry_index(virt, 2);
        let e2 = mem.read(t2, i2);
        if !is_present(e2) {
            return;
        }
        if is_huge_page(e2) {
            mem.write(t2, i2, 0);
            proof {
                lemma_write_outside_walk_all(m_in, h, t2, i2 as int, 0, page_ptr);
                if tables_sound(m_in, h, page_ptr) {
                    let lv = choose|lv: Map<u64, int>| sound_with(m_in, h, page_ptr, lv);
                    lemma_sound_leaf_write(m_in, h, page_ptr, lv, virt, 0);
                }
            }
            proof {
                lemma_zero_entry();
                let m = mem.tables();
                if page_ptr == t2 && i4 == i2 {
                    assert(pml4_entry(m, page_ptr, virt) == 0);
                } else if t3 == t2 && i3 == i2 {
                    assert(pml4_entry(m, page_ptr, virt) == e4);
                    assert(pdpt_entry(m, h, page_ptr, virt) == 0);
                } else {
                    assert(pml4_entry(m, page_ptr, virt) == e4);
                    assert(pdpt_entry(m, h, page_ptr, virt) == e3);
                    assert(pd_entry(m, h, page_ptr, virt) == 0);
                }
            }
            return;
        }
        let t1 = advance_current_pagetable(e2, h);
        let i1 = entry_index(virt, 1);
        let e1 = mem.read(t1, i1);
        if !is_present(e1) {
            return;
        }
        mem.write(t1, i1, 0);
        proof {
            lemma_write_outside_walk_all(m_in, h, t1, i1 as int, 0, page_ptr);
            if tables_sound(m_in, h, page_ptr) {
                let lv = choose|lv: Map<u64, int>| sound_with(m_in, h, page_ptr, lv);
                lemma_sound_leaf_write(m_in, h, page_ptr, lv, virt, 0);
            }
        }
        proof {
            lemma_zero_entry();
            let m = mem.tables();
            if page_ptr == t1 && i4 == i1 {
                assert(pml4_entry(m, page_ptr, virt) == 0);
            } else if t3 == t1 && i3 == i1 {
                assert(pml4_entry(m, page_ptr, virt) == e4);
                assert(pdpt_entry(m, h, page_ptr, virt) == 0);
            } else if t2 == t1 && i2 == i1 {
                assert(pml4_entry(m, page_ptr, virt) == e4);
                assert(pdpt_entry(m, h, page_ptr, virt) == e3);
                assert(pd_entry(m, h, page_ptr, virt) == 0);
            } else {
                assert(pml4_entry(m, page_ptr, virt) == e4);
                assert(pdpt_entry(m, h, page_ptr, virt) == e3);
                assert(pd_entry(m, h, page_ptr, virt) == e2);
                assert(pt_entry(m, h, page_ptr, virt) == 0);
            }
        }

    }

    /// Change the flags of the page that maps `virt`, keeping its address: the entry the walk
    /// ends at gets `new_flags`, `PRESENT`, and `HUGE_PAGE` if it maps a huge page. The page
    /// must be mapped: remapping a page that never was is a kernel bug, on which the kernel
    /// panics before calling this.
    pub fn remap_page(mem: &mut PageTableMemory, page_ptr: u64, virt: u64, new_flags: u64)
        requires
            old(mem).wf(),
            virt % 4096 == 0,
            walk_ok(old(mem).tables(), old(mem).hhdm(), page_ptr, virt),
            translation(old(mem).tables(), old(mem).hhdm(), page_ptr, virt) is Some,
            new_flags & ADDRESS_MASK == 0,
            translation(old(mem).tables(), old(mem).hhdm(), page_ptr, virt) matches Some(t) && t.1
                == 4096 ==> new_flags & HUGE_PAGE == 0 && !huge(
                pt_entry(old(mem).tables(), old(mem).hhdm(), page_ptr, virt),
            ),
        ensures
            final(mem).wf(),
            final(mem).hhdm() == old(mem).hhdm(),
            final(mem).tables() == old(mem).tables().insert(
                leaf_table(old(mem).tables(), old(mem).hhdm(), page_ptr, virt),
                old(mem).tables()[leaf_table(
                    old(mem).tables(),
                    old(mem).hhdm(),
                    page_ptr,
                    virt,
                )].update(
                    leaf_index(old(mem).tables(), old(mem).hhdm(), page_ptr, virt),
                    remapped_entry(
                        leaf_entry(old(mem).tables(), old(mem).hhdm(), page_ptr, virt),
                        new_flags,
                        translation(old(mem).tables(), old(mem).hhdm(), page_ptr, virt).unwrap().1 != 4096,
                    ),
                ),
            ),
            forall|w: u64| #[trigger]
                translation(final(mem).tables(), final(mem).hhdm(), page_ptr, w) == translation(
                    old(mem).tables(),
                    old(mem).hhdm(),
                    page_ptr,
                    w,
                ),
            forall|w: u64| #[trigger]
                walk_ok(final(mem).tables(), final(mem).hhdm(), page_ptr, w) == walk_ok(
                    old(mem).tables(),
                    old(mem).hhdm(),
                    page_ptr,
                    w,
                ),
            forall|w: u64|
                same_shape(
                    #[trigger] pt_entry(final(mem).tables(), final(mem).hhdm(), page_ptr, w),
                    pt_entry(old(mem).tables(), old(mem).hhdm(), page_ptr, w),
                ),
            tables_sound(old(mem).tables(), old(mem).hhdm(), page_ptr) ==> tables_sound(
                final(mem).tables(),
                final(mem).hhdm(),
                page_ptr,
            ),
    {
        let h = mem.hhdm_offset();
        let i4 = entry_index(virt, 4);
        let e4 = mem.read(page_ptr, i4);
        if !is_present(e4) {
            return;
        }
        let t3 = advance_current_pagetable(e4, h);
        let i3 = entry_index(virt, 3);
        let e3 = mem.read(t3, i3);
        if !is_present(e3) {
            return;
        }
        if is_huge_page(e3) {
            proof {
                lemma_remapped_entry(e3, new_flags);
            }
            let ghost m0 = mem.tables();
            mem.write(t3, i3, (e3 & ADDRESS_MASK) | new_flags | PRESENT | HUGE_PAGE);
            proof {
                lemma_same_shape_write_all(m0, h, t3, i3 as int, (e3 & ADDRESS_MASK) | new_flags | PRESENT | HUGE_PAGE, page_ptr);
                if tables_sound(m0, h, page_ptr) {
                    let lv = choose|lv: Map<u64, int>| sound_with(m0, h, page_ptr, lv);
                    lemma_sound_leaf_write(m0, h, page_ptr, lv, virt, (e3 & ADDRESS_MASK) | new_flags | PRESENT | HUGE_PAGE);
                }
            }
            return;
        }
        let t2 = advance_current_pagetable(e3, h);
        let i2 = entry_index(virt, 2);
        let e2 = mem.read(t2, i2);
        if !is_present(e2) {
            return;
        }
        if is_huge_page(e2) {
            proof {
                lemma_remapped_entry(e2, new_flags);
            }
            let ghost m0 = mem.tables();
            mem.write(t2, i2, (e2 & ADDRESS_MASK) | new_flags | PRESENT | HUGE_PAGE);
            proof {
                lemma_same_shape_write_all(m0, h, t2, i2 as int, (e2 & ADDRESS_MASK) | new_flags | PRESENT | HUGE_PAGE, page_ptr);
                if tables_sound(m0, h, page_ptr) {
                    let lv = choose|lv: Map<u64, int>| sound_with(m0, h, page_ptr, lv);
                    lemma_sound_leaf_write(m0, h, page_ptr, lv, virt, (e2 & ADDRESS_MASK) | new_flags | PRESENT | HUGE_PAGE);
                }
            }
            return;
        }
        let t1 = advance_current_pagetable(e2, h);
        let i1 = entry_index(virt, 1);
        let e1 = mem.read(t1, i1);
        if !is_present(e1) {
            return;
        }
        proof {
            lemma_remapped_entry(e1, new_flags);
        }
        let ghost m0 = mem.tables();
        mem.write(t1, i1, (e1 & ADDRESS_MASK) | new_flags | PRESENT);
        proof {
            lemma_same_shape_write_all(m0, h, t1, i1 as int, (e1 & ADDRESS_MASK) | new_flags | PRESENT, page_ptr);
            if tables_sound(m0, h, page_ptr) {
                let lv = choose|lv: Map<u64, int>| sound_with(m0, h, page_ptr, lv);
                lemma_sound_leaf_write(m0, h, page_ptr, lv, virt, (e1 & ADDRESS_MASK) | new_flags | PRESENT);
            }
        }

    }
}

} // verus!
