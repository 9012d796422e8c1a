//! Root tables: the kernel's own, and those of user address spaces.

use crate::mm::address_space::AddressSpace;
use crate::mm::free_lists::free_bytes;
use crate::mm::pmm::Pmm;
use crate::mm::vma::Vma;
use crate::mm::vmm::Vmm;
use super::entry::{ENTRIES, huge, lemma_table_index_bound, lemma_zero_entry, present, table_index};
use super::map::{alloc_zeroed_frame, frames_owned, out_of_frames};
use super::memory::{PageTableMemory, zero_table};
use super::sound::{lemma_sound_new_root, lemma_walk_levels, sound_with, tables_sound};
use super::walk::{pd_entry, pd_table, pdpt_entry, pdpt_table, pml4_entry, pt_entry, pt_table, translation};
use vstd::prelude::*;

verus! {

/// A root table that maps what `t` maps in the higher half (entries 256 to 511) and nothing
/// in the lower half.
pub open spec fn kernel_half(t: Seq<u64>) -> Seq<u64> {
    Seq::new(512, |i: int| if i < 256 { 0u64 } else { t[i] })
}

/// A root table built from `t` holds `t`'s entries at the PML4 indices 256 to 511, which
/// translate the addresses from `0xffff_8000_0000_0000` up, and no entry below index 256.
pub proof fn law_kernel_half_entries(t: Seq<u64>)
    requires
        t.len() == 512,
    ensures
        kernel_half(t).len() == 512,
        forall|i: int| 256 <= i < 512 ==> #[trigger] kernel_half(t)[i] == t[i],
        forall|i: int| 0 <= i < 256 ==> #[trigger] kernel_half(t)[i] == 0,
        forall|v: u64|
            v >= 0xffff_8000_0000_0000 ==> 256 <= #[trigger] table_index(v, 4) < 512,
        forall|v: u64| v < 0x0000_8000_0000_0000 ==> 0 <= #[trigger] table_index(v, 4) < 256,
{
    assert forall|v: u64| v >= 0xffff_8000_0000_0000 implies 256 <= #[trigger] table_index(v, 4) < 512 by {
        assert(v >= 0xffff_8000_0000_0000u64 ==> (v >> 39u64) & 0x1ffu64 >= 256 && (v >> 39u64)
            & 0x1ffu64 < 512) by (bit_vector);
    }
    assert forall|v: u64| v < 0x0000_8000_0000_0000 implies 0 <= #[trigger] table_index(v, 4) < 256 by {
        assert(v < 0x0000_8000_0000_0000u64 ==> (v >> 39u64) & 0x1ffu64 < 256) by (bit_vector);
    }
}

/// Where the tables from `src` form a four-level hierarchy, a new root table built from
/// `src` translates every address from `0xffff_8000_0000_0000` up as `src` does, and no
/// address below `0x0000_8000_0000_0000`.
pub proof fn law_new_root_translation(m: Map<u64, Seq<u64>>, h: u64, src: u64, root: u64, v: u64)
    requires
        tables_sound(m, h, src),
        !m.contains_key(root),
        m[src].len() == 512,
    ensures
        v >= 0xffff_8000_0000_0000 ==> translation(m.insert(root, kernel_half(m[src])), h, root, v)
            == translation(m, h, src, v),
        v < 0x0000_8000_0000_0000 ==> translation(m.insert(root, kernel_half(m[src])), h, root, v)
            is None,
{
    let m2 = m.insert(root, kernel_half(m[src]));
    let lv = choose|lv: Map<u64, int>| sound_with(m, h, src, lv);
    law_kernel_half_entries(m[src]);
    lemma_walk_levels(m, h, src, lv, v);
    lemma_table_index_bound(v);
    lemma_zero_entry();
    if v >= 0xffff_8000_0000_0000 {
        assert(pml4_entry(m2, root, v) == pml4_entry(m, src, v));
        if present(pml4_entry(m, src, v)) {
            let t3 = pdpt_table(m, h, src, v);
            assert(m.contains_key(t3) && t3 != root);
            assert(pdpt_entry(m2, h, root, v) == pdpt_entry(m, h, src, v));
            if present(pdpt_entry(m, h, src, v)) && !huge(pdpt_entry(m, h, src, v)) {
                let t2 = pd_table(m, h, src, v);
                assert(m.contains_key(t2) && t2 != root);
                assert(pd_entry(m2, h, root, v) == pd_entry(m, h, src, v));
                if present(pd_entry(m, h, src, v)) && !huge(pd_entry(m, h, src, v)) {
                    let t1 = pt_table(m, h, src, v);
                    assert(m.contains_key(t1) && t1 != root);
                    assert(pt_entry(m2, h, root, v) == pt_entry(m, h, src, v));
                }
            }
        }
    }
    if v < 0x0000_8000_0000_0000 {
        assert(pml4_entry(m2, root, v) == 0);
    }
}

/// Allocate a frame for a new root table and copy the higher-half entries of the table at
/// `src_root` into it, the lower half empty. Returns the new table's address, or `None` if
/// the PMM is out of memory.
fn new_root_table(pmm: &mut Pmm, mem: &mut PageTableMemory, src_root: u64) -> (r: Option<u64>)
    requires
        old(pmm).wf(),
        old(mem).wf(),
        frames_owned(old(mem).tables(), old(mem).hhdm(), old(pmm)@),
        old(mem).tables().contains_key(src_root),
    ensures
        final(pmm).wf(),
        final(mem).wf(),
        final(mem).hhdm() == old(mem).hhdm(),
        frames_owned(final(mem).tables(), final(mem).hhdm(), final(pmm)@),
        r is None <==> out_of_frames(old(pmm)@),
        r is None ==> final(pmm)@ == old(pmm)@ && final(mem).tables() == old(mem).tables(),
        r matches Some(root) ==> {
            &&& !old(mem).tables().contains_key(root)
            &&& final(mem).tables() == old(mem).tables().insert(
                root,
                kernel_half(old(mem).tables()[src_root]),
            )
            &&& free_bytes(final(pmm)@) == free_bytes(old(pmm)@) - 4096
            &&& tables_sound(old(mem).tables(), old(mem).hhdm(), src_root) ==> tables_sound(
                final(mem).tables(),
                final(mem).hhdm(),
                root,
            )
        },
{
    let h = mem.hhdm_offset();
    let a = match alloc_zeroed_frame(pmm, mem) {
        Some(a) => a,
        None => {
            return None;
        },
    };
    let root = a + h;
    let ghost m1 = mem.tables();
    proof {
        assert(zero_table() =~= Seq::new(
            512,
            |j: int| if 256 <= j < 256 { old(mem).tables()[src_root][j] } else { 0u64 },
        ));
        assert(m1 =~= m1.insert(
            root,
            Seq::new(512, |j: int| if 256 <= j < 256 { old(mem).tables()[src_root][j] } else { 0u64 }),
        ));
    }
    let mut i: usize = 256;
    while i < ENTRIES
        invariant
            mem.wf(),
            mem.hhdm() == h,
            frames_owned(mem.tables(), h, pmm@),
            m1 == old(mem).tables().insert(root, zero_table()),
            !old(mem).tables().contains_key(root),
            old(mem).tables().contains_key(src_root),
            256 <= i <= ENTRIES,
            mem.tables() == m1.insert(
                root,
                Seq::new(512, |j: int| if 256 <= j < i { old(mem).tables()[src_root][j] } else { 0u64 }),
            ),
        decreases ENTRIES - i,
    {
        let e = mem.read(src_root, i);
        mem.write(root, i, e);
        proof {
            assert(mem.tables()[root] =~= Seq::new(
                512,
                |j: int| if 256 <= j < i + 1 { old(mem).tables()[src_root][j] } else { 0u64 },
            ));
            assert(mem.tables() =~= m1.insert(
                root,
                Seq::new(512, |j: int| if 256 <= j < i + 1 { old(mem).tables()[src_root][j] } else { 0u64 }),
            ));
        }
        i += 1;
    }
    proof {
        assert(mem.tables()[root] =~= kernel_half(old(mem).tables()[src_root]));
        assert(mem.tables() =~= old(mem).tables().insert(root, kernel_half(old(mem).tables()[src_root])));
        if tables_sound(old(mem).tables(), h, src_root) {
            let lv = choose|lv: Map<u64, int>| sound_with(old(mem).tables(), h, src_root, lv);
            lemma_sound_new_root(old(mem).tables(), h, src_root, lv, root);
        }
    }
    Some(root)
}

impl Vmm {
    /// Build the kernel's own root table: a fresh table with the higher-half entries of the
    /// bootloader's root table at `boot_root`. Returns its address (which the caller loads
    /// into CR3), or `None` if the PMM is out of memory.
    pub fn setup_kernel_paging(pmm: &mut Pmm, mem: &mut PageTableMemory, boot_root: u64) -> (r: Option<u64>)
        requires
            old(pmm).wf(),
            old(mem).wf(),
            frames_owned(old(mem).tables(), old(mem).hhdm(), old(pmm)@),
            old(mem).tables().contains_key(boot_root),
        ensures
            final(pmm).wf(),
            final(mem).wf(),
            final(mem).hhdm() == old(mem).hhdm(),
            frames_owned(final(mem).tables(), final(mem).hhdm(), final(pmm)@),
            r is None <==> out_of_frames(old(pmm)@),
            r is None ==> final(pmm)@ == old(pmm)@ && final(mem).tables() == old(mem).tables(),
            r matches Some(root) ==> {
                &&& !old(mem).tables().contains_key(root)
                &&& final(mem).tables() == old(mem).tables().insert(
                    root,
                    kernel_half(old(mem).tables()[boot_root]),
                )
                &&& tables_sound(old(mem).tables(), old(mem).hhdm(), boot_root) ==> tables_sound(
                    final(mem).tables(),
                    final(mem).hhdm(),
                    root,
                )
            },
    {
        new_root_table(pmm, mem, boot_root)
    }
}

impl AddressSpace {
    /// Create the address space of a user process: a fresh root table that shares the
    /// kernel's higher-half mappings (those of the root table at `kernel_root`), and no
    /// VMAs. Returns `None` if the PMM is out of memory.
    pub fn new_user_addr_space(pmm: &mut Pmm, mem: &mut PageTableMemory, kernel_root: u64) -> (r:
        Option<AddressSpace>)
        requires
            old(pmm).wf(),
            old(mem).wf(),
            frames_owned(old(mem).tables(), old(mem).hhdm(), old(pmm)@),
            old(mem).tables().contains_key(kernel_root),
        ensures
            final(pmm).wf(),
            final(mem).wf(),
            final(mem).hhdm() == old(mem).hhdm(),
            frames_owned(final(mem).tables(), final(mem).hhdm(), final(pmm)@),
            r is None <==> out_of_frames(old(pmm)@),
            r is None ==> final(pmm)@ == old(pmm)@ && final(mem).tables() == old(mem).tables(),
            r matches Some(a) ==> {
                &&& a.wf()
                &&& a@ == Seq::<Vma>::empty()
                &&& !old(mem).tables().contains_key(a.root())
                &&& final(mem).tables() == old(mem).tables().insert(
                    a.root(),
                    kernel_half(old(mem).tables()[kernel_root]),
                )
                &&& tables_sound(old(mem).tables(), old(mem).hhdm(), kernel_root) ==> tables_sound(
                    final(mem).tables(),
                    final(mem).hhdm(),
                    a.root(),
                )
            },
    {
        match new_root_table(pmm, mem, kernel_root) {
            Some(root) => Some(AddressSpace::empty(root)),
            None => None,
        }
    }
}

} // verus!
