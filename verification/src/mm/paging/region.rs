//! Unmapping and remapping all pages of a memory area.

use crate::mm::address_space::{AddressSpace, insert_outcome, lemma_areas_unique};
use crate::mm::free_lists::{block_is_used, in_block, is_free};
use crate::mm::pmm::Pmm;
use crate::mm::vma::{Vma, VmaFlags};
use crate::mm::vmm::{Vmm, VmmError};
use super::entry::{ADDRESS_MASK, ENTRIES, GLOBAL, HUGE_PAGE, NO_EXECUTE, PHYS_LIMIT, USER_ACCESSIBLE, WRITABLE, huge, present, lemma_entry_addr_bound, lemma_table_index_bound};
use super::map::frames_owned;
use super::memory::PageTableMemory;
use super::sound::tables_sound;
use super::page::{lemma_remapped_entry, remapped_entry};
use super::walk::{leaf_entry, leaf_index, leaf_table, lemma_clear_write, lemma_same_shape_write, pml4_entry, lemma_offset_sum, page_flags_for, pd_entry, pdpt_entry, pt_entry, same_shape, tables_ok, translation, walk_ok};
use vstd::prelude::*;

verus! {

/// The page table flags of any VMA flags hold no address bits and no `HUGE_PAGE`.
proof fn lemma_page_flags_bits(f: VmaFlags)
    ensures
        page_flags_for(f) & ADDRESS_MASK == 0,
        page_flags_for(f) & HUGE_PAGE == 0,
{
    let a: u64 = if f.has(VmaFlags(2)) { WRITABLE } else { 0 };
    let b: u64 = if f.has(VmaFlags(4)) { 0 } else { NO_EXECUTE };
    let c: u64 = if f.has(VmaFlags(8)) { USER_ACCESSIBLE } else { GLOBAL };
    assert((a == 0 || a == 2) && (b == 0 || b == 0x8000_0000_0000_0000u64) && (c == 4 || c
        == 0x100) ==> (1u64 | a | b | c) & 0x000f_ffff_ffff_f000u64 == 0 && (1u64 | a | b | c)
        & 0x80u64 == 0) by (bit_vector);
}

/// The entry `remap_region` makes of a leaf entry `e`: its address, the new flags `f`,
/// present, and huge if it was.
pub open spec fn remap_leaf(e: u64, f: u64) -> u64 {
    remapped_entry(e, f, huge(e))
}

/// Remapping is the same when done twice, and keeps an entry's shape.
proof fn lemma_remap_leaf(e: u64, f: u64)
    requires
        f & ADDRESS_MASK == 0,
        f & HUGE_PAGE == 0,
        present(e),
    ensures
        remap_leaf(remap_leaf(e, f), f) == remap_leaf(e, f),
        same_shape(e, remap_leaf(e, f)),
{
    lemma_remapped_entry(e, f);
    lemma_remapped_entry(remap_leaf(e, f), f);
}

/// Every address mapped in `m0` reads its leaf entry at the same place in `m`, where it is
/// the old entry or its remapped form.
#[verifier::opaque]
spec fn leaves_track(m0: Map<u64, Seq<u64>>, m: Map<u64, Seq<u64>>, h: u64, root: u64, f: u64) -> bool {
    forall|u: u64|
        #![trigger translation(m0, h, root, u)]
        translation(m0, h, root, u) is Some ==> {
            &&& leaf_table(m, h, root, u) == leaf_table(m0, h, root, u)
            &&& leaf_index(m, h, root, u) == leaf_index(m0, h, root, u)
            &&& (leaf_entry(m, h, root, u) == leaf_entry(m0, h, root, u) || leaf_entry(m, h, root, u)
                == remap_leaf(leaf_entry(m0, h, root, u), f))
        }
}

/// [`leaves_track`] from its statement.
proof fn lemma_track_intro(m0: Map<u64, Seq<u64>>, m: Map<u64, Seq<u64>>, h: u64, root: u64, f: u64)
    requires
        forall|u: u64|
            #![trigger translation(m0, h, root, u)]
            translation(m0, h, root, u) is Some ==> {
                &&& leaf_table(m, h, root, u) == leaf_table(m0, h, root, u)
                &&& leaf_index(m, h, root, u) == leaf_index(m0, h, root, u)
                &&& (leaf_entry(m, h, root, u) == leaf_entry(m0, h, root, u) || leaf_entry(m, h, root, u)
                    == remap_leaf(leaf_entry(m0, h, root, u), f))
            },
    ensures
        leaves_track(m0, m, h, root, f),
{
    reveal(leaves_track);
}

/// Every 4 KiB-aligned address in `[lo, hi)` mapped in `m0` has its leaf entry remapped in `m`.
#[verifier::opaque]
spec fn leaves_remapped(m0: Map<u64, Seq<u64>>, m: Map<u64, Seq<u64>>, h: u64, root: u64, f: u64, lo: int, hi: int) -> bool {
    forall|u: u64|
        #![trigger leaf_entry(m, h, root, u)]
        lo <= u < hi && u % 4096 == 0 && translation(m0, h, root, u) is Some ==> leaf_entry(m, h, root, u)
            == remap_leaf(leaf_entry(m0, h, root, u), f)
}

/// The page that maps `v`, of size `s`, ends at `v - v % s + s`; addresses before that end in
/// it read the same entries down to the one that maps it.
proof fn lemma_same_huge_walk(m: Map<u64, Seq<u64>>, h: u64, root: u64, v: u64, u: u64)
    requires
        translation(m, h, root, v) matches Some(t) && t.1 != 4096 && v - v % t.1 <= u < v - v % t.1 + t.1,
    ensures
        leaf_table(m, h, root, u) == leaf_table(m, h, root, v),
        leaf_index(m, h, root, u) == leaf_index(m, h, root, v),
        translation(m, h, root, u) is Some,
{
    let s = translation(m, h, root, v).unwrap().1;
    if s == 0x4000_0000 {
        assert(v - v % 0x4000_0000u64 <= u < v - v % 0x4000_0000u64 + 0x4000_0000u64 ==> (u >> 39u64) & 0x1ffu64
            == (v >> 39u64) & 0x1ffu64 && (u >> 30u64) & 0x1ffu64 == (v >> 30u64) & 0x1ffu64) by (bit_vector);
    } else {
        assert(v - v % 0x20_0000u64 <= u < v - v % 0x20_0000u64 + 0x20_0000u64 ==> (u >> 39u64) & 0x1ffu64
            == (v >> 39u64) & 0x1ffu64 && (u >> 30u64) & 0x1ffu64 == (v >> 30u64) & 0x1ffu64 && (u >> 21u64)
            & 0x1ffu64 == (v >> 21u64) & 0x1ffu64) by (bit_vector);
    }
    assert(pml4_entry(m, root, u) == pml4_entry(m, root, v));
    assert(pdpt_entry(m, h, root, u) == pdpt_entry(m, h, root, v));
    if s != 0x4000_0000 {
        assert(pd_entry(m, h, root, u) == pd_entry(m, h, root, v));
    }
}

/// Nothing remapped yet: the start of `remap_region`'s walk.
proof fn lemma_remap_region_start(m0: Map<u64, Seq<u64>>, h: u64, root: u64, f: u64, lo: int)
    ensures
        leaves_track(m0, m0, h, root, f),
        leaves_remapped(m0, m0, h, root, f, lo, lo),
{
    reveal(leaves_track);
    reveal(leaves_remapped);
}

/// What [`leaves_remapped`] says.
proof fn lemma_leaves_remapped(m0: Map<u64, Seq<u64>>, m: Map<u64, Seq<u64>>, h: u64, root: u64, f: u64, lo: int, hi: int, hi2: int)
    requires
        leaves_remapped(m0, m, h, root, f, lo, hi),
        hi2 <= hi,
    ensures
        leaves_remapped(m0, m, h, root, f, lo, hi2),
        forall|u: u64|
            #![trigger leaf_entry(m, h, root, u)]
            lo <= u < hi && u % 4096 == 0 && translation(m0, h, root, u) is Some ==> leaf_entry(m, h, root, u)
                == remap_leaf(leaf_entry(m0, h, root, u), f),
{
    reveal(leaves_remapped);
}

/// The effect of `remap_region`'s step at `v` on the leaf entry of one address `u`.
proof fn lemma_remap_one(
    m0: Map<u64, Seq<u64>>,
    m: Map<u64, Seq<u64>>,
    h: u64,
    root: u64,
    f: u64,
    v: u64,
    u: u64,
)
    requires
        tables_ok(m, h, root),
        forall|k: u64| #[trigger] m.contains_key(k) ==> m[k].len() == ENTRIES,
        forall|w: u64| #[trigger] translation(m, h, root, w) == translation(m0, h, root, w),
        leaves_track(m0, m, h, root, f),
        translation(m, h, root, v) is Some,
        translation(m0, h, root, u) is Some,
        f & ADDRESS_MASK == 0,
        f & HUGE_PAGE == 0,
    ensures
        ({
            let s = translation(m, h, root, v).unwrap().1;
            let lt = leaf_table(m, h, root, v);
            let li = leaf_index(m, h, root, v);
            let m2 = m.insert(lt, m[lt].update(li, remapped_entry(leaf_entry(m, h, root, v), f, s != 4096)));
            &&& leaf_table(m2, h, root, u) == leaf_table(m0, h, root, u)
            &&& leaf_index(m2, h, root, u) == leaf_index(m0, h, root, u)
            &&& (leaf_entry(m2, h, root, u) == leaf_entry(m0, h, root, u) || leaf_entry(m2, h, root, u)
                == remap_leaf(leaf_entry(m0, h, root, u), f))
            &&& (leaf_entry(m, h, root, u) == remap_leaf(leaf_entry(m0, h, root, u), f) ==> leaf_entry(m2, h, root, u)
                == remap_leaf(leaf_entry(m0, h, root, u), f))
            &&& (leaf_table(m, h, root, u) == lt && leaf_index(m, h, root, u) == li ==> leaf_entry(m2, h, root, u)
                == remap_leaf(leaf_entry(m0, h, root, u), f))
        }),
{
    reveal(leaves_track);
    let s = translation(m, h, root, v).unwrap().1;
    let lt = leaf_table(m, h, root, v);
    let li = leaf_index(m, h, root, v);
    let ev = leaf_entry(m, h, root, v);
    let new = remapped_entry(ev, f, s != 4096);
    let m2 = m.insert(lt, m[lt].update(li, new));
    lemma_table_index_bound(v);
    assert(walk_ok(m, h, root, v));
    assert(present(ev));
    assert(huge(ev) == (s != 4096));
    assert(new == remap_leaf(ev, f));
    lemma_remap_leaf(ev, f);
    assert(m.contains_key(lt));
    assert(0 <= li < m[lt].len());
    assert(ev == m[lt][li]);
    lemma_same_shape_write(m, h, lt, li, new, root, u);
    assert(leaf_entry(m, h, root, u) == leaf_entry(m0, h, root, u) || leaf_entry(m, h, root, u)
        == remap_leaf(leaf_entry(m0, h, root, u), f));
    lemma_table_index_bound(u);
    assert(translation(m, h, root, u) is Some);
    let eu = leaf_entry(m0, h, root, u);
    assert(present(leaf_entry(m, h, root, u)));
    if leaf_entry(m, h, root, u) != eu {
        lemma_remapped_entry(eu, f);
    }
    lemma_remap_leaf(eu, f);
    if leaf_table(m, h, root, u) == lt && leaf_index(m, h, root, u) == li {
        assert(leaf_entry(m2, h, root, u) == new);
        assert(leaf_entry(m, h, root, u) == ev);
    } else {
        assert(leaf_entry(m2, h, root, u) == leaf_entry(m, h, root, u));
    }
}

/// One step of `remap_region` at `v`, which is mapped by a page of size `s`: every address
/// from `lo` to the end of that page now has its leaf entry remapped.
proof fn lemma_remap_region_step(
    m0: Map<u64, Seq<u64>>,
    m: Map<u64, Seq<u64>>,
    h: u64,
    root: u64,
    f: u64,
    v: u64,
    lo: int,
)
    requires
        tables_ok(m, h, root),
        forall|k: u64| #[trigger] m.contains_key(k) ==> m[k].len() == ENTRIES,
        forall|w: u64| #[trigger] translation(m, h, root, w) == translation(m0, h, root, w),
        leaves_track(m0, m, h, root, f),
        leaves_remapped(m0, m, h, root, f, lo, v as int),
        lo <= v,
        v % 4096 == 0,
        translation(m, h, root, v) is Some,
        f & ADDRESS_MASK == 0,
        f & HUGE_PAGE == 0,
    ensures
        ({
            let s = translation(m, h, root, v).unwrap().1;
            let lt = leaf_table(m, h, root, v);
            let li = leaf_index(m, h, root, v);
            let m2 = m.insert(lt, m[lt].update(li, remapped_entry(leaf_entry(m, h, root, v), f, s != 4096)));
            &&& leaves_track(m0, m2, h, root, f)
            &&& leaves_remapped(m0, m2, h, root, f, lo, v - v % s + s)
        }),
{
    reveal(leaves_track);
    reveal(leaves_remapped);
    let s = translation(m, h, root, v).unwrap().1;
    let lt = leaf_table(m, h, root, v);
    let li = leaf_index(m, h, root, v);
    let ev = leaf_entry(m, h, root, v);
    let new = remapped_entry(ev, f, s != 4096);
    let m2 = m.insert(lt, m[lt].update(li, new));
    lemma_table_index_bound(v);
    assert(walk_ok(m, h, root, v));
    assert(present(ev));
    assert(huge(ev) == (s != 4096));
    assert(new == remap_leaf(ev, f));
    lemma_remap_leaf(ev, f);
    assert(m.contains_key(lt));
    assert(0 <= li < m[lt].len());
    assert(ev == m[lt][li]);
    assert forall|u: u64|
        #![trigger leaf_entry(m2, h, root, u)]
        lo <= u < v - v % s + s && u % 4096 == 0 && translation(m0, h, root, u) is Some implies leaf_entry(m2, h, root, u)
            == remap_leaf(leaf_entry(m0, h, root, u), f) by {
        if u >= v {
            if s == 4096 {
                assert(v % 4096 == 0 && u % 4096 == 0 && v <= u < v - v % 4096 + 4096 ==> u == v) by (nonlinear_arith);
            } else {
                lemma_same_huge_walk(m, h, root, v, u);
            }
        } else {
            assert(leaf_entry(m, h, root, u) == remap_leaf(leaf_entry(m0, h, root, u), f));
        }
        lemma_remap_one(m0, m, h, root, f, v, u);
    }
    assert forall|u: u64|
        #![trigger translation(m0, h, root, u)]
        translation(m0, h, root, u) is Some implies {
            &&& leaf_table(m2, h, root, u) == leaf_table(m0, h, root, u)
            &&& leaf_index(m2, h, root, u) == leaf_index(m0, h, root, u)
            &&& (leaf_entry(m2, h, root, u) == leaf_entry(m0, h, root, u) || leaf_entry(m2, h, root, u)
                == remap_leaf(leaf_entry(m0, h, root, u), f))
        } by {
        lemma_remap_one(m0, m, h, root, f, v, u);
    }
    lemma_track_intro(m0, m2, h, root, f);
    assert(leaves_remapped(m0, m2, h, root, f, lo, v - v % s + s));
}

/// A step of `remap_region` at an unmapped 4 KiB-aligned `v` remaps nothing and leaves
/// nothing to remap up to `v + 4096`.
proof fn lemma_remap_region_skip(m0: Map<u64, Seq<u64>>, m: Map<u64, Seq<u64>>, h: u64, root: u64, f: u64, v: u64, lo: int)
    requires
        leaves_remapped(m0, m, h, root, f, lo, v as int),
        v % 4096 == 0,
        translation(m0, h, root, v) is None,
    ensures
        leaves_remapped(m0, m, h, root, f, lo, v + 4096),
{
    reveal(leaves_remapped);
    assert forall|u: u64|
        #![trigger leaf_entry(m, h, root, u)]
        lo <= u < v + 4096 && u % 4096 == 0 && translation(m0, h, root, u) is Some implies leaf_entry(m, h, root, u)
            == remap_leaf(leaf_entry(m0, h, root, u), f) by {
        if u >= v {
            assert(v % 4096 == 0 && u % 4096 == 0 && v <= u < v + 4096 ==> u == v) by (nonlinear_arith);
        }
    }
}

/// The distance from a 4 KiB-aligned address to the end of the page of size `s` it lies in
/// is a positive multiple of 4 KiB.
proof fn lemma_page_rest(v: u64, s: u64)
    requires
        v % 4096 == 0,
        s == 4096 || s == 0x20_0000 || s == 0x4000_0000,
    ensures
        0 < s - v % s <= s,
        (s - v % s) % 4096 == 0,
{
    assert(v % 4096 == 0 && (s == 4096 || s == 0x20_0000 || s == 0x4000_0000) ==> (s - v % s) % 4096 == 0)
        by (bit_vector);
}

impl Vmm {
    /// Change the flags of the area that starts at `virt` to `new_vma_flags`, and remap every
    /// page mapped in it to the matching page table flags. Walks the area from its start, a
    /// page at a time: after a mapped page it goes on at the end of that page (a huge page
    /// counts as one), after an unmapped address 4 KiB further on.
    ///
    /// Returns [`VmmError::VmaNotFound`], and changes nothing, if no area starts at `virt`.
    pub fn remap_region(
        address_space: &mut AddressSpace,
        mem: &mut PageTableMemory,
        virt: u64,
        new_vma_flags: VmaFlags,
    ) -> (r: Result<(), VmmError>)
        requires
            old(address_space).wf(),
            old(mem).wf(),
            virt % 4096 == 0,
            tables_ok(old(mem).tables(), old(mem).hhdm(), old(address_space).root()),
        ensures
            final(address_space).wf(),
            final(address_space).root() == old(address_space).root(),
            final(mem).wf(),
            final(mem).hhdm() == old(mem).hhdm(),
            tables_ok(final(mem).tables(), final(mem).hhdm(), final(address_space).root()),
            tables_sound(old(mem).tables(), old(mem).hhdm(), old(address_space).root())
                ==> tables_sound(final(mem).tables(), final(mem).hhdm(), old(address_space).root()),
            forall|w: u64| #[trigger]
                translation(final(mem).tables(), final(mem).hhdm(), old(address_space).root(), w)
                    == translation(old(mem).tables(), old(mem).hhdm(), old(address_space).root(), w),
            (forall|w: Vma| #[trigger] old(address_space).areas().contains(w) ==> w.start_addr
                != virt) ==> r == Err::<(), VmmError>(VmmError::VmaNotFound)
                && final(address_space)@ == old(address_space)@
                && final(mem).tables() == old(mem).tables(),
            forall|w: Vma|
                #![trigger old(address_space).areas().contains(w)]
                old(address_space).areas().contains(w) && w.start_addr == virt ==> r is Ok
                    && final(address_space).areas() == old(address_space).areas().remove(w).insert(
                    Vma { start_addr: w.start_addr, end_addr: w.end_addr, flags: new_vma_flags },
                ) && forall|u: u64|
                    #![trigger leaf_entry(final(mem).tables(), final(mem).hhdm(), old(address_space).root(), u)]
                    w.start_addr <= u < w.end_addr && u % 4096 == 0 && translation(
                        old(mem).tables(),
                        old(mem).hhdm(),
                        old(address_space).root(),
                        u,
                    ) is Some ==> leaf_entry(final(mem).tables(), final(mem).hhdm(), old(address_space).root(), u)
                        == remap_leaf(
                        leaf_entry(old(mem).tables(), old(mem).hhdm(), old(address_space).root(), u),
                        page_flags_for(new_vma_flags),
                    ),
    {
        let ghost a0 = old(address_space).areas();
        let vma = match address_space.remove_vma(virt) {
            Some(v) => v,
            None => {
                return Err(VmmError::VmaNotFound);
            },
        };
        let new_vma = Vma { start_addr: vma.start_addr, end_addr: vma.end_addr, flags: new_vma_flags };
        proof {
            assert forall|w: Vma| a0.contains(w) && w.start_addr == virt implies w == vma by {
                lemma_areas_unique(*old(address_space), vma, w);
            }
            assert forall|w: Vma| #[trigger] address_space.areas().contains(w) implies !w.meets(
                new_vma,
            ) && w.start_addr != new_vma.start_addr by {
                if w.meets(new_vma) || w.start_addr == new_vma.start_addr {
                    lemma_areas_unique(*old(address_space), vma, w);
                }
            }
            assert(insert_outcome(address_space.areas(), new_vma) == Some(
                address_space.areas().insert(new_vma),
            ));
        }
        let _ = address_space.insert_vma(new_vma);
        let size = vma.end_addr - vma.start_addr;
        let root = address_space.page_ptr();
        let new_page_flags = Self::vma_flags_to_page_flags(new_vma_flags);
        proof {
            lemma_page_flags_bits(new_vma_flags);
        }
        let ghost m0 = mem.tables();
        proof {
            lemma_remap_region_start(m0, mem.hhdm(), root, new_page_flags, virt as int);
        }
        let mut offset: u64 = 0;
        while offset < size
            invariant
                leaves_track(m0, mem.tables(), mem.hhdm(), root, new_page_flags),
                leaves_remapped(m0, mem.tables(), mem.hhdm(), root, new_page_flags, virt as int, virt + offset),
                mem.wf(),
                mem.hhdm() == old(mem).hhdm(),
                m0 == old(mem).tables(),
                root == old(address_space).root(),
                virt + size <= u64::MAX,
                virt % 4096 == 0,
                offset % 4096 == 0 || offset == size,
                offset <= size,
                new_page_flags & ADDRESS_MASK == 0,
                new_page_flags & HUGE_PAGE == 0,
                tables_ok(mem.tables(), mem.hhdm(), root),
                tables_sound(m0, mem.hhdm(), root) ==> tables_sound(mem.tables(), mem.hhdm(), root),
                forall|w: u64| #[trigger]
                    translation(mem.tables(), mem.hhdm(), root, w) == translation(
                        m0,
                        mem.hhdm(),
                        root,
                        w,
                    ),
            decreases size - offset,
        {
            let v = virt + offset;
            proof {
                assert(v % 4096 == 0);
                assert(walk_ok(mem.tables(), mem.hhdm(), root, v));
            }
            let step = match Self::translate_with_size(mem, root, v) {
                Some(t) => {
                    let ghost mb = mem.tables();
                    proof {
                        lemma_remap_region_step(m0, mb, mem.hhdm(), root, new_page_flags, v, virt as int);
                    }
                    Self::remap_page(mem, root, v, new_page_flags);
                    proof {
                        assert forall|w: u64| #![trigger walk_ok(mem.tables(), mem.hhdm(), root, w)] #![trigger translation(mem.tables(), mem.hhdm(), root, w)] walk_ok(mem.tables(), mem.hhdm(), root, w) && (translation(mem.tables(), mem.hhdm(), root, w) matches Some(t) && t.1 == 4096 ==> !huge(pt_entry(mem.tables(), mem.hhdm(), root, w))) by {
                            assert(walk_ok(mb, mem.hhdm(), root, w));
                            assert(translation(mb, mem.hhdm(), root, w) == translation(mem.tables(), mem.hhdm(), root, w));
                            assert(same_shape(pt_entry(mem.tables(), mem.hhdm(), root, w), pt_entry(mb, mem.hhdm(), root, w)));
                        }
                    }
                    proof {
                        lemma_page_rest(v, t.1);
                    }
                    t.1 - v % t.1
                },
                None => {
                    proof {
                        lemma_remap_region_skip(m0, mem.tables(), mem.hhdm(), root, new_page_flags, v, virt as int);
                    }
                    4096
                },
            };
            proof {
                assert(step % 4096 == 0);
            }
            if step >= size - offset {
                proof {
                    lemma_leaves_remapped(m0, mem.tables(), mem.hhdm(), root, new_page_flags, virt as int, v + step, virt + size);
                }
                offset = size;
            } else {
                offset = offset + step;
            }
        }
        proof {
            lemma_leaves_remapped(m0, mem.tables(), mem.hhdm(), root, new_page_flags, virt as int, virt + size, virt + size);
        }
        Ok(())
    }
}

/// The frames that the pages in `[start, end)` map, one per 4 KiB-aligned address: each
/// is in use, lies below the physical limit, holds no page table, and no two of these
/// addresses map the same frame.
pub open spec fn region_frames_ok(
    m: Map<u64, Seq<u64>>,
    h: u64,
    root: u64,
    start: u64,
    end: u64,
    free: Seq<Seq<u64>>,
) -> bool {
    &&& forall|v: u64|
        #![trigger translation(m, h, root, v)]
        start <= v < end && v % 4096 == 0 && translation(m, h, root, v) is Some ==> {
            let p = translation(m, h, root, v).unwrap().0;
            &&& block_is_used(free, p, 0)
            &&& p + 4096 <= PHYS_LIMIT
            &&& p + 4096 + h <= u64::MAX + 1
            &&& forall|k: u64| #[trigger] m.contains_key(k) ==> !in_block(p, 0, k - h)
        }
    &&& forall|v1: u64, v2: u64|
        #![trigger translation(m, h, root, v1), translation(m, h, root, v2)]
        start <= v1 < end && start <= v2 < end && v1 % 4096 == 0 && v2 % 4096 == 0 && v1 != v2
            && translation(m, h, root, v1) is Some && translation(m, h, root, v2) is Some
            ==> translation(m, h, root, v1).unwrap().0 != translation(m, h, root, v2).unwrap().0
}

/// Every address of the frame at `a` is free.
pub open spec fn frame_is_free(lists: Seq<Seq<u64>>, a: u64) -> bool {
    forall|f: int| #[trigger] in_block(a, 0, f) ==> is_free(lists, f)
}

/// A 4 KiB-aligned address translates to a 4 KiB-aligned physical address.
proof fn lemma_translation_aligned(m: Map<u64, Seq<u64>>, h: u64, root: u64, v: u64)
    requires
        v % 4096 == 0,
        translation(m, h, root, v) is Some,
    ensures
        translation(m, h, root, v).unwrap().0 % 4096 == 0,
{
    lemma_entry_addr_bound(pdpt_entry(m, h, root, v));
    lemma_entry_addr_bound(pd_entry(m, h, root, v));
    lemma_entry_addr_bound(pt_entry(m, h, root, v));
    lemma_offset_sum(pdpt_entry(m, h, root, v), v);
    lemma_offset_sum(pd_entry(m, h, root, v), v);
    lemma_offset_sum(pt_entry(m, h, root, v), v);
    assert(v % 4096 == 0 ==> (v & 0x3fff_ffffu64) % 4096 == 0 && (v & 0x1f_ffffu64) % 4096 == 0
        && (v & 0xfffu64) == 0) by (bit_vector);
}

/// Two 4 KiB frames that share an address are the same frame.
proof fn lemma_same_frame(a: u64, b: u64, f: int)
    requires
        a % 4096 == 0,
        b % 4096 == 0,
        in_block(a, 0, f),
        in_block(b, 0, f),
    ensures
        a == b,
{
    assert(crate::mm::bits::block_size(0) == 4096);
    assert(a == b) by (nonlinear_arith)
        requires
            a % 4096 == 0,
            b % 4096 == 0,
            a <= f < a + 4096,
            b <= f < b + 4096,
    ;
}

/// Clearing the entry that maps `v` keeps the tables sound and can only unmap addresses.
proof fn lemma_unmap_step(mb: Map<u64, Seq<u64>>, h: u64, root: u64, v: u64)
    requires
        tables_ok(mb, h, root),
        translation(mb, h, root, v) is Some,
        forall|k: u64| #[trigger] mb.contains_key(k) ==> mb[k].len() == ENTRIES,
    ensures
        ({
            let lt = leaf_table(mb, h, root, v);
            let li = leaf_index(mb, h, root, v);
            let m2 = mb.insert(lt, mb[lt].update(li, 0));
            &&& mb.contains_key(lt)
            &&& tables_ok(m2, h, root)
            &&& forall|w: u64| #[trigger]
                translation(m2, h, root, w) is None || translation(m2, h, root, w) == translation(
                    mb,
                    h,
                    root,
                    w,
                )
            &&& m2.dom() == mb.dom()
        }),
{
    let lt = leaf_table(mb, h, root, v);
    let li = leaf_index(mb, h, root, v);
    lemma_table_index_bound(v);
    assert(walk_ok(mb, h, root, v));
    assert(mb.contains_key(lt));
    assert(0 <= li < mb[lt].len());
    let m2 = mb.insert(lt, mb[lt].update(li, 0));
    assert forall|w: u64| #[trigger]
        translation(m2, h, root, w) is None || translation(m2, h, root, w) == translation(mb, h, root, w) by {
        lemma_clear_write(mb, h, lt, li, root, w);
    }
    assert forall|w: u64|
        #![trigger walk_ok(m2, h, root, w)]
        #![trigger translation(m2, h, root, w)]
        walk_ok(m2, h, root, w) && (translation(m2, h, root, w) matches Some(t) && t.1 == 4096
            ==> !huge(pt_entry(m2, h, root, w))) by {
        lemma_clear_write(mb, h, lt, li, root, w);
        assert(walk_ok(mb, h, root, w));
        assert(translation(mb, h, root, w) == translation(mb, h, root, w));
    }
    assert(m2.dom() =~= mb.dom());
}

/// Give back to the PMM the frame of every 4 KiB-aligned address in `[start, end)` that is
/// mapped; the tables are left as they are.
#[verifier::spinoff_prover]
#[verifier::rlimit(40)]
fn release_region_frames(pmm: &mut Pmm, mem: &PageTableMemory, root: u64, start: u64, end: u64)
    requires
        old(pmm).wf(),
        mem.wf(),
        start % 4096 == 0,
        start <= end,
        tables_ok(mem.tables(), mem.hhdm(), root),
        frames_owned(mem.tables(), mem.hhdm(), old(pmm)@),
        region_frames_ok(mem.tables(), mem.hhdm(), root, start, end, old(pmm)@),
    ensures
        final(pmm).wf(),
        frames_owned(mem.tables(), mem.hhdm(), final(pmm)@),
        forall|f: int| #[trigger] is_free(old(pmm)@, f) ==> is_free(final(pmm)@, f),
        forall|f: int| #[trigger]
            is_free(final(pmm)@, f) ==> is_free(old(pmm)@, f) || exists|v: u64|
                #![trigger translation(mem.tables(), mem.hhdm(), root, v)]
                start <= v < end && v % 4096 == 0 && translation(mem.tables(), mem.hhdm(), root, v) is Some
                    && in_block(translation(mem.tables(), mem.hhdm(), root, v).unwrap().0, 0, f),
        forall|v: u64|
            #![trigger translation(mem.tables(), mem.hhdm(), root, v)]
            start <= v < end && v % 4096 == 0 && translation(mem.tables(), mem.hhdm(), root, v) is Some
                ==> frame_is_free(final(pmm)@, translation(mem.tables(), mem.hhdm(), root, v).unwrap().0),
{
    let ghost h = mem.hhdm();
    let ghost m = mem.tables();
    let ghost p0 = pmm@;
    let size = end - start;
    let mut offset: u64 = 0;
    while offset < size
        invariant
            pmm.wf(),
            mem.wf(),
            m == mem.tables(),
            h == mem.hhdm(),
            p0 == old(pmm)@,
            size == end - start,
            start % 4096 == 0,
            offset % 4096 == 0 || offset == size,
            offset <= size,
            tables_ok(m, h, root),
            region_frames_ok(m, h, root, start, end, p0),
            frames_owned(m, h, pmm@),
            forall|f: int| #[trigger] is_free(p0, f) ==> is_free(pmm@, f),
            forall|f: int| #[trigger]
                is_free(pmm@, f) ==> is_free(p0, f) || exists|v: u64|
                    #![trigger translation(m, h, root, v)]
                    start <= v < start + offset && v % 4096 == 0 && translation(m, h, root, v) is Some
                        && in_block(translation(m, h, root, v).unwrap().0, 0, f),
            forall|v: u64|
                #![trigger translation(m, h, root, v)]
                start <= v < start + offset && v % 4096 == 0 && translation(m, h, root, v) is Some
                    ==> frame_is_free(pmm@, translation(m, h, root, v).unwrap().0),
        decreases size - offset,
    {
        let v = start + offset;
        proof {
            assert(walk_ok(m, h, root, v));
        }
        if let Some(phys) = Vmm::translate(mem, root, v) {
            let ghost pb = pmm@;
            proof {
                lemma_translation_aligned(m, h, root, v);
                assert forall|f: int| #[trigger] in_block(phys, 0, f) implies !is_free(pb, f) by {
                    if is_free(pb, f) && !is_free(p0, f) {
                        let v2 = choose|v2: u64|
                            start <= v2 < start + offset && v2 % 4096 == 0 && translation(m, h, root, v2) is Some
                                && in_block(translation(m, h, root, v2).unwrap().0, 0, f);
                        lemma_translation_aligned(m, h, root, v2);
                        lemma_same_frame(translation(m, h, root, v2).unwrap().0, phys, f);
                        assert(v2 != v);
                    }
                }
            }
            pmm.free_frame(phys);
            proof {
                assert forall|k: u64| #[trigger] m.contains_key(k) implies !is_free(pmm@, k - h) by {
                    assert(!is_free(pb, k - h));
                    assert(!in_block(phys, 0, k - h));
                }
                assert forall|f: int| #[trigger] is_free(pmm@, f) implies f < PHYS_LIMIT && f + h
                    <= u64::MAX by {
                    if !is_free(pb, f) {
                        assert(in_block(phys, 0, f));
                        assert(crate::mm::bits::block_size(0) == 4096);
                    }
                }
                assert forall|f: int| #[trigger] is_free(pmm@, f) implies is_free(p0, f) || exists|v3: u64|
                    #![trigger translation(m, h, root, v3)]
                    start <= v3 < start + offset + 4096 && v3 % 4096 == 0 && translation(m, h, root, v3) is Some
                        && in_block(translation(m, h, root, v3).unwrap().0, 0, f) by {
                    if !is_free(pb, f) {
                        assert(in_block(phys, 0, f));
                        assert(translation(m, h, root, v) is Some);
                    }
                }
                assert forall|u: u64|
                    #![trigger translation(m, h, root, u)]
                    start <= u < start + offset + 4096 && u % 4096 == 0 && translation(m, h, root, u) is Some
                        implies frame_is_free(pmm@, translation(m, h, root, u).unwrap().0) by {
                    if u < v {
                        assert(frame_is_free(pb, translation(m, h, root, u).unwrap().0));
                    } else {
                        assert(u == v) by {
                            assert(v % 4096 == 0 && u % 4096 == 0 && v <= u < v + 4096);
                        }
                    }
                }
            }
        } else {
            proof {
                assert forall|u: u64|
                    #![trigger translation(m, h, root, u)]
                    start <= u < start + offset + 4096 && u % 4096 == 0 && translation(m, h, root, u) is Some
                        implies frame_is_free(pmm@, translation(m, h, root, u).unwrap().0) by {
                    if u >= v {
                        assert(u == v) by {
                            assert(v % 4096 == 0 && u % 4096 == 0 && v <= u < v + 4096);
                        }
                    }
                }
            }
        }
        if 4096 >= size - offset {
            offset = size;
        } else {
            offset = offset + 4096;
        }
    }
}

/// Unmap every 4 KiB-aligned address in `[start, end)` that is mapped.
#[verifier::spinoff_prover]
#[verifier::rlimit(40)]
fn clear_region_pages(mem: &mut PageTableMemory, root: u64, start: u64, end: u64)
    requires
        old(mem).wf(),
        start % 4096 == 0,
        start <= end,
        tables_ok(old(mem).tables(), old(mem).hhdm(), root),
    ensures
        final(mem).wf(),
        final(mem).hhdm() == old(mem).hhdm(),
        final(mem).tables().dom() == old(mem).tables().dom(),
        tables_ok(final(mem).tables(), final(mem).hhdm(), root),
        tables_sound(old(mem).tables(), old(mem).hhdm(), root) ==> tables_sound(
            final(mem).tables(),
            final(mem).hhdm(),
            root,
        ),
        forall|w: u64| #[trigger]
            translation(final(mem).tables(), final(mem).hhdm(), root, w) is None || translation(
                final(mem).tables(),
                final(mem).hhdm(),
                root,
                w,
            ) == translation(old(mem).tables(), old(mem).hhdm(), root, w),
        forall|v: u64|
            #![trigger translation(final(mem).tables(), final(mem).hhdm(), root, v)]
            start <= v < end && v % 4096 == 0 ==> translation(final(mem).tables(), final(mem).hhdm(), root, v)
                is None,
{
    let ghost h = mem.hhdm();
    let ghost m0 = mem.tables();
    let size = end - start;
    let mut offset: u64 = 0;
    while offset < size
        invariant
            mem.wf(),
            mem.hhdm() == h,
            m0 == old(mem).tables(),
            h == old(mem).hhdm(),
            size == end - start,
            start % 4096 == 0,
            offset % 4096 == 0 || offset == size,
            offset <= size,
            mem.tables().dom() == m0.dom(),
            tables_ok(mem.tables(), h, root),
            tables_sound(m0, h, root) ==> tables_sound(mem.tables(), h, root),
            forall|w: u64| #[trigger]
                translation(mem.tables(), h, root, w) is None || translation(mem.tables(), h, root, w)
                    == translation(m0, h, root, w),
            forall|v: u64|
                #![trigger translation(mem.tables(), h, root, v)]
                start <= v < start + offset && v % 4096 == 0 ==> translation(mem.tables(), h, root, v)
                    is None,
        decreases size - offset,
    {
        let v = start + offset;
        proof {
            assert(walk_ok(mem.tables(), h, root, v));
        }
        if Vmm::translate(mem, root, v).is_some() {
            let ghost mb = mem.tables();
            Vmm::unmap_page(mem, root, v);
            proof {
                lemma_unmap_step(mb, h, root, v);
                let m2 = mem.tables();
                assert forall|w: u64| #[trigger]
                    translation(m2, h, root, w) is None || translation(m2, h, root, w) == translation(m0, h, root, w) by {
                    if translation(m2, h, root, w) is Some {
                        assert(translation(m2, h, root, w) == translation(mb, h, root, w));
                    }
                }
            }
        }
        if 4096 >= size - offset {
            offset = size;
        } else {
            offset = offset + 4096;
        }
    }
}

impl Vmm {
    /// Remove the area that starts at `virt` and unmap its pages: every 4 KiB-aligned
    /// address of the area that is mapped is unmapped, and the frame it mapped, 4 KiB of a
    /// huge page included, is given back to the PMM.
    ///
    /// Returns [`VmmError::VmaNotFound`], and changes nothing, if no area starts at `virt`.
    pub fn unmap_region(
        pmm: &mut Pmm,
        address_space: &mut AddressSpace,
        mem: &mut PageTableMemory,
        virt: u64,
    ) -> (r: Result<(), VmmError>)
        requires
            old(pmm).wf(),
            old(address_space).wf(),
            old(mem).wf(),
            virt % 4096 == 0,
            tables_ok(old(mem).tables(), old(mem).hhdm(), old(address_space).root()),
            frames_owned(old(mem).tables(), old(mem).hhdm(), old(pmm)@),
            forall|w: Vma| #[trigger]
                old(address_space).areas().contains(w) && w.start_addr == virt ==> region_frames_ok(
                    old(mem).tables(),
                    old(mem).hhdm(),
                    old(address_space).root(),
                    w.start_addr,
                    w.end_addr,
                    old(pmm)@,
                ),
        ensures
            final(pmm).wf(),
            final(address_space).wf(),
            final(address_space).root() == old(address_space).root(),
            final(mem).wf(),
            final(mem).hhdm() == old(mem).hhdm(),
            tables_ok(final(mem).tables(), final(mem).hhdm(), final(address_space).root()),
            tables_sound(old(mem).tables(), old(mem).hhdm(), old(address_space).root())
                ==> tables_sound(final(mem).tables(), final(mem).hhdm(), old(address_space).root()),
            frames_owned(final(mem).tables(), final(mem).hhdm(), final(pmm)@),
            forall|w: u64| #[trigger]
                translation(final(mem).tables(), final(mem).hhdm(), old(address_space).root(), w)
                    is None || translation(
                    final(mem).tables(),
                    final(mem).hhdm(),
                    old(address_space).root(),
                    w,
                ) == translation(old(mem).tables(), old(mem).hhdm(), old(address_space).root(), w),
            forall|f: int| #[trigger] is_free(old(pmm)@, f) ==> is_free(final(pmm)@, f),
            (forall|w: Vma| #[trigger] old(address_space).areas().contains(w) ==> w.start_addr
                != virt) ==> r == Err::<(), VmmError>(VmmError::VmaNotFound)
                && final(address_space)@ == old(address_space)@
                && final(mem).tables() == old(mem).tables() && final(pmm)@ == old(pmm)@,
            forall|w: Vma|
                #![trigger old(address_space).areas().contains(w)]
                old(address_space).areas().contains(w) && w.start_addr == virt ==> {
                    &&& r is Ok
                    &&& final(address_space).areas() == old(address_space).areas().remove(w)
                    &&& forall|v: u64|
                        #![trigger translation(final(mem).tables(), final(mem).hhdm(), old(address_space).root(), v)]
                        w.start_addr <= v < w.end_addr && v % 4096 == 0 ==> translation(
                            final(mem).tables(),
                            final(mem).hhdm(),
                            old(address_space).root(),
                            v,
                        ) is None
                    &&& forall|v: u64|
                        #![trigger translation(old(mem).tables(), old(mem).hhdm(), old(address_space).root(), v)]
                        w.start_addr <= v < w.end_addr && v % 4096 == 0 && translation(
                            old(mem).tables(),
                            old(mem).hhdm(),
                            old(address_space).root(),
                            v,
                        ) is Some ==> frame_is_free(
                            final(pmm)@,
                            translation(old(mem).tables(), old(mem).hhdm(), old(address_space).root(), v).unwrap().0,
                        )
                    &&& forall|f: int| #[trigger]
                        is_free(final(pmm)@, f) ==> is_free(old(pmm)@, f) || exists|v: u64|
                            #![trigger translation(old(mem).tables(), old(mem).hhdm(), old(address_space).root(), v)]
                            w.start_addr <= v < w.end_addr && v % 4096 == 0 && translation(
                                old(mem).tables(),
                                old(mem).hhdm(),
                                old(address_space).root(),
                                v,
                            ) is Some && in_block(
                                translation(
                                    old(mem).tables(),
                                    old(mem).hhdm(),
                                    old(address_space).root(),
                                    v,
                                ).unwrap().0,
                                0,
                                f,
                            )
                },
    {
        let vma = match address_space.remove_vma(virt) {
            Some(v) => v,
            None => {
                return Err(VmmError::VmaNotFound);
            },
        };
        proof {
            assert forall|w: Vma| old(address_space).areas().contains(w) && w.start_addr == virt implies w == vma by {
                lemma_areas_unique(*old(address_space), vma, w);
            }
            assert(vma.start_addr <= vma.end_addr) by {
                let s = old(address_space)@;
                let i = choose|i: int| 0 <= i < s.len() && s[i] == vma;
            }
        }
        let root = address_space.page_ptr();
        release_region_frames(pmm, mem, root, virt, vma.end_addr);
        let ghost m1 = mem.tables();
        clear_region_pages(mem, root, virt, vma.end_addr);
        proof {
            assert forall|k: u64| #[trigger] mem.tables().contains_key(k) implies !is_free(pmm@, k - mem.hhdm()) by {
                assert(m1.contains_key(k));
            }
        }
        Ok(())
    }
}

} // verus!
