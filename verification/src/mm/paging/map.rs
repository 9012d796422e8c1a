//! Mapping pages, with the intermediate tables created on the way.

use crate::mm::free_lists::{MAX_ORDER, NUM_ORDERS, alloc_result, free_bytes, in_block, is_free, lemma_bytes_below_zero};
use crate::mm::pmm::Pmm;
use crate::mm::vmm::{Vmm, VmmError};
use super::entry::{ADDRESS_MASK, ENTRIES, HUGE_PAGE, PHYS_LIMIT, PRESENT, PageType, USER_ACCESSIBLE, WRITABLE, advance_current_pagetable, entry_addr, entry_at, entry_index, huge, is_huge_page, is_present, lemma_table_index_bound, lemma_zero_entry, next_table, page_size, present, table_index};
use super::memory::{PageTableMemory, zero_table};
use super::sound::{entry_fits, lemma_sound_step, lemma_sound_walks, lemma_sound_write, lemma_walk_levels, links_unique, sound_with, tables_sound, tables_tree};
use super::walk::{agree_except, lemma_agree_except_translation, path_distinct_to, pd_entry, pd_table, pdpt_entry, pdpt_table, pml4_entry, pt_entry, pt_table, translation, walk_ok, walk_reads};
use vstd::prelude::*;

verus! {

/// No page table lies in a free frame, and every free frame has a physical address that
/// the direct map reaches.
pub open spec fn frames_owned(m: Map<u64, Seq<u64>>, h: u64, free: Seq<Seq<u64>>) -> bool {
    &&& forall|k: u64| #[trigger] m.contains_key(k) ==> !is_free(free, k - h)
    &&& forall|f: int| #[trigger] is_free(free, f) ==> f < PHYS_LIMIT && f + h <= u64::MAX
}

/// The free lists hold no memory at all.
pub open spec fn out_of_frames(free: Seq<Seq<u64>>) -> bool {
    forall|k: int| 0 <= k <= MAX_ORDER ==> #[trigger] free[k].len() == 0
}

/// Facts about the entries that `map_page` writes.
proof fn lemma_new_entry(a: u64, f: u64)
    requires
        a % 4096 == 0,
        a < PHYS_LIMIT,
        f & ADDRESS_MASK == 0,
    ensures
        entry_addr(a | f) == a,
        entry_addr(a | f | PRESENT) == a,
        entry_addr(a | f | PRESENT | HUGE_PAGE) == a,
        present(a | f | PRESENT),
        present(a | f | PRESENT | HUGE_PAGE),
        huge(a | f | PRESENT | HUGE_PAGE),
        f & PRESENT != 0 ==> present(a | f),
        f & HUGE_PAGE == 0 ==> !huge(a | f) && !huge(a | f | PRESENT),
{
    assert(a % 4096 == 0 && a < 0x0010_0000_0000_0000u64 && f & 0x000f_ffff_ffff_f000u64 == 0
        ==> (a | f) & 0x000f_ffff_ffff_f000u64 == a && (a | f | 1u64) & 0x000f_ffff_ffff_f000u64
        == a && (a | f | 1u64 | 0x80u64) & 0x000f_ffff_ffff_f000u64 == a && (a | f | 1u64) & 1u64
        != 0 && (a | f | 1u64 | 0x80u64) & 1u64 != 0 && (a | f | 1u64 | 0x80u64) & 0x80u64 != 0
        && (f & 1u64 != 0 ==> (a | f) & 1u64 != 0) && (f & 0x80u64 == 0 ==> (a | f) & 0x80u64
        == 0 && (a | f | 1u64) & 0x80u64 == 0)) by (bit_vector);
}

/// Allocate a frame from the PMM for a new page table and place an empty table in it.
/// Returns the frame's physical address, or `None` if the PMM is out of memory.
pub fn alloc_zeroed_frame(pmm: &mut Pmm, mem: &mut PageTableMemory) -> (r: Option<u64>)
    requires
        old(pmm).wf(),
        old(mem).wf(),
        frames_owned(old(mem).tables(), old(mem).hhdm(), old(pmm)@),
    ensures
        final(pmm).wf(),
        final(mem).wf(),
        final(mem).hhdm() == old(mem).hhdm(),
        frames_owned(final(mem).tables(), final(mem).hhdm(), final(pmm)@),
        r is None <==> out_of_frames(old(pmm)@),
        r is None ==> final(pmm)@ == old(pmm)@ && final(mem).tables() == old(mem).tables(),
        r matches Some(a) ==> {
            &&& a % 4096 == 0
            &&& a < PHYS_LIMIT
            &&& a + old(mem).hhdm() <= u64::MAX
            &&& !old(mem).tables().contains_key((a + old(mem).hhdm()) as u64)
            &&& final(mem).tables() == old(mem).tables().insert(
                (a + old(mem).hhdm()) as u64,
                zero_table(),
            )
            &&& final(pmm)@ == alloc_result(old(pmm)@, 0).0
            &&& free_bytes(final(pmm)@) == free_bytes(old(pmm)@) - 4096
            &&& forall|f: int| #[trigger]
                is_free(final(pmm)@, f) <==> is_free(old(pmm)@, f) && !in_block(a, 0, f)
        },
{
    match pmm.alloc_frame() {
        None => None,
        Some(a) => {
            let h = mem.hhdm_offset();
            proof {
                assert(in_block(a, 0, a as int));
                assert(is_free(old(pmm)@, a as int));
                if old(mem).tables().contains_key((a + h) as u64) {
                    assert(!is_free(old(pmm)@, ((a + h) as u64) - h));
                }
            }
            mem.insert_zeroed(a + h);
            proof {
                assert(in_block(a, 0, a as int));
                assert forall|k: u64| #[trigger] mem.tables().contains_key(k) implies !is_free(
                    pmm@,
                    k - h,
                ) by {
                    if k != (a + h) as u64 {
                        assert(old(mem).tables().contains_key(k));
                        assert(!is_free(old(pmm)@, k - h));
                    } else {
                        assert(k - h == a);
                    }
                }
                assert forall|f: int| #[trigger] is_free(pmm@, f) implies f < PHYS_LIMIT && f + h
                    <= u64::MAX by {
                    assert(is_free(old(pmm)@, f));
                }
            }
            Some(a)
        },
    }
}

/// Follow entry `idx` of the table at `table` to the next-level table, creating that table
/// with `iflags` if the entry is not present. Returns the next table's address, or
/// [`VmmError::OutOfMemory`] if a table was needed and the PMM had no frame.
fn next_table_or_alloc(
    pmm: &mut Pmm,
    mem: &mut PageTableMemory,
    table: u64,
    idx: usize,
    iflags: u64,
) -> (r: Result<u64, VmmError>)
    requires
        old(pmm).wf(),
        old(mem).wf(),
        frames_owned(old(mem).tables(), old(mem).hhdm(), old(pmm)@),
        old(mem).tables().contains_key(table),
        idx < ENTRIES,
        iflags & ADDRESS_MASK == 0,
        iflags & PRESENT != 0,
        iflags & HUGE_PAGE == 0,
        present(entry_at(old(mem).tables(), table, idx as int)) ==> !huge(
            entry_at(old(mem).tables(), table, idx as int),
        ) && old(mem).tables().contains_key(
            next_table(entry_at(old(mem).tables(), table, idx as int), old(mem).hhdm()),
        ),
    ensures
        final(pmm).wf(),
        final(mem).wf(),
        final(mem).hhdm() == old(mem).hhdm(),
        frames_owned(final(mem).tables(), final(mem).hhdm(), final(pmm)@),
        forall|f: int| #[trigger] is_free(final(pmm)@, f) ==> is_free(old(pmm)@, f),
        present(entry_at(old(mem).tables(), table, idx as int)) ==> r == Ok::<u64, VmmError>(
            next_table(entry_at(old(mem).tables(), table, idx as int), old(mem).hhdm()),
        ) && final(mem).tables() == old(mem).tables() && final(pmm)@ == old(pmm)@,
        !present(entry_at(old(mem).tables(), table, idx as int)) && out_of_frames(old(pmm)@) ==> r
            == Err::<u64, VmmError>(VmmError::OutOfMemory) && final(mem).tables() == old(
            mem,
        ).tables() && final(pmm)@ == old(pmm)@,
        !present(entry_at(old(mem).tables(), table, idx as int)) && !out_of_frames(old(pmm)@) ==> {
            &&& r is Ok
            &&& !old(mem).tables().contains_key(r->Ok_0)
            &&& final(mem).tables() == old(mem).tables().insert(r->Ok_0, zero_table()).insert(
                table,
                old(mem).tables()[table].update(
                    idx as int,
                    ((r->Ok_0 - old(mem).hhdm()) as u64) | iflags,
                ),
            )
            &&& free_bytes(final(pmm)@) == free_bytes(old(pmm)@) - 4096
        },
        r matches Ok(n) ==> {
            &&& final(mem).tables().contains_key(n)
            &&& present(entry_at(final(mem).tables(), table, idx as int))
            &&& !huge(entry_at(final(mem).tables(), table, idx as int))
            &&& next_table(entry_at(final(mem).tables(), table, idx as int), final(mem).hhdm())
                == n
        },
{
    let h = mem.hhdm_offset();
    let e = mem.read(table, idx);
    if is_present(e) {
        return Ok(advance_current_pagetable(e, h));
    }
    match alloc_zeroed_frame(pmm, mem) {
        None => Err(VmmError::OutOfMemory),
        Some(a) => {
            proof {
                lemma_new_entry(a, iflags);
            }
            mem.write(table, idx, a | iflags);
            Ok(a + h)
        },
    }
}

/// The level whose table holds the entry mapping a page of the given type (3 = PDPT,
/// 2 = page directory, 1 = page table).
pub open spec fn leaf_level(t: PageType) -> int {
    match t {
        PageType::Normal => 1,
        PageType::HugePage2MiB => 2,
        PageType::HugePage1GiB => 3,
    }
}

/// The walk `map_page` makes for `v` down to the given level reads existing tables only,
/// and follows no present entry that is marked huge.
pub open spec fn map_walk_ok(m: Map<u64, Seq<u64>>, h: u64, root: u64, v: u64, level: int) -> bool {
    let e4 = pml4_entry(m, root, v);
    let e3 = pdpt_entry(m, h, root, v);
    let e2 = pd_entry(m, h, root, v);
    &&& m.contains_key(root)
    &&& present(e4) ==> {
        &&& !huge(e4)
        &&& m.contains_key(pdpt_table(m, h, root, v))
        &&& (level <= 2 && present(e3)) ==> {
            &&& !huge(e3)
            &&& m.contains_key(pd_table(m, h, root, v))
            &&& (level <= 1 && present(e2)) ==> !huge(e2) && m.contains_key(
                pt_table(m, h, root, v),
            )
        }
    }
}

/// How many new tables `map_page` needs to reach the table of the given level for `v`.
pub open spec fn tables_needed(m: Map<u64, Seq<u64>>, h: u64, root: u64, v: u64, level: int) -> int {
    if !present(pml4_entry(m, root, v)) {
        4 - level
    } else if level <= 2 && !present(pdpt_entry(m, h, root, v)) {
        3 - level
    } else if level <= 1 && !present(pd_entry(m, h, root, v)) {
        1
    } else {
        0
    }
}

/// The one entry of the existing tables that `map_page` writes for `v`: the first entry of
/// the walk that is not present, or else the entry that maps the page. Every other entry it
/// writes lies in a table it creates.
pub open spec fn map_slot(m: Map<u64, Seq<u64>>, h: u64, root: u64, v: u64, level: int) -> (u64, int) {
    if !present(pml4_entry(m, root, v)) {
        (root, table_index(v, 4))
    } else if level == 3 || !present(pdpt_entry(m, h, root, v)) {
        (pdpt_table(m, h, root, v), table_index(v, 3))
    } else if level == 2 || !present(pd_entry(m, h, root, v)) {
        (pd_table(m, h, root, v), table_index(v, 2))
    } else {
        (pt_table(m, h, root, v), table_index(v, 1))
    }
}

/// Creating a table and writing an entry that is the excepted one or lies in a table `m0`
/// does not have keeps the agreement with `m0`.
proof fn lemma_agree_alloc(
    m0: Map<u64, Seq<u64>>,
    mk: Map<u64, Seq<u64>>,
    t: u64,
    i: int,
    n: u64,
    table: u64,
    idx: int,
    e: u64,
)
    requires
        agree_except(m0, mk, t, i),
        forall|k: u64| #[trigger] m0.contains_key(k) ==> mk.contains_key(k),
        !mk.contains_key(n),
        mk.contains_key(table),
        0 <= idx < mk[table].len(),
        (table == t && idx == i) || !m0.contains_key(table),
    ensures
        agree_except(m0, mk.insert(n, zero_table()).insert(table, mk[table].update(idx, e)), t, i),
        forall|k: u64| #[trigger]
            m0.contains_key(k) ==> mk.insert(n, zero_table()).insert(table, mk[table].update(idx, e)).contains_key(k),
{
    let m2 = mk.insert(n, zero_table()).insert(table, mk[table].update(idx, e));
    assert forall|tt: u64, ii: int| m0.contains_key(tt) && !(tt == t && ii == i) implies #[trigger] entry_at(m2, tt, ii)
        == entry_at(m0, tt, ii) by {
        assert(mk.contains_key(tt));
        assert(tt != n);
        assert(entry_at(mk, tt, ii) == entry_at(m0, tt, ii));
        if tt == table {
            assert(ii != idx);
            assert(m2[tt] == mk[table].update(idx, e));
        } else {
            assert(m2[tt] == mk[tt]);
        }
    }
}

/// Writing an entry that is the excepted one or lies in a table `m0` does not have keeps the
/// agreement with `m0`.
proof fn lemma_agree_write(
    m0: Map<u64, Seq<u64>>,
    mk: Map<u64, Seq<u64>>,
    t: u64,
    i: int,
    table: u64,
    idx: int,
    e: u64,
)
    requires
        agree_except(m0, mk, t, i),
        forall|k: u64| #[trigger] m0.contains_key(k) ==> mk.contains_key(k),
        mk.contains_key(table),
        0 <= idx < mk[table].len(),
        (table == t && idx == i) || !m0.contains_key(table),
    ensures
        agree_except(m0, mk.insert(table, mk[table].update(idx, e)), t, i),
{
    let m2 = mk.insert(table, mk[table].update(idx, e));
    assert forall|tt: u64, ii: int| m0.contains_key(tt) && !(tt == t && ii == i) implies #[trigger] entry_at(m2, tt, ii)
        == entry_at(m0, tt, ii) by {
        assert(mk.contains_key(tt));
        assert(entry_at(mk, tt, ii) == entry_at(m0, tt, ii));
        if tt == table {
            assert(ii != idx);
        }
    }
}

/// The entry that maps a page of the given type at `phys` with `flags`.
pub open spec fn mapped_entry(phys: u64, flags: u64, page_type: PageType) -> u64 {
    if page_type == PageType::Normal {
        phys | flags | PRESENT
    } else {
        phys | flags | PRESENT | HUGE_PAGE
    }
}

/// The flags of the entries that link the tables `map_page` creates.
pub open spec fn table_entry_flags(flags: u64) -> u64 {
    PRESENT | WRITABLE | (flags & USER_ACCESSIBLE)
}

/// The entry of the given level's table (3 = PDPT, 2 = page directory, 1 = page table) that
/// the walk for `v` reads.
pub open spec fn entry_of_level(m: Map<u64, Seq<u64>>, h: u64, root: u64, v: u64, level: int) -> u64 {
    if level == 3 {
        pdpt_entry(m, h, root, v)
    } else if level == 2 {
        pd_entry(m, h, root, v)
    } else {
        pt_entry(m, h, root, v)
    }
}

/// An entry on the walk above the page's level after `map_page`: as it was where it was
/// present, otherwise a link to the table below with [`table_entry_flags`].
pub open spec fn linked_entry(old_entry: u64, new_entry: u64, next: u64, h: u64, flags: u64) -> bool {
    if present(old_entry) {
        new_entry == old_entry
    } else {
        new_entry == ((next - h) as u64) | table_entry_flags(flags)
    }
}

/// One step of `map_page` down the walk, through [`next_table_or_alloc`], keeps the
/// agreement with `m0` when the entry it may write is the excepted one or lies in a table
/// `m0` does not have.
proof fn lemma_agree_step(
    m0: Map<u64, Seq<u64>>,
    mk: Map<u64, Seq<u64>>,
    mk1: Map<u64, Seq<u64>>,
    t: u64,
    i: int,
    table: u64,
    idx: int,
    h: u64,
    iflags: u64,
    r: Result<u64, VmmError>,
)
    requires
        agree_except(m0, mk, t, i),
        forall|k: u64| #[trigger] m0.contains_key(k) ==> mk.contains_key(k),
        mk.contains_key(table),
        0 <= idx < mk[table].len(),
        present(entry_at(mk, table, idx)) || r is Err ==> mk1 == mk,
        !present(entry_at(mk, table, idx)) && r is Ok ==> {
            &&& !mk.contains_key(r->Ok_0)
            &&& mk1 == mk.insert(r->Ok_0, zero_table()).insert(
                table,
                mk[table].update(idx, ((r->Ok_0 - h) as u64) | iflags),
            )
        },
        !present(entry_at(mk, table, idx)) ==> (table == t && idx == i) || !m0.contains_key(table),
    ensures
        agree_except(m0, mk1, t, i),
        forall|k: u64| #[trigger] m0.contains_key(k) ==> mk1.contains_key(k),
{
    if !present(entry_at(mk, table, idx)) && r is Ok {
        lemma_agree_alloc(m0, mk, t, i, r->Ok_0, table, idx, ((r->Ok_0 - h) as u64) | iflags);
    }
}

/// Every table `m` has and `m0` does not is empty but for the entries the walk for `v` reads.
pub open spec fn new_tables_clean(m0: Map<u64, Seq<u64>>, m: Map<u64, Seq<u64>>, h: u64, root: u64, v: u64) -> bool {
    forall|t: u64, j: int|
        #![trigger entry_at(m, t, j)]
        m.contains_key(t) && !m0.contains_key(t) && 0 <= j < ENTRIES && !walk_reads(m, h, root, v, t, j)
            ==> entry_at(m, t, j) == 0
}

/// Every table `m` has and `m0` does not is empty but for the entries in `slots`.
spec fn clean_outside(m0: Map<u64, Seq<u64>>, m: Map<u64, Seq<u64>>, slots: Set<(u64, int)>) -> bool {
    forall|t: u64, j: int|
        #![trigger entry_at(m, t, j)]
        m.contains_key(t) && !m0.contains_key(t) && 0 <= j < ENTRIES && !slots.contains((t, j))
            ==> entry_at(m, t, j) == 0
}

/// A step of `map_page` through [`next_table_or_alloc`] creates, at most, an empty table and
/// fills the one entry it names.
proof fn lemma_clean_step(
    m0: Map<u64, Seq<u64>>,
    mk: Map<u64, Seq<u64>>,
    mk1: Map<u64, Seq<u64>>,
    slots: Set<(u64, int)>,
    table: u64,
    idx: int,
    h: u64,
    iflags: u64,
    r: Result<u64, VmmError>,
)
    requires
        clean_outside(m0, mk, slots),
        mk.contains_key(table),
        0 <= idx < mk[table].len(),
        present(entry_at(mk, table, idx)) || r is Err ==> mk1 == mk,
        !present(entry_at(mk, table, idx)) && r is Ok ==> {
            &&& !mk.contains_key(r->Ok_0)
            &&& mk1 == mk.insert(r->Ok_0, zero_table()).insert(
                table,
                mk[table].update(idx, ((r->Ok_0 - h) as u64) | iflags),
            )
        },
    ensures
        clean_outside(m0, mk1, slots.insert((table, idx))),
{
    let s2 = slots.insert((table, idx));
    assert forall|t: u64, j: int|
        mk1.contains_key(t) && !m0.contains_key(t) && 0 <= j < ENTRIES && !s2.contains((t, j)) implies #[trigger] entry_at(mk1, t, j) == 0 by {
        if !present(entry_at(mk, table, idx)) && r is Ok {
            let n = r->Ok_0;
            if t == n {
                assert(mk1[t] == zero_table());
            } else {
                assert(mk.contains_key(t));
                assert(entry_at(mk, t, j) == 0);
                if t == table {
                    assert(j != idx);
                }
            }
        } else {
            assert(entry_at(mk, t, j) == 0);
        }
    }
}

/// Filling one entry names it among the entries that may be filled.
proof fn lemma_clean_write(m0: Map<u64, Seq<u64>>, mk: Map<u64, Seq<u64>>, slots: Set<(u64, int)>, table: u64, idx: int, e: u64)
    requires
        clean_outside(m0, mk, slots),
        mk.contains_key(table),
        0 <= idx < mk[table].len(),
    ensures
        clean_outside(m0, mk.insert(table, mk[table].update(idx, e)), slots.insert((table, idx))),
{
    let m2 = mk.insert(table, mk[table].update(idx, e));
    let s2 = slots.insert((table, idx));
    assert forall|t: u64, j: int|
        m2.contains_key(t) && !m0.contains_key(t) && 0 <= j < ENTRIES && !s2.contains((t, j)) implies #[trigger] entry_at(m2, t, j) == 0 by {
        assert(entry_at(mk, t, j) == 0);
        if t == table {
            assert(j != idx);
        }
    }
}

/// Where every filled entry of a new table is one the walk for `v` reads, the new tables are
/// clean.
proof fn lemma_clean_final(m0: Map<u64, Seq<u64>>, m: Map<u64, Seq<u64>>, h: u64, root: u64, v: u64, slots: Set<(u64, int)>)
    requires
        clean_outside(m0, m, slots),
        forall|s: (u64, int)| #[trigger] slots.contains(s) && !m0.contains_key(s.0) ==> walk_reads(m, h, root, v, s.0, s.1),
    ensures
        new_tables_clean(m0, m, h, root, v),
{
    assert forall|t: u64, j: int|
        m.contains_key(t) && !m0.contains_key(t) && 0 <= j < ENTRIES && !walk_reads(m, h, root, v, t, j) implies #[trigger] entry_at(m, t, j) == 0 by {
        if slots.contains((t, j)) {
            assert(walk_reads(m, h, root, v, t, j));
        }
    }
}

/// Every table `m` has and `m0` does not holds at most one entry that is not zero, and that
/// entry is the one selecting `v` in a PDPT, a page directory or a page table.
pub open spec fn new_tables_sparse(m0: Map<u64, Seq<u64>>, m: Map<u64, Seq<u64>>, v: u64) -> bool {
    forall|t: u64, j: int, k: int|
        #![trigger entry_at(m, t, j), entry_at(m, t, k)]
        m.contains_key(t) && !m0.contains_key(t) && 0 <= j < ENTRIES && 0 <= k < ENTRIES
            && entry_at(m, t, j) != 0 && entry_at(m, t, k) != 0 ==> j == k && (j == table_index(
            v,
            3,
        ) || j == table_index(v, 2) || j == table_index(v, 1))
}

/// The index `v` selects in a table below the top level.
spec fn lower_index(v: u64, idx: int) -> bool {
    idx == table_index(v, 3) || idx == table_index(v, 2) || idx == table_index(v, 1)
}

/// Writing one entry keeps the new tables sparse where the table existed before or is still
/// empty and the entry is one of those selecting `v` below the top level.
proof fn lemma_sparse_write(m0: Map<u64, Seq<u64>>, mk: Map<u64, Seq<u64>>, v: u64, table: u64, idx: int, e: u64)
    requires
        new_tables_sparse(m0, mk, v),
        mk.contains_key(table),
        0 <= idx < mk[table].len(),
        m0.contains_key(table) || (mk[table] == zero_table() && lower_index(v, idx)),
    ensures
        new_tables_sparse(m0, mk.insert(table, mk[table].update(idx, e)), v),
{
    let m2 = mk.insert(table, mk[table].update(idx, e));
    assert forall|t: u64, j: int, k: int|
        m2.contains_key(t) && !m0.contains_key(t) && 0 <= j < ENTRIES && 0 <= k < ENTRIES
            && #[trigger] entry_at(m2, t, j) != 0 && #[trigger] entry_at(m2, t, k) != 0 implies j == k
        && lower_index(v, j) by {
        if t == table {
            assert(m2[t] == mk[table].update(idx, e));
            if j != idx {
                assert(entry_at(m2, t, j) == zero_table()[j]);
            }
            if k != idx {
                assert(entry_at(m2, t, k) == zero_table()[k]);
            }
        } else {
            assert(entry_at(m2, t, j) == entry_at(mk, t, j));
            assert(entry_at(m2, t, k) == entry_at(mk, t, k));
        }
    }
}

/// A step of `map_page` through [`next_table_or_alloc`] keeps the new tables sparse where
/// the entry it may fill lies in a table that existed before or is still empty, and is one
/// of those selecting `v` below the top level.
proof fn lemma_sparse_step(
    m0: Map<u64, Seq<u64>>,
    mk: Map<u64, Seq<u64>>,
    mk1: Map<u64, Seq<u64>>,
    v: u64,
    table: u64,
    idx: int,
    h: u64,
    iflags: u64,
    r: Result<u64, VmmError>,
)
    requires
        new_tables_sparse(m0, mk, v),
        mk.contains_key(table),
        0 <= idx < mk[table].len(),
        m0.contains_key(table) || (mk[table] == zero_table() && lower_index(v, idx)),
        present(entry_at(mk, table, idx)) || r is Err ==> mk1 == mk,
        !present(entry_at(mk, table, idx)) && r is Ok ==> {
            &&& !mk.contains_key(r->Ok_0)
            &&& mk1 == mk.insert(r->Ok_0, zero_table()).insert(
                table,
                mk[table].update(idx, ((r->Ok_0 - h) as u64) | iflags),
            )
        },
    ensures
        new_tables_sparse(m0, mk1, v),
{
    if !present(entry_at(mk, table, idx)) && r is Ok {
        let n = r->Ok_0;
        let mn = mk.insert(n, zero_table());
        assert forall|t: u64, j: int, k: int|
            mn.contains_key(t) && !m0.contains_key(t) && 0 <= j < ENTRIES && 0 <= k < ENTRIES
                && #[trigger] entry_at(mn, t, j) != 0 && #[trigger] entry_at(mn, t, k) != 0 implies j
            == k && lower_index(v, j) by {
            if t == n {
                assert(entry_at(mn, t, j) == zero_table()[j]);
            } else {
                assert(entry_at(mn, t, j) == entry_at(mk, t, j));
                assert(entry_at(mn, t, k) == entry_at(mk, t, k));
            }
        }
        assert(mn[table] == mk[table]);
        lemma_sparse_write(m0, mn, v, table, idx, ((n - h) as u64) | iflags);
    }
}

/// Where the tables agree with `m0` on every entry but the one `map_page` writes there,
/// every address whose walk in `m0` reads existing tables only and not that entry translates
/// as before.
proof fn lemma_map_frame(m0: Map<u64, Seq<u64>>, m: Map<u64, Seq<u64>>, h: u64, root: u64, v: u64, level: int)
    requires
        agree_except(m0, m, map_slot(m0, h, root, v, level).0, map_slot(m0, h, root, v, level).1),
    ensures
        forall|w: u64|
            walk_ok(m0, h, root, w) && !walk_reads(
                m0,
                h,
                root,
                w,
                map_slot(m0, h, root, v, level).0,
                map_slot(m0, h, root, v, level).1,
            ) ==> #[trigger] translation(m, h, root, w) == translation(m0, h, root, w),
{
    let s = map_slot(m0, h, root, v, level);
    assert forall|w: u64|
        walk_ok(m0, h, root, w) && !walk_reads(m0, h, root, w, s.0, s.1) implies #[trigger] translation(
        m,
        h,
        root,
        w,
    ) == translation(m0, h, root, w) by {
        lemma_agree_except_translation(m0, m, h, root, s.0, s.1, w);
    }
}

/// A canonical x86_64 address: bits 47 to 63 are all equal.
pub open spec fn canonical(a: u64) -> bool {
    a < 0x0000_8000_0000_0000 || a >= 0xffff_8000_0000_0000
}

/// The level of the table that holds [`map_slot`] (4 = PML4 .. 1 = page table).
pub open spec fn slot_level(m: Map<u64, Seq<u64>>, h: u64, root: u64, v: u64, level: int) -> int {
    if !present(pml4_entry(m, root, v)) {
        4
    } else if level == 3 || !present(pdpt_entry(m, h, root, v)) {
        3
    } else if level == 2 || !present(pd_entry(m, h, root, v)) {
        2
    } else {
        1
    }
}

/// Two canonical addresses with the same table indices from the PML4 down to the given
/// level lie in the same page of that level.
proof fn lemma_same_page(v: u64, w: u64, page_type: PageType)
    requires
        canonical(v),
        canonical(w),
        v % page_size(page_type) == 0,
        forall|k: int| leaf_level(page_type) <= k <= 4 ==> table_index(w, k) == table_index(v, k),
    ensures
        v <= w < v + page_size(page_type),
{
    assert(table_index(w, 4) == table_index(v, 4));
    assert(table_index(w, 3) == table_index(v, 3));
    match page_type {
        PageType::Normal => {
            assert(table_index(w, 2) == table_index(v, 2));
            assert(table_index(w, 1) == table_index(v, 1));
            assert((w >> 39u64) & 0x1ffu64 == (v >> 39u64) & 0x1ffu64 && (w >> 30u64) & 0x1ffu64 == (v
                >> 30u64) & 0x1ffu64 && (w >> 21u64) & 0x1ffu64 == (v >> 21u64) & 0x1ffu64 && (w >> 12u64)
                & 0x1ffu64 == (v >> 12u64) & 0x1ffu64 && v % 4096 == 0 && (v < 0x0000_8000_0000_0000u64
                || v >= 0xffff_8000_0000_0000u64) && (w < 0x0000_8000_0000_0000u64 || w
                >= 0xffff_8000_0000_0000u64) ==> v <= w && w - v < 4096) by (bit_vector);
        },
        PageType::HugePage2MiB => {
            assert(table_index(w, 2) == table_index(v, 2));
            assert((w >> 39u64) & 0x1ffu64 == (v >> 39u64) & 0x1ffu64 && (w >> 30u64) & 0x1ffu64 == (v
                >> 30u64) & 0x1ffu64 && (w >> 21u64) & 0x1ffu64 == (v >> 21u64) & 0x1ffu64 && v
                % 0x20_0000 == 0 && (v < 0x0000_8000_0000_0000u64 || v >= 0xffff_8000_0000_0000u64) && (w
                < 0x0000_8000_0000_0000u64 || w >= 0xffff_8000_0000_0000u64) ==> v <= w && w - v
                < 0x20_0000) by (bit_vector);
        },
        PageType::HugePage1GiB => {
            assert((w >> 39u64) & 0x1ffu64 == (v >> 39u64) & 0x1ffu64 && (w >> 30u64) & 0x1ffu64 == (v
                >> 30u64) & 0x1ffu64 && v % 0x4000_0000 == 0 && (v < 0x0000_8000_0000_0000u64 || v
                >= 0xffff_8000_0000_0000u64) && (w < 0x0000_8000_0000_0000u64 || w
                >= 0xffff_8000_0000_0000u64) ==> v <= w && w - v < 0x4000_0000) by (bit_vector);
        },
    }
}

/// In a tree of tables, an address whose walk reads the entry [`map_slot`] names shares the
/// table indices of `v` from the PML4 down to the level of that entry.
proof fn lemma_tree_reads_slot(m: Map<u64, Seq<u64>>, h: u64, root: u64, lv: Map<u64, int>, v: u64, w: u64, level: int)
    requires
        sound_with(m, h, root, lv),
        links_unique(m, h, lv),
        1 <= level <= 3,
        map_walk_ok(m, h, root, v, level),
        walk_reads(m, h, root, w, map_slot(m, h, root, v, level).0, map_slot(m, h, root, v, level).1),
    ensures
        forall|k: int| slot_level(m, h, root, v, level) <= k <= 4 ==> table_index(w, k) == table_index(v, k),
{
    lemma_walk_levels(m, h, root, lv, v);
    lemma_walk_levels(m, h, root, lv, w);
    lemma_table_index_bound(v);
    lemma_table_index_bound(w);
    let sl = slot_level(m, h, root, v, level);
    let e4v = pml4_entry(m, root, v);
    let e4w = pml4_entry(m, root, w);
    let e3v = pdpt_entry(m, h, root, v);
    let e3w = pdpt_entry(m, h, root, w);
    let e2v = pd_entry(m, h, root, v);
    let e2w = pd_entry(m, h, root, w);
    assert(e4v == entry_at(m, root, table_index(v, 4)));
    assert(e4w == entry_at(m, root, table_index(w, 4)));
    assert(entry_fits(m, h, lv, 4, e4v));
    assert(entry_fits(m, h, lv, 4, e4w));
    if sl <= 3 {
        assert(lv[pdpt_table(m, h, root, v)] == 3);
        assert(e3v == entry_at(m, pdpt_table(m, h, root, v), table_index(v, 3)));
        if present(e4w) {
            assert(e3w == entry_at(m, pdpt_table(m, h, root, w), table_index(w, 3)));
        }
    }
    if sl <= 2 {
        assert(!huge(e3v));
        assert(lv[pd_table(m, h, root, v)] == 2);
        assert(e2v == entry_at(m, pd_table(m, h, root, v), table_index(v, 2)));
        if present(e4w) && present(e3w) && !huge(e3w) {
            assert(e2w == entry_at(m, pd_table(m, h, root, w), table_index(w, 2)));
        }
    }
    if sl <= 1 {
        assert(!huge(e2v));
        assert(lv[pt_table(m, h, root, v)] == 1);
    }
    // The entry read at the slot's table is the one at `w`'s index of the slot's level.
    if sl == 4 {
        assert(table_index(w, 4) == table_index(v, 4));
    } else if sl == 3 {
        assert(present(e4w) && pdpt_table(m, h, root, w) == pdpt_table(m, h, root, v));
        assert(table_index(w, 3) == table_index(v, 3));
        assert(table_index(w, 4) == table_index(v, 4));
    } else if sl == 2 {
        assert(present(e4w) && present(e3w) && !huge(e3w) && pd_table(m, h, root, w) == pd_table(m, h, root, v));
        assert(table_index(w, 2) == table_index(v, 2));
        assert(pdpt_table(m, h, root, w) == pdpt_table(m, h, root, v) && table_index(w, 3) == table_index(v, 3));
        assert(table_index(w, 4) == table_index(v, 4));
    } else {
        assert(present(e4w) && present(e3w) && !huge(e3w) && present(e2w) && !huge(e2w) && pt_table(m, h, root, w) == pt_table(m, h, root, v));
        assert(table_index(w, 1) == table_index(v, 1));
        assert(pd_table(m, h, root, w) == pd_table(m, h, root, v) && table_index(w, 2) == table_index(v, 2));
        assert(pdpt_table(m, h, root, w) == pdpt_table(m, h, root, v) && table_index(w, 3) == table_index(v, 3));
        assert(table_index(w, 4) == table_index(v, 4));
    }
}

/// An entry of a new table at another index than the one of `v` at the table's level is
/// empty, where the new tables are clean.
proof fn lemma_new_table_off_path(
    m0: Map<u64, Seq<u64>>,
    m: Map<u64, Seq<u64>>,
    h: u64,
    root: u64,
    lv: Map<u64, int>,
    v: u64,
    t: u64,
    d: int,
    j: int,
)
    requires
        sound_with(m, h, root, lv),
        new_tables_clean(m0, m, h, root, v),
        lv.contains_key(t),
        lv[t] == d,
        1 <= d <= 3,
        !m0.contains_key(t),
        0 <= j < 512,
        j != table_index(v, d),
    ensures
        entry_at(m, t, j) == 0,
{
    lemma_walk_levels(m, h, root, lv, v);
    assert(m.contains_key(t));
    assert(!walk_reads(m, h, root, v, t, j));
}

/// In a tree of tables, mapping the page at `v` changes the translation of no canonical
/// address outside that page.
proof fn lemma_map_frame_tree(
    m0: Map<u64, Seq<u64>>,
    m: Map<u64, Seq<u64>>,
    h: u64,
    root: u64,
    v: u64,
    page_type: PageType,
    phys: u64,
    w: u64,
)
    requires
        tables_tree(m0, h, root),
        tables_sound(m, h, root),
        map_walk_ok(m0, h, root, v, leaf_level(page_type)),
        agree_except(
            m0,
            m,
            map_slot(m0, h, root, v, leaf_level(page_type)).0,
            map_slot(m0, h, root, v, leaf_level(page_type)).1,
        ),
        new_tables_clean(m0, m, h, root, v),
        translation(m, h, root, v) == Some((phys, page_size(page_type))),
        !present(pml4_entry(m0, root, v)) ==> !m0.contains_key(pdpt_table(m, h, root, v)),
        leaf_level(page_type) <= 2 && !(present(pml4_entry(m0, root, v)) && present(pdpt_entry(m0, h, root, v)))
            ==> !m0.contains_key(pd_table(m, h, root, v)),
        leaf_level(page_type) <= 1 && !(present(pml4_entry(m0, root, v)) && present(pdpt_entry(m0, h, root, v))
            && present(pd_entry(m0, h, root, v))) ==> !m0.contains_key(pt_table(m, h, root, v)),
        canonical(v),
        canonical(w),
        v % page_size(page_type) == 0,
        !(v <= w < v + page_size(page_type)),
    ensures
        translation(m, h, root, w) == translation(m0, h, root, w),
{
    let l = leaf_level(page_type);
    let lv0 = choose|lv0: Map<u64, int>| sound_with(m0, h, root, lv0) && links_unique(m0, h, lv0);
    let lv = choose|lv: Map<u64, int>| sound_with(m, h, root, lv);
    lemma_zero_entry();
    lemma_sound_walks(m0, h, root, lv0, w);
    lemma_table_index_bound(v);
    lemma_table_index_bound(w);
    let sl = map_slot(m0, h, root, v, l);
    if !walk_reads(m0, h, root, w, sl.0, sl.1) {
        lemma_agree_except_translation(m0, m, h, root, sl.0, sl.1, w);
        return;
    }
    lemma_tree_reads_slot(m0, h, root, lv0, v, w, l);
    let s = slot_level(m0, h, root, v, l);
    if s == l || (forall|k: int| l <= k <= 4 ==> table_index(w, k) == table_index(v, k)) {
        lemma_same_page(v, w, page_type);
        assert(false);
    }
    // The slot's entry was empty, so `w` did not translate before.
    assert(translation(m0, h, root, w) is None) by {
        assert(table_index(w, 4) == table_index(v, 4));
        assert(pml4_entry(m0, root, w) == pml4_entry(m0, root, v));
        if s <= 3 {
            assert(table_index(w, 3) == table_index(v, 3));
            assert(pdpt_entry(m0, h, root, w) == pdpt_entry(m0, h, root, v));
        }
        if s <= 2 {
            assert(table_index(w, 2) == table_index(v, 2));
            assert(pd_entry(m0, h, root, w) == pd_entry(m0, h, root, v));
        }
    }
    // Below the slot, `w` leaves the path of `v` in a new table at an empty entry.
    lemma_walk_levels(m, h, root, lv, v);
    let e4 = pml4_entry(m, root, v);
    let e3 = pdpt_entry(m, h, root, v);
    let e2 = pd_entry(m, h, root, v);
    assert(present(e4));
    assert(table_index(w, 4) == table_index(v, 4));
    assert(pml4_entry(m, root, w) == e4);
    let t3 = pdpt_table(m, h, root, v);
    assert(pdpt_table(m, h, root, w) == t3);
    if table_index(w, 3) != table_index(v, 3) {
        assert(s == 4);
        lemma_new_table_off_path(m0, m, h, root, lv, v, t3, 3, table_index(w, 3));
        assert(!present(pdpt_entry(m, h, root, w)));
        return;
    }
    assert(l <= 2);
    assert(present(e3) && !huge(e3));
    assert(pdpt_entry(m, h, root, w) == e3);
    let t2 = pd_table(m, h, root, v);
    assert(pd_table(m, h, root, w) == t2);
    if table_index(w, 2) != table_index(v, 2) {
        assert(s >= 3);
        lemma_new_table_off_path(m0, m, h, root, lv, v, t2, 2, table_index(w, 2));
        assert(!present(pd_entry(m, h, root, w)));
        return;
    }
    assert(l == 1);
    assert(present(e2) && !huge(e2));
    assert(pd_entry(m, h, root, w) == e2);
    let t1 = pt_table(m, h, root, v);
    assert(pt_table(m, h, root, w) == t1);
    assert(table_index(w, 1) != table_index(v, 1));
    assert(s >= 2);
    lemma_new_table_off_path(m0, m, h, root, lv, v, t1, 1, table_index(w, 1));
    assert(!present(pt_entry(m, h, root, w)));
}

impl Vmm {
    /// Whether `mem` holds every table the walk `map_page` makes for a page of the given
    /// type at `virt` reads, with no huge entry to follow on the way: what mapping it needs.
    pub fn can_map_page(mem: &PageTableMemory, page_ptr: u64, virt: u64, page_type: PageType) -> (r: bool)
        requires
            mem.wf(),
        ensures
            r == map_walk_ok(mem.tables(), mem.hhdm(), page_ptr, virt, leaf_level(page_type)),
    {
        let h = mem.hhdm_offset();
        if !mem.has_table(page_ptr) {
            return false;
        }
        let e4 = mem.read(page_ptr, entry_index(virt, 4));
        if !is_present(e4) {
            return true;
        }
        if is_huge_page(e4) {
            return false;
        }
        let t3 = advance_current_pagetable(e4, h);
        if !mem.has_table(t3) {
            return false;
        }
        if let PageType::HugePage1GiB = page_type {
            return true;
        }
        let e3 = mem.read(t3, entry_index(virt, 3));
        if !is_present(e3) {
            return true;
        }
        if is_huge_page(e3) {
            return false;
        }
        let t2 = advance_current_pagetable(e3, h);
        if !mem.has_table(t2) {
            return false;
        }
        if let PageType::HugePage2MiB = page_type {
            return true;
        }
        let e2 = mem.read(t2, entry_index(virt, 2));
        if !is_present(e2) {
            return true;
        }
        if is_huge_page(e2) {
            return false;
        }
        mem.has_table(advance_current_pagetable(e2, h))
    }
}

impl Vmm {
    /// Map the page of the given type at `virt` to `phys` with `flags` (`PRESENT` is always
    /// added, and `HUGE_PAGE` for huge pages), creating the missing intermediate tables with
    /// `PRESENT | WRITABLE` and the `USER_ACCESSIBLE` bit of `flags`.
    ///
    /// Of the tables that existed, only the entry [`map_slot`] names changes; every table it
    /// creates holds one non-empty entry at most. Where the tables form a tree, no canonical address
    /// outside the page changes its translation.
    ///
    /// Returns [`VmmError::OutOfMemory`] if the PMM has fewer frames than tables are missing;
    /// the tables created before it ran out stay in place.
    #[verifier::spinoff_prover]
    #[verifier::rlimit(100)]
    pub fn map_page(
        pmm: &mut Pmm,
        mem: &mut PageTableMemory,
        page_ptr: u64,
        virt: u64,
        phys: u64,
        page_type: PageType,
        flags: u64,
    ) -> (r: Result<(), VmmError>)
        requires
            old(pmm).wf(),
            old(mem).wf(),
            frames_owned(old(mem).tables(), old(mem).hhdm(), old(pmm)@),
            virt % page_size(page_type) == 0,
            phys % page_size(page_type) == 0,
            phys < PHYS_LIMIT,
            flags & ADDRESS_MASK == 0,
            page_type == PageType::Normal ==> flags & HUGE_PAGE == 0,
            map_walk_ok(
                old(mem).tables(),
                old(mem).hhdm(),
                page_ptr,
                virt,
                leaf_level(page_type),
            ),
        ensures
            final(pmm).wf(),
            final(mem).wf(),
            final(mem).hhdm() == old(mem).hhdm(),
            frames_owned(final(mem).tables(), final(mem).hhdm(), final(pmm)@),
            forall|f: int| #[trigger] is_free(final(pmm)@, f) ==> is_free(old(pmm)@, f),
            forall|k: u64| #[trigger]
                old(mem).tables().contains_key(k) ==> final(mem).tables().contains_key(k),
            new_tables_sparse(old(mem).tables(), final(mem).tables(), virt),
            agree_except(
                old(mem).tables(),
                final(mem).tables(),
                map_slot(old(mem).tables(), old(mem).hhdm(), page_ptr, virt, leaf_level(page_type)).0,
                map_slot(old(mem).tables(), old(mem).hhdm(), page_ptr, virt, leaf_level(page_type)).1,
            ),
            r is Ok <==> tables_needed(
                old(mem).tables(),
                old(mem).hhdm(),
                page_ptr,
                virt,
                leaf_level(page_type),
            ) * 4096 <= free_bytes(old(pmm)@),
            r is Err ==> r == Err::<(), VmmError>(VmmError::OutOfMemory),
            r is Ok ==> free_bytes(final(pmm)@) == free_bytes(old(pmm)@) - tables_needed(
                old(mem).tables(),
                old(mem).hhdm(),
                page_ptr,
                virt,
                leaf_level(page_type),
            ) * 4096,
            r is Ok && path_distinct_to(
                old(mem).tables(),
                old(mem).hhdm(),
                page_ptr,
                virt,
                leaf_level(page_type),
            ) ==> translation(final(mem).tables(), final(mem).hhdm(), page_ptr, virt) == Some(
                (phys, page_size(page_type)),
            ),
            tables_sound(old(mem).tables(), old(mem).hhdm(), page_ptr) ==> tables_sound(
                final(mem).tables(),
                final(mem).hhdm(),
                page_ptr,
            ),
            r is Ok && tables_sound(old(mem).tables(), old(mem).hhdm(), page_ptr) ==> translation(
                final(mem).tables(),
                final(mem).hhdm(),
                page_ptr,
                virt,
            ) == Some((phys, page_size(page_type))),
            r is Ok && (path_distinct_to(
                old(mem).tables(),
                old(mem).hhdm(),
                page_ptr,
                virt,
                leaf_level(page_type),
            ) || tables_sound(old(mem).tables(), old(mem).hhdm(), page_ptr)) ==> {
                let m0 = old(mem).tables();
                let m = final(mem).tables();
                let h = old(mem).hhdm();
                let level = leaf_level(page_type);
                &&& entry_of_level(m, h, page_ptr, virt, level) == mapped_entry(phys, flags, page_type)
                &&& linked_entry(pml4_entry(m0, page_ptr, virt), pml4_entry(m, page_ptr, virt), pdpt_table(m, h, page_ptr, virt), h, flags)
                &&& level <= 2 ==> linked_entry(
                    if present(pml4_entry(m0, page_ptr, virt)) { pdpt_entry(m0, h, page_ptr, virt) } else { 0 },
                    pdpt_entry(m, h, page_ptr, virt),
                    pd_table(m, h, page_ptr, virt),
                    h,
                    flags,
                )
                &&& level <= 1 ==> linked_entry(
                    if present(pml4_entry(m0, page_ptr, virt)) && present(pdpt_entry(m0, h, page_ptr, virt)) {
                        pd_entry(m0, h, page_ptr, virt)
                    } else {
                        0
                    },
                    pd_entry(m, h, page_ptr, virt),
                    pt_table(m, h, page_ptr, virt),
                    h,
                    flags,
                )
                &&& !present(pml4_entry(m0, page_ptr, virt)) ==> !m0.contains_key(pdpt_table(m, h, page_ptr, virt))
                &&& level <= 2 && !(present(pml4_entry(m0, page_ptr, virt)) && present(
                    pdpt_entry(m0, h, page_ptr, virt),
                )) ==> !m0.contains_key(pd_table(m, h, page_ptr, virt))
                &&& level <= 1 && !(present(pml4_entry(m0, page_ptr, virt)) && present(
                    pdpt_entry(m0, h, page_ptr, virt),
                ) && present(pd_entry(m0, h, page_ptr, virt))) ==> !m0.contains_key(pt_table(m, h, page_ptr, virt))
            },
            r is Ok && (path_distinct_to(
                old(mem).tables(),
                old(mem).hhdm(),
                page_ptr,
                virt,
                leaf_level(page_type),
            ) || tables_sound(old(mem).tables(), old(mem).hhdm(), page_ptr)) ==> new_tables_clean(
                old(mem).tables(),
                final(mem).tables(),
                old(mem).hhdm(),
                page_ptr,
                virt,
            ),
            r is Ok && tables_tree(old(mem).tables(), old(mem).hhdm(), page_ptr) && canonical(virt)
                ==> forall|w: u64|
                #![trigger translation(final(mem).tables(), final(mem).hhdm(), page_ptr, w)]
                canonical(w) && !(virt <= w < virt + page_size(page_type)) ==> translation(
                    final(mem).tables(),
                    final(mem).hhdm(),
                    page_ptr,
                    w,
                ) == translation(old(mem).tables(), old(mem).hhdm(), page_ptr, w),
            forall|w: u64|
                walk_ok(old(mem).tables(), old(mem).hhdm(), page_ptr, w) && !walk_reads(
                    old(mem).tables(),
                    old(mem).hhdm(),
                    page_ptr,
                    w,
                    map_slot(old(mem).tables(), old(mem).hhdm(), page_ptr, virt, leaf_level(page_type)).0,
                    map_slot(old(mem).tables(), old(mem).hhdm(), page_ptr, virt, leaf_level(page_type)).1,
                ) ==> #[trigger] translation(final(mem).tables(), final(mem).hhdm(), page_ptr, w)
                    == translation(old(mem).tables(), old(mem).hhdm(), page_ptr, w),
    {
        let h = mem.hhdm_offset();
        let ghost m0 = mem.tables();
        let ghost p0 = pmm@;
        let ghost sound0 = tables_sound(m0, h, page_ptr);
        let ghost level = leaf_level(page_type);
        let ghost sl = map_slot(m0, h, page_ptr, virt, level);
        let ghost mut lv: Map<u64, int> = choose|lv: Map<u64, int>| sound_with(m0, h, page_ptr, lv);
        proof {
            if sound0 {
                lemma_sound_walks(m0, h, page_ptr, lv, virt);
            }
        }
        let iflags = PRESENT | WRITABLE | (flags & USER_ACCESSIBLE);
        proof {
            assert((flags & 0x000f_ffff_ffff_f000u64 == 0 ==> (1u64 | 2u64 | (flags & 4u64))
                & 0x000f_ffff_ffff_f000u64 == 0) && (1u64 | 2u64 | (flags & 4u64)) & 1u64 != 0 && (
            1u64 | 2u64 | (flags & 4u64)) & 0x80u64 == 0) by (bit_vector);
            lemma_zero_entry();
            lemma_bytes_below_zero(p0, NUM_ORDERS as int);
            assert((virt % 0x4000_0000 == 0 ==> virt & 0x3fff_ffffu64 == 0) && (virt % 0x20_0000
                == 0 ==> virt & 0x1f_ffffu64 == 0) && (virt % 4096 == 0 ==> virt & 0xfffu64 == 0)
                && (phys % 0x4000_0000 == 0 ==> phys % 4096 == 0) && (phys % 0x20_0000 == 0
                ==> phys % 4096 == 0)) by (bit_vector);
            lemma_new_entry(phys, flags);
        }
        let i4 = entry_index(virt, 4);
        let r4 = next_table_or_alloc(pmm, mem, page_ptr, i4, iflags);
        proof {
            assert(agree_except(m0, m0, sl.0, sl.1));
            lemma_agree_step(m0, m0, mem.tables(), sl.0, sl.1, page_ptr, i4 as int, h, iflags, r4);
            lemma_map_frame(m0, mem.tables(), h, page_ptr, virt, level);
            assert(new_tables_sparse(m0, m0, virt));
            lemma_sparse_step(m0, m0, mem.tables(), virt, page_ptr, i4 as int, h, iflags, r4);
        }
        let t3 = match r4 {
            Ok(t) => t,
            Err(e) => {
                proof {
                    if sound0 {
                        assert(sound_with(mem.tables(), h, page_ptr, lv));
                    }
                }
                return Err(e);
            },
        };
        let ghost m1 = mem.tables();
        let ghost s1 = Set::<(u64, int)>::empty().insert((page_ptr, i4 as int));
        proof {
            assert(clean_outside(m0, m0, Set::<(u64, int)>::empty()));
            lemma_clean_step(m0, m0, m1, Set::<(u64, int)>::empty(), page_ptr, i4 as int, h, iflags, r4);
            assert(iflags == table_entry_flags(flags));
            assert(linked_entry(pml4_entry(m0, page_ptr, virt), entry_at(m1, page_ptr, i4 as int), t3, h, flags));
            if sound0 {
                assert(path_distinct_to(m0, h, page_ptr, virt, level));
            }
            if m0.contains_key(t3) {
                assert(present(pml4_entry(m0, page_ptr, virt)));
                assert(m1 == m0);
                assert(t3 == pdpt_table(m0, h, page_ptr, virt));
            }
        }
        let ghost p1 = pmm@;
        proof {
            lemma_bytes_below_zero(p1, NUM_ORDERS as int);
            if sound0 {
                lv = lemma_sound_step(m0, m1, h, page_ptr, lv, page_ptr, i4 as int, t3, entry_at(m1, page_ptr, i4 as int));
            }
        }
        let i3 = entry_index(virt, 3);
        proof {
            if !m0.contains_key(t3) {
                assert(m1[t3] == zero_table());
            }
        }
        if let PageType::HugePage1GiB = page_type {
            mem.write(t3, i3, phys | flags | PRESENT | HUGE_PAGE);
            proof {
                lemma_sparse_write(m0, m1, virt, t3, i3 as int, phys | flags | PRESENT | HUGE_PAGE);
                lemma_clean_write(m0, m1, s1, t3, i3 as int, phys | flags | PRESENT | HUGE_PAGE);
                lemma_agree_write(m0, m1, sl.0, sl.1, t3, i3 as int, phys | flags | PRESENT | HUGE_PAGE);
                lemma_map_frame(m0, mem.tables(), h, page_ptr, virt, level);
                if sound0 {
                    lemma_sound_write(m1, h, page_ptr, lv, t3, i3 as int, phys | flags | PRESENT | HUGE_PAGE);
                }
                let m = mem.tables();
                if path_distinct_to(m0, h, page_ptr, virt, 3) {
                    assert(pml4_entry(m, page_ptr, virt) == pml4_entry(m1, page_ptr, virt));
                    assert(pdpt_table(m, h, page_ptr, virt) == t3);
                    assert(pdpt_entry(m, h, page_ptr, virt) == phys | flags | PRESENT | HUGE_PAGE);
                    lemma_clean_final(m0, m, h, page_ptr, virt, s1.insert((t3, i3 as int)));
                }
            }
            proof {
                if tables_tree(m0, h, page_ptr) && canonical(virt) {
                    let mf = mem.tables();
                    assert(sound_with(mf, h, page_ptr, lv));
                    assert(new_tables_clean(m0, mf, h, page_ptr, virt));
                    assert(translation(mf, h, page_ptr, virt) == Some((phys, page_size(page_type))));
                    assert forall|w: u64| canonical(w) && !(virt <= w < virt + page_size(page_type)) implies #[trigger] translation(
                        mf,
                        h,
                        page_ptr,
                        w,
                    ) == translation(m0, h, page_ptr, w) by {
                        lemma_map_frame_tree(m0, mf, h, page_ptr, virt, page_type, phys, w);
                    }
                }
            }
            return Ok(());
        }
        proof {
            if !m0.contains_key(t3) {
                assert(m1[t3] == zero_table());
                assert(entry_at(m1, t3, i3 as int) == 0);
            }
        }
        let r3 = next_table_or_alloc(pmm, mem, t3, i3, iflags);
        proof {
            lemma_agree_step(m0, m1, mem.tables(), sl.0, sl.1, t3, i3 as int, h, iflags, r3);
            lemma_map_frame(m0, mem.tables(), h, page_ptr, virt, level);
            lemma_sparse_step(m0, m1, mem.tables(), virt, t3, i3 as int, h, iflags, r3);
        }
        let t2 = match r3 {
            Ok(t) => t,
            Err(e) => {
                proof {
                    if sound0 {
                        assert(sound_with(mem.tables(), h, page_ptr, lv));
                    }
                }
                return Err(e);
            },
        };
        let ghost m2 = mem.tables();
        proof {
            assert(linked_entry(entry_at(m1, t3, i3 as int), entry_at(m2, t3, i3 as int), t2, h, flags));
            assert(entry_at(m1, t3, i3 as int) == (if present(pml4_entry(m0, page_ptr, virt)) { pdpt_entry(m0, h, page_ptr, virt) } else { 0 }));
            if m0.contains_key(t2) {
                assert(m0.contains_key(t3));
                assert(m2 == m0);
                assert(present(pdpt_entry(m0, h, page_ptr, virt)));
                assert(t2 == pd_table(m0, h, page_ptr, virt));
            }
        }
        let ghost p2 = pmm@;
        proof {
            lemma_bytes_below_zero(p2, NUM_ORDERS as int);
            if sound0 {
                lv = lemma_sound_step(m1, m2, h, page_ptr, lv, t3, i3 as int, t2, entry_at(m2, t3, i3 as int));
            }
        }
        let i2 = entry_index(virt, 2);
        proof {
            if !m0.contains_key(t2) {
                assert(m2[t2] == zero_table());
            }
        }
        if let PageType::HugePage2MiB = page_type {
            mem.write(t2, i2, phys | flags | PRESENT | HUGE_PAGE);
            proof {
                lemma_sparse_write(m0, m2, virt, t2, i2 as int, phys | flags | PRESENT | HUGE_PAGE);
                lemma_agree_write(m0, m2, sl.0, sl.1, t2, i2 as int, phys | flags | PRESENT | HUGE_PAGE);
                lemma_map_frame(m0, mem.tables(), h, page_ptr, virt, level);
                if sound0 {
                    lemma_sound_write(m2, h, page_ptr, lv, t2, i2 as int, phys | flags | PRESENT | HUGE_PAGE);
                }
                let m = mem.tables();
                if path_distinct_to(m0, h, page_ptr, virt, 2) {
                    assert(t3 != page_ptr);
                    assert(t2 != page_ptr && t2 != t3);
                    assert(pml4_entry(m, page_ptr, virt) == pml4_entry(m1, page_ptr, virt));
                    assert(pdpt_table(m, h, page_ptr, virt) == t3);
                    assert(pdpt_entry(m, h, page_ptr, virt) == entry_at(m2, t3, i3 as int));
                    assert(pd_table(m, h, page_ptr, virt) == t2);
                    assert(pd_entry(m, h, page_ptr, virt) == phys | flags | PRESENT | HUGE_PAGE);
                }
            }
            proof {
                if tables_tree(m0, h, page_ptr) && canonical(virt) {
                    let mf = mem.tables();
                    assert(sound_with(mf, h, page_ptr, lv));
                    assert(new_tables_clean(m0, mf, h, page_ptr, virt));
                    assert(translation(mf, h, page_ptr, virt) == Some((phys, page_size(page_type))));
                    assert forall|w: u64| canonical(w) && !(virt <= w < virt + page_size(page_type)) implies #[trigger] translation(
                        mf,
                        h,
                        page_ptr,
                        w,
                    ) == translation(m0, h, page_ptr, w) by {
                        lemma_map_frame_tree(m0, mf, h, page_ptr, virt, page_type, phys, w);
                    }
                }
            }
            return Ok(());
        }
        proof {
            if !m0.contains_key(t2) {
                assert(m2[t2] == zero_table());
                assert(entry_at(m2, t2, i2 as int) == 0);
            }
        }
        let r2 = next_table_or_alloc(pmm, mem, t2, i2, iflags);
        proof {
            lemma_agree_step(m0, m2, mem.tables(), sl.0, sl.1, t2, i2 as int, h, iflags, r2);
            lemma_map_frame(m0, mem.tables(), h, page_ptr, virt, level);
            lemma_sparse_step(m0, m2, mem.tables(), virt, t2, i2 as int, h, iflags, r2);
        }
        let t1 = match r2 {
            Ok(t) => t,
            Err(e) => {
                proof {
                    if sound0 {
                        assert(sound_with(mem.tables(), h, page_ptr, lv));
                    }
                }
                return Err(e);
            },
        };
        let i1 = entry_index(virt, 1);
        let ghost m3 = mem.tables();
        proof {
            assert(linked_entry(entry_at(m2, t2, i2 as int), entry_at(m3, t2, i2 as int), t1, h, flags));
            assert(entry_at(m2, t2, i2 as int) == (if present(pml4_entry(m0, page_ptr, virt)) && present(pdpt_entry(m0, h, page_ptr, virt)) { pd_entry(m0, h, page_ptr, virt) } else { 0 }));
            if sound0 {
                lv = lemma_sound_step(m2, m3, h, page_ptr, lv, t2, i2 as int, t1, entry_at(m3, t2, i2 as int));
            }
            lemma_bytes_below_zero(pmm@, NUM_ORDERS as int);
            if present(pml4_entry(m0, page_ptr, virt)) {
                assert(m1 == m0);
                if present(pdpt_entry(m0, h, page_ptr, virt)) {
                    assert(m2 == m0);
                }
            }
        }
        proof {
            if m0.contains_key(t1) {
                assert(m0.contains_key(t2));
                assert(m3 == m0);
                assert(present(pd_entry(m0, h, page_ptr, virt)));
                assert(t1 == pt_table(m0, h, page_ptr, virt));
            } else {
                assert(m3[t1] == zero_table());
            }
        }
        mem.write(t1, i1, phys | flags | PRESENT);
        proof {
            lemma_sparse_write(m0, m3, virt, t1, i1 as int, phys | flags | PRESENT);
            lemma_agree_write(m0, m3, sl.0, sl.1, t1, i1 as int, phys | flags | PRESENT);
            lemma_map_frame(m0, mem.tables(), h, page_ptr, virt, level);
            if sound0 {
                lemma_sound_write(m3, h, page_ptr, lv, t1, i1 as int, phys | flags | PRESENT);
            }
            let m = mem.tables();
            if path_distinct_to(m0, h, page_ptr, virt, 1) {
                assert(t3 != page_ptr);
                assert(t2 != page_ptr && t2 != t3);
                assert(t1 != page_ptr && t1 != t3 && t1 != t2);
                assert(pml4_entry(m, page_ptr, virt) == pml4_entry(m1, page_ptr, virt));
                assert(pdpt_table(m, h, page_ptr, virt) == t3);
                assert(pdpt_entry(m, h, page_ptr, virt) == entry_at(m2, t3, i3 as int));
                assert(pd_table(m, h, page_ptr, virt) == t2);
                assert(pd_entry(m, h, page_ptr, virt) == entry_at(m3, t2, i2 as int));
                assert(pt_table(m, h, page_ptr, virt) == t1);
                assert(pt_entry(m, h, page_ptr, virt) == phys | flags | PRESENT);
            }
        }
        proof {
            if tables_tree(m0, h, page_ptr) && canonical(virt) {
                let mf = mem.tables();
                assert(sound_with(mf, h, page_ptr, lv));
                assert(new_tables_clean(m0, mf, h, page_ptr, virt));
                assert(translation(mf, h, page_ptr, virt) == Some((phys, page_size(page_type))));
                assert forall|w: u64| canonical(w) && !(virt <= w < virt + page_size(page_type)) implies #[trigger] translation(
                    mf,
                    h,
                    page_ptr,
                    w,
                ) == translation(m0, h, page_ptr, w) by {
                    lemma_map_frame_tree(m0, mf, h, page_ptr, virt, page_type, phys, w);
                }
            }
        }
        Ok(())
    }
}

} // verus!
