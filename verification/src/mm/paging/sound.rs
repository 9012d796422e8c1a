//! The four-level shape of the page tables, which every operation keeps.

use super::entry::{ENTRIES, entry_at, huge, lemma_table_index_bound, lemma_zero_entry, next_table, present};
use super::memory::zero_table;
use super::root::kernel_half;
use super::walk::{leaf_entry, leaf_index, leaf_table, path_distinct_to, pd_entry, pd_table, pdpt_entry, pdpt_table, pml4_entry, pt_entry, pt_table, same_shape, tables_ok, translation, walk_ok};
use vstd::prelude::*;

verus! {

/// Entry `e` may stand in a table of level `level` (4 = PML4 .. 1 = page table) when the
/// tables have the levels `lv`: a present entry of the PML4 is not huge and points to a
/// PDPT, a present entry of a PDPT or page directory is huge or points to a table one
/// level down, and a present entry of a page table is not huge.
pub open spec fn entry_fits(m: Map<u64, Seq<u64>>, h: u64, lv: Map<u64, int>, level: int, e: u64) -> bool {
    present(e) ==> {
        &&& (level == 4 || level == 1) ==> !huge(e)
        &&& (level >= 2 && !huge(e)) ==> {
            &&& m.contains_key(next_table(e, h))
            &&& lv.contains_key(next_table(e, h))
            &&& lv[next_table(e, h)] == level - 1
        }
    }
}

/// The tables reachable from `root` form a four-level hierarchy with the levels `lv`: the
/// root is a PML4, every table with a level exists, and every entry fits its table's level.
pub open spec fn sound_with(m: Map<u64, Seq<u64>>, h: u64, root: u64, lv: Map<u64, int>) -> bool {
    &&& lv.contains_key(root)
    &&& lv[root] == 4
    &&& forall|t: u64|
        #![trigger lv.contains_key(t)]
        lv.contains_key(t) ==> {
            &&& m.contains_key(t)
            &&& 1 <= lv[t] <= 4
            &&& forall|i: int|
                #![trigger entry_at(m, t, i)]
                0 <= i < 512 ==> entry_fits(m, h, lv, lv[t], entry_at(m, t, i))
        }
}

/// The tables reachable from `root` form a four-level hierarchy.
pub open spec fn tables_sound(m: Map<u64, Seq<u64>>, h: u64, root: u64) -> bool {
    exists|lv: Map<u64, int>| sound_with(m, h, root, lv)
}

/// In a four-level hierarchy every walk is sound and visits distinct tables.
pub proof fn lemma_sound_walks(m: Map<u64, Seq<u64>>, h: u64, root: u64, lv: Map<u64, int>, v: u64)
    requires
        sound_with(m, h, root, lv),
    ensures
        walk_ok(m, h, root, v),
        translation(m, h, root, v) matches Some(t) && t.1 == 4096 ==> !huge(
            pt_entry(m, h, root, v),
        ),
        path_distinct_to(m, h, root, v, 1),
{
    lemma_table_index_bound(v);
    assert(lv.contains_key(root));
    let e4 = pml4_entry(m, root, v);
    assert(entry_fits(m, h, lv, 4, e4));
    if present(e4) {
        let t3 = pdpt_table(m, h, root, v);
        assert(lv.contains_key(t3));
        let e3 = pdpt_entry(m, h, root, v);
        assert(entry_fits(m, h, lv, 3, e3));
        if present(e3) && !huge(e3) {
            let t2 = pd_table(m, h, root, v);
            assert(lv.contains_key(t2));
            let e2 = pd_entry(m, h, root, v);
            assert(entry_fits(m, h, lv, 2, e2));
            if present(e2) && !huge(e2) {
                let t1 = pt_table(m, h, root, v);
                assert(lv.contains_key(t1));
                assert(entry_fits(m, h, lv, 1, pt_entry(m, h, root, v)));
            }
        }
    }
}

/// In a four-level hierarchy every walk is sound: [`tables_ok`].
pub proof fn lemma_sound_tables_ok(m: Map<u64, Seq<u64>>, h: u64, root: u64)
    requires
        tables_sound(m, h, root),
    ensures
        tables_ok(m, h, root),
{
    let lv = choose|lv: Map<u64, int>| sound_with(m, h, root, lv);
    assert forall|v: u64|
        #![trigger walk_ok(m, h, root, v)]
        #![trigger translation(m, h, root, v)]
        walk_ok(m, h, root, v) && (translation(m, h, root, v) matches Some(t) && t.1 == 4096
            ==> !huge(pt_entry(m, h, root, v))) by {
        lemma_sound_walks(m, h, root, lv, v);
    }
}

/// Writing an entry that fits the level of its table keeps the hierarchy.
pub proof fn lemma_sound_write(
    m: Map<u64, Seq<u64>>,
    h: u64,
    root: u64,
    lv: Map<u64, int>,
    t: u64,
    i: int,
    e: u64,
)
    requires
        sound_with(m, h, root, lv),
        lv.contains_key(t),
        0 <= i < m[t].len(),
        entry_fits(m, h, lv, lv[t], e),
    ensures
        sound_with(m.insert(t, m[t].update(i, e)), h, root, lv),
{
    let m2 = m.insert(t, m[t].update(i, e));
    assert forall|u: u64| #![trigger lv.contains_key(u)] lv.contains_key(u) implies {
        &&& m2.contains_key(u)
        &&& 1 <= lv[u] <= 4
        &&& forall|j: int|
            #![trigger entry_at(m2, u, j)]
            0 <= j < 512 ==> entry_fits(m2, h, lv, lv[u], entry_at(m2, u, j))
    } by {
        assert forall|j: int| #![trigger entry_at(m2, u, j)] 0 <= j < 512 implies entry_fits(
            m2,
            h,
            lv,
            lv[u],
            entry_at(m2, u, j),
        ) by {
            if u == t && j == i {
                assert(entry_at(m2, u, j) == e);
            } else {
                assert(entry_at(m2, u, j) == entry_at(m, u, j));
                assert(entry_fits(m, h, lv, lv[u], entry_at(m, u, j)));
            }
        }
    }
}

/// Adding an empty table of some level keeps the hierarchy.
pub proof fn lemma_sound_add_table(
    m: Map<u64, Seq<u64>>,
    h: u64,
    root: u64,
    lv: Map<u64, int>,
    n: u64,
    level: int,
)
    requires
        sound_with(m, h, root, lv),
        !m.contains_key(n),
        1 <= level <= 4,
    ensures
        sound_with(m.insert(n, zero_table()), h, root, lv.insert(n, level)),
{
    let m2 = m.insert(n, zero_table());
    let lv2 = lv.insert(n, level);
    lemma_zero_entry();
    assert forall|u: u64| #![trigger lv2.contains_key(u)] lv2.contains_key(u) implies {
        &&& m2.contains_key(u)
        &&& 1 <= lv2[u] <= 4
        &&& forall|j: int|
            #![trigger entry_at(m2, u, j)]
            0 <= j < 512 ==> entry_fits(m2, h, lv2, lv2[u], entry_at(m2, u, j))
    } by {
        assert forall|j: int| #![trigger entry_at(m2, u, j)] 0 <= j < 512 implies entry_fits(
            m2,
            h,
            lv2,
            lv2[u],
            entry_at(m2, u, j),
        ) by {
            if u == n {
                assert(entry_at(m2, u, j) == 0);
            } else {
                assert(lv.contains_key(u));
                assert(entry_at(m2, u, j) == entry_at(m, u, j));
                assert(entry_fits(m, h, lv, lv[u], entry_at(m, u, j)));
                let e = entry_at(m, u, j);
                if present(e) && lv[u] >= 2 && !huge(e) {
                    assert(lv.contains_key(next_table(e, h)));
                    assert(m.contains_key(next_table(e, h)));
                    assert(next_table(e, h) != n);
                }
            }
        }
    }
}

/// Replacing the entry that maps `v` by an empty one, or by one of the same shape, keeps
/// the hierarchy.
pub proof fn lemma_sound_leaf_write(
    m: Map<u64, Seq<u64>>,
    h: u64,
    root: u64,
    lv: Map<u64, int>,
    v: u64,
    e: u64,
)
    requires
        sound_with(m, h, root, lv),
        forall|k: u64| #[trigger] m.contains_key(k) ==> m[k].len() == ENTRIES,
        translation(m, h, root, v) is Some,
        e == 0 || same_shape(e, leaf_entry(m, h, root, v)),
    ensures
        sound_with(
            m.insert(
                leaf_table(m, h, root, v),
                m[leaf_table(m, h, root, v)].update(leaf_index(m, h, root, v), e),
            ),
            h,
            root,
            lv,
        ),
{
    lemma_table_index_bound(v);
    lemma_zero_entry();
    let lt = leaf_table(m, h, root, v);
    let li = leaf_index(m, h, root, v);
    assert(lv.contains_key(root));
    let e4 = pml4_entry(m, root, v);
    assert(entry_fits(m, h, lv, 4, e4));
    let t3 = pdpt_table(m, h, root, v);
    assert(lv.contains_key(t3));
    let e3 = pdpt_entry(m, h, root, v);
    assert(entry_fits(m, h, lv, 3, e3));
    if !huge(e3) {
        let t2 = pd_table(m, h, root, v);
        assert(lv.contains_key(t2));
        let e2 = pd_entry(m, h, root, v);
        assert(entry_fits(m, h, lv, 2, e2));
        if !huge(e2) {
            let t1 = pt_table(m, h, root, v);
            assert(lv.contains_key(t1));
            assert(entry_fits(m, h, lv, 1, pt_entry(m, h, root, v)));
        }
    }
    assert(lv.contains_key(lt));
    assert(entry_fits(m, h, lv, lv[lt], entry_at(m, lt, li)));
    assert(entry_fits(m, h, lv, lv[lt], e));
    lemma_sound_write(m, h, root, lv, lt, li, e);
}

/// Following or creating the table below entry `idx` of a table of level 2 or more keeps
/// the hierarchy, with the next table one level down.
pub(crate) proof fn lemma_sound_step(
    m: Map<u64, Seq<u64>>,
    m2: Map<u64, Seq<u64>>,
    h: u64,
    root: u64,
    lv: Map<u64, int>,
    table: u64,
    idx: int,
    n: u64,
    e: u64,
) -> (lv2: Map<u64, int>)
    requires
        sound_with(m, h, root, lv),
        lv.contains_key(table),
        2 <= lv[table],
        0 <= idx < 512,
        forall|k: u64| #[trigger] m.contains_key(k) ==> m[k].len() == ENTRIES,
        (m2 == m && present(entry_at(m, table, idx)) && !huge(entry_at(m, table, idx)) && n
            == next_table(entry_at(m, table, idx), h)) || (!m.contains_key(n) && m2 == m.insert(
            n,
            zero_table(),
        ).insert(table, m[table].update(idx, e)) && present(e) && !huge(e) && next_table(e, h)
            == n),
    ensures
        sound_with(m2, h, root, lv2),
        lv2.contains_key(n),
        lv2[n] == lv[table] - 1,
{
    if m2 == m && present(entry_at(m, table, idx)) && !huge(entry_at(m, table, idx)) && n
        == next_table(entry_at(m, table, idx), h) {
        assert(entry_fits(m, h, lv, lv[table], entry_at(m, table, idx)));
        lv
    } else {
        let lv1 = lv.insert(n, lv[table] - 1);
        lemma_sound_add_table(m, h, root, lv, n, lv[table] - 1);
        let m1 = m.insert(n, zero_table());
        assert(m1[table] == m[table]);
        assert(entry_fits(m1, h, lv1, lv1[table], e));
        lemma_sound_write(m1, h, root, lv1, table, idx, e);
        assert(m1.insert(table, m1[table].update(idx, e)) == m2);
        lv1
    }
}

/// A fresh root table with the higher half of a sound root table is sound too.
pub(crate) proof fn lemma_sound_new_root(
    m: Map<u64, Seq<u64>>,
    h: u64,
    src: u64,
    lv: Map<u64, int>,
    root: u64,
)
    requires
        sound_with(m, h, src, lv),
        !m.contains_key(root),
        m[src].len() == ENTRIES,
    ensures
        sound_with(m.insert(root, kernel_half(m[src])), h, root, lv.insert(root, 4)),
{
    let m2 = m.insert(root, kernel_half(m[src]));
    let lv2 = lv.insert(root, 4);
    lemma_zero_entry();
    assert forall|u: u64| #![trigger lv2.contains_key(u)] lv2.contains_key(u) implies {
        &&& m2.contains_key(u)
        &&& 1 <= lv2[u] <= 4
        &&& forall|j: int|
            #![trigger entry_at(m2, u, j)]
            0 <= j < 512 ==> entry_fits(m2, h, lv2, lv2[u], entry_at(m2, u, j))
    } by {
        assert forall|j: int| #![trigger entry_at(m2, u, j)] 0 <= j < 512 implies entry_fits(
            m2,
            h,
            lv2,
            lv2[u],
            entry_at(m2, u, j),
        ) by {
            let e = if u == root {
                if j < 256 {
                    0u64
                } else {
                    entry_at(m, src, j)
                }
            } else {
                entry_at(m, u, j)
            };
            assert(entry_at(m2, u, j) == e);
            if u == root && j < 256 {
            } else {
                let w = if u == root {
                    src
                } else {
                    u
                };
                assert(lv.contains_key(w));
                assert(entry_fits(m, h, lv, lv[w], entry_at(m, w, j)));
                if present(e) && lv[w] >= 2 && !huge(e) {
                    assert(lv.contains_key(next_table(e, h)));
                    assert(next_table(e, h) != root);
                }
            }
        }
    }
}

/// An empty root table is the root of a (trivial) four-level hierarchy.
pub proof fn lemma_empty_root_sound(m: Map<u64, Seq<u64>>, h: u64, root: u64)
    requires
        m.contains_key(root),
        m[root] == zero_table(),
    ensures
        tables_sound(m, h, root),
{
    lemma_zero_entry();
    let lv = Map::<u64, int>::empty().insert(root, 4);
    assert forall|t: u64| #![trigger lv.contains_key(t)] lv.contains_key(t) implies {
        &&& m.contains_key(t)
        &&& 1 <= lv[t] <= 4
        &&& forall|i: int|
            #![trigger entry_at(m, t, i)]
            0 <= i < 512 ==> entry_fits(m, h, lv, lv[t], entry_at(m, t, i))
    } by {
        assert forall|i: int| #![trigger entry_at(m, t, i)] 0 <= i < 512 implies entry_fits(
            m,
            h,
            lv,
            lv[t],
            entry_at(m, t, i),
        ) by {
            assert(entry_at(m, t, i) == 0);
        }
    }
    assert(sound_with(m, h, root, lv));
}

/// The tables the walk for `v` visits have the levels 4, 3, 2 and 1 in turn.
pub proof fn lemma_walk_levels(m: Map<u64, Seq<u64>>, h: u64, root: u64, lv: Map<u64, int>, v: u64)
    requires
        sound_with(m, h, root, lv),
    ensures
        lv.contains_key(root) && lv[root] == 4,
        present(pml4_entry(m, root, v)) ==> lv.contains_key(pdpt_table(m, h, root, v)) && lv[pdpt_table(m, h, root, v)] == 3,
        present(pml4_entry(m, root, v)) && present(pdpt_entry(m, h, root, v)) && !huge(pdpt_entry(m, h, root, v))
            ==> lv.contains_key(pd_table(m, h, root, v)) && lv[pd_table(m, h, root, v)] == 2,
        present(pml4_entry(m, root, v)) && present(pdpt_entry(m, h, root, v)) && !huge(pdpt_entry(m, h, root, v))
            && present(pd_entry(m, h, root, v)) && !huge(pd_entry(m, h, root, v))
            ==> lv.contains_key(pt_table(m, h, root, v)) && lv[pt_table(m, h, root, v)] == 1,
{
    lemma_table_index_bound(v);
    assert(entry_fits(m, h, lv, 4, pml4_entry(m, root, v)));
    if present(pml4_entry(m, root, v)) {
        assert(entry_fits(m, h, lv, 3, pdpt_entry(m, h, root, v)));
        if present(pdpt_entry(m, h, root, v)) && !huge(pdpt_entry(m, h, root, v)) {
            assert(entry_fits(m, h, lv, 2, pd_entry(m, h, root, v)));
        }
    }
}

/// No table of the hierarchy with the levels `lv` is linked from two entries.
pub open spec fn links_unique(m: Map<u64, Seq<u64>>, h: u64, lv: Map<u64, int>) -> bool {
    forall|t1: u64, i1: int, t2: u64, i2: int|
        #![trigger entry_at(m, t1, i1), entry_at(m, t2, i2)]
        lv.contains_key(t1) && lv.contains_key(t2) && lv[t1] >= 2 && lv[t2] >= 2 && 0 <= i1 < 512
            && 0 <= i2 < 512 && present(entry_at(m, t1, i1)) && !huge(entry_at(m, t1, i1))
            && present(entry_at(m, t2, i2)) && !huge(entry_at(m, t2, i2)) && next_table(
            entry_at(m, t1, i1),
            h,
        ) == next_table(entry_at(m, t2, i2), h) ==> t1 == t2 && i1 == i2
}

/// The tables reachable from `root` form a four-level hierarchy in which no table is linked
/// from two entries: a tree.
pub open spec fn tables_tree(m: Map<u64, Seq<u64>>, h: u64, root: u64) -> bool {
    exists|lv: Map<u64, int>| sound_with(m, h, root, lv) && links_unique(m, h, lv)
}

} // verus!
