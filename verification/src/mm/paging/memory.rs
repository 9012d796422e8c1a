//! The page tables reachable through the direct map, held as plain values.

use super::entry::{ENTRIES, entry_at};
use vstd::hash_map::HashMapWithView;
use vstd::prelude::*;

verus! {

broadcast use vstd::std_specs::hash::axiom_u64_obeys_hash_table_key_model;

/// The page tables reachable through the direct map.
pub struct PageTableMemory {
    hhdm_offset: u64,
    tables: HashMapWithView<u64, Vec<u64>>,
}

impl PageTableMemory {
    /// The direct-map offset.
    pub closed spec fn hhdm(&self) -> u64 {
        self.hhdm_offset
    }

    /// The tables by virtual address.
    pub closed spec fn tables(&self) -> Map<u64, Seq<u64>> {
        Map::new(|k: u64| self.tables@.contains_key(k), |k: u64| self.tables@[k]@)
    }

    /// Every table has 512 entries and lies in the direct map above its offset.
    pub open spec fn wf(&self) -> bool {
        &&& forall|k: u64| #[trigger]
            self.tables().contains_key(k) ==> self.tables()[k].len() == ENTRIES && k >= self.hhdm()
    }

    /// An empty page table memory for the given direct-map offset.
    pub fn new(hhdm_offset: u64) -> (r: Self)
        ensures
            r.wf(),
            r.hhdm() == hhdm_offset,
            r.tables() == Map::<u64, Seq<u64>>::empty(),
    {
        let r = PageTableMemory { hhdm_offset, tables: HashMapWithView::new() };
        assert(r.tables() =~= Map::<u64, Seq<u64>>::empty());
        r
    }

    /// The direct-map offset.
    pub fn hhdm_offset(&self) -> (r: u64)
        ensures
            r == self.hhdm(),
    {
        self.hhdm_offset
    }

    /// Whether a table lies at `ptr`.
    pub fn has_table(&self, ptr: u64) -> (r: bool)
        ensures
            r == self.tables().contains_key(ptr),
    {
        self.tables.contains_key(&ptr)
    }

    /// Read entry `idx` of the table at `ptr`.
    pub fn read(&self, ptr: u64, idx: usize) -> (r: u64)
        requires
            self.wf(),
            self.tables().contains_key(ptr),
            idx < ENTRIES,
        ensures
            r == self.tables()[ptr][idx as int],
            r == entry_at(self.tables(), ptr, idx as int),
    {
        let t = self.tables.get(&ptr).unwrap();
        t[idx]
    }

    /// Write entry `idx` of the table at `ptr`.
    pub fn write(&mut self, ptr: u64, idx: usize, value: u64)
        requires
            old(self).wf(),
            old(self).tables().contains_key(ptr),
            idx < ENTRIES,
        ensures
            final(self).wf(),
            final(self).hhdm() == old(self).hhdm(),
            final(self).tables() == old(self).tables().insert(
                ptr,
                old(self).tables()[ptr].update(idx as int, value),
            ),
    {
        let mut t = self.tables.remove(&ptr).unwrap();
        t.set(idx, value);
        self.tables.insert(ptr, t);
        assert(self.tables() =~= old(self).tables().insert(
            ptr,
            old(self).tables()[ptr].update(idx as int, value),
        ));
    }

    /// Place a zeroed table at `ptr`.
    pub fn insert_zeroed(&mut self, ptr: u64)
        requires
            old(self).wf(),
            ptr >= old(self).hhdm(),
        ensures
            final(self).wf(),
            final(self).hhdm() == old(self).hhdm(),
            final(self).tables() == old(self).tables().insert(ptr, zero_table()),
    {
        let mut t: Vec<u64> = Vec::new();
        let mut i: usize = 0;
        while i < ENTRIES
            invariant
                i <= ENTRIES,
                t@ == Seq::new(i as nat, |j: int| 0u64),
            decreases ENTRIES - i,
        {
            t.push(0);
            i += 1;
            assert(t@ =~= Seq::new(i as nat, |j: int| 0u64));
        }
        self.tables.insert(ptr, t);
        assert(self.tables() =~= old(self).tables().insert(ptr, zero_table()));
    }
}

/// A table whose 512 entries are all empty.
pub open spec fn zero_table() -> Seq<u64> {
    Seq::new(512, |i: int| 0u64)
}

} // verus!
