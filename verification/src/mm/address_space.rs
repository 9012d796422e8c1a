//! Stores the page pointer and VMAs for a process or the kernel.

use crate::mm::boot_mapping::BootMapping;
use crate::mm::vma::Vma;
use crate::mm::vmm::VmmError;
use crate::state::setting::{lemma_value_after, run_of};
use vstd::prelude::*;

verus! {

/// The areas are sorted by start address, each starts no later than it ends, and no two share
/// an address.
pub open spec fn areas_wf(s: Seq<Vma>) -> bool {
    &&& forall|i: int, j: int| 0 <= i < j < s.len() ==> (#[trigger] s[i]).start_addr < (
    #[trigger] s[j]).start_addr
    &&& forall|i: int| 0 <= i < s.len() ==> (#[trigger] s[i]).start_addr <= s[i].end_addr
    &&& forall|i: int, j: int|
        0 <= i < s.len() && 0 <= j < s.len() && i != j ==> !(#[trigger] s[i]).meets(#[trigger] s[j])
}

/// The outcome of adding `v` to the areas `s`: `None` if it shares an address with one of
/// them, otherwise the new set of areas (unchanged when an area already starts where `v`
/// starts, as the areas are keyed by their start address).
pub open spec fn insert_outcome(s: Set<Vma>, v: Vma) -> Option<Set<Vma>> {
    if exists|w: Vma| s.contains(w) && #[trigger] w.meets(v) {
        None
    } else if exists|w: Vma| #[trigger] s.contains(w) && w.start_addr == v.start_addr {
        Some(s)
    } else {
        Some(s.insert(v))
    }
}

/// Type to represent the memory of a process or the kernel by holding a pointer to its page
/// tables and VMAs.
pub struct AddressSpace {
    page_ptr: u64,
    vmas: Vec<Vma>,
}

impl View for AddressSpace {
    type V = Seq<Vma>;

    /// The areas in ascending order of start address.
    closed spec fn view(&self) -> Seq<Vma> {
        self.vmas@
    }
}

impl AddressSpace {
    /// The page table pointer.
    pub closed spec fn root(&self) -> u64 {
        self.page_ptr
    }

    /// The areas as a set.
    pub open spec fn areas(&self) -> Set<Vma> {
        self@.to_set()
    }

    /// The areas are well-formed.
    pub open spec fn wf(&self) -> bool {
        areas_wf(self@)
    }

    /// Creates a new `AddressSpace` instance which contains the given page table pointer and
    /// no VMAs.
    pub fn new(page_ptr: u64) -> (r: Self)
        ensures
            r.wf(),
            r.root() == page_ptr,
            r@ == Seq::<Vma>::empty(),
    {
        AddressSpace { page_ptr, vmas: Vec::new() }
    }

    /// Creates a new `AddressSpace` instance which contains the given page table pointer and
    /// no VMAs.
    pub fn empty(page_ptr: u64) -> (r: Self)
        ensures
            r.wf(),
            r.root() == page_ptr,
            r@ == Seq::<Vma>::empty(),
    {
        AddressSpace { page_ptr, vmas: Vec::new() }
    }

    /// Getter for the page table pointer.
    pub fn get_root_table_ptr(&self) -> (r: u64)
        ensures
            r == self.root(),
    {
        self.page_ptr
    }

    /// Getter for the page table pointer.
    pub fn page_ptr(&self) -> (r: u64)
        ensures
            r == self.root(),
    {
        self.page_ptr
    }

    /// Getter for the VMAs, in ascending order of start address.
    pub fn vmas(&self) -> (r: &Vec<Vma>)
        ensures
            r@ == self@,
    {
        &self.vmas
    }

    /// Add a VMA to the `AddressSpace`.
    ///
    /// Returns [`VmmError::VmaOverlap`] if it shares an address with an existing VMA. An area
    /// that starts where an existing one starts is not added.
    pub fn insert_vma(&mut self, vma: Vma) -> (r: Result<(), VmmError>)
        requires
            old(self).wf(),
            vma.start_addr <= vma.end_addr,
        ensures
            final(self).wf(),
            final(self).root() == old(self).root(),
            match insert_outcome(old(self).areas(), vma) {
                None => r == Err::<(), VmmError>(VmmError::VmaOverlap) && final(self)@ == old(self)@,
                Some(s) => r is Ok && final(self).areas() == s,
            },
    {
        let ghost s = self@;
        let n = self.vmas.len();
        let mut i: usize = 0;
        while i < n
            invariant
                n == s.len(),
                self@ == s,
                areas_wf(s),
                i <= n,
                forall|j: int| 0 <= j < i ==> !(#[trigger] s[j]).meets(vma),
            decreases n - i,
        {
            if self.vmas[i].overlaps(&vma) {
                proof {
                    assert(s.to_set().contains(s[i as int]));
                    assert(s[i as int].meets(vma));
                }
                return Err(VmmError::VmaOverlap);
            }
            i += 1;
        }
        assert(!exists|w: Vma| s.to_set().contains(w) && #[trigger] w.meets(vma)) by {
            if exists|w: Vma| s.to_set().contains(w) && #[trigger] w.meets(vma) {
                let w = choose|w: Vma| s.to_set().contains(w) && #[trigger] w.meets(vma);
                let j = s.index_of(w);
                assert(s[j].meets(vma));
            }
        }
        let mut p: usize = 0;
        while p < n && self.vmas[p].start_addr < vma.start_addr
            invariant
                n == s.len(),
                self@ == s,
                areas_wf(s),
                p <= n,
                forall|j: int| 0 <= j < p ==> (#[trigger] s[j]).start_addr < vma.start_addr,
            decreases n - p,
        {
            p += 1;
        }
        if p < n && self.vmas[p].start_addr == vma.start_addr {
            assert(s.to_set().contains(s[p as int]));
            return Ok(());
        }
        proof {
            assert forall|j: int| p <= j < n implies (#[trigger] s[j]).start_addr > vma.start_addr by {
                if j > p {
                    assert(s[p as int].start_addr < s[j].start_addr);
                }
            }
            assert(!exists|w: Vma| #[trigger] s.to_set().contains(w) && w.start_addr
                == vma.start_addr) by {
                if exists|w: Vma| #[trigger] s.to_set().contains(w) && w.start_addr
                    == vma.start_addr {
                    let w = choose|w: Vma| #[trigger] s.to_set().contains(w) && w.start_addr
                        == vma.start_addr;
                    let j = s.index_of(w);
                    assert(s[j].start_addr == vma.start_addr);
                }
            }
        }
        self.vmas.insert(p, vma);
        proof {
            let t = self@;
            assert(t == s.insert(p as int, vma));
            assert(forall|j: int| 0 <= j < p ==> t[j] == s[j]);
            assert(forall|j: int| p < j < t.len() ==> t[j] == s[j - 1]);
            assert(t[p as int] == vma);
            assert forall|j: int, k: int| 0 <= j < k < t.len() implies (#[trigger] t[j]).start_addr
                < (#[trigger] t[k]).start_addr by {
                if k < p {
                } else if k == p {
                } else if j < p {
                    assert(s[j].start_addr < s[k - 1].start_addr || j == k - 1);
                } else if j == p {
                } else {
                    assert(s[j - 1].start_addr < s[k - 1].start_addr);
                }
            }
            assert forall|j: int| 0 <= j < t.len() implies (#[trigger] t[j]).start_addr
                <= t[j].end_addr by {
                if j < p {
                } else if j == p {
                } else {
                    assert(t[j] == s[j - 1]);
                }
            }
            assert forall|j: int, k: int|
                0 <= j < t.len() && 0 <= k < t.len() && j != k implies !(#[trigger] t[j]).meets(
                #[trigger] t[k],
            ) by {
                let jj = if j < p { j } else if j == p { -1 } else { j - 1 };
                let kk = if k < p { k } else if k == p { -1 } else { k - 1 };
                if jj >= 0 && kk >= 0 {
                    assert(t[j] == s[jj]);
                    assert(t[k] == s[kk]);
                } else if jj < 0 {
                    assert(t[k] == s[kk]);
                    assert(!s[kk].meets(vma));
                } else {
                    assert(t[j] == s[jj]);
                    assert(!s[jj].meets(vma));
                }
            }
            assert(t.to_set() =~= s.to_set().insert(vma)) by {
                assert forall|w: Vma| t.to_set().contains(w) <==> s.to_set().insert(vma).contains(
                    w,
                ) by {
                    if t.contains(w) {
                        let j = t.index_of(w);
                        if j < p {
                            assert(s[j] == w);
                        } else if j > p {
                            assert(s[j - 1] == w);
                        }
                    }
                    if s.contains(w) {
                        let j = s.index_of(w);
                        if j < p {
                            assert(t[j] == w);
                        } else {
                            assert(t[j + 1] == w);
                        }
                    }
                    if w == vma {
                        assert(t[p as int] == w);
                    }
                }
            }
        }
        Ok(())
    }

    /// Remove the VMA starting at `vma_start_addr` from the `AddressSpace` and return it, or
    /// `None` if no VMA starts there.
    pub fn remove_vma(&mut self, vma_start_addr: u64) -> (r: Option<Vma>)
        requires
            old(self).wf(),
        ensures
            final(self).wf(),
            final(self).root() == old(self).root(),
            match r {
                Some(v) => {
                    &&& v.start_addr == vma_start_addr
                    &&& old(self).areas().contains(v)
                    &&& final(self).areas() == old(self).areas().remove(v)
                },
                None => {
                    &&& forall|w: Vma| #[trigger]
                        old(self).areas().contains(w) ==> w.start_addr != vma_start_addr
                    &&& final(self)@ == old(self)@
                },
            },
    {
        let ghost s = self@;
        let n = self.vmas.len();
        let mut i: usize = 0;
        while i < n
            invariant
                n == s.len(),
                self@ == s,
                areas_wf(s),
                self.root() == old(self).root(),
                old(self)@ == s,
                i <= n,
                forall|j: int| 0 <= j < i ==> (#[trigger] s[j]).start_addr != vma_start_addr,
            decreases n - i,
        {
            if self.vmas[i].start_addr == vma_start_addr {
                let v = self.vmas.remove(i);
                proof {
                    let t = self@;
                    assert(t == s.remove(i as int));
                    assert(forall|j: int| 0 <= j < i ==> t[j] == s[j]);
                    assert(forall|j: int| i <= j < t.len() ==> t[j] == s[j + 1]);
                    assert forall|j: int, k: int| 0 <= j < k < t.len() implies (
                    #[trigger] t[j]).start_addr < (#[trigger] t[k]).start_addr by {
                        let jj = if j < i { j } else { j + 1 };
                        let kk = if k < i { k } else { k + 1 };
                        assert(s[jj].start_addr < s[kk].start_addr);
                    }
                    assert forall|j: int| 0 <= j < t.len() implies (#[trigger] t[j]).start_addr
                        <= t[j].end_addr by {
                        let jj = if j < i { j } else { j + 1 };
                        assert(t[j] == s[jj]);
                    }
                    assert forall|j: int, k: int|
                        0 <= j < t.len() && 0 <= k < t.len() && j != k implies !(
                        #[trigger] t[j]).meets(#[trigger] t[k]) by {
                        let jj = if j < i { j } else { j + 1 };
                        let kk = if k < i { k } else { k + 1 };
                        assert(t[j] == s[jj]);
                        assert(t[k] == s[kk]);
                    }
                    assert(s.to_set().contains(v));
                    assert(t.to_set() =~= s.to_set().remove(v)) by {
                        assert forall|w: Vma| t.to_set().contains(w) <==> s.to_set().remove(
                            v,
                        ).contains(w) by {
                            if t.contains(w) {
                                let j = t.index_of(w);
                                let jj = if j < i { j } else { j + 1 };
                                assert(s[jj] == w);
                                assert(jj != i);
                                assert(w.start_addr != v.start_addr);
                            }
                            if s.contains(w) && w != v {
                                let j = s.index_of(w);
                                if j < i {
                                    assert(t[j] == w);
                                } else {
                                    assert(j != i);
                                    assert(t[j - 1] == w);
                                }
                            }
                        }
                    }
                }
                return Some(v);
            }
            i += 1;
        }
        assert forall|w: Vma| #[trigger] s.to_set().contains(w) implies w.start_addr
            != vma_start_addr by {
            let j = s.index_of(w);
            assert(s[j].start_addr != vma_start_addr);
        }
        None
    }

    /// Search for the VMA in the `AddressSpace` which applies VMA flags to the given address:
    /// the last VMA starting at or below `addr`, if it contains `addr`.
    pub fn find_vma(&self, addr: u64) -> (r: Option<&Vma>)
        requires
            self.wf(),
        ensures
            match r {
                Some(v) => self.areas().contains(*v) && v.holds(addr),
                None => forall|w: Vma| #[trigger] self.areas().contains(w) ==> !w.holds(addr),
            },
    {
        let ghost s = self@;
        let n = self.vmas.len();
        let mut i: usize = n;
        while i > 0 && self.vmas[i - 1].start_addr > addr
            invariant
                n == s.len(),
                self@ == s,
                areas_wf(s),
                i <= n,
                forall|j: int| i <= j < n ==> (#[trigger] s[j]).start_addr > addr,
            decreases i,
        {
            i -= 1;
        }
        if i == 0 {
            assert forall|w: Vma| #[trigger] s.to_set().contains(w) implies !w.holds(addr) by {
                let j = s.index_of(w);
                assert(s[j].start_addr > addr);
            }
            return None;
        }
        let v = &self.vmas[i - 1];
        if v.contains(addr) {
            assert(s.to_set().contains(*v));
            Some(v)
        } else {
            assert forall|w: Vma| #[trigger] s.to_set().contains(w) implies !w.holds(addr) by {
                let j = s.index_of(w);
                if j < i - 1 {
                    assert(s[j].start_addr < s[i - 1].start_addr);
                    assert(!s[j].meets(s[i - 1]));
                } else if j >= i {
                    assert(s[j].start_addr > addr);
                }
            }
            None
        }
    }

    /// Search for a VMA-free range of `size` bytes in `[from, to)`: returns the lowest
    /// address where such a range fits, or `None` if there is none.
    pub fn find_free_range(&self, from: u64, to: u64, size: u64) -> (r: Option<u64>)
        requires
            self.wf(),
        ensures
            r == free_range(self.areas(), from, to, size),
    {
        let ghost s = self@;
        let ghost areas = self.areas();
        let n = self.vmas.len();
        let mut candidate = from;
        let mut i: usize = 0;
        while i < n && self.vmas[i].start_addr < from
            invariant
                n == s.len(),
                self@ == s,
                areas == s.to_set(),
                areas_wf(s),
                i <= n,
                forall|j: int| 0 <= j < i ==> (#[trigger] s[j]).start_addr < from,
                forall|j: int| 0 <= j < i ==> (#[trigger] s[j]).end_addr <= candidate,
                from <= candidate,
                candidate == from || exists|j: int| 0 <= j < i && (#[trigger] s[j]).end_addr == candidate,
            decreases n - i,
        {
            if self.vmas[i].end_addr > candidate {
                candidate = self.vmas[i].end_addr;
            }
            i += 1;
        }
        proof {
            assert forall|c2: int| from <= c2 < candidate implies !#[trigger] fits_at(areas, from, to, size, c2) by {
                let j = choose|j: int| 0 <= j < i && (#[trigger] s[j]).end_addr == candidate;
                assert(areas.contains(s[j]));
            }
        }
        if candidate > to {
            proof {
                lemma_no_fit_beyond(areas, from, to, size, candidate as int);
            }
            return None;
        }
        proof {
            if i < n {
                assert forall|j: int| 0 <= j < i implies (#[trigger] s[j]).end_addr <= s[i as int].start_addr by {
                    lemma_areas_ordered(s, j, i as int);
                }
            }
        }
        while i < n
            invariant
                n == s.len(),
                self@ == s,
                areas == s.to_set(),
                areas_wf(s),
                i <= n,
                from <= candidate <= to,
                forall|j: int| 0 <= j < i ==> (#[trigger] s[j]).end_addr <= candidate,
                i < n ==> candidate <= s[i as int].start_addr,
                forall|c2: int| from <= c2 < candidate ==> !#[trigger] fits_at(areas, from, to, size, c2),
            ensures
                n == s.len(),
                self@ == s,
                areas == s.to_set(),
                areas_wf(s),
                from <= candidate <= to,
                forall|j: int| 0 <= j < i ==> (#[trigger] s[j]).end_addr <= candidate,
                i < n ==> to <= s[i as int].start_addr,
                forall|c2: int| from <= c2 < candidate ==> !#[trigger] fits_at(areas, from, to, size, c2),
            decreases n - i,
        {
            let vma = &self.vmas[i];
            if vma.start_addr >= to {
                break;
            }
            if vma.start_addr - candidate >= size {
                proof {
                    assert forall|w: Vma| #[trigger] areas.contains(w) implies w.end_addr <= candidate
                        || candidate + size <= w.start_addr by {
                        let j = choose|j: int| 0 <= j < s.len() && s[j] == w;
                        if j > i {
                            assert(s[i as int].start_addr < s[j].start_addr);
                        }
                    }
                    assert(fits_at(areas, from, to, size, candidate as int));
                    lemma_lowest_fit(areas, from, to, size, candidate as int);
                }
                return Some(candidate);
            }
            let ghost old_candidate = candidate;
            proof {
                assert(areas.contains(s[i as int]));
                assert forall|c2: int| old_candidate <= c2 < s[i as int].end_addr implies !#[trigger] fits_at(
                    areas,
                    from,
                    to,
                    size,
                    c2,
                ) by {
                    assert(areas.contains(s[i as int]));
                }
                if i + 1 < n {
                    lemma_areas_ordered(s, i as int, i + 1);
                }
            }
            if vma.end_addr > candidate {
                candidate = vma.end_addr;
            }
            if candidate > to {
                proof {
                    lemma_no_fit_beyond(areas, from, to, size, candidate as int);
                }
                return None;
            }
            i += 1;
        }
        if to - candidate >= size {
            proof {
                assert forall|w: Vma| #[trigger] areas.contains(w) implies w.end_addr <= candidate
                    || candidate + size <= w.start_addr by {
                    let j = choose|j: int| 0 <= j < s.len() && s[j] == w;
                    if j > i {
                        assert(s[i as int].start_addr < s[j].start_addr);
                    }
                }
                assert(fits_at(areas, from, to, size, candidate as int));
                lemma_lowest_fit(areas, from, to, size, candidate as int);
            }
            Some(candidate)
        } else {
            proof {
                lemma_no_fit_beyond(areas, from, to, size, candidate as int);
            }
            None
        }
    }

    /// Initializes the kernel VMAs on self from the boot mappings, in order, stopping at the
    /// first one that overlaps an existing VMA.
    /// Do not call this ever, unless you are initializing the kernel's address space.
    pub fn setup_kernel_vmas(&mut self, boot_mappings: &[BootMapping; 4]) -> (r: Result<
        (),
        VmmError,
    >)
        requires
            old(self).wf(),
            forall|i: int| 0 <= i < 4 ==> #[trigger] boot_mappings[i].virt + boot_mappings[i].size
                <= u64::MAX,
        ensures
            final(self).wf(),
            final(self).root() == old(self).root(),
            ({
                let (t, ok) = insert_all(old(self).areas(), mapping_vmas(boot_mappings@));
                &&& final(self).areas() == t
                &&& ok <==> r is Ok
                &&& !ok ==> r == Err::<(), VmmError>(VmmError::VmaOverlap)
            }),
    {
        let ghost vs = mapping_vmas(boot_mappings@);
        assert(vs.skip(0) =~= vs);
        let mut k: usize = 0;
        while k < 4
            invariant
                k <= 4,
                vs == mapping_vmas(boot_mappings@),
                self.wf(),
                self.root() == old(self).root(),
                insert_all(self.areas(), vs.skip(k as int)) == insert_all(old(self).areas(), vs),
                forall|i: int| 0 <= i < 4 ==> #[trigger] boot_mappings[i].virt
                    + boot_mappings[i].size <= u64::MAX,
            decreases 4 - k,
        {
            let mapping = &boot_mappings[k];
            let vma = Vma {
                start_addr: mapping.virt,
                end_addr: mapping.virt + mapping.size,
                flags: mapping.flags,
            };
            assert(vs.skip(k as int)[0] == vma);
            assert(vs.skip(k as int).drop_first() =~= vs.skip(k + 1));
            let res = self.insert_vma(vma);
            if res.is_err() {
                return res;
            }
            k += 1;
        }
        assert(vs.skip(4) =~= Seq::<Vma>::empty());
        Ok(())
    }
}

/// No area shares an address with `[c, c + size)`.
pub open spec fn range_clear(areas: Set<Vma>, c: int, size: int) -> bool {
    forall|w: Vma| #[trigger] areas.contains(w) ==> w.end_addr <= c || c + size <= w.start_addr
}

/// A VMA-free range of `size` bytes starts at `c` and lies in `[from, to)`.
pub open spec fn fits_at(areas: Set<Vma>, from: u64, to: u64, size: u64, c: int) -> bool {
    from <= c && c + size <= to && range_clear(areas, c, size as int)
}

/// `c` is the lowest address at which such a range fits.
pub open spec fn lowest_fit_at(areas: Set<Vma>, from: u64, to: u64, size: u64, c: int) -> bool {
    fits_at(areas, from, to, size, c) && forall|c2: int|
        from <= c2 < c ==> !#[trigger] fits_at(areas, from, to, size, c2)
}

/// The lowest address in `[from, to)` where a VMA-free range of `size` bytes fits, or
/// `None` if there is none.
pub open spec fn free_range(areas: Set<Vma>, from: u64, to: u64, size: u64) -> Option<u64> {
    if exists|c: int| lowest_fit_at(areas, from, to, size, c) {
        Some((choose|c: int| lowest_fit_at(areas, from, to, size, c)) as u64)
    } else {
        None
    }
}

/// An area ends no later than every area after it starts.
proof fn lemma_areas_ordered(s: Seq<Vma>, i: int, j: int)
    requires
        areas_wf(s),
        0 <= i < j < s.len(),
    ensures
        s[i].end_addr <= s[j].start_addr,
{
    assert(s[i].start_addr < s[j].start_addr);
    assert(!s[i].meets(s[j]));
}

/// A fit with no fit below it is the free range.
proof fn lemma_lowest_fit(areas: Set<Vma>, from: u64, to: u64, size: u64, c: int)
    requires
        lowest_fit_at(areas, from, to, size, c),
    ensures
        free_range(areas, from, to, size) == Some(c as u64),
{
    let c1 = choose|c1: int| lowest_fit_at(areas, from, to, size, c1);
    if c1 < c {
        assert(!fits_at(areas, from, to, size, c1));
    } else if c < c1 {
        assert(!fits_at(areas, from, to, size, c));
    }
}

/// Where nothing below `c` fits and nothing from `c` on ends before `to`, there is no
/// free range.
proof fn lemma_no_fit_beyond(areas: Set<Vma>, from: u64, to: u64, size: u64, c: int)
    requires
        forall|c2: int| from <= c2 < c ==> !#[trigger] fits_at(areas, from, to, size, c2),
        to - c < size,
    ensures
        free_range(areas, from, to, size) is None,
{
    if exists|c1: int| lowest_fit_at(areas, from, to, size, c1) {
        let c1 = choose|c1: int| lowest_fit_at(areas, from, to, size, c1);
        assert(fits_at(areas, from, to, size, c1));
    }
}

/// The VMA a boot mapping asks for.
pub open spec fn mapping_vma(m: BootMapping) -> Vma {
    Vma { start_addr: m.virt, end_addr: (m.virt + m.size) as u64, flags: m.flags }
}

/// The VMAs the boot mappings ask for, in order.
pub open spec fn mapping_vmas(ms: Seq<BootMapping>) -> Seq<Vma> {
    Seq::new(ms.len(), |i: int| mapping_vma(ms[i]))
}

/// Adding the areas `vs` in order: the final set and whether every one was accepted (the
/// set is the one reached before the first overlapping area).
pub open spec fn insert_all(s: Set<Vma>, vs: Seq<Vma>) -> (Set<Vma>, bool)
    decreases vs.len(),
{
    if vs.len() == 0 {
        (s, true)
    } else {
        match insert_outcome(s, vs[0]) {
            None => (s, false),
            Some(t) => insert_all(t, vs.drop_first()),
        }
    }
}


/// Adding one more area after a sequence of them.
pub proof fn lemma_insert_all_push(s: Set<Vma>, vs: Seq<Vma>, v: Vma)
    ensures
        insert_all(s, vs.push(v)) == (if insert_all(s, vs).1 {
            match insert_outcome(insert_all(s, vs).0, v) {
                None => (insert_all(s, vs).0, false),
                Some(u) => (u, true),
            }
        } else {
            insert_all(s, vs)
        }),
    decreases vs.len(),
{
    if vs.len() == 0 {
        assert(vs.push(v).drop_first() =~= Seq::<Vma>::empty());
        assert(vs.push(v)[0] == v);
        assert(insert_all(s, vs) == (s, true));
        match insert_outcome(s, v) {
            None => {},
            Some(t) => {
                assert(insert_all(t, Seq::<Vma>::empty()) == (t, true));
            },
        }
    } else {
        assert(vs.push(v)[0] == vs[0]);
        assert(vs.push(v).drop_first() =~= vs.drop_first().push(v));
        match insert_outcome(s, vs[0]) {
            None => {
                assert(insert_all(s, vs) == (s, false));
                assert(insert_all(s, vs.push(v)) == (s, false));
            },
            Some(t) => {
                lemma_insert_all_push(t, vs.drop_first(), v);
                assert(insert_all(s, vs) == insert_all(t, vs.drop_first()));
                assert(insert_all(s, vs.push(v)) == insert_all(t, vs.drop_first().push(v)));
            },
        }
    }
}


/// Two areas of a well-formed address space that share an address, or a start address,
/// are the same area.
pub proof fn lemma_areas_unique(a: AddressSpace, v: Vma, w: Vma)
    requires
        a.wf(),
        a.areas().contains(v),
        a.areas().contains(w),
        v.meets(w) || v.start_addr == w.start_addr,
    ensures
        v == w,
{
    let s = a@;
    let i = choose|i: int| 0 <= i < s.len() && s[i] == v;
    let j = choose|j: int| 0 <= j < s.len() && s[j] == w;
    if i != j {
        if i < j {
            assert(s[i].start_addr < s[j].start_addr);
        } else {
            assert(s[j].start_addr < s[i].start_addr);
        }
    }
}

/// After an area is added to an address space with no area starting at the same address,
/// it is the one area that holds each of its addresses, so looking up any of them finds it.
pub proof fn law_find_after_insert(before: AddressSpace, after: AddressSpace, v: Vma, addr: u64)
    requires
        before.wf(),
        after.wf(),
        forall|w: Vma| #[trigger] before.areas().contains(w) ==> w.start_addr != v.start_addr,
        insert_outcome(before.areas(), v) == Some(after.areas()),
        v.holds(addr),
    ensures
        after.areas().contains(v),
        forall|w: Vma| #[trigger] after.areas().contains(w) && w.holds(addr) ==> w == v,
{
    assert(after.areas() == before.areas().insert(v));
    assert forall|w: Vma| #[trigger] after.areas().contains(w) && w.holds(addr) implies w == v by {
        assert(w.meets(v));
        lemma_areas_unique(after, v, w);
    }
}

/// Over any run of calls on an [`AddressSpace`] (`insert_vma`, `remove_vma`,
/// `setup_kernel_vmas`, lookups; each keeps the root, succeeding or not), the page-table
/// root stays the one the address space was made with.
pub proof fn law_root_kept(states: Seq<AddressSpace>)
    requires
        states.len() >= 1,
        forall|i: int| 0 <= i < states.len() - 1 ==> #[trigger] states[i + 1].root() == states[i].root(),
    ensures
        states.last().root() == states[0].root(),
{
    let values = Seq::new(states.len(), |i: int| states[i].root());
    let calls = Seq::new((states.len() - 1) as nat, |i: int| None::<u64>);
    assert forall|i: int| #![trigger calls[i]] 0 <= i < calls.len() implies values[i + 1] == match calls[i] {
        Some(v) => v,
        None => values[i],
    } by {
        assert(states[i + 1].root() == states[i].root());
    }
    lemma_value_after(values, calls);
    assert forall|i: int| 0 <= i < calls.len() implies #[trigger] calls[i] is None by {}
    assert(values.last() == states.last().root());
}

/// Adding an area to an address space with no area starting at the same address, then
/// removing the area that starts at its start address, removes that very area and leaves
/// the areas there were before.
pub proof fn law_remove_after_insert(before: AddressSpace, after: AddressSpace, v: Vma)
    requires
        before.wf(),
        after.wf(),
        forall|w: Vma| #[trigger] before.areas().contains(w) ==> w.start_addr != v.start_addr,
        insert_outcome(before.areas(), v) == Some(after.areas()),
    ensures
        after.areas().contains(v),
        forall|w: Vma| #[trigger] after.areas().contains(w) && w.start_addr == v.start_addr ==> w
            == v,
        after.areas().remove(v) == before.areas(),
        forall|w: Vma| #[trigger] after.areas().remove(v).contains(w) ==> w.start_addr != v.start_addr,
{
    assert(after.areas() == before.areas().insert(v));
    assert forall|w: Vma| #[trigger] after.areas().contains(w) && w.start_addr == v.start_addr implies w
        == v by {
        lemma_areas_unique(after, v, w);
    }
    assert(!before.areas().contains(v));
    assert(after.areas().remove(v) =~= before.areas());
}

} // verus!
