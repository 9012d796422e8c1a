//! Physical Memory Manager (PMM): a buddy allocator that tracks and hands out physical frames.
//!
//! Free blocks of order `o` (`FRAME_SIZE << o` bytes, aligned to their size) are kept in one
//! last-in-first-out list per order. Allocation takes the head of the lowest non-empty list
//! at or above the wanted order and hands the upper halves back while splitting; freeing
//! merges a block with its free buddy as long as one exists.

use crate::mm::bits::{block_size, lemma_aligned_fits, lemma_block_size_shift, lemma_buddy, FRAME_SIZE};
use crate::mm::free_lists::{
    split_back as split_back_from, lemma_split_back_len, lemma_first_nonempty_is,
    lemma_slot_unique, lemma_remove_free,
    alloc_result, block_is_used, coalesced, first_nonempty, free_bytes, free_result, in_block, is_free,
    lemma_alloc_result, lemma_first_nonempty, lemma_free_result, lists_wf, push_slot, remove_slot,
    MAX_ORDER, NUM_ORDERS,
};
use vstd::prelude::*;

verus! {

/// Memory map entry type of memory that is free for the kernel to use.
pub const MEMMAP_USABLE: u64 = 0;

/// Memory map entry type of reserved memory.
pub const MEMMAP_RESERVED: u64 = 1;

/// Memory map entry type of ACPI tables that can be reclaimed.
pub const MEMMAP_ACPI_RECLAIMABLE: u64 = 2;

/// Memory map entry type of memory used by the bootloader that can be reclaimed.
pub const MEMMAP_BOOTLOADER_RECLAIMABLE: u64 = 5;

/// One region of the physical memory map handed over by the bootloader.
#[derive(Clone, Copy)]
pub struct MemmapEntry {
    pub base: u64,
    pub length: u64,
    pub type_: u64,
}

/// First address of a usable entry that the allocator hands out (frame 0 is never used).
pub open spec fn entry_start(e: MemmapEntry) -> int {
    if e.base == 0 {
        4096
    } else {
        e.base as int
    }
}

/// End of the whole frames of an entry.
pub open spec fn entry_end(e: MemmapEntry) -> int {
    e.base + e.length - e.length % 4096
}

/// The address `f` lies in a whole frame of the usable entry `e` other than frame 0.
pub open spec fn entry_covers(e: MemmapEntry, f: int) -> bool {
    e.type_ == MEMMAP_USABLE && entry_start(e) <= f < entry_end(e)
}

/// The memory map is one the bootloader can hand over: usable entries start on a frame
/// boundary, lie inside the 64-bit space, hold frame 0 only together with a further frame,
/// and do not overlap each other.
pub open spec fn memmap_ok(entries: Seq<MemmapEntry>) -> bool {
    &&& forall|i: int|
        0 <= i < entries.len() && (#[trigger] entries[i]).type_ == MEMMAP_USABLE ==> {
            &&& entries[i].base % 4096 == 0
            &&& entries[i].base + entries[i].length <= u64::MAX
            &&& (entries[i].base == 0 ==> entries[i].length >= 4096)
        }
    &&& forall|i: int, j: int|
        0 <= i < entries.len() && 0 <= j < entries.len() && i != j && (#[trigger] entries[i]).type_
            == MEMMAP_USABLE && (#[trigger] entries[j]).type_ == MEMMAP_USABLE ==> entries[i].base
            + entries[i].length <= entries[j].base || entries[j].base + entries[j].length
            <= entries[i].base
}

/// The address `f` lies in a whole frame of one of the first `n` entries.
pub open spec fn memmap_covers(entries: Seq<MemmapEntry>, n: int, f: int) -> bool {
    exists|j: int| 0 <= j < n && #[trigger] entry_covers(entries[j], f)
}

/// Buddy-allocator based tracker of free physical frames.
pub struct Pmm {
    head: Vec<Vec<u64>>,
}

impl View for Pmm {
    type V = Seq<Seq<u64>>;

    /// The free lists, one sequence of block addresses per order; the head is the last element.
    closed spec fn view(&self) -> Seq<Seq<u64>> {
        Seq::new(self.head@.len(), |o: int| self.head@[o]@)
    }
}

impl Pmm {
    /// The free lists are well-formed: aligned, pairwise disjoint blocks, with free buddies
    /// merged.
    pub open spec fn wf(&self) -> bool {
        lists_wf(self@) && coalesced(self@)
    }

    /// A PMM without free memory.
    fn empty() -> (pmm: Pmm)
        ensures
            pmm.wf(),
            forall|f: int| !is_free(#[trigger] pmm@, f),
    {
        let mut head: Vec<Vec<u64>> = Vec::new();
        let mut o: usize = 0;
        while o < NUM_ORDERS
            invariant
                o <= NUM_ORDERS,
                head@.len() == o,
                forall|k: int| 0 <= k < o ==> (#[trigger] head@[k])@.len() == 0,
            decreases NUM_ORDERS - o,
        {
            head.push(Vec::new());
            o += 1;
        }
        let pmm = Pmm { head };
        assert(forall|f: int| !is_free(pmm@, f));
        pmm
    }

    /// Remove and return the head block from the order-`order` free list, or `None` if empty.
    fn pop(&mut self, order: usize) -> (r: Option<u64>)
        requires
            order < old(self)@.len(),
        ensures
            match r {
                None => old(self)@[order as int].len() == 0 && final(self)@ == old(self)@,
                Some(a) => {
                    &&& old(self)@[order as int].len() > 0
                    &&& a == old(self)@[order as int].last()
                    &&& final(self)@ == old(self)@.update(
                        order as int,
                        old(self)@[order as int].drop_last(),
                    )
                },
            },
    {
        let r = self.head[order].pop();
        assert(self@ =~= old(self)@.update(order as int, self.head@[order as int]@));
        r
    }

    /// Prepend `addr` onto the order-`order` free list.
    fn push(&mut self, order: usize, addr: u64)
        requires
            order < old(self)@.len(),
        ensures
            final(self)@ == push_slot(old(self)@, order as int, addr),
    {
        self.head[order].push(addr);
        assert(self@ =~= push_slot(old(self)@, order as int, addr));
    }

    /// Index of `x` in the order-`order` free list, searching from the head.
    fn find(&self, order: usize, x: u64) -> (r: Option<usize>)
        requires
            order < self@.len(),
        ensures
            match r {
                None => !self@[order as int].contains(x),
                Some(i) => i < self@[order as int].len() && self@[order as int][i as int] == x,
            },
    {
        let list = &self.head[order];
        let mut i = list.len();
        while i > 0
            invariant
                i <= list@.len(),
                list@ == self@[order as int],
                forall|j: int| i <= j < list@.len() ==> list@[j] != x,
            decreases i,
        {
            i -= 1;
            if list[i] == x {
                return Some(i);
            }
        }
        None
    }

    /// Allocate a block of `FRAME_SIZE << order` bytes.
    ///
    /// Takes the head of the lowest non-empty free list at or above `order` and hands the
    /// upper halves back to the lower lists while splitting it down to `order`. Returns
    /// `None` if `order` exceeds the largest order or no list at or above it has a block.
    pub fn alloc_block(&mut self, order: usize) -> (r: Option<u64>)
        requires
            old(self).wf(),
        ensures
            final(self).wf(),
            (final(self)@, r) == alloc_result(old(self)@, order as int),
            r is None <==> order > MAX_ORDER || forall|k: int|
                order <= k <= MAX_ORDER ==> #[trigger] old(self)@[k].len() == 0,
            r is None ==> final(self)@ == old(self)@,
            r matches Some(a) ==> {
                &&& a as int % block_size(order as int) == 0
                &&& forall|f: int| #[trigger]
                    in_block(a, order as int, f) ==> is_free(old(self)@, f)
                &&& forall|f: int| #[trigger]
                    is_free(final(self)@, f) <==> is_free(old(self)@, f) && !in_block(
                        a,
                        order as int,
                        f,
                    )
                &&& free_bytes(final(self)@) == free_bytes(old(self)@) - block_size(order as int)
            },
    {
        let ghost old_lists = self@;
        if order > MAX_ORDER {
            return None;
        }
        proof {
            lemma_first_nonempty(old_lists, order as int);
        }
        let mut current: usize = MAX_ORDER;
        let mut o: usize = order;
        loop
            invariant
                order <= o <= MAX_ORDER,
                self@ == old_lists,
                lists_wf(old_lists),
                coalesced(old_lists),
                forall|k: int| order <= k < o ==> #[trigger] old_lists[k].len() == 0,
            ensures
                order <= current <= MAX_ORDER,
                self@ == old_lists,
                old_lists[current as int].len() > 0,
                forall|k: int| order <= k < current ==> #[trigger] old_lists[k].len() == 0,
            decreases MAX_ORDER - o,
        {
            if self.head[o].len() > 0 {
                current = o;
                break;
            }
            if o == MAX_ORDER {
                assert(forall|k: int|
                    order <= k <= MAX_ORDER ==> #[trigger] old_lists[k].len() == 0);
                proof {
                    lemma_first_nonempty_is(old_lists, order as int, NUM_ORDERS as int);
                }
                return None;
            }
            o += 1;
        }
        let ghost m = current as int;
        proof {
            lemma_first_nonempty_is(old_lists, order as int, m);
            lemma_alloc_result(old_lists, order as int);
            lemma_block_size_shift(current as u64);
        }
        let addr = match self.pop(current) {
            Some(a) => a,
            None => { return None; },
        };
        let ghost taken = self@;
        while current > order
            invariant
                order <= current <= m,
                m <= MAX_ORDER,
                taken == old_lists.update(m, old_lists[m].drop_last()),
                self@ == split_back_from(taken, addr, current as int, m),
                addr + block_size(m) <= u64::MAX + 1,
                self@.len() == NUM_ORDERS,
                taken.len() == NUM_ORDERS,
            decreases current,
        {
            current -= 1;
            proof {
                lemma_block_size_shift(current as u64);
                crate::mm::free_lists::lemma_block_size_mono(current as int + 1, m);
                lemma_split_back_len(taken, addr, current as int + 1, m);
            }
            let buddy = addr + (FRAME_SIZE << current);
            self.push(current, buddy);
        }
        Some(addr)
    }

    /// Allocate exactly one frame (order 0).
    pub fn alloc_frame(&mut self) -> (r: Option<u64>)
        requires
            old(self).wf(),
        ensures
            final(self).wf(),
            (final(self)@, r) == alloc_result(old(self)@, 0),
            r is None <==> forall|k: int| 0 <= k <= MAX_ORDER ==> #[trigger] old(self)@[k].len() == 0,
            r matches Some(a) ==> {
                &&& a as int % 4096 == 0
                &&& forall|f: int| #[trigger] in_block(a, 0, f) ==> is_free(old(self)@, f)
                &&& forall|f: int| #[trigger]
                    is_free(final(self)@, f) <==> is_free(old(self)@, f) && !in_block(a, 0, f)
                &&& free_bytes(final(self)@) == free_bytes(old(self)@) - 4096
            },
    {
        self.alloc_block(0)
    }

    /// Return a block of `FRAME_SIZE << order` bytes to the free lists, merging it with its
    /// buddy as long as the buddy is free and the merged block is below the largest order.
    pub fn free(&mut self, addr: u64, order: usize)
        requires
            old(self).wf(),
            order <= MAX_ORDER,
            addr as int % block_size(order as int) == 0,
            block_is_used(old(self)@, addr, order as int),
        ensures
            final(self).wf(),
            final(self)@ == free_result(old(self)@, addr, order as int),
            forall|f: int| #[trigger]
                is_free(final(self)@, f) <==> is_free(old(self)@, f) || in_block(
                    addr,
                    order as int,
                    f,
                ),
            free_bytes(final(self)@) == free_bytes(old(self)@) + block_size(order as int),
    {
        let ghost old_lists = self@;
        let ghost target = free_result(old_lists, addr, order as int);
        let mut addr = addr;
        let mut order = order;
        proof {
            lemma_block_size_shift(order as u64);
            lemma_aligned_fits(addr, order as u64);
            lemma_free_result(old_lists, addr, order as int);
        }
        while order < MAX_ORDER
            invariant
                order <= MAX_ORDER,
                lists_wf(self@),
                addr as int % block_size(order as int) == 0,
                addr + block_size(order as int) <= u64::MAX + 1,
                block_is_used(self@, addr, order as int),
                free_result(self@, addr, order as int) == target,
            ensures
                order <= MAX_ORDER,
                lists_wf(self@),
                addr as int % block_size(order as int) == 0,
                addr + block_size(order as int) <= u64::MAX + 1,
                block_is_used(self@, addr, order as int),
                free_result(self@, addr, order as int) == target,
                order == MAX_ORDER || !self@[order as int].contains(
                    crate::mm::free_lists::buddy(addr, order as int),
                ),
            decreases MAX_ORDER - order,
        {
            let ghost cur = self@;
            let buddy = addr ^ (FRAME_SIZE << order);
            let i = match self.find(order, buddy) {
                Some(i) => i,
                None => {
                    break;
                },
            };
            proof {
                lemma_buddy(addr, order as u64);
                lemma_slot_unique(cur, order as int, i as int);
                cur[order as int].index_of_first_ensures(buddy);
                assert(cur[order as int].remove_value(buddy) == cur[order as int].remove(i as int));
                lemma_remove_free(cur, order as int, i as int);
            }
            self.head[order].remove(i);
            assert(self@ =~= remove_slot(cur, order as int, i as int));
            let lo = if addr < buddy { addr } else { buddy };
            proof {
                assert(block_size(order + 1) == 2 * block_size(order as int));
                assert forall|f: int| #[trigger] in_block(lo, order + 1, f) implies !is_free(
                    self@,
                    f,
                ) by {
                    if in_block(addr, order as int, f) {
                    } else {
                        assert(in_block(buddy, order as int, f));
                    }
                }
                assert(buddy + block_size(order as int) <= u64::MAX + 1);
            }
            addr = lo;
            order += 1;
        }
        proof {
            lemma_block_size_shift(order as u64);
            crate::mm::free_lists::lemma_push_wf(self@, order as int, addr);
        }
        self.push(order, addr);
    }

    /// Return exactly one frame (order 0) to the free lists.
    pub fn free_frame(&mut self, addr: u64)
        requires
            old(self).wf(),
            addr as int % 4096 == 0,
            block_is_used(old(self)@, addr, 0),
        ensures
            final(self).wf(),
            final(self)@ == free_result(old(self)@, addr, 0),
            forall|f: int| #[trigger]
                is_free(final(self)@, f) <==> is_free(old(self)@, f) || in_block(addr, 0, f),
            free_bytes(final(self)@) == free_bytes(old(self)@) + 4096,
    {
        self.free(addr, 0)
    }

    /// Initialize the PMM from the bootloader's memory map, coalescing the usable frames into
    /// the buddy free lists. Each usable region is carved, from its start, into the largest
    /// blocks that are aligned to their size and fit in what is left of the region; frame 0
    /// and a trailing partial frame are left out.
    pub fn init(entries: &[MemmapEntry]) -> (pmm: Pmm)
        requires
            memmap_ok(entries@),
        ensures
            pmm.wf(),
            forall|f: int| #[trigger]
                is_free(pmm@, f) <==> memmap_covers(entries@, entries@.len() as int, f),
    {
        let mut pmm = Pmm::empty();
        let mut k: usize = 0;
        while k < entries.len()
            invariant
                k <= entries@.len(),
                memmap_ok(entries@),
                pmm.wf(),
                forall|f: int| #[trigger] is_free(pmm@, f) <==> memmap_covers(entries@, k as int, f),
            decreases entries@.len() - k,
        {
            let entry = entries[k];
            proof {
                lemma_memmap_covers_step(entries@, k as int);
            }
            if entry.type_ == MEMMAP_USABLE {
                let mut addr = entry.base;
                let mut remaining = entry.length;
                if addr == 0 {
                    addr += FRAME_SIZE;
                    remaining -= FRAME_SIZE;
                }
                while remaining >= FRAME_SIZE
                    invariant
                        k < entries@.len(),
                        entry == entries@[k as int],
                        entry.type_ == MEMMAP_USABLE,
                        memmap_ok(entries@),
                        addr as int % 4096 == 0,
                        addr + remaining == entry.base + entry.length,
                        entry_start(entry) <= addr,
                        pmm.wf(),
                        forall|f: int| #[trigger]
                            is_free(pmm@, f) <==> memmap_covers(entries@, k as int, f) || (
                            entry_start(entry) <= f < addr),
                    decreases remaining,
                {
                    let mut order: usize = MAX_ORDER;
                    while order > 0
                        invariant
                            order <= MAX_ORDER,
                            addr as int % 4096 == 0,
                            remaining >= 4096,
                        ensures
                            order <= MAX_ORDER,
                            remaining >= block_size(order as int),
                            addr as int % block_size(order as int) == 0,
                        decreases order,
                    {
                        proof {
                            lemma_block_size_shift(order as u64);
                        }
                        let block_size = FRAME_SIZE << order;
                        if remaining >= block_size && addr % (FRAME_SIZE << order) == 0 {
                            break;
                        }
                        order -= 1;
                    }
                    proof {
                        lemma_block_size_shift(order as u64);
                        assert forall|f: int| #[trigger] in_block(addr, order as int, f) implies !is_free(
                            pmm@,
                            f,
                        ) by {
                            if memmap_covers(entries@, k as int, f) {
                                let j = choose|j: int|
                                    0 <= j < k && #[trigger] entry_covers(entries@[j], f);
                                assert(entries@[j].type_ == MEMMAP_USABLE);
                            }
                        }
                    }
                    pmm.free(addr, order);
                    let block_size = FRAME_SIZE << order;
                    proof {
                        vstd::arithmetic::div_mod::lemma_mod_add_multiples_vanish(
                            addr as int,
                            block_size as int,
                        );
                        crate::mm::free_lists::lemma_aligned_down(
                            addr + block_size,
                            0,
                            order as int,
                        );
                    }
                    addr += block_size;
                    remaining -= block_size;
                }
                proof {
                    lemma_frame_end(entry.base, entry.length, addr, remaining);
                }
            }
            k += 1;
        }
        pmm
    }
}

/// The usable frames of the first `k + 1` entries are those of the first `k` and of entry `k`.
proof fn lemma_memmap_covers_step(entries: Seq<MemmapEntry>, k: int)
    requires
        0 <= k < entries.len(),
    ensures
        forall|f: int| #[trigger]
            memmap_covers(entries, k + 1, f) <==> memmap_covers(entries, k, f) || entry_covers(
                entries[k],
                f,
            ),
{
    assert forall|f: int| #[trigger]
        memmap_covers(entries, k + 1, f) <==> memmap_covers(entries, k, f) || entry_covers(
            entries[k],
            f,
        ) by {
        if memmap_covers(entries, k + 1, f) {
            let j = choose|j: int| 0 <= j < k + 1 && #[trigger] entry_covers(entries[j], f);
            if j < k {
                assert(memmap_covers(entries, k, f));
            }
        }
        if memmap_covers(entries, k, f) {
            let j = choose|j: int| 0 <= j < k && #[trigger] entry_covers(entries[j], f);
            assert(memmap_covers(entries, k + 1, f));
        }
        if entry_covers(entries[k], f) {
            assert(memmap_covers(entries, k + 1, f));
        }
    }
}

/// Carving a frame-aligned region into whole frames ends at the last whole frame.
proof fn lemma_frame_end(base: u64, length: u64, addr: u64, remaining: u64)
    requires
        base as int % 4096 == 0,
        addr as int % 4096 == 0,
        addr + remaining == base + length,
        remaining < 4096,
    ensures
        addr == base + length - length as int % 4096,
{
    vstd::arithmetic::div_mod::lemma_add_mod_noop(base as int, length as int, 4096);
    vstd::arithmetic::div_mod::lemma_add_mod_noop(addr as int, remaining as int, 4096);
    vstd::arithmetic::div_mod::lemma_mod_twice(length as int, 4096);
    vstd::arithmetic::div_mod::lemma_small_mod(remaining as nat, 4096);
}

} // verus!
