//! The mathematical model of the buddy allocator's free lists and the facts the
//! allocator's proofs rest on.
//!
//! The free lists are modelled as one sequence of block start addresses per order.
//! A block of order `o` starting at `a` covers the frames `[a, a + block_size(o))`.

use crate::mm::bits::{block_size, lemma_buddy};
use vstd::prelude::*;

verus! {

/// Number of block orders the allocator keeps a free list for.
pub const NUM_ORDERS: usize = 11;

/// Largest block order.
pub const MAX_ORDER: usize = 10;

/// The address `f` lies in the block of order `order` starting at `a`.
pub open spec fn in_block(a: u64, order: int, f: int) -> bool {
    a <= f < a + block_size(order)
}

/// `(o, i)` names an entry of the free lists.
pub open spec fn valid_slot(lists: Seq<Seq<u64>>, o: int, i: int) -> bool {
    0 <= o < lists.len() && 0 <= i < lists[o].len()
}

/// The address `f` lies in some free block.
pub open spec fn is_free(lists: Seq<Seq<u64>>, f: int) -> bool {
    exists|o: int, i: int| valid_slot(lists, o, i) && #[trigger] in_block(lists[o][i], o, f)
}

/// The blocks `(a1, o1)` and `(a2, o2)` share no address.
pub open spec fn separated(a1: u64, o1: int, a2: u64, o2: int) -> bool {
    a1 + block_size(o1) <= a2 || a2 + block_size(o2) <= a1
}

/// Every free block starts at a multiple of its size and ends inside the 64-bit space.
pub open spec fn blocks_aligned(lists: Seq<Seq<u64>>) -> bool {
    forall|o: int, i: int|
        valid_slot(lists, o, i) ==> (#[trigger] lists[o][i]) as int % block_size(o) == 0
            && lists[o][i] + block_size(o) <= u64::MAX + 1
}

/// No two free blocks share an address.
pub open spec fn blocks_disjoint(lists: Seq<Seq<u64>>) -> bool {
    forall|o1: int, i1: int, o2: int, i2: int|
        valid_slot(lists, o1, i1) && valid_slot(lists, o2, i2) && !(o1 == o2 && i1 == i2)
            ==> separated(#[trigger] lists[o1][i1], o1, #[trigger] lists[o2][i2], o2)
}

/// Well-formed free lists: one list per order, aligned and pairwise disjoint blocks.
pub open spec fn lists_wf(lists: Seq<Seq<u64>>) -> bool {
    &&& lists.len() == NUM_ORDERS
    &&& blocks_aligned(lists)
    &&& blocks_disjoint(lists)
}

/// No address of the block `(a, order)` is free.
pub open spec fn block_is_used(lists: Seq<Seq<u64>>, a: u64, order: int) -> bool {
    forall|f: int| #[trigger] in_block(a, order, f) ==> !is_free(lists, f)
}

/// Bytes held by the free lists of orders below `n`.
pub open spec fn bytes_below(lists: Seq<Seq<u64>>, n: int) -> int
    decreases n,
{
    if n <= 0 {
        0
    } else {
        bytes_below(lists, n - 1) + lists[n - 1].len() * block_size(n - 1)
    }
}

/// Bytes held by all free lists.
pub open spec fn free_bytes(lists: Seq<Seq<u64>>) -> int {
    bytes_below(lists, NUM_ORDERS as int)
}

/// The lowest order at or above `from` whose free list is not empty, or `NUM_ORDERS`.
pub open spec fn first_nonempty(lists: Seq<Seq<u64>>, from: int) -> int
    decreases NUM_ORDERS - from,
{
    if from >= NUM_ORDERS {
        NUM_ORDERS as int
    } else if lists[from].len() > 0 {
        from
    } else {
        first_nonempty(lists, from + 1)
    }
}

/// The free lists after the upper halves of a block at `a` are handed back at the orders
/// `lo .. hi`: the list of order `k` gets the block `a + block_size(k)`.
pub open spec fn split_back(lists: Seq<Seq<u64>>, a: u64, lo: int, hi: int) -> Seq<Seq<u64>>
    decreases hi - lo,
{
    if lo >= hi {
        lists
    } else {
        let rest = split_back(lists, a, lo + 1, hi);
        rest.update(lo, rest[lo].push((a + block_size(lo)) as u64))
    }
}

/// The free lists and result of allocating a block of order `order`: the head of the lowest
/// non-empty list at or above `order` is taken and split down to `order`.
pub open spec fn alloc_result(lists: Seq<Seq<u64>>, order: int) -> (Seq<Seq<u64>>, Option<u64>) {
    let m = first_nonempty(lists, order);
    if order < 0 || order > MAX_ORDER || m > MAX_ORDER {
        (lists, None)
    } else {
        let a = lists[m].last();
        let taken = lists.update(m, lists[m].drop_last());
        (split_back(taken, a, order, m), Some(a))
    }
}

/// The buddy of the block `(a, order)`.
pub open spec fn buddy(a: u64, order: int) -> u64 {
    a ^ (4096u64 << (order as u64))
}

/// The free lists after the block `(a, order)` is given back, merged with its free buddies.
pub open spec fn free_result(lists: Seq<Seq<u64>>, a: u64, order: int) -> Seq<Seq<u64>>
    decreases MAX_ORDER - order,
{
    let b = buddy(a, order);
    if 0 <= order < MAX_ORDER && lists[order].contains(b) {
        free_result(
            lists.update(order, lists[order].remove_value(b)),
            if a < b { a } else { b },
            order + 1,
        )
    } else {
        lists.update(order, lists[order].push(a))
    }
}

/// Free buddies are merged: below the largest order, no list holds both a block and its
/// buddy.
pub open spec fn coalesced(lists: Seq<Seq<u64>>) -> bool {
    forall|o: int, x: u64|
        0 <= o < MAX_ORDER && #[trigger] lists[o].contains(x) ==> !lists[o].contains(buddy(x, o))
}

/// A block is not its own buddy, and the buddy of the buddy is the block.
pub proof fn lemma_buddy_involutive(x: u64, o: int)
    requires
        0 <= o < MAX_ORDER,
    ensures
        buddy(buddy(x, o), o) == x,
        buddy(x, o) != x,
{
    let k = o as u64;
    assert(k < 10 ==> (x ^ (4096u64 << k)) ^ (4096u64 << k) == x && x ^ (4096u64 << k) != x)
        by (bit_vector);
}

/// Taking blocks out of a list keeps the lists coalesced.
proof fn lemma_coalesced_subset(lists: Seq<Seq<u64>>, o: int, s2: Seq<u64>)
    requires
        coalesced(lists),
        lists.len() == NUM_ORDERS,
        0 <= o < lists.len(),
        forall|x: u64| #[trigger] s2.contains(x) ==> lists[o].contains(x),
    ensures
        coalesced(lists.update(o, s2)),
{
    let l2 = lists.update(o, s2);
    assert forall|o1: int, x: u64| 0 <= o1 < MAX_ORDER && #[trigger] l2[o1].contains(x) implies !l2[o1].contains(buddy(x, o1)) by {
        if o1 == o {
            assert(lists[o].contains(x));
            if l2[o1].contains(buddy(x, o1)) {
                assert(lists[o].contains(buddy(x, o1)));
            }
        } else {
            assert(lists[o1].contains(x));
        }
    }
}

/// Pushing a block whose buddy is not in its list keeps the lists coalesced.
proof fn lemma_coalesced_push(lists: Seq<Seq<u64>>, o: int, a: u64)
    requires
        coalesced(lists),
        lists.len() == NUM_ORDERS,
        0 <= o < lists.len(),
        o < MAX_ORDER ==> !lists[o].contains(buddy(a, o)),
    ensures
        coalesced(lists.update(o, lists[o].push(a))),
{
    let l2 = lists.update(o, lists[o].push(a));
    assert forall|o1: int, x: u64| 0 <= o1 < MAX_ORDER && #[trigger] l2[o1].contains(x) implies !l2[o1].contains(buddy(x, o1)) by {
        if o1 == o {
            lemma_buddy_involutive(x, o);
            lemma_buddy_involutive(a, o);
            let b = buddy(x, o1);
            if l2[o1].contains(b) {
                let j = choose|j: int| 0 <= j < l2[o1].len() && l2[o1][j] == b;
                let k = choose|k: int| 0 <= k < l2[o1].len() && l2[o1][k] == x;
                if x == a {
                    assert(b != a);
                    assert(j < lists[o].len());
                    assert(lists[o].contains(b));
                } else {
                    assert(k < lists[o].len());
                    assert(lists[o].contains(x));
                    if b == a {
                        assert(buddy(a, o) == x);
                    } else {
                        assert(j < lists[o].len());
                        assert(lists[o].contains(b));
                    }
                }
            }
        } else {
            assert(lists[o1].contains(x));
        }
    }
}

/// The lists with the entry `(o, i)` taken out.
pub open spec fn remove_slot(lists: Seq<Seq<u64>>, o: int, i: int) -> Seq<Seq<u64>> {
    lists.update(o, lists[o].remove(i))
}

/// The lists with `x` pushed onto the list of order `o`.
pub open spec fn push_slot(lists: Seq<Seq<u64>>, o: int, x: u64) -> Seq<Seq<u64>> {
    lists.update(o, lists[o].push(x))
}

/// An address inside a free block is free.
pub proof fn lemma_slot_free(lists: Seq<Seq<u64>>, o: int, i: int, f: int)
    requires
        valid_slot(lists, o, i),
        in_block(lists[o][i], o, f),
    ensures
        is_free(lists, f),
{
}

/// Blocks that share an address are not separated.
pub proof fn lemma_overlap_witness(a1: u64, o1: int, a2: u64, o2: int)
    requires
        !separated(a1, o1, a2, o2),
    ensures
        in_block(a1, o1, if a1 < a2 { a2 as int } else { a1 as int }),
        in_block(a2, o2, if a1 < a2 { a2 as int } else { a1 as int }),
{
    lemma_block_size_pos(o1);
    lemma_block_size_pos(o2);
}

/// Block sizes are positive.
pub proof fn lemma_block_size_pos(o: int)
    ensures
        block_size(o) >= 4096,
    decreases o,
{
    if o > 0 {
        lemma_block_size_pos(o - 1);
    }
}

/// Block sizes grow with the order.
pub proof fn lemma_block_size_mono(k: int, h: int)
    requires
        0 <= k <= h,
    ensures
        block_size(k) <= block_size(h),
    decreases h - k,
{
    if k < h {
        lemma_block_size_mono(k, h - 1);
        lemma_block_size_pos(h - 1);
    }
}

/// A multiple of a block size is a multiple of every smaller block size.
pub proof fn lemma_aligned_down(a: int, k: int, h: int)
    requires
        0 <= k <= h,
        a % block_size(h) == 0,
    ensures
        a % block_size(k) == 0,
    decreases h - k,
{
    if k < h {
        lemma_block_size_pos(h - 1);
        vstd::arithmetic::div_mod::lemma_mod_mod(a, block_size(h - 1), 2);
        assert(block_size(h - 1) * 2 == block_size(h));
        assert(a % (block_size(h - 1) * 2) == 0);
        vstd::arithmetic::div_mod::lemma_small_mod(0, block_size(h - 1) as nat);
        assert((a % (block_size(h - 1) * 2)) % block_size(h - 1) == 0);
        lemma_aligned_down(a, k, h - 1);
    }
}

/// Pushing a block adds exactly its addresses to the free ones.
pub proof fn lemma_push_free(lists: Seq<Seq<u64>>, o: int, x: u64)
    requires
        0 <= o < lists.len(),
    ensures
        forall|f: int| #[trigger]
            is_free(push_slot(lists, o, x), f) <==> is_free(lists, f) || in_block(x, o, f),
{
    let l2 = push_slot(lists, o, x);
    assert forall|f: int| #[trigger] is_free(l2, f) <==> is_free(lists, f) || in_block(x, o, f) by {
        if is_free(l2, f) {
            let (o1, i1) = choose|o1: int, i1: int|
                valid_slot(l2, o1, i1) && #[trigger] in_block(l2[o1][i1], o1, f);
            if o1 == o && i1 == lists[o].len() {
                assert(in_block(x, o, f));
            } else {
                assert(l2[o1][i1] == lists[o1][i1]);
                lemma_slot_free(lists, o1, i1, f);
            }
        }
        if is_free(lists, f) {
            let (o1, i1) = choose|o1: int, i1: int|
                valid_slot(lists, o1, i1) && #[trigger] in_block(lists[o1][i1], o1, f);
            assert(l2[o1][i1] == lists[o1][i1]);
            lemma_slot_free(l2, o1, i1, f);
        }
        if in_block(x, o, f) {
            assert(l2[o][lists[o].len() as int] == x);
            lemma_slot_free(l2, o, lists[o].len() as int, f);
        }
    }
}

/// Pushing an aligned block that shares no address with a free one keeps the lists well-formed.
pub proof fn lemma_push_wf(lists: Seq<Seq<u64>>, o: int, x: u64)
    requires
        lists_wf(lists),
        0 <= o < NUM_ORDERS,
        x as int % block_size(o) == 0,
        x + block_size(o) <= u64::MAX + 1,
        block_is_used(lists, x, o),
    ensures
        lists_wf(push_slot(lists, o, x)),
{
    let l2 = push_slot(lists, o, x);
    let n = lists[o].len() as int;
    assert forall|o1: int, i1: int| valid_slot(l2, o1, i1) implies (#[trigger] l2[o1][i1]) as int
        % block_size(o1) == 0 && l2[o1][i1] + block_size(o1) <= u64::MAX + 1 by {
        if !(o1 == o && i1 == n) {
            assert(l2[o1][i1] == lists[o1][i1]);
        }
    }
    assert forall|o1: int, i1: int, o2: int, i2: int|
        valid_slot(l2, o1, i1) && valid_slot(l2, o2, i2) && !(o1 == o2 && i1 == i2) implies separated(
        #[trigger] l2[o1][i1],
        o1,
        #[trigger] l2[o2][i2],
        o2,
    ) by {
        let new1 = o1 == o && i1 == n;
        let new2 = o2 == o && i2 == n;
        if !new1 && !new2 {
            assert(l2[o1][i1] == lists[o1][i1]);
            assert(l2[o2][i2] == lists[o2][i2]);
        } else if new1 {
            assert(l2[o2][i2] == lists[o2][i2]);
            if !separated(x, o, lists[o2][i2], o2) {
                lemma_overlap_witness(x, o, lists[o2][i2], o2);
                let w = if x < lists[o2][i2] { lists[o2][i2] as int } else { x as int };
                lemma_slot_free(lists, o2, i2, w);
            }
        } else {
            assert(l2[o1][i1] == lists[o1][i1]);
            if !separated(lists[o1][i1], o1, x, o) {
                lemma_overlap_witness(lists[o1][i1], o1, x, o);
                let w = if lists[o1][i1] < x { x as int } else { lists[o1][i1] as int };
                lemma_slot_free(lists, o1, i1, w);
            }
        }
    }
}

/// Taking an entry out of the lists frees exactly its addresses and keeps the lists
/// well-formed.
pub proof fn lemma_remove_free(lists: Seq<Seq<u64>>, o: int, i: int)
    requires
        lists_wf(lists),
        valid_slot(lists, o, i),
    ensures
        forall|f: int| #[trigger]
            is_free(remove_slot(lists, o, i), f) <==> is_free(lists, f) && !in_block(
                lists[o][i],
                o,
                f,
            ),
        lists_wf(remove_slot(lists, o, i)),
{
    let l2 = remove_slot(lists, o, i);
    let x = lists[o][i];
    // The slot of `l2` at `(o1, i1)` came from this slot of `lists`.
    assert forall|o1: int, i1: int| #[trigger] valid_slot(l2, o1, i1) implies valid_slot(
        lists,
        o1,
        if o1 == o && i1 >= i { i1 + 1 } else { i1 },
    ) && l2[o1][i1] == lists[o1][if o1 == o && i1 >= i { i1 + 1 } else { i1 }] && !(o1 == o && (
    if o1 == o && i1 >= i { i1 + 1 } else { i1 }) == i) by {}
    assert forall|f: int| #[trigger]
        is_free(l2, f) <==> is_free(lists, f) && !in_block(x, o, f) by {
        if is_free(l2, f) {
            let (o1, i1) = choose|o1: int, i1: int|
                valid_slot(l2, o1, i1) && #[trigger] in_block(l2[o1][i1], o1, f);
            let j1 = if o1 == o && i1 >= i { i1 + 1 } else { i1 };
            assert(valid_slot(l2, o1, i1));
            lemma_slot_free(lists, o1, j1, f);
            assert(separated(lists[o1][j1], o1, lists[o][i], o));
        }
        if is_free(lists, f) && !in_block(x, o, f) {
            let (o1, j1) = choose|o1: int, j1: int|
                valid_slot(lists, o1, j1) && #[trigger] in_block(lists[o1][j1], o1, f);
            assert(!(o1 == o && j1 == i));
            let i1 = if o1 == o && j1 > i { j1 - 1 } else { j1 };
            assert(valid_slot(l2, o1, i1));
            assert(l2[o1][i1] == lists[o1][j1]);
            lemma_slot_free(l2, o1, i1, f);
        }
    }
    assert forall|o1: int, i1: int| valid_slot(l2, o1, i1) implies (#[trigger] l2[o1][i1]) as int
        % block_size(o1) == 0 && l2[o1][i1] + block_size(o1) <= u64::MAX + 1 by {
        assert(valid_slot(l2, o1, i1));
    }
    assert forall|o1: int, i1: int, o2: int, i2: int|
        valid_slot(l2, o1, i1) && valid_slot(l2, o2, i2) && !(o1 == o2 && i1 == i2) implies separated(
        #[trigger] l2[o1][i1],
        o1,
        #[trigger] l2[o2][i2],
        o2,
    ) by {
        assert(valid_slot(l2, o1, i1));
        assert(valid_slot(l2, o2, i2));
        let j1 = if o1 == o && i1 >= i { i1 + 1 } else { i1 };
        let j2 = if o2 == o && i2 >= i { i2 + 1 } else { i2 };
        assert(lists[o1][j1] == l2[o1][i1]);
        assert(lists[o2][j2] == l2[o2][i2]);
    }
}

/// Replacing one list changes the byte count by the change in its length times its block size.
pub proof fn lemma_bytes_update(lists: Seq<Seq<u64>>, o: int, s: Seq<u64>, n: int)
    requires
        0 <= o < lists.len(),
        n <= lists.len(),
    ensures
        bytes_below(lists.update(o, s), n) == bytes_below(lists, n) + (if o < n {
            (s.len() - lists[o].len()) * block_size(o)
        } else {
            0
        }),
    decreases n,
{
    if n > 0 {
        lemma_bytes_update(lists, o, s, n - 1);
        if o == n - 1 {
            vstd::arithmetic::mul::lemma_mul_is_distributive_sub(
                block_size(o),
                s.len() as int,
                lists[o].len() as int,
            );
            vstd::arithmetic::mul::lemma_mul_is_commutative(block_size(o), s.len() as int);
            vstd::arithmetic::mul::lemma_mul_is_commutative(block_size(o), lists[o].len() as int);
            vstd::arithmetic::mul::lemma_mul_is_commutative(
                block_size(o),
                s.len() - lists[o].len(),
            );
        }
    }
}

/// Pushing a block onto a list adds its size to the free bytes.
pub proof fn lemma_push_bytes(lists: Seq<Seq<u64>>, o: int, x: u64)
    requires
        lists.len() == NUM_ORDERS,
        0 <= o < NUM_ORDERS,
    ensures
        free_bytes(push_slot(lists, o, x)) == free_bytes(lists) + block_size(o),
{
    lemma_bytes_update(lists, o, lists[o].push(x), NUM_ORDERS as int);
    assert(lists[o].push(x).len() - lists[o].len() == 1);
}

/// Taking an entry out of a list removes its size from the free bytes.
pub proof fn lemma_remove_bytes(lists: Seq<Seq<u64>>, o: int, i: int)
    requires
        lists.len() == NUM_ORDERS,
        valid_slot(lists, o, i),
    ensures
        free_bytes(remove_slot(lists, o, i)) == free_bytes(lists) - block_size(o),
{
    lemma_bytes_update(lists, o, lists[o].remove(i), NUM_ORDERS as int);
    assert(lists[o].remove(i).len() - lists[o].len() == -1);
}

/// Handing back the upper halves of a used block at `a` of order `hi`, down to order `lo`,
/// frees exactly the addresses `[a + block_size(lo), a + block_size(hi))`.
pub proof fn lemma_split_back(lists: Seq<Seq<u64>>, a: u64, lo: int, hi: int)
    requires
        lists_wf(lists),
        0 <= lo <= hi <= MAX_ORDER,
        a as int % block_size(hi) == 0,
        a + block_size(hi) <= u64::MAX + 1,
        block_is_used(lists, a, hi),
    ensures
        lists_wf(split_back(lists, a, lo, hi)),
        forall|f: int| #[trigger]
            is_free(split_back(lists, a, lo, hi), f) <==> is_free(lists, f) || (a + block_size(lo)
                <= f < a + block_size(hi)),
        free_bytes(split_back(lists, a, lo, hi)) == free_bytes(lists) + block_size(hi)
            - block_size(lo),
        forall|k: int| 0 <= k < lo ==> #[trigger] split_back(lists, a, lo, hi)[k] == lists[k],
        coalesced(lists) ==> coalesced(split_back(lists, a, lo, hi)),
    decreases hi - lo,
{
    if lo < hi {
        lemma_split_back(lists, a, lo + 1, hi);
        let rest = split_back(lists, a, lo + 1, hi);
        let x = (a + block_size(lo)) as u64;
        lemma_block_size_mono(lo + 1, hi);
        lemma_block_size_pos(lo);
        lemma_aligned_down(a as int, lo, hi);
        vstd::arithmetic::div_mod::lemma_mod_add_multiples_vanish(a as int, block_size(lo));
        assert(x as int % block_size(lo) == 0);
        assert forall|f: int| #[trigger] in_block(x, lo, f) implies !is_free(rest, f) by {
            assert(in_block(a, hi, f));
        }
        lemma_push_wf(rest, lo, x);
        lemma_push_free(rest, lo, x);
        lemma_push_bytes(rest, lo, x);
        assert(split_back(lists, a, lo, hi) == push_slot(rest, lo, x));
        if coalesced(lists) {
            assert(rest[lo] == lists[lo]);
            lemma_aligned_down(a as int, lo + 1, hi);
            assert(block_size(lo + 1) == 2 * block_size(lo));
            assert((a as int + block_size(lo)) % (2 * block_size(lo)) != 0) by (nonlinear_arith)
                requires
                    (a as int) % (2 * block_size(lo)) == 0,
                    block_size(lo) > 0,
            ;
            lemma_buddy(x, lo as u64);
            assert(buddy(x, lo) == a);
            if lists[lo].contains(a) {
                let j = choose|j: int| 0 <= j < lists[lo].len() && lists[lo][j] == a;
                lemma_slot_free(lists, lo, j, a as int);
                assert(in_block(a, hi, a as int));
            }
            lemma_coalesced_push(rest, lo, x);
        }
    }
}

/// The lowest non-empty order at or above `from` is non-empty, and all orders between are empty.
pub proof fn lemma_first_nonempty(lists: Seq<Seq<u64>>, from: int)
    requires
        lists.len() == NUM_ORDERS,
        0 <= from,
    ensures
        from <= first_nonempty(lists, from) <= NUM_ORDERS || from > NUM_ORDERS,
        first_nonempty(lists, from) <= MAX_ORDER ==> lists[first_nonempty(lists, from)].len() > 0,
        forall|k: int| from <= k < first_nonempty(lists, from) ==> #[trigger] lists[k].len() == 0,
    decreases NUM_ORDERS - from,
{
    if from < NUM_ORDERS && lists[from].len() == 0 {
        lemma_first_nonempty(lists, from + 1);
    }
}

/// Allocating from well-formed lists takes a free, aligned block of the requested order:
/// exactly its addresses stop being free and the free bytes drop by its size.
pub proof fn lemma_alloc_result(lists: Seq<Seq<u64>>, order: int)
    requires
        lists_wf(lists),
        0 <= order <= MAX_ORDER,
        first_nonempty(lists, order) <= MAX_ORDER,
    ensures
        ({
            let (l2, r) = alloc_result(lists, order);
            let a = r.unwrap();
            &&& r is Some
            &&& lists_wf(l2)
            &&& a as int % block_size(order) == 0
            &&& a + block_size(order) <= u64::MAX + 1
            &&& forall|f: int| #[trigger] in_block(a, order, f) ==> is_free(lists, f)
            &&& forall|f: int| #[trigger]
                is_free(l2, f) <==> is_free(lists, f) && !in_block(a, order, f)
            &&& free_bytes(l2) == free_bytes(lists) - block_size(order)
            &&& coalesced(lists) ==> coalesced(l2)
        }),
{
    let m = first_nonempty(lists, order);
    lemma_first_nonempty(lists, order);
    let n = lists[m].len() as int;
    let a = lists[m].last();
    assert(lists[m][n - 1] == a);
    let taken = lists.update(m, lists[m].drop_last());
    assert(taken == remove_slot(lists, m, n - 1)) by {
        assert(lists[m].drop_last() =~= lists[m].remove(n - 1));
    }
    lemma_remove_free(lists, m, n - 1);
    lemma_remove_bytes(lists, m, n - 1);
    assert forall|f: int| #[trigger] in_block(a, m, f) implies !is_free(taken, f) by {}
    lemma_split_back(taken, a, order, m);
    if coalesced(lists) {
        assert forall|x: u64| #[trigger] lists[m].drop_last().contains(x) implies lists[m].contains(x) by {
            let j = choose|j: int| 0 <= j < lists[m].drop_last().len() && lists[m].drop_last()[j] == x;
            assert(lists[m][j] == x);
        }
        lemma_coalesced_subset(lists, m, lists[m].drop_last());
    }
    lemma_block_size_mono(order, m);
    lemma_block_size_pos(order);
    lemma_aligned_down(a as int, order, m);
    assert forall|f: int| #[trigger] in_block(a, order, f) implies is_free(lists, f) by {
        lemma_slot_free(lists, m, n - 1, f);
    }
    let l2 = split_back(taken, a, order, m);
    assert forall|f: int| #[trigger]
        is_free(l2, f) <==> is_free(lists, f) && !in_block(a, order, f) by {
        assert(is_free(l2, f) <==> is_free(taken, f) || (a + block_size(order) <= f < a
            + block_size(m)));
        assert(is_free(taken, f) <==> is_free(lists, f) && !in_block(a, m, f));
        if in_block(a, m, f) {
            lemma_slot_free(lists, m, n - 1, f);
        }
    }
}

/// Giving back a used, aligned block frees exactly its addresses, keeps the lists
/// well-formed and adds its size to the free bytes, whatever merges happen.
pub proof fn lemma_free_result(lists: Seq<Seq<u64>>, a: u64, order: int)
    requires
        lists_wf(lists),
        0 <= order <= MAX_ORDER,
        a as int % block_size(order) == 0,
        a + block_size(order) <= u64::MAX + 1,
        block_is_used(lists, a, order),
    ensures
        lists_wf(free_result(lists, a, order)),
        forall|f: int| #[trigger]
            is_free(free_result(lists, a, order), f) <==> is_free(lists, f) || in_block(a, order, f),
        free_bytes(free_result(lists, a, order)) == free_bytes(lists) + block_size(order),
        coalesced(lists) ==> coalesced(free_result(lists, a, order)),
    decreases MAX_ORDER - order,
{
    let b = buddy(a, order);
    if 0 <= order < MAX_ORDER && lists[order].contains(b) {
        lists[order].index_of_first_ensures(b);
        let i = lists[order].index_of_first(b).unwrap();
        assert(lists[order].remove_value(b) == lists[order].remove(i));
        let taken = remove_slot(lists, order, i);
        if coalesced(lists) {
            assert forall|x: u64| #[trigger] lists[order].remove(i).contains(x) implies lists[order].contains(x) by {
                let j = choose|j: int| 0 <= j < lists[order].remove(i).len() && lists[order].remove(i)[j] == x;
                if j < i {
                    assert(lists[order][j] == x);
                } else {
                    assert(lists[order][j + 1] == x);
                }
            }
            lemma_coalesced_subset(lists, order, lists[order].remove(i));
        }
        lemma_remove_free(lists, order, i);
        lemma_remove_bytes(lists, order, i);
        lemma_buddy(a, order as u64);
        let lo = if a < b { a } else { b };
        assert(block_size(order + 1) == 2 * block_size(order));
        assert forall|f: int| #[trigger] in_block(lo, order + 1, f) implies !is_free(taken, f) by {
            if in_block(a, order, f) {
            } else {
                assert(in_block(b, order, f));
            }
        }
        lemma_free_result(taken, lo, order + 1);
        let r = free_result(taken, lo, order + 1);
        assert forall|f: int| #[trigger]
            is_free(r, f) <==> is_free(lists, f) || in_block(a, order, f) by {
            if in_block(b, order, f) {
                lemma_slot_free(lists, order, i, f);
            }
        }
    } else {
        lemma_push_wf(lists, order, a);
        lemma_push_free(lists, order, a);
        lemma_push_bytes(lists, order, a);
        if coalesced(lists) {
            lemma_coalesced_push(lists, order, a);
        }
    }
}

/// Handing back upper halves keeps the number of lists.
pub proof fn lemma_split_back_len(lists: Seq<Seq<u64>>, a: u64, lo: int, hi: int)
    requires
        0 <= lo <= hi <= lists.len(),
    ensures
        split_back(lists, a, lo, hi).len() == lists.len(),
    decreases hi - lo,
{
    if lo < hi {
        lemma_split_back_len(lists, a, lo + 1, hi);
    }
}

/// `first_nonempty` is the order `m` when all lists from `from` below `m` are empty and the
/// list of order `m` is not (or `m` is past the last order).
pub proof fn lemma_first_nonempty_is(lists: Seq<Seq<u64>>, from: int, m: int)
    requires
        lists.len() == NUM_ORDERS,
        0 <= from <= m <= NUM_ORDERS,
        forall|k: int| from <= k < m ==> #[trigger] lists[k].len() == 0,
        m < NUM_ORDERS ==> lists[m].len() > 0,
    ensures
        first_nonempty(lists, from) == m,
    decreases m - from,
{
    if from < m {
        assert(lists[from].len() == 0);
        lemma_first_nonempty_is(lists, from + 1, m);
    }
}

/// A block address occurs at most once in a list of well-formed lists.
pub proof fn lemma_slot_unique(lists: Seq<Seq<u64>>, o: int, i: int)
    requires
        lists_wf(lists),
        valid_slot(lists, o, i),
    ensures
        forall|j: int| 0 <= j < lists[o].len() && #[trigger] lists[o][j] == lists[o][i] ==> j == i,
{
    assert forall|j: int| 0 <= j < lists[o].len() && #[trigger] lists[o][j] == lists[o][i] implies j
        == i by {
        if j != i {
            assert(valid_slot(lists, o, j));
            assert(separated(lists[o][i], o, lists[o][j], o));
            lemma_block_size_pos(o);
        }
    }
}


/// The lists below `n` hold no bytes exactly when they are all empty.
pub proof fn lemma_bytes_below_zero(lists: Seq<Seq<u64>>, n: int)
    requires
        0 <= n <= lists.len(),
    ensures
        bytes_below(lists, n) >= 0,
        bytes_below(lists, n) == 0 <==> forall|k: int| 0 <= k < n ==> #[trigger] lists[k].len() == 0,
    decreases n,
{
    if n > 0 {
        lemma_bytes_below_zero(lists, n - 1);
        lemma_block_size_pos(n - 1);
        let l = lists[n - 1].len() as int;
        let b = block_size(n - 1);
        assert(l * b >= 0 && (l * b == 0 <==> l == 0)) by (nonlinear_arith)
            requires
                l >= 0,
                b >= 4096,
        ;
        if bytes_below(lists, n) == 0 {
            assert forall|k: int| 0 <= k < n implies #[trigger] lists[k].len() == 0 by {
                if k < n - 1 {
                    assert(lists[k].len() == 0);
                }
            }
        }
    }
}


/// Freeing the block that an allocation just handed out gives back exactly the free memory
/// there was before the allocation: the same free addresses and the same number of free
/// bytes.
pub proof fn law_alloc_then_free(lists: Seq<Seq<u64>>, order: int)
    requires
        lists_wf(lists),
        0 <= order <= MAX_ORDER,
        alloc_result(lists, order).1 is Some,
    ensures
        ({
            let (l2, r) = alloc_result(lists, order);
            let l3 = free_result(l2, r.unwrap(), order);
            &&& forall|f: int| #[trigger] is_free(l3, f) <==> is_free(lists, f)
            &&& free_bytes(l3) == free_bytes(lists)
        }),
{
    if first_nonempty(lists, order) > MAX_ORDER {
        lemma_first_nonempty(lists, order);
    }
    lemma_alloc_result(lists, order);
    let (l2, r) = alloc_result(lists, order);
    let a = r.unwrap();
    assert forall|f: int| #[trigger] in_block(a, order, f) implies !is_free(l2, f) by {}
    lemma_free_result(l2, a, order);
}

} // verus!
