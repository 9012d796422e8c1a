//! Facts about block sizes and buddy addresses of the buddy allocator.

use vstd::prelude::*;

verus! {

/// Size in bytes of one physical frame.
pub const FRAME_SIZE: u64 = 4096;

/// Size in bytes of a block of the given order: `FRAME_SIZE << order`.
pub open spec fn block_size(order: int) -> int
    decreases order,
{
    if order <= 0 {
        4096
    } else {
        2 * block_size(order - 1)
    }
}

/// `FRAME_SIZE << order` computes `block_size(order)` for every order up to 10.
pub proof fn lemma_block_size_shift(order: u64)
    requires
        order <= 10,
    ensures
        (4096u64 << order) as int == block_size(order as int),
        4096 <= block_size(order as int) <= 4096 * 1024,
    decreases order,
{
    assert(4096u64 <= (4096u64 << order) <= 4194304u64) by (bit_vector)
        requires
            order <= 10,
    ;
    if order == 0 {
        assert(4096u64 << 0u64 == 4096u64) by (bit_vector);
    } else {
        lemma_block_size_shift((order - 1) as u64);
        let p = (order - 1) as u64;
        assert((4096u64 << order) == 2 * (4096u64 << p)) by (bit_vector)
            requires
                1 <= order <= 10,
                p == order - 1,
        ;
    }
}

/// Alignment to a block, stated with a mask, agrees with the remainder.
pub proof fn lemma_align_mask(x: u64, order: u64)
    requires
        order <= 11,
    ensures
        (x & (((4096u64 << order) - 1) as u64)) as int == x as int % ((4096u64 << order) as int),
{
    let n = (12 + order) as u64;
    assert((4096u64 << order) == (1u64 << n)) by (bit_vector)
        requires
            order <= 11,
            n == 12 + order,
    ;
    vstd::bits::lemma_u64_pow2_no_overflow(n as nat);
    vstd::bits::lemma_u64_shl_is_mul(1, n);
    vstd::bits::lemma_u64_low_bits_mask_is_mod(x, n as nat);
}

/// The buddy of an aligned block of order `order` is the neighbouring block of the same
/// size; the lower of the two is aligned to the next order.
pub proof fn lemma_buddy(addr: u64, order: u64)
    requires
        order < 10,
        addr as int % block_size(order as int) == 0,
    ensures
        ({
            let b = addr ^ (4096u64 << order);
            let bs = block_size(order as int);
            &&& b as int % bs == 0
            &&& (addr as int % (2 * bs) == 0 ==> b as int == addr + bs)
            &&& (addr as int % (2 * bs) != 0 ==> b as int == addr - bs)
            &&& (if addr < b { addr } else { b }) as int % (2 * bs) == 0
        }),
{
    lemma_block_size_shift(order);
    lemma_block_size_shift((order + 1) as u64);
    let s = 4096u64 << order;
    let o1 = (order + 1) as u64;
    let m = (s - 1) as u64;
    let m2 = ((4096u64 << o1) - 1) as u64;
    let b = addr ^ s;
    let lo = if addr < b { addr } else { b };
    lemma_align_mask(addr, order);
    lemma_align_mask(b, order);
    lemma_align_mask(addr, o1);
    lemma_align_mask(lo, o1);
    assert(addr & m == 0 ==> b & m == 0) by (bit_vector)
        requires
            order < 10,
            s == 4096u64 << order,
            b == addr ^ s,
            m == (s - 1) as u64,
    ;
    assert(addr & m == 0 ==> ((addr & m2 == 0) <==> (addr & s == 0))) by (bit_vector)
        requires
            order < 10,
            s == 4096u64 << order,
            o1 == order + 1,
            m == (s - 1) as u64,
            m2 == ((4096u64 << o1) - 1) as u64,
    ;
    assert(addr & m == 0 && addr & s == 0 ==> b as int == addr as int + s as int) by (bit_vector)
        requires
            order < 10,
            s == 4096u64 << order,
            b == addr ^ s,
            m == (s - 1) as u64,
    ;
    assert(addr & m == 0 && addr & s != 0 ==> b as int == addr as int - s as int) by (bit_vector)
        requires
            order < 10,
            s == 4096u64 << order,
            b == addr ^ s,
            m == (s - 1) as u64,
    ;
    assert(addr & m == 0 ==> lo & m2 == 0) by (bit_vector)
        requires
            order < 10,
            s == 4096u64 << order,
            o1 == order + 1,
            b == addr ^ s,
            lo == (if addr < b { addr } else { b }),
            m == (s - 1) as u64,
            m2 == ((4096u64 << o1) - 1) as u64,
    ;
}

/// An address aligned to a block size leaves room for the whole block below 2^64.
pub proof fn lemma_aligned_fits(addr: u64, order: u64)
    requires
        order <= 10,
        addr as int % block_size(order as int) == 0,
    ensures
        addr + block_size(order as int) <= u64::MAX + 1,
{
    lemma_block_size_shift(order);
    lemma_align_mask(addr, order);
    let s = 4096u64 << order;
    let m = (s - 1) as u64;
    assert(addr & m == 0 ==> addr as int + s as int <= 0x1_0000_0000_0000_0000) by (bit_vector)
        requires
            order <= 10,
            s == 4096u64 << order,
            m == (s - 1) as u64,
    ;
}

} // verus!
