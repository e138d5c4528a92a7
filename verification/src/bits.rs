//! Bits of 128-bit keys, counted from the most significant one.
use vstd::prelude::*;

verus! {

/// Whether the bit at position `i` of `key` is set; position 0 is the most significant bit.
pub closed spec fn bit(key: u128, i: u32) -> bool {
    (key & ((1u128 << 127) >> i)) != 0
}

/// A bit of a key is that of its binary notation: position `i` has the weight 2 to the power of
/// `127 - i`.
pub proof fn lemma_bit(key: u128, i: u32)
    requires
        i < 128,
    ensures
        bit(key, i) == ((key >> (127 - i) as u32) & 1 == 1),
{
    let n: u32 = (127 - i) as u32;
    assert(((key & ((1u128 << 127) >> i)) != 0) == ((key >> n) & 1 == 1)) by (bit_vector)
        requires
            i < 128,
            n == 127 - i,
    ;
}

/// Whether `a` and `b` have the same `n` leading bits.
pub closed spec fn agree(a: u128, b: u128, n: u32) -> bool {
    if n >= 128 {
        a == b
    } else {
        ((a ^ b) & !(0xffff_ffff_ffff_ffff_ffff_ffff_ffff_ffffu128 >> n)) == 0
    }
}

pub proof fn lemma_agree_refl(a: u128, n: u32)
    ensures
        agree(a, a, n),
{
    assert(n < 128 ==> ((a ^ a) & !(0xffff_ffff_ffff_ffff_ffff_ffff_ffff_ffffu128 >> n)) == 0) by (bit_vector);
}

pub proof fn lemma_agree_sym(a: u128, b: u128, n: u32)
    ensures
        agree(a, b, n) == agree(b, a, n),
{
    assert(a ^ b == b ^ a) by (bit_vector);
}

pub proof fn lemma_agree_trans(a: u128, b: u128, c: u128, n: u32)
    requires
        agree(a, b, n),
        agree(b, c, n),
    ensures
        agree(a, c, n),
{
    if n < 128 {
        assert(((a ^ c) & !(0xffff_ffff_ffff_ffff_ffff_ffff_ffff_ffffu128 >> n)) == 0) by (bit_vector)
            requires
                n < 128,
                ((a ^ b) & !(0xffff_ffff_ffff_ffff_ffff_ffff_ffff_ffffu128 >> n)) == 0,
                ((b ^ c) & !(0xffff_ffff_ffff_ffff_ffff_ffff_ffff_ffffu128 >> n)) == 0,
        ;
    }
}

/// Keys that share `n` leading bits share any shorter prefix.
pub proof fn lemma_agree_shorter(a: u128, b: u128, m: u32, n: u32)
    requires
        agree(a, b, n),
        m <= n,
    ensures
        agree(a, b, m),
{
    if n >= 128 {
        lemma_agree_refl(a, m);
    } else {
        assert(((a ^ b) & !(0xffff_ffff_ffff_ffff_ffff_ffff_ffff_ffffu128 >> m)) == 0) by (bit_vector)
            requires
                m <= n,
                n < 128,
                ((a ^ b) & !(0xffff_ffff_ffff_ffff_ffff_ffff_ffff_ffffu128 >> n)) == 0,
        ;
    }
}

/// Keys that share `n` leading bits have the same bit at each position below `n`.
pub proof fn lemma_agree_bit(a: u128, b: u128, n: u32, i: u32)
    requires
        agree(a, b, n),
        i < n,
        i < 128,
    ensures
        bit(a, i) == bit(b, i),
{
    if n < 128 {
        assert(((a & ((1u128 << 127) >> i)) != 0) == ((b & ((1u128 << 127) >> i)) != 0)) by (bit_vector)
            requires
                i < n,
                n < 128,
                ((a ^ b) & !(0xffff_ffff_ffff_ffff_ffff_ffff_ffff_ffffu128 >> n)) == 0,
        ;
    }
}

/// The first bit at which two keys differ decides their order.
pub proof fn lemma_first_difference_orders(a: u128, b: u128, n: u32)
    requires
        agree(a, b, n),
        n < 128,
        !bit(a, n),
        bit(b, n),
    ensures
        a < b,
{
    assert(a < b) by (bit_vector)
        requires
            n < 128,
            ((a ^ b) & !(0xffff_ffff_ffff_ffff_ffff_ffff_ffff_ffffu128 >> n)) == 0,
            (a & ((1u128 << 127) >> n)) == 0,
            (b & ((1u128 << 127) >> n)) != 0,
    ;
}

/// Reads the bit at position `i`.
pub fn bit_at(key: u128, i: u32) -> (r: bool)
    requires
        i < 128,
    ensures
        r == bit(key, i),
{
    (key & ((1u128 << 127) >> i)) != 0
}

proof fn lemma_split(x: u128, hi: u64, lo: u64)
    requires
        hi == (x >> 64) as u64,
        lo == x as u64,
    ensures
        x == ((hi as u128) << 64) | (lo as u128),
{
    assert(x == ((((x >> 64) as u64) as u128) << 64) | ((x as u64) as u128)) by (bit_vector);
}

/// The number of leading bits that two keys share: 128 if they are equal, else the position of
/// the first bit at which they differ.
pub fn shared_prefix_len(a: u128, b: u128) -> (n: u32)
    ensures
        n <= 128,
        (n == 128) == (a == b),
        agree(a, b, n),
        n < 128 ==> bit(a, n) != bit(b, n),
{
    let x: u128 = a ^ b;
    let hi: u64 = (x >> 64) as u64;
    let lo: u64 = x as u64;
    proof {
        lemma_split(x, hi, lo);
        vstd::std_specs::bits::axiom_u64_leading_zeros(hi);
        vstd::std_specs::bits::axiom_u64_leading_zeros(lo);
        assert(a == b <==> a ^ b == 0) by (bit_vector);
        assert((0u128 << 64) | 0u128 == 0) by (bit_vector);
    }
    if hi != 0 {
        let n: u32 = hi.leading_zeros();
        proof {
            let z: u64 = n as u64;
            assert(((x & !(0xffff_ffff_ffff_ffff_ffff_ffff_ffff_ffffu128 >> n)) == 0) && x != 0
                && ((a & ((1u128 << 127) >> n)) != 0) != ((b & ((1u128 << 127) >> n)) != 0)) by (bit_vector)
                requires
                    x == a ^ b,
                    x == ((hi as u128) << 64) | (lo as u128),
                    n < 64,
                    z == n as u64,
                    (hi >> ((63 - z) as u64)) & 1u64 != 0u64,
                    hi >> ((64 - z) as u64) == 0 || z == 0,
            ;
        }
        n
    } else {
        let m: u32 = lo.leading_zeros();
        let n: u32 = 64 + m;
        proof {
            let z: u64 = m as u64;
            if lo != 0 {
                assert(((x & !(0xffff_ffff_ffff_ffff_ffff_ffff_ffff_ffffu128 >> n)) == 0) && x != 0
                    && ((a & ((1u128 << 127) >> n)) != 0) != ((b & ((1u128 << 127) >> n)) != 0)) by (bit_vector)
                    requires
                        x == a ^ b,
                        x == ((hi as u128) << 64) | (lo as u128),
                        hi == 0,
                        n < 128,
                        n >= 64,
                        z == (n - 64) as u64,
                        (lo >> ((63 - z) as u64)) & 1u64 != 0u64,
                        lo >> ((64 - z) as u64) == 0 || z == 0,
                ;
            }
        }
        n
    }
}

} // verus!
