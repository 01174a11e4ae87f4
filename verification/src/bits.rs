//! Powers of two and the masks derived from them.

use vstd::prelude::*;
use vstd::arithmetic::power2::{is_pow2, pow2, is_pow2_equiv, lemma_pow2, lemma2_to64, lemma_pow2_strictly_increases, lemma_pow2_pos};
use vstd::arithmetic::power::pow;
use vstd::bits::{low_bits_mask, lemma_u64_low_bits_mask_is_mod};

verus! {

/// `x` is a power of two.
pub open spec fn is_power_of_two(x: u64) -> bool {
    is_pow2(x as int)
}

/// Decides whether `x` is a power of two by halving it while it is even.
pub fn power_of_two(x: u64) -> (r: bool)
    ensures
        r == is_power_of_two(x),
{
    if x == 0 {
        proof {
            reveal(is_pow2);
        }
        return false;
    }
    let mut v: u64 = x;
    while v > 1 && v % 2 == 0
        invariant
            v > 0,
            is_pow2(x as int) == is_pow2(v as int),
        decreases v,
    {
        proof {
            reveal(is_pow2);
        }
        v = v / 2;
    }
    proof {
        reveal(is_pow2);
    }
    v == 1
}

/// A power of two that fits in a `u64` is `2^n` for some `n < 64`.
pub proof fn lemma_power_of_two_exponent(a: u64) -> (n: nat)
    requires
        is_power_of_two(a),
    ensures
        n < 64,
        pow2(n) == a,
{
    is_pow2_equiv(a as int);
    let n = choose|i: nat| pow(2, i) == a as int;
    lemma_pow2(n);
    if n >= 64 {
        lemma2_to64();
        if n > 64 {
            lemma_pow2_strictly_increases(64, n);
        }
    }
    n
}

/// Masking with `a - 1` keeps the remainder modulo the power of two `a`,
/// and masking with its complement rounds down to a multiple of `a`.
pub proof fn lemma_mask_is_mod(x: u64, a: u64)
    requires
        is_power_of_two(a),
    ensures
        x & ((a - 1) as u64) == x % a,
        x & !((a - 1) as u64) == x - x % a,
{
    let n = lemma_power_of_two_exponent(a);
    lemma_pow2_pos(n);
    lemma_u64_low_bits_mask_is_mod(x, n);
    assert(low_bits_mask(n) as u64 == (a - 1) as u64);
    let m = (a - 1) as u64;
    assert(x & !m == (x - (x & m)) as u64) by (bit_vector);
    assert(x & m <= x) by (bit_vector);
}

} // verus!
