//! Facts about powers of two and wrapping cursors.
use vstd::prelude::*;

use vstd::arithmetic::power2::{lemma2_to64, lemma_pow2_strictly_increases, lemma_pow2_unfold, pow2};
use vstd::bits::{lemma_usize_low_bits_mask_is_mod, low_bits_mask};

verus! {

/// `n` is a power of two (1, 2, 4, ...).
pub open spec fn is_pow2(n: nat) -> bool
    decreases n,
{
    if n == 1 {
        true
    } else if n < 2 || n % 2 == 1 {
        false
    } else {
        is_pow2(n / 2)
    }
}

/// Doubling a power of two gives a power of two.
pub proof fn lemma_pow2_double(n: nat)
    requires
        is_pow2(n),
    ensures
        is_pow2(2 * n),
{
    assert((2 * n) / 2 == n);
    assert((2 * n) % 2 == 0);
}

/// A value below twice the modulus wraps at most once.
pub proof fn lemma_wrap(a: int, c: int)
    requires
        0 < c,
        0 <= a < 2 * c,
    ensures
        a % c == (if a < c { a } else { a - c }),
{
    vstd::arithmetic::div_mod::lemma_fundamental_div_mod(a, c);
    vstd::arithmetic::div_mod::lemma_mod_bound(a, c);
    let q = a / c;
    let r = a % c;
    assert(c * q + r == a);
    if a < c {
        assert(q == 0) by (nonlinear_arith)
            requires c * q + r == a, 0 <= r < c, 0 <= a < c, 0 < c;
    } else {
        assert(q == 1) by (nonlinear_arith)
            requires c * q + r == a, 0 <= r < c, c <= a < 2 * c, 0 < c;
    }
}


/// Number of halvings that bring `n` down to 1.
pub open spec fn log2(n: nat) -> nat
    decreases n,
{
    if n <= 1 {
        0
    } else {
        1 + log2(n / 2)
    }
}

proof fn lemma_pow2_log2(n: nat)
    requires
        is_pow2(n),
    ensures
        pow2(log2(n)) == n,
    decreases n,
{
    if n == 1 {
        lemma2_to64();
    } else {
        lemma_pow2_log2(n / 2);
        lemma_pow2_unfold(log2(n));
    }
}

/// For a power of two `c` of at most `2^21`, masking with `c - 1` is taking
/// the remainder modulo `c`.
pub proof fn lemma_mask_is_mod(x: usize, c: usize)
    requires
        is_pow2(c as nat),
        c <= 2097152,
    ensures
        x & ((c - 1) as usize) == x % c,
{
    let k = log2(c as nat);
    lemma_pow2_log2(c as nat);
    lemma2_to64();
    if k >= 22 {
        if k > 22 {
            lemma_pow2_strictly_increases(22, k);
        }
    }
    assert(k < 22);
    lemma_usize_low_bits_mask_is_mod(x, k);
    assert(low_bits_mask(k) == c - 1);
}
} // verus!
