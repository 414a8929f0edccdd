//! Rounding of addresses to a boundary.
use vstd::prelude::*;
use vstd::arithmetic::power2::{pow2, lemma_pow2_pos, lemma2_to64};
use vstd::bits::{low_bits_mask, lemma_u64_low_bits_mask_is_mod};

verus! {

/// `b` is a power of two that fits in 64 bits.
pub open spec fn is_pow2(b: u64) -> bool {
    exists|n: nat| n < 64 && pow2(n) == b
}

/// The least multiple of `b` that is not below `a`.
pub open spec fn round_up(a: int, b: int) -> int {
    if a % b == 0 { a } else { a - a % b + b }
}

/// The greatest multiple of `b` that is not above `a`.
pub open spec fn round_down(a: int, b: int) -> int {
    a - a % b
}

/// Four is a power of two.
pub proof fn lemma_four_is_pow2()
    ensures
        is_pow2(4),
{
    lemma2_to64();
    assert(pow2(2) == 4);
}

proof fn lemma_mask_low(x: u64, b: u64)
    requires
        is_pow2(b),
    ensures
        x & !((b - 1) as u64) == x - x % b,
{
    let n = choose|n: nat| n < 64 && pow2(n) == b;
    lemma_pow2_pos(n);
    lemma_u64_low_bits_mask_is_mod(x, n);
    assert(low_bits_mask(n) == b - 1);
    let m = (b - 1) as u64;
    assert(x & !m == x - (x & m)) by (bit_vector);
}

/// Rounds `a` up to the next multiple of `b`: `(a + b - 1) & !(b - 1)`.
/// For a power of two `b` this is the least multiple of `b` not below `a`.
pub fn align_up(a: u64, b: u64) -> (r: u64)
    requires
        b >= 1,
        a + b - 1 <= u64::MAX,
    ensures
        r == ((a + b - 1) as u64) & !((b - 1) as u64),
        is_pow2(b) ==> r == round_up(a as int, b as int),
{
    proof {
        if is_pow2(b) {
            lemma_mask_low((a + b - 1) as u64, b);
            assert(((a + b - 1) as int) - ((a + b - 1) as int) % (b as int) == round_up(a as int, b as int)) by (nonlinear_arith)
                requires b >= 1;
        }
    }
    (a + (b - 1)) & !(b - 1)
}

/// Rounds `a` down to a multiple of `b`: `a & !(b - 1)`.
/// For a power of two `b` this is the greatest multiple of `b` not above `a`.
pub fn align_down(a: u64, b: u64) -> (r: u64)
    requires
        b >= 1,
    ensures
        r == a & !((b - 1) as u64),
        is_pow2(b) ==> r == round_down(a as int, b as int),
{
    proof {
        if is_pow2(b) {
            lemma_mask_low(a, b);
        }
    }
    a & !(b - 1)
}

/// Same as [`align_up`].
pub fn align(a: u64, b: u64) -> (r: u64)
    requires
        b >= 1,
        a + b - 1 <= u64::MAX,
    ensures
        r == ((a + b - 1) as u64) & !((b - 1) as u64),
        is_pow2(b) ==> r == round_up(a as int, b as int),
{
    align_up(a, b)
}

/// Rounding up gives a multiple of `b` that is at least `a` and less than
/// `a + b`; rounding down gives a multiple of `b` that is at most `a` and
/// more than `a - b`.
pub proof fn lemma_round_bounds(a: int, b: int)
    requires
        0 <= a,
        0 < b,
    ensures
        round_up(a, b) % b == 0,
        a <= round_up(a, b) < a + b,
        round_down(a, b) % b == 0,
        a - b < round_down(a, b) <= a,
{
    assert(round_up(a, b) % b == 0 && round_down(a, b) % b == 0) by (nonlinear_arith)
        requires
            0 < b,
            round_up(a, b) == (if a % b == 0 { a } else { a - a % b + b }),
            round_down(a, b) == a - a % b,
    {
        vstd::arithmetic::div_mod::lemma_fundamental_div_mod(a, b);
    }
}

/// An address that is already a multiple of `b` is left as it is by both
/// roundings, and rounding twice is rounding once.
pub proof fn lemma_round_idempotent(a: int, b: int)
    requires
        0 <= a,
        0 < b,
    ensures
        a % b == 0 ==> round_up(a, b) == a && round_down(a, b) == a,
        round_up(round_up(a, b), b) == round_up(a, b),
        round_down(round_down(a, b), b) == round_down(a, b),
        round_down(a, b) <= a <= round_up(a, b),
{
    lemma_round_bounds(a, b);
}

} // verus!
