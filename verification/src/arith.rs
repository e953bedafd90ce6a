//! Truncating integer division, as the ledger arithmetic performs
//! it: non-negative dividends and positive divisors only, where the
//! truncating and the flooring quotient agree.
use vstd::prelude::*;
use vstd::arithmetic::div_mod::{
    lemma_div_is_ordered,
    lemma_div_multiples_vanish,
    lemma_div_pos_is_pos,
};
use vstd::arithmetic::mul::{lemma_mul_inequality, lemma_mul_nonnegative};

verus! {

/// A share never exceeds the whole: for `0 <= b <= c`, the quantity
/// `a * b / c` lies between 0 and `a`.
pub proof fn lemma_frac_le(a: int, b: int, c: int)
    requires
        0 <= a,
        0 <= b <= c,
        0 < c,
    ensures
        0 <= a * b / c <= a,
{
    lemma_mul_nonnegative(a, b);
    lemma_div_pos_is_pos(a * b, c);
    lemma_mul_inequality(b, c, a);
    lemma_div_is_ordered(a * b, c * a, c);
    lemma_div_multiples_vanish(a, c);
}

/// Multiplying a non-negative number by a factor below a bound stays
/// below the product with the bound.
pub proof fn lemma_mul_upper(a: int, b: int, bound: int)
    requires
        0 <= a,
        0 <= b <= bound,
    ensures
        0 <= a * b <= a * bound,
{
    lemma_mul_nonnegative(a, b);
    lemma_mul_inequality(b, bound, a);
}

/// Truncating division of a non-negative amount by a positive divisor,
/// as the ledger arithmetic performs it.
pub fn div_i128(a: i128, b: i128) -> (r: i128)
    requires
        0 <= a,
        0 < b,
    ensures
        r == a as int / b as int,
{
    ((a as u128) / (b as u128)) as i128
}

/// Truncating division on 32-bit counters, non-negative dividend only.
pub fn div_i32(a: i32, b: i32) -> (r: i32)
    requires
        0 <= a,
        0 < b,
    ensures
        r == a as int / b as int,
{
    ((a as u32) / (b as u32)) as i32
}

} // verus!
