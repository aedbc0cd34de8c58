//! Fixed-point scalars.
//!
//! A value is represented by its numerator over the fixed denominator
//! `FX_ONE` (two to the thirty-second power): the numerator `n` stands
//! for the amplitude `n / FX_ONE`. All operations are exact integer
//! arithmetic with floor rounding, so every contract in the crate can
//! state the result of a computation precisely.

use vstd::prelude::*;
use vstd::arithmetic::div_mod::{
    lemma_div_is_ordered, lemma_div_multiples_vanish, lemma_div_nonincreasing,
};
use vstd::arithmetic::mul::lemma_mul_inequality;

verus! {

/// The fixed denominator: two to the thirty-second power.
pub const FX_ONE: i128 = 4294967296;

/// Floor of `p / d` lies within `[-b, b]` whenever `p` does, scaled by `d`.
pub proof fn lemma_div_mag(p: int, d: int, b: int)
    requires
        1 <= d,
        0 <= b,
        -(b * d) <= p <= b * d,
    ensures
        -b <= p / d <= b,
{
    lemma_div_is_ordered(p, b * d, d);
    lemma_div_multiples_vanish(b, d);
    assert(b * d == d * b) by (nonlinear_arith);
    lemma_div_is_ordered(-(b * d), p, d);
    lemma_div_multiples_vanish(-b, d);
    assert(-(b * d) == d * -b) by (nonlinear_arith);
}

/// The product of two bounded factors is bounded by the product of
/// the bounds.
pub proof fn lemma_mul_mag(a: int, b: int, ma: int, mb: int)
    requires
        -ma <= a <= ma,
        -mb <= b <= mb,
        0 <= ma,
        0 <= mb,
    ensures
        -(ma * mb) <= a * b <= ma * mb,
{
    assert(-(ma * mb) <= a * b && a * b <= ma * mb) by (nonlinear_arith)
        requires -ma <= a && a <= ma && -mb <= b && b <= mb && 0 <= ma && 0 <= mb;
}

/// Floor of `p / d` never leaves the i128 range when `d` is positive.
proof fn lemma_div_in_i128(p: int, d: int)
    requires
        1 <= d,
        i128::MIN <= p <= i128::MAX,
    ensures
        i128::MIN <= p / d <= i128::MAX,
{
    if p >= 0 {
        lemma_div_nonincreasing(p, d);
        vstd::arithmetic::div_mod::lemma_div_pos_is_pos(p, d);
    } else {
        let b = -(i128::MIN as int);
        lemma_mul_inequality(1, d, b);
        assert(1 * b == b && 0 <= b * d) by (nonlinear_arith)
            requires 0 <= b && 1 <= d && b <= d * b && d * b == b * d;
        lemma_div_mag(p, d, b);
        lemma_div_is_ordered(p, 0, d);
        vstd::arithmetic::div_mod::lemma_div_of0(d);
    }
}

/// Floor division by a positive divisor.
pub fn fx_div_floor(a: i128, d: i128) -> (r: i128)
    requires
        1 <= d,
    ensures
        r == a as int / d as int,
{
    proof {
        lemma_div_in_i128(a as int, d as int);
    }
    a.checked_div_euclid(d).unwrap()
}

/// The exact value of a fixed-point product: floor of `a * b / FX_ONE`.
pub open spec fn fx_mul_spec(a: int, b: int) -> int {
    (a * b) / (FX_ONE as int)
}

/// Fixed-point multiplication with floor rounding.
pub fn fx_mul(a: i128, b: i128) -> (r: i128)
    requires
        i128::MIN <= a * b <= i128::MAX,
    ensures
        r == fx_mul_spec(a as int, b as int),
{
    let p = a.checked_mul(b).unwrap();
    fx_div_floor(p, FX_ONE)
}

} // verus!
