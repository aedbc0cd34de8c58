//! The rotating unit vector of a harmonic.
//!
//! An angle is a count of fixed-point turn units: `FX_ONE` units make
//! one full turn, so the fractional part of `angle / FX_ONE` is the
//! position on the circle. The sine is a smooth polynomial
//! approximation on each half turn: the parabola through the half
//! turn's endpoints and peak, sharpened by a quadratic correction so
//! the peak values stay exact. The approximation is an exact function
//! of the reduced angle, stated here in full, so every caller knows
//! precisely which vector comes back.

use vstd::prelude::*;
use crate::cpx::Cx;
use crate::fx::{fx_div_floor, fx_mul, fx_mul_spec, lemma_div_mag, FX_ONE};
use vstd::arithmetic::div_mod::{
    lemma_div_of0, lemma_div_pos_is_pos, lemma_mod_add_multiples_vanish,
    lemma_mod_division_less_than_divisor, lemma_small_mod,
};
use vstd::arithmetic::mul::{lemma_mul_nonnegative, lemma_mul_upper_bound, lemma_mul_inequality};

verus! {

/// Half a turn, in turn units.
pub const HALF_TURN: i128 = 2147483648;

/// A quarter turn, in turn units.
pub const QUARTER_TURN: i128 = 1073741824;

/// The divisor that rescales the parabola product to fixed point.
pub const PARAB_SCALE: i128 = 268435456;

/// Weight of the plain parabola in the sharpened sine.
pub const SIN_A: i128 = 3328599654;

/// Weight of the squared parabola; `SIN_A + SIN_B == FX_ONE`, so the
/// peak of the sine stays exactly `FX_ONE`.
pub const SIN_B: i128 = 966367642;

/// Largest angle magnitude the rotation accepts.
pub const MAG_ANGLE: i128 = 1267650600228229401496703205376;

/// The sine of `u` half-turn units into a half turn, `0 <= u <
/// HALF_TURN`, as a numerator over `FX_ONE`: the parabola
/// `u * (HALF_TURN - u)` rescaled, then sharpened by its own square.
pub open spec fn sin_half_spec(u: int) -> int {
    let p = (u * (HALF_TURN - u)) / (PARAB_SCALE as int);
    fx_mul_spec(p, SIN_A + fx_mul_spec(SIN_B as int, p))
}

/// The sine of `t` turn units, `0 <= t < FX_ONE`: the second half turn
/// mirrors the first below the axis.
pub open spec fn sin_turns_spec(t: int) -> int {
    if t < HALF_TURN {
        sin_half_spec(t)
    } else {
        -sin_half_spec(t - HALF_TURN)
    }
}

/// The vertical component of the unit vector at an angle.
pub open spec fn rot_im_spec(angle: int) -> int {
    sin_turns_spec(angle % (FX_ONE as int))
}

/// The horizontal component: the sine a quarter turn ahead.
pub open spec fn rot_re_spec(angle: int) -> int {
    sin_turns_spec((angle + QUARTER_TURN) % (FX_ONE as int))
}

/// The half-turn sine stays within `[0, FX_ONE]`.
pub proof fn lemma_sin_half_bounds(u: int)
    requires
        0 <= u < HALF_TURN,
    ensures
        0 <= sin_half_spec(u) <= FX_ONE,
{
    let m = u * (HALF_TURN - u);
    assert(0 <= m && m <= 1152921504606846976) by (nonlinear_arith)
        requires 0 <= u && u < 2147483648 && m == u * (2147483648 - u);
    assert(PARAB_SCALE * FX_ONE == 1152921504606846976);
    let p = m / (PARAB_SCALE as int);
    lemma_div_pos_is_pos(m, PARAB_SCALE as int);
    lemma_div_mag(m, PARAB_SCALE as int, FX_ONE as int);
    let q = fx_mul_spec(SIN_B as int, p);
    lemma_mul_nonnegative(SIN_B as int, p);
    lemma_div_pos_is_pos(SIN_B * p, FX_ONE as int);
    lemma_mul_inequality(p, FX_ONE as int, SIN_B as int);
    lemma_div_mag(SIN_B * p, FX_ONE as int, SIN_B as int);
    let inner = SIN_A + q;
    lemma_mul_nonnegative(p, inner);
    lemma_div_pos_is_pos(p * inner, FX_ONE as int);
    lemma_mul_upper_bound(p, FX_ONE as int, inner, FX_ONE as int);
    lemma_div_mag(p * inner, FX_ONE as int, FX_ONE as int);
}

/// Every rotation component stays within `[-FX_ONE, FX_ONE]`.
pub proof fn lemma_rot_bounds(angle: int)
    ensures
        -FX_ONE <= rot_re_spec(angle) <= FX_ONE,
        -FX_ONE <= rot_im_spec(angle) <= FX_ONE,
{
    lemma_mod_division_less_than_divisor(angle, FX_ONE as int);
    lemma_mod_division_less_than_divisor(angle + QUARTER_TURN, FX_ONE as int);
    let t = angle % (FX_ONE as int);
    let tc = (angle + QUARTER_TURN) % (FX_ONE as int);
    if t < HALF_TURN {
        lemma_sin_half_bounds(t);
    } else {
        lemma_sin_half_bounds(t - HALF_TURN);
    }
    if tc < HALF_TURN {
        lemma_sin_half_bounds(tc);
    } else {
        lemma_sin_half_bounds(tc - HALF_TURN);
    }
}

/// The rotation has the period of one full turn.
pub proof fn lemma_rot_periodic(angle: int)
    ensures
        rot_re_spec(angle + FX_ONE) == rot_re_spec(angle),
        rot_im_spec(angle + FX_ONE) == rot_im_spec(angle),
{
    lemma_mod_add_multiples_vanish(angle, FX_ONE as int);
    lemma_mod_add_multiples_vanish(angle + QUARTER_TURN, FX_ONE as int);
}

/// At angle zero the vector points along the positive real axis with
/// magnitude exactly one.
pub proof fn lemma_rot_zero()
    ensures
        rot_re_spec(0) == FX_ONE,
        rot_im_spec(0) == 0,
{
    lemma_small_mod(0nat, FX_ONE as nat);
    lemma_small_mod(QUARTER_TURN as nat, FX_ONE as nat);
    assert(0 * (HALF_TURN - 0) == 0) by (nonlinear_arith);
    lemma_div_of0(PARAB_SCALE as int);
    assert(sin_half_spec(0int) == 0) by {
        assert(fx_mul_spec(SIN_B as int, 0) == 0) by (nonlinear_arith);
        assert(fx_mul_spec(0, SIN_A as int + 0) == 0) by (nonlinear_arith);
    }
    assert(sin_half_spec(QUARTER_TURN as int) == FX_ONE) by {
        assert(QUARTER_TURN * (HALF_TURN - QUARTER_TURN) == PARAB_SCALE * FX_ONE)
            by (nonlinear_arith);
        vstd::arithmetic::div_mod::lemma_div_multiples_vanish(FX_ONE as int, PARAB_SCALE as int);
        assert(PARAB_SCALE * FX_ONE == (PARAB_SCALE as int) * (FX_ONE as int));
        assert(fx_mul_spec(SIN_B as int, FX_ONE as int) == SIN_B) by {
            vstd::arithmetic::div_mod::lemma_div_multiples_vanish(SIN_B as int, FX_ONE as int);
            assert(SIN_B * FX_ONE == (FX_ONE as int) * (SIN_B as int)) by (nonlinear_arith);
        }
        assert(fx_mul_spec(FX_ONE as int, FX_ONE as int) == FX_ONE) by {
            vstd::arithmetic::div_mod::lemma_div_multiples_vanish(FX_ONE as int, FX_ONE as int);
        }
    }
}

/// Reduces an angle to its turn fraction: the Euclidean remainder by
/// one full turn.
fn reduce_angle(angle: i128) -> (t: i128)
    requires
        -MAG_ANGLE <= angle <= MAG_ANGLE,
    ensures
        t == angle as int % (FX_ONE as int),
        0 <= t < FX_ONE,
{
    proof {
        lemma_mod_division_less_than_divisor(angle as int, FX_ONE as int);
    }
    angle.checked_rem_euclid(FX_ONE).unwrap()
}

/// The half-turn sine, computed exactly as `sin_half_spec` states.
fn sin_half(u: i128) -> (r: i128)
    requires
        0 <= u < HALF_TURN,
    ensures
        r == sin_half_spec(u as int),
        0 <= r <= FX_ONE,
{
    proof {
        lemma_sin_half_bounds(u as int);
        assert(0 <= u * (HALF_TURN - u) && u * (HALF_TURN - u) <= 1152921504606846976)
            by (nonlinear_arith)
            requires 0 <= u && (u as int) < 2147483648 && HALF_TURN == 2147483648i128;
        assert(PARAB_SCALE * FX_ONE == 1152921504606846976);
        lemma_div_mag(u as int * (HALF_TURN - u) as int, PARAB_SCALE as int, FX_ONE as int);
        lemma_div_pos_is_pos(u as int * (HALF_TURN - u) as int, PARAB_SCALE as int);
    }
    let m = u * (HALF_TURN - u);
    let p = fx_div_floor(m, PARAB_SCALE);
    proof {
        lemma_mul_nonnegative(SIN_B as int, p as int);
        lemma_mul_upper_bound(SIN_B as int, SIN_B as int, p as int, FX_ONE as int);
        lemma_div_pos_is_pos(SIN_B * p, FX_ONE as int);
        lemma_div_mag(SIN_B as int * p as int, FX_ONE as int, SIN_B as int);
    }
    let inner = SIN_A + fx_mul(SIN_B, p);
    proof {
        lemma_mul_nonnegative(p as int, inner as int);
        lemma_mul_upper_bound(p as int, FX_ONE as int, inner as int, FX_ONE as int);
    }
    fx_mul(p, inner)
}

/// The sine of a reduced angle.
fn sin_turns(t: i128) -> (r: i128)
    requires
        0 <= t < FX_ONE,
    ensures
        r == sin_turns_spec(t as int),
        -FX_ONE <= r <= FX_ONE,
{
    if t < HALF_TURN {
        sin_half(t)
    } else {
        -sin_half(t - HALF_TURN)
    }
}

/// The unit vector at an angle: the instantaneous direction of a
/// rotating harmonic.
pub fn rot(angle: i128) -> (r: Cx)
    requires
        -MAG_ANGLE + QUARTER_TURN <= angle <= MAG_ANGLE - QUARTER_TURN,
    ensures
        r.re == rot_re_spec(angle as int),
        r.im == rot_im_spec(angle as int),
        -FX_ONE <= r.re <= FX_ONE,
        -FX_ONE <= r.im <= FX_ONE,
{
    let t = reduce_angle(angle);
    let tc = reduce_angle(angle + QUARTER_TURN);
    Cx { re: sin_turns(tc), im: sin_turns(t) }
}

} // verus!
