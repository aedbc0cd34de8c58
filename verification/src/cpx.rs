//! Fixed-point complex values and the complex-to-canvas coordinate map.

use vstd::prelude::*;
use crate::fx::fx_div_floor;
use vstd::arithmetic::div_mod::{lemma_div_of0, lemma_div_pos_is_pos, lemma_div_nonincreasing};

verus! {

/// Twice the fixed denominator: the divisor of the coordinate map,
/// which halves an amplitude before scaling it to the canvas.
pub const FX_TWO: i128 = 8589934592;

/// Largest component magnitude the coordinate map accepts.
pub const MAG_PIXEL: i128 = 1298074214633706907132624082305024;

/// A complex amplitude in fixed-point form: each component is a
/// numerator over `FX_ONE`.
#[derive(Clone, Copy, Debug, PartialEq, Eq, Structural)]
pub struct Cx {
    pub re: i128,
    pub im: i128,
}

impl Cx {
    /// The origin.
    pub fn zero() -> (r: Cx)
        ensures
            r.re == 0 && r.im == 0,
    {
        Cx { re: 0, im: 0 }
    }
}

/// Componentwise sum.
pub fn cx_add(a: Cx, b: Cx) -> (r: Cx)
    requires
        i128::MIN <= a.re + b.re <= i128::MAX,
        i128::MIN <= a.im + b.im <= i128::MAX,
    ensures
        r.re == a.re + b.re,
        r.im == a.im + b.im,
{
    Cx { re: a.re + b.re, im: a.im + b.im }
}

/// Where one axis of a complex value lands on the canvas: the
/// amplitude is halved, scaled by the canvas width, and shifted to the
/// given centre line. Floor rounding throughout.
pub open spec fn pixel_coord(num: int, width: int, center: int) -> int {
    (num * width) / (FX_TWO as int) + center
}

/// Clamping to the pixel coordinate range, as the final cast does.
pub open spec fn clamp_pixel(v: int) -> int {
    if v < i32::MIN {
        i32::MIN as int
    } else if v > i32::MAX {
        i32::MAX as int
    } else {
        v
    }
}

/// Canvas coordinates of a complex value. Both axes are scaled by the
/// canvas width so the picture is not stretched; only the vertical
/// centre line comes from the canvas height.
pub fn to_pixel(c: &Cx, width: u32, height: u32) -> (p: (i32, i32))
    requires
        width <= 65535,
        -MAG_PIXEL <= c.re <= MAG_PIXEL,
        -MAG_PIXEL <= c.im <= MAG_PIXEL,
    ensures
        p.0 == clamp_pixel(pixel_coord(c.re as int, width as int, (width / 2) as int)),
        p.1 == clamp_pixel(pixel_coord(c.im as int, width as int, (height / 2) as int)),
{
    let x = axis_coord(c.re, width, width / 2);
    let y = axis_coord(c.im, width, height / 2);
    (x, y)
}

/// One axis of the coordinate map, clamped to the pixel range.
fn axis_coord(num: i128, width: u32, center: u32) -> (r: i32)
    requires
        width <= 65535,
        -MAG_PIXEL <= num <= MAG_PIXEL,
    ensures
        r == clamp_pixel(pixel_coord(num as int, width as int, center as int)),
{
    let w = width as i128;
    proof {
        assert(-(MAG_PIXEL * 65536) <= num * w <= MAG_PIXEL * 65536) by (nonlinear_arith)
            requires -MAG_PIXEL <= num <= MAG_PIXEL && 0 <= w <= 65535;
        crate::fx::lemma_div_mag(num as int * w as int, FX_TWO as int, MAG_PIXEL * 65536);
    }
    let scaled = fx_div_floor(num.checked_mul(w).unwrap(), FX_TWO);
    let v = scaled + center as i128;
    if v < i32::MIN as i128 {
        i32::MIN
    } else if v > i32::MAX as i128 {
        i32::MAX
    } else {
        v as i32
    }
}

/// The origin of the complex plane lands on the canvas centre:
/// `(0, 0)` maps to `(width / 2, height / 2)`, unclamped, on every
/// canvas.
pub proof fn lemma_pixel_origin_centered(width: int, height: int)
    requires
        0 <= width < 4294967296,
        0 <= height < 4294967296,
    ensures
        clamp_pixel(pixel_coord(0, width, width / 2)) == width / 2,
        clamp_pixel(pixel_coord(0, width, height / 2)) == height / 2,
{
    assert(0 * width == 0) by (nonlinear_arith);
    lemma_div_of0(FX_TWO as int);
    lemma_div_pos_is_pos(width, 2);
    lemma_div_pos_is_pos(height, 2);
    lemma_div_nonincreasing(width, 2);
    lemma_div_nonincreasing(height, 2);
}

} // verus!
