//! The epicycle engine: for one instant of simulated time, the chain
//! of rotating vectors whose endpoints trace the reconstructed signal.
//!
//! Harmonic `i`'s vector is the spectrum coefficient scaled by the
//! zoom factor, divided by the transform length, and rotated by `i`
//! times the phase (the fundamental frequency times the simulated
//! time, in turn units). The chain starts at the origin, walks through
//! every positive harmonic below the requested count, and then
//! continues — without returning to the origin — through the mirrored
//! negative harmonics. The final position is the reconstructed,
//! scaled signal value at that instant.

use vstd::prelude::*;
use crate::cpx::{cx_add, Cx};
use crate::decode::VisError;
use crate::fx::{fx_div_floor, fx_mul, fx_mul_spec, lemma_div_mag, lemma_mul_mag, FX_ONE};
use crate::rot::{lemma_rot_bounds, rot, rot_im_spec, rot_re_spec, MAG_ANGLE, QUARTER_TURN};
use crate::spectrum::{coeff_bounded, Spectrum, MAG_COEFF, MAG_N};
use vstd::arithmetic::mul::{
    lemma_mul_inequality, lemma_mul_nonnegative, lemma_mul_upper_bound,
};

verus! {

/// Largest zoom factor magnitude, in fixed-point form.
pub const MAG_SCALE: i128 = 4398046511104;

/// Largest magnitude of a scaled coefficient component.
pub const MAG_BIN: i128 = 4722366482869645213696;

/// Largest magnitude of one harmonic vector component.
pub const MAG_TERM: i128 = 9444732965739290427392;

/// Largest magnitude of a chain position component.
pub const MAG_CHAIN: i128 = 649037107316853453566312041152512;

/// The real part of one harmonic's rotating vector: the coefficient
/// divided by the transform length, scaled by the zoom factor, and
/// rotated by the angle.
pub open spec fn term_re(c: Cx, n: int, scale: int, angle: int) -> int {
    let br = fx_mul_spec(c.re as int / n, scale);
    let bi = fx_mul_spec(c.im as int / n, scale);
    fx_mul_spec(br, rot_re_spec(angle)) - fx_mul_spec(bi, rot_im_spec(angle))
}

/// The imaginary part of one harmonic's rotating vector.
pub open spec fn term_im(c: Cx, n: int, scale: int, angle: int) -> int {
    let br = fx_mul_spec(c.re as int / n, scale);
    let bi = fx_mul_spec(c.im as int / n, scale);
    fx_mul_spec(br, rot_im_spec(angle)) + fx_mul_spec(bi, rot_re_spec(angle))
}

/// The angle of the vector added at chain step `j`: positive
/// harmonics turn forward, the mirrored negative harmonics backward.
pub open spec fn chain_angle(h: int, phase: int, j: int) -> int {
    if j < h {
        j * phase
    } else {
        -((j - h + 1) * phase)
    }
}

/// The spectrum coefficient used at chain step `j`: bins `0..h`
/// first, then the mirrored bins `len - 1` down to `len - h + 1`.
pub open spec fn chain_bin(coeffs: Seq<Cx>, h: int, j: int) -> Cx {
    if j < h {
        coeffs[j]
    } else {
        coeffs[coeffs.len() - (j - h + 1)]
    }
}

/// The real part of the chain position after `j` vectors: the running
/// sum of the harmonic vectors, starting at the origin.
pub open spec fn chain_pos_re(coeffs: Seq<Cx>, h: int, scale: int, phase: int, j: int) -> int
    decreases j,
{
    if j <= 0 {
        0
    } else {
        chain_pos_re(coeffs, h, scale, phase, j - 1) + term_re(
            chain_bin(coeffs, h, j - 1),
            coeffs.len() as int,
            scale,
            chain_angle(h, phase, j - 1),
        )
    }
}

/// The imaginary part of the chain position after `j` vectors.
pub open spec fn chain_pos_im(coeffs: Seq<Cx>, h: int, scale: int, phase: int, j: int) -> int
    decreases j,
{
    if j <= 0 {
        0
    } else {
        chain_pos_im(coeffs, h, scale, phase, j - 1) + term_im(
            chain_bin(coeffs, h, j - 1),
            coeffs.len() as int,
            scale,
            chain_angle(h, phase, j - 1),
        )
    }
}

/// The real part of the total of the first `i` positive harmonic
/// vectors, harmonic `k` turned by `k` times the phase.
pub open spec fn positive_sum_re(coeffs: Seq<Cx>, scale: int, phase: int, i: int) -> int
    decreases i,
{
    if i <= 0 {
        0
    } else {
        positive_sum_re(coeffs, scale, phase, i - 1) + term_re(
            coeffs[i - 1],
            coeffs.len() as int,
            scale,
            (i - 1) * phase,
        )
    }
}

/// The imaginary part of the total of the first `i` positive harmonic
/// vectors.
pub open spec fn positive_sum_im(coeffs: Seq<Cx>, scale: int, phase: int, i: int) -> int
    decreases i,
{
    if i <= 0 {
        0
    } else {
        positive_sum_im(coeffs, scale, phase, i - 1) + term_im(
            coeffs[i - 1],
            coeffs.len() as int,
            scale,
            (i - 1) * phase,
        )
    }
}

/// The real part of the total of the first `i` negative harmonic
/// vectors: harmonic `k` reads the mirrored bin `len - k` and turns
/// backward by `k` times the phase.
pub open spec fn negative_sum_re(coeffs: Seq<Cx>, scale: int, phase: int, i: int) -> int
    decreases i,
{
    if i <= 0 {
        0
    } else {
        negative_sum_re(coeffs, scale, phase, i - 1) + term_re(
            coeffs[coeffs.len() - i],
            coeffs.len() as int,
            scale,
            -(i * phase),
        )
    }
}

/// The imaginary part of the total of the first `i` negative harmonic
/// vectors.
pub open spec fn negative_sum_im(coeffs: Seq<Cx>, scale: int, phase: int, i: int) -> int
    decreases i,
{
    if i <= 0 {
        0
    } else {
        negative_sum_im(coeffs, scale, phase, i - 1) + term_im(
            coeffs[coeffs.len() - i],
            coeffs.len() as int,
            scale,
            -(i * phase),
        )
    }
}

/// The chain walks the positive harmonics first: after `i <= h`
/// vectors it stands at the total of the first `i` positive terms.
proof fn lemma_chain_prefix_positive(coeffs: Seq<Cx>, h: int, scale: int, phase: int, i: int)
    requires
        0 <= i <= h,
    ensures
        chain_pos_re(coeffs, h, scale, phase, i) == positive_sum_re(coeffs, scale, phase, i),
        chain_pos_im(coeffs, h, scale, phase, i) == positive_sum_im(coeffs, scale, phase, i),
    decreases i,
{
    if i > 0 {
        lemma_chain_prefix_positive(coeffs, h, scale, phase, i - 1);
    }
}

/// Past the positive harmonics the chain accumulates the negative
/// ones: after `h + k` vectors it stands at the total of all `h`
/// positive terms plus the first `k` negative terms.
proof fn lemma_chain_with_negative(coeffs: Seq<Cx>, h: int, scale: int, phase: int, k: int)
    requires
        1 <= h,
        0 <= k <= h - 1,
    ensures
        chain_pos_re(coeffs, h, scale, phase, h + k) == positive_sum_re(coeffs, scale, phase, h)
            + negative_sum_re(coeffs, scale, phase, k),
        chain_pos_im(coeffs, h, scale, phase, h + k) == positive_sum_im(coeffs, scale, phase, h)
            + negative_sum_im(coeffs, scale, phase, k),
    decreases k,
{
    if k == 0 {
        lemma_chain_prefix_positive(coeffs, h, scale, phase, h);
    } else {
        lemma_chain_with_negative(coeffs, h, scale, phase, k - 1);
    }
}

/// Epicycle reconstruction, the exact half: the chain's final
/// position is the total of every positive and every mirrored
/// negative harmonic vector — the fixed-point inverse-transform sum
/// whose value is the scaled signal amplitude at the frame's instant.
pub proof fn lemma_chain_endpoint_is_harmonic_sum(
    coeffs: Seq<Cx>,
    h: int,
    scale: int,
    phase: int,
)
    requires
        1 <= h,
    ensures
        chain_pos_re(coeffs, h, scale, phase, 2 * h - 1) == positive_sum_re(
            coeffs,
            scale,
            phase,
            h,
        ) + negative_sum_re(coeffs, scale, phase, h - 1),
        chain_pos_im(coeffs, h, scale, phase, 2 * h - 1) == positive_sum_im(
            coeffs,
            scale,
            phase,
            h,
        ) + negative_sum_im(coeffs, scale, phase, h - 1),
{
    lemma_chain_with_negative(coeffs, h, scale, phase, h - 1);
}

/// One harmonic vector stays within `MAG_TERM` on both components.
pub proof fn lemma_term_bounds(c: Cx, n: int, scale: int, angle: int)
    requires
        coeff_bounded(c),
        1 <= n,
        -MAG_SCALE <= scale <= MAG_SCALE,
    ensures
        -MAG_TERM <= term_re(c, n, scale, angle) <= MAG_TERM,
        -MAG_TERM <= term_im(c, n, scale, angle) <= MAG_TERM,
{
    lemma_mul_inequality(1, n, MAG_COEFF as int);
    assert(MAG_COEFF * n == n * MAG_COEFF) by (nonlinear_arith);
    lemma_div_mag(c.re as int, n, MAG_COEFF as int);
    lemma_div_mag(c.im as int, n, MAG_COEFF as int);
    let qr = c.re as int / n;
    let qi = c.im as int / n;
    lemma_mul_mag(qr, scale, MAG_COEFF as int, MAG_SCALE as int);
    lemma_mul_mag(qi, scale, MAG_COEFF as int, MAG_SCALE as int);
    assert(MAG_COEFF * MAG_SCALE == MAG_BIN * FX_ONE);
    lemma_div_mag(qr * scale, FX_ONE as int, MAG_BIN as int);
    lemma_div_mag(qi * scale, FX_ONE as int, MAG_BIN as int);
    let br = fx_mul_spec(qr, scale);
    let bi = fx_mul_spec(qi, scale);
    lemma_rot_bounds(angle);
    let rr = rot_re_spec(angle);
    let ri = rot_im_spec(angle);
    lemma_mul_mag(br, rr, MAG_BIN as int, FX_ONE as int);
    lemma_mul_mag(bi, ri, MAG_BIN as int, FX_ONE as int);
    lemma_mul_mag(br, ri, MAG_BIN as int, FX_ONE as int);
    lemma_mul_mag(bi, rr, MAG_BIN as int, FX_ONE as int);
    lemma_div_mag(br * rr, FX_ONE as int, MAG_BIN as int);
    lemma_div_mag(bi * ri, FX_ONE as int, MAG_BIN as int);
    lemma_div_mag(br * ri, FX_ONE as int, MAG_BIN as int);
    lemma_div_mag(bi * rr, FX_ONE as int, MAG_BIN as int);
}

/// The chain position after `j` vectors stays within `j * MAG_TERM`.
pub proof fn lemma_chain_bounds(coeffs: Seq<Cx>, h: int, scale: int, phase: int, j: int)
    requires
        1 <= coeffs.len() <= MAG_N,
        forall|i: int| 0 <= i < coeffs.len() ==> coeff_bounded(#[trigger] coeffs[i]),
        -MAG_SCALE <= scale <= MAG_SCALE,
        1 <= h <= coeffs.len() / 2,
        0 <= j <= 2 * h - 1,
    ensures
        -(j * MAG_TERM) <= chain_pos_re(coeffs, h, scale, phase, j) <= j * MAG_TERM,
        -(j * MAG_TERM) <= chain_pos_im(coeffs, h, scale, phase, j) <= j * MAG_TERM,
    decreases j,
{
    if j <= 0 {
    } else {
        lemma_chain_bounds(coeffs, h, scale, phase, j - 1);
        let c = chain_bin(coeffs, h, j - 1);
        assert(coeff_bounded(c)) by {
            if j - 1 < h {
                assert(0 <= j - 1 < coeffs.len());
            } else {
                let i = (j - 1) - h + 1;
                assert(1 <= i <= h - 1);
                assert(0 <= coeffs.len() - i < coeffs.len());
            }
        }
        lemma_term_bounds(c, coeffs.len() as int, scale, chain_angle(h, phase, j - 1));
    }
}

/// One harmonic's rotating vector, exactly as `term_re` / `term_im`
/// state it.
fn harmonic_vector(c: Cx, n: usize, scale: i128, angle: i128) -> (t: Cx)
    requires
        coeff_bounded(c),
        1 <= n,
        -MAG_SCALE <= scale <= MAG_SCALE,
        -MAG_ANGLE + QUARTER_TURN <= angle <= MAG_ANGLE - QUARTER_TURN,
    ensures
        t.re as int == term_re(c, n as int, scale as int, angle as int),
        t.im as int == term_im(c, n as int, scale as int, angle as int),
        -MAG_TERM <= t.re <= MAG_TERM,
        -MAG_TERM <= t.im <= MAG_TERM,
{
    proof {
        lemma_term_bounds(c, n as int, scale as int, angle as int);
        lemma_mul_inequality(1, n as int, MAG_COEFF as int);
        assert(MAG_COEFF * (n as int) == (n as int) * MAG_COEFF) by (nonlinear_arith);
        lemma_div_mag(c.re as int, n as int, MAG_COEFF as int);
        lemma_div_mag(c.im as int, n as int, MAG_COEFF as int);
        lemma_mul_mag(c.re as int / (n as int), scale as int, MAG_COEFF as int, MAG_SCALE as int);
        lemma_mul_mag(c.im as int / (n as int), scale as int, MAG_COEFF as int, MAG_SCALE as int);
        assert(MAG_COEFF * MAG_SCALE == MAG_BIN * FX_ONE);
        lemma_div_mag(
            (c.re as int / (n as int)) * (scale as int),
            FX_ONE as int,
            MAG_BIN as int,
        );
        lemma_div_mag(
            (c.im as int / (n as int)) * (scale as int),
            FX_ONE as int,
            MAG_BIN as int,
        );
    }
    let br = fx_mul(fx_div_floor(c.re, n as i128), scale);
    let bi = fx_mul(fx_div_floor(c.im, n as i128), scale);
    let r = rot(angle);
    proof {
        lemma_mul_mag(br as int, r.re as int, MAG_BIN as int, FX_ONE as int);
        lemma_mul_mag(bi as int, r.im as int, MAG_BIN as int, FX_ONE as int);
        lemma_mul_mag(br as int, r.im as int, MAG_BIN as int, FX_ONE as int);
        lemma_mul_mag(bi as int, r.re as int, MAG_BIN as int, FX_ONE as int);
        lemma_div_mag(br as int * r.re as int, FX_ONE as int, MAG_BIN as int);
        lemma_div_mag(bi as int * r.im as int, FX_ONE as int, MAG_BIN as int);
        lemma_div_mag(br as int * r.im as int, FX_ONE as int, MAG_BIN as int);
        lemma_div_mag(bi as int * r.re as int, FX_ONE as int, MAG_BIN as int);
    }
    Cx {
        re: fx_mul(br, r.re) - fx_mul(bi, r.im),
        im: fx_mul(br, r.im) + fx_mul(bi, r.re),
    }
}

/// The epicycle chain at one instant: the ordered positions starting
/// at the origin, one new position per harmonic vector, positive
/// harmonics first and the mirrored negative harmonics continuing
/// from wherever the positive chain ended. The last position is the
/// reconstructed, scaled signal value. A harmonic count beyond half
/// the spectrum length cannot be addressed and is refused.
pub fn epicycle_positions(s: &Spectrum, harmonic_count: usize, scale: i128, phase: i128) -> (r:
    Result<Vec<Cx>, VisError>)
    requires
        s.wf(),
        -MAG_SCALE <= scale <= MAG_SCALE,
        0 <= phase < FX_ONE,
    ensures
        r is Ok <==> harmonic_count <= s@.len() / 2,
        r is Err ==> r == Err::<Vec<Cx>, VisError>(VisError::NumericEdgeCase),
        r matches Ok(v) ==> {
            &&& v@.len() == (if harmonic_count == 0 {
                1int
            } else {
                2 * harmonic_count
            })
            &&& forall|j: int|
                0 <= j < v@.len() ==> #[trigger] v@[j].re as int == chain_pos_re(
                    s@,
                    harmonic_count as int,
                    scale as int,
                    phase as int,
                    j,
                ) && v@[j].im as int == chain_pos_im(
                    s@,
                    harmonic_count as int,
                    scale as int,
                    phase as int,
                    j,
                ) && -MAG_CHAIN <= v@[j].re <= MAG_CHAIN && -MAG_CHAIN <= v@[j].im <= MAG_CHAIN
        },
{
    let n = s.len();
    if harmonic_count > n / 2 {
        return Err(VisError::NumericEdgeCase);
    }
    let ghost h = harmonic_count as int;
    let mut v: Vec<Cx> = Vec::new();
    let mut pos = Cx::zero();
    v.push(pos);
    if harmonic_count == 0 {
        return Ok(v);
    }
    let mut i: usize = 0;
    while i < harmonic_count
        invariant
            s.wf(),
            -MAG_SCALE <= scale <= MAG_SCALE,
            0 <= phase < FX_ONE,
            1 <= harmonic_count <= s@.len() / 2,
            h == harmonic_count as int,
            n == s@.len(),
            i <= harmonic_count,
            v@.len() == i + 1,
            pos == v@[v@.len() - 1],
            forall|j: int|
                0 <= j < v@.len() ==> #[trigger] v@[j].re as int == chain_pos_re(
                    s@,
                    h,
                    scale as int,
                    phase as int,
                    j,
                ) && v@[j].im as int == chain_pos_im(s@, h, scale as int, phase as int, j),
        decreases harmonic_count - i,
    {
        let c = s.positive_bin(i);
        proof {
            lemma_mul_nonnegative(i as int, phase as int);
            lemma_mul_upper_bound(i as int, 34359738368, phase as int, FX_ONE as int);
        }
        let angle = (i as i128) * phase;
        let t = harmonic_vector(c, n, scale, angle);
        proof {
            lemma_chain_bounds(s@, h, scale as int, phase as int, i as int);
            lemma_chain_bounds(s@, h, scale as int, phase as int, i + 1);
            lemma_mul_inequality(i + 1, 2 * h - 1, MAG_TERM as int);
            lemma_mul_inequality(2 * h - 1, MAG_N as int, MAG_TERM as int);
            assert((MAG_N as int) * (MAG_TERM as int) == MAG_CHAIN as int);
            assert(chain_bin(s@, h, i as int) == c);
            assert(chain_angle(h, phase as int, i as int) == i as int * phase as int);
            assert(chain_pos_re(s@, h, scale as int, phase as int, i + 1) == chain_pos_re(
                s@,
                h,
                scale as int,
                phase as int,
                i as int,
            ) + term_re(c, s@.len() as int, scale as int, chain_angle(h, phase as int, i as int)));
            assert(chain_pos_im(s@, h, scale as int, phase as int, i + 1) == chain_pos_im(
                s@,
                h,
                scale as int,
                phase as int,
                i as int,
            ) + term_im(c, s@.len() as int, scale as int, chain_angle(h, phase as int, i as int)));
            assert(v@[i as int].re as int == chain_pos_re(s@, h, scale as int, phase as int, i as int));
            assert(pos.re as int == chain_pos_re(s@, h, scale as int, phase as int, i as int));
            assert(pos.im as int == chain_pos_im(s@, h, scale as int, phase as int, i as int));
            assert(i128::MIN <= pos.re + t.re <= i128::MAX);
            assert(i128::MIN <= pos.im + t.im <= i128::MAX);
        }
        pos = cx_add(pos, t);
        v.push(pos);
        i = i + 1;
    }
    let mut k: usize = 1;
    while k < harmonic_count
        invariant
            s.wf(),
            -MAG_SCALE <= scale <= MAG_SCALE,
            0 <= phase < FX_ONE,
            1 <= harmonic_count <= s@.len() / 2,
            h == harmonic_count as int,
            n == s@.len(),
            1 <= k <= harmonic_count,
            v@.len() == harmonic_count + k,
            pos == v@[v@.len() - 1],
            forall|j: int|
                0 <= j < v@.len() ==> #[trigger] v@[j].re as int == chain_pos_re(
                    s@,
                    h,
                    scale as int,
                    phase as int,
                    j,
                ) && v@[j].im as int == chain_pos_im(s@, h, scale as int, phase as int, j),
        decreases harmonic_count - k,
    {
        let c = s.negative_bin(k);
        proof {
            lemma_mul_nonnegative(k as int, phase as int);
            lemma_mul_upper_bound(k as int, 34359738368, phase as int, FX_ONE as int);
        }
        let angle = -((k as i128) * phase);
        let t = harmonic_vector(c, n, scale, angle);
        proof {
            let j = h + k - 1;
            lemma_chain_bounds(s@, h, scale as int, phase as int, j);
            lemma_chain_bounds(s@, h, scale as int, phase as int, j + 1);
            lemma_mul_inequality(j + 1, 2 * h - 1, MAG_TERM as int);
            lemma_mul_inequality(2 * h - 1, MAG_N as int, MAG_TERM as int);
            assert((MAG_N as int) * (MAG_TERM as int) == MAG_CHAIN as int);
            assert(v@[j].re as int == chain_pos_re(s@, h, scale as int, phase as int, j));
            assert(pos.re as int == chain_pos_re(s@, h, scale as int, phase as int, j));
            assert(pos.im as int == chain_pos_im(s@, h, scale as int, phase as int, j));
            assert(i128::MIN <= pos.re + t.re <= i128::MAX);
            assert(i128::MIN <= pos.im + t.im <= i128::MAX);
            assert(chain_bin(s@, h, j) == c);
            assert(chain_angle(h, phase as int, j) == -(k as int * phase as int));
            assert(chain_pos_re(s@, h, scale as int, phase as int, j + 1) == chain_pos_re(
                s@,
                h,
                scale as int,
                phase as int,
                j,
            ) + term_re(c, s@.len() as int, scale as int, chain_angle(h, phase as int, j)));
            assert(chain_pos_im(s@, h, scale as int, phase as int, j + 1) == chain_pos_im(
                s@,
                h,
                scale as int,
                phase as int,
                j,
            ) + term_im(c, s@.len() as int, scale as int, chain_angle(h, phase as int, j)));
        }
        pos = cx_add(pos, t);
        v.push(pos);
        k = k + 1;
    }
    proof {
        assert forall|j: int| 0 <= j < v@.len() implies -MAG_CHAIN <= #[trigger] v@[j].re
            <= MAG_CHAIN && -MAG_CHAIN <= v@[j].im <= MAG_CHAIN by {
            lemma_chain_bounds(s@, h, scale as int, phase as int, j);
            lemma_mul_inequality(j, MAG_N as int, MAG_TERM as int);
            assert((MAG_N as int) * (MAG_TERM as int) == MAG_CHAIN as int);
        }
    }
    Ok(v)
}

/// The standalone positive-harmonic vectors from the origin, used for
/// the background overlay: the same vectors the chain adds, not
/// chained.
pub fn raw_harmonic_vectors(s: &Spectrum, harmonic_count: usize, scale: i128, phase: i128) -> (r:
    Result<Vec<Cx>, VisError>)
    requires
        s.wf(),
        -MAG_SCALE <= scale <= MAG_SCALE,
        0 <= phase < FX_ONE,
    ensures
        r is Ok <==> harmonic_count <= s@.len() / 2,
        r is Err ==> r == Err::<Vec<Cx>, VisError>(VisError::NumericEdgeCase),
        r matches Ok(v) ==> {
            &&& v@.len() == harmonic_count
            &&& forall|i: int|
                0 <= i < v@.len() ==> #[trigger] v@[i].re as int == term_re(
                    s@[i],
                    s@.len() as int,
                    scale as int,
                    i * phase as int,
                ) && v@[i].im as int == term_im(s@[i], s@.len() as int, scale as int, i * phase as int)
                    && -MAG_TERM <= v@[i].re <= MAG_TERM && -MAG_TERM <= v@[i].im <= MAG_TERM
        },
{
    let n = s.len();
    if harmonic_count > n / 2 {
        return Err(VisError::NumericEdgeCase);
    }
    let mut v: Vec<Cx> = Vec::new();
    let mut i: usize = 0;
    while i < harmonic_count
        invariant
            s.wf(),
            -MAG_SCALE <= scale <= MAG_SCALE,
            0 <= phase < FX_ONE,
            harmonic_count <= s@.len() / 2,
            n == s@.len(),
            i <= harmonic_count,
            v@.len() == i,
            forall|j: int|
                0 <= j < i ==> #[trigger] v@[j].re as int == term_re(
                    s@[j],
                    s@.len() as int,
                    scale as int,
                    j * phase as int,
                ) && v@[j].im as int == term_im(s@[j], s@.len() as int, scale as int, j * phase as int)
                    && -MAG_TERM <= v@[j].re <= MAG_TERM && -MAG_TERM <= v@[j].im <= MAG_TERM,
        decreases harmonic_count - i,
    {
        let c = s.positive_bin(i);
        proof {
            lemma_mul_nonnegative(i as int, phase as int);
            lemma_mul_upper_bound(i as int, 34359738368, phase as int, FX_ONE as int);
        }
        let angle = (i as i128) * phase;
        let t = harmonic_vector(c, n, scale, angle);
        v.push(t);
        i = i + 1;
    }
    Ok(v)
}

} // verus!
