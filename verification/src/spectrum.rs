//! The complex spectrum of the mono signal, with the mirrored
//! negative-frequency addressing behind named accessors.
//!
//! The layout is the transform's: index 0 is the DC term, indices
//! `1..len/2` the positive frequencies, and index `len - i` holds the
//! negative frequency mirroring index `i`.

use vstd::prelude::*;
use crate::cpx::Cx;

verus! {

/// Largest coefficient component magnitude a spectrum holds.
pub const MAG_COEFF: i128 = 4611686018427387904;

/// Largest spectrum length.
pub const MAG_N: u64 = 68719476736;

/// Whether a coefficient is within the magnitude the engine's
/// arithmetic is proven for.
pub open spec fn coeff_bounded(c: Cx) -> bool {
    &&& -MAG_COEFF <= c.re <= MAG_COEFF
    &&& -MAG_COEFF <= c.im <= MAG_COEFF
}

/// An ordered sequence of complex coefficients, one per input sample.
pub struct Spectrum {
    coeffs: Vec<Cx>,
}

impl View for Spectrum {
    type V = Seq<Cx>;

    closed spec fn view(&self) -> Seq<Cx> {
        self.coeffs@
    }
}

impl Spectrum {
    /// A spectrum is well formed when it is non-empty, addressable,
    /// and every coefficient is within the proven magnitude.
    pub open spec fn wf(&self) -> bool {
        &&& 1 <= self@.len() <= MAG_N
        &&& forall|i: int| 0 <= i < self@.len() ==> coeff_bounded(#[trigger] self@[i])
    }

    /// Wraps transform output, refusing a sequence the engine's
    /// arithmetic cannot carry.
    pub fn new(coeffs: Vec<Cx>) -> (r: Option<Spectrum>)
        ensures
            r is Some <==> 1 <= coeffs@.len() <= MAG_N && (forall|i: int|
                0 <= i < coeffs@.len() ==> coeff_bounded(#[trigger] coeffs@[i])),
            r matches Some(s) ==> s@ == coeffs@ && s.wf(),
    {
        if coeffs.len() < 1 || coeffs.len() as u64 > MAG_N {
            return None;
        }
        let n = coeffs.len();
        let mut j: usize = 0;
        while j < n
            invariant
                j <= n,
                n == coeffs@.len(),
                forall|i: int| 0 <= i < j ==> coeff_bounded(#[trigger] coeffs@[i]),
            decreases n - j,
        {
            let c = coeffs[j];
            if c.re < -MAG_COEFF || c.re > MAG_COEFF || c.im < -MAG_COEFF || c.im > MAG_COEFF {
                return None;
            }
            j = j + 1;
        }
        Some(Spectrum { coeffs })
    }

    /// The transform length: one coefficient per input sample.
    pub fn len(&self) -> (n: usize)
        ensures
            n == self@.len(),
    {
        self.coeffs.len()
    }

    /// The coefficient of the `i`-th positive frequency (index 0 is
    /// the DC term).
    pub fn positive_bin(&self, i: usize) -> (c: Cx)
        requires
            i < self@.len(),
        ensures
            c == self@[i as int],
    {
        self.coeffs[i]
    }

    /// The coefficient of the `i`-th negative frequency: the mirrored
    /// index `len - i`, for `1 <= i < len`.
    pub fn negative_bin(&self, i: usize) -> (c: Cx)
        requires
            1 <= i < self@.len(),
        ensures
            c == self@[self@.len() - i],
    {
        self.coeffs[self.coeffs.len() - i]
    }
}

} // verus!
