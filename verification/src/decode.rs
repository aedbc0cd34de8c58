//! Decoding a stereo waveform stream into a normalized mono signal.
//!
//! Samples are kept as exact integer numerators. A stereo sample `s`
//! of bit depth `b` stands for the amplitude `s / 2^(b-1)`; a mono
//! entry `m` stands for `m / 2^b`, so `m = l + r` is exactly the
//! average of the two normalized channels.

use vstd::prelude::*;
use vstd::arithmetic::power2::pow2;

verus! {

/// The only sample rate the decoder accepts.
pub const SUPPORTED_RATE: u32 = 44100;

/// The only channel count the decoder accepts.
pub const SUPPORTED_CHANNELS: u16 = 2;

/// The fatal conditions of the pipeline.
#[derive(Clone, Copy, Debug, PartialEq, Eq, Structural)]
pub enum VisError {
    /// Channel count, sample rate, or bit depth is not the single
    /// supported configuration.
    UnsupportedFormat,
    /// The interleaved stream has an odd sample count.
    CorruptInput,
    /// A drawing surface or output directory could not be opened.
    /// Raised by the program around the core, never by the core
    /// itself.
    ResourceUnavailable,
    /// More harmonics were requested than the spectrum can address.
    NumericEdgeCase,
}

/// Whether a declared format is the one supported configuration.
pub open spec fn format_supported(channels: u16, sample_rate: u32, bits: u16) -> bool {
    channels == SUPPORTED_CHANNELS && sample_rate == SUPPORTED_RATE && 1 <= bits <= 32
}

/// The two de-interleaved channels, each sample a numerator over
/// `2^(bits - 1)`.
pub struct StereoSignal {
    pub left: Vec<i32>,
    pub right: Vec<i32>,
    pub bits: u16,
}

/// The normalized mono signal, each entry a numerator over `2^bits`.
pub struct MonoSignal {
    pub nums: Vec<i64>,
    pub bits: u16,
}

/// De-interleaves a stereo stream after checking its declared format.
/// Fails fast: an unsupported format or an odd sample count is fatal.
pub fn decode_stereo(channels: u16, sample_rate: u32, bits: u16, samples: &Vec<i32>) -> (r: Result<
    StereoSignal,
    VisError,
>)
    ensures
        r is Ok <==> format_supported(channels, sample_rate, bits) && samples@.len() % 2 == 0,
        r == Err::<StereoSignal, VisError>(VisError::UnsupportedFormat) <==> !format_supported(
            channels,
            sample_rate,
            bits,
        ),
        r == Err::<StereoSignal, VisError>(VisError::CorruptInput) <==> format_supported(
            channels,
            sample_rate,
            bits,
        ) && samples@.len() % 2 != 0,
        r matches Ok(s) ==> {
            &&& s.left@.len() == samples@.len() / 2
            &&& s.right@.len() == samples@.len() / 2
            &&& s.bits == bits
            &&& forall|i: int|
                0 <= i < samples@.len() / 2 ==> s.left@[i] == samples@[2 * i] && s.right@[i]
                    == samples@[2 * i + 1]
        },
{
    if channels != SUPPORTED_CHANNELS || sample_rate != SUPPORTED_RATE || bits < 1 || bits > 32 {
        return Err(VisError::UnsupportedFormat);
    }
    if samples.len() % 2 != 0 {
        return Err(VisError::CorruptInput);
    }
    let half = samples.len() / 2;
    let mut left: Vec<i32> = Vec::new();
    let mut right: Vec<i32> = Vec::new();
    let mut j: usize = 0;
    while j < half
        invariant
            j <= half,
            half == samples@.len() / 2,
            samples@.len() % 2 == 0,
            samples@.len() == 2 * half,
            samples@.len() <= usize::MAX,
            left@.len() == j,
            right@.len() == j,
            forall|i: int|
                0 <= i < j ==> left@[i] == samples@[2 * i] && right@[i] == samples@[2 * i + 1],
        decreases half - j,
    {
        left.push(samples[2 * j]);
        right.push(samples[2 * j + 1]);
        j = j + 1;
    }
    Ok(StereoSignal { left, right, bits })
}

/// The elementwise average of the two normalized channels. Over the
/// numerators this is an exact sum: `(l + r) / 2^bits` equals the
/// average of `l / 2^(bits-1)` and `r / 2^(bits-1)`.
pub fn mono_from_stereo(s: &StereoSignal) -> (m: MonoSignal)
    requires
        s.left@.len() == s.right@.len(),
    ensures
        m.nums@.len() == s.left@.len(),
        m.bits == s.bits,
        forall|i: int| 0 <= i < m.nums@.len() ==> m.nums@[i] == s.left@[i] + s.right@[i],
{
    let n = s.left.len();
    let mut nums: Vec<i64> = Vec::new();
    let mut j: usize = 0;
    while j < n
        invariant
            j <= n,
            n == s.left@.len(),
            n == s.right@.len(),
            nums@.len() == j,
            forall|i: int| 0 <= i < j ==> nums@[i] == s.left@[i] + s.right@[i],
        decreases n - j,
    {
        nums.push(s.left[j] as i64 + s.right[j] as i64);
        j = j + 1;
    }
    MonoSignal { nums, bits: s.bits }
}

/// Decodes an interleaved stereo stream straight to the mono signal.
pub fn decode_mono(channels: u16, sample_rate: u32, bits: u16, samples: &Vec<i32>) -> (r: Result<
    MonoSignal,
    VisError,
>)
    ensures
        r is Ok <==> format_supported(channels, sample_rate, bits) && samples@.len() % 2 == 0,
        r == Err::<MonoSignal, VisError>(VisError::UnsupportedFormat) <==> !format_supported(
            channels,
            sample_rate,
            bits,
        ),
        r == Err::<MonoSignal, VisError>(VisError::CorruptInput) <==> format_supported(
            channels,
            sample_rate,
            bits,
        ) && samples@.len() % 2 != 0,
        r matches Ok(m) ==> {
            &&& m.nums@.len() == samples@.len() / 2
            &&& m.bits == bits
            &&& forall|i: int|
                0 <= i < m.nums@.len() ==> m.nums@[i] == samples@[2 * i] + samples@[2 * i + 1]
        },
{
    match decode_stereo(channels, sample_rate, bits, samples) {
        Ok(s) => Ok(mono_from_stereo(&s)),
        Err(e) => Err(e),
    }
}

/// Normalization bound: when every stereo sample is within the
/// full-scale range of its bit depth, every mono numerator is within
/// `[-2^bits, 2^bits]`, that is, every mono amplitude lies within
/// `[-1, 1]` inclusive.
pub proof fn lemma_normalization_bound(samples: Seq<i32>, nums: Seq<i64>, bits: u16)
    requires
        1 <= bits <= 32,
        nums.len() == samples.len() / 2,
        forall|i: int| 0 <= i < nums.len() ==> nums[i] == samples[2 * i] + samples[2 * i + 1],
        forall|i: int|
            0 <= i < samples.len() ==> -(pow2((bits - 1) as nat) as int) <= #[trigger] samples[i]
                < pow2((bits - 1) as nat),
    ensures
        forall|i: int|
            0 <= i < nums.len() ==> -(pow2(bits as nat) as int) <= #[trigger] nums[i] <= pow2(
                bits as nat,
            ),
{
    vstd::arithmetic::power2::lemma_pow2_unfold(bits as nat);
    assert forall|i: int| 0 <= i < nums.len() implies -(pow2(bits as nat) as int)
        <= #[trigger] nums[i] <= pow2(bits as nat) by {
        assert(0 <= 2 * i < samples.len() && 0 <= 2 * i + 1 < samples.len());
        assert(nums[i] == samples[2 * i] + samples[2 * i + 1]);
    }
}

} // verus!
