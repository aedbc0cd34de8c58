//! The animation clock: maps rendered frames to simulated audio time,
//! decides when the animation ends, and observes cancellation.
//!
//! Frame `f` simulates the time `f * frame_ms / 1000 * speed` seconds,
//! with the speed factor in fixed-point form (`speed_num / FX_ONE`).
//! The signal of `n` samples lasts `n / 44100` seconds. All the clock
//! decides is the exact integer comparison
//! `f * frame_ms * speed_num * 44100 <= n * 1000 * FX_ONE`:
//! a frame is produced while the simulated time has not passed the
//! signal's end, so the clock hands out exactly
//! `duration_num / clock_gain + 1` frames — one more than the floor of
//! `duration / (speed * frame seconds)`, because the frame landing
//! exactly on the signal's end is still produced.

use vstd::prelude::*;
use crate::fx::FX_ONE;
use crate::spectrum::MAG_N;
use vstd::arithmetic::div_mod::{
    lemma_div_is_ordered, lemma_div_is_ordered_by_denominator, lemma_div_multiples_vanish,
    lemma_div_pos_is_pos, lemma_fundamental_div_mod, lemma_mod_division_less_than_divisor,
};
use vstd::arithmetic::mul::{
    lemma_mul_inequality, lemma_mul_nonnegative, lemma_mul_strict_inequality,
};

verus! {

/// Largest frame duration the clock accepts, in milliseconds.
pub const MAX_FRAME_MS: u64 = 131072;

/// Largest speed factor numerator the clock accepts (over `FX_ONE`).
pub const MAX_SPEED_NUM: u64 = 35184372088832;

/// How far one frame advances the scaled comparison: the frame
/// duration times the speed numerator times the sample rate.
pub open spec fn clock_gain(frame_ms: int, speed_num: int) -> int {
    frame_ms * speed_num * 44100
}

/// The signal's duration on the same scale: samples times 1000
/// (milliseconds) times the speed denominator.
pub open spec fn duration_num(n: int) -> int {
    n * 1000 * (FX_ONE as int)
}

/// Whether frame `f` is produced: its simulated time has not passed
/// the signal's end.
pub open spec fn produces_frame(frame_ms: int, speed_num: int, n: int, f: int) -> bool {
    f * clock_gain(frame_ms, speed_num) <= duration_num(n)
}

/// How many frames a full, uncancelled run produces.
pub open spec fn total_frames(frame_ms: int, speed_num: int, n: int) -> int {
    duration_num(n) / clock_gain(frame_ms, speed_num) + 1
}

/// The phase of frame `f` in turn units over `FX_ONE`: the fraction
/// of the signal that has played, which is also the fundamental
/// frequency times the simulated time.
pub open spec fn phase_at(frame_ms: int, speed_num: int, n: int, f: int) -> int {
    ((f * clock_gain(frame_ms, speed_num)) % duration_num(n)) * (FX_ONE as int) / duration_num(n)
}

/// One produced frame: its index and its phase, ready for the engine.
pub struct FrameJob {
    pub frame: u64,
    pub phase: i128,
}

/// The clock's state: the configuration and the next frame index.
pub struct Clock {
    frame: u64,
    frame_ms: u64,
    speed_num: u64,
    n: u64,
}

/// Ranges of the gain, the duration, and the frame total under a
/// well-formed configuration.
proof fn lemma_clock_ranges(frame_ms: int, speed_num: int, n: int)
    requires
        1 <= frame_ms <= MAX_FRAME_MS,
        1 <= speed_num <= MAX_SPEED_NUM,
        1 <= n <= MAG_N,
    ensures
        44100 <= clock_gain(frame_ms, speed_num) <= 203375353412647806566400,
        4294967296000 <= duration_num(n) <= 295147905179352825856000,
        1 <= total_frames(frame_ms, speed_num, n) <= 6692696262570358863,
{
    let g = clock_gain(frame_ms, speed_num);
    let d = duration_num(n);
    assert(44100 <= g <= 203375353412647806566400 && 4294967296000 <= d
        <= 295147905179352825856000) by (nonlinear_arith)
        requires
            1 <= frame_ms <= 131072 && 1 <= speed_num <= 35184372088832 && 1 <= n <= 68719476736
                && g == frame_ms * speed_num * 44100 && d == n * 1000 * 4294967296;
    lemma_div_pos_is_pos(d, g);
    lemma_div_is_ordered_by_denominator(d, 44100, g);
    lemma_div_is_ordered(d, 295147905179352825856000, 44100);
    assert(295147905179352825856000int / 44100 <= 6692696262570358862);
}

impl Clock {
    /// The next frame index.
    pub closed spec fn frame(&self) -> int {
        self.frame as int
    }

    /// The configured frame duration, in milliseconds.
    pub closed spec fn frame_ms(&self) -> int {
        self.frame_ms as int
    }

    /// The configured speed factor numerator.
    pub closed spec fn speed_num(&self) -> int {
        self.speed_num as int
    }

    /// The signal length the clock was built for.
    pub closed spec fn signal_len(&self) -> int {
        self.n as int
    }

    /// A clock is well formed when its configuration is within the
    /// proven ranges and its frame index has not run past the total.
    pub open spec fn wf(&self) -> bool {
        &&& 1 <= self.frame_ms() <= MAX_FRAME_MS
        &&& 1 <= self.speed_num() <= MAX_SPEED_NUM
        &&& 1 <= self.signal_len() <= MAG_N
        &&& 0 <= self.frame() <= total_frames(self.frame_ms(), self.speed_num(), self.signal_len())
    }

    /// A clock at frame zero, refusing a configuration outside the
    /// proven ranges.
    pub fn new(frame_duration_ms: u64, speed_num: u64, signal_len: u64) -> (r: Option<Clock>)
        ensures
            r is Some <==> 1 <= frame_duration_ms <= MAX_FRAME_MS && 1 <= speed_num
                <= MAX_SPEED_NUM && 1 <= signal_len <= MAG_N,
            r matches Some(c) ==> c.wf() && c.frame() == 0 && c.frame_ms() == frame_duration_ms
                && c.speed_num() == speed_num && c.signal_len() == signal_len,
    {
        if frame_duration_ms < 1 || frame_duration_ms > MAX_FRAME_MS || speed_num < 1 || speed_num
            > MAX_SPEED_NUM || signal_len < 1 || signal_len > MAG_N {
            return None;
        }
        proof {
            lemma_clock_ranges(frame_duration_ms as int, speed_num as int, signal_len as int);
        }
        Some(Clock { frame: 0, frame_ms: frame_duration_ms, speed_num, n: signal_len })
    }

    /// One loop iteration: when the running flag is clear nothing is
    /// produced and the clock does not move; otherwise, while the
    /// simulated time has not passed the signal's end, the frame and
    /// its phase are handed out and the clock advances by exactly one
    /// frame.
    pub fn step(&mut self, running: bool) -> (r: Option<FrameJob>)
        requires
            old(self).wf(),
        ensures
            final(self).wf(),
            final(self).frame_ms() == old(self).frame_ms(),
            final(self).speed_num() == old(self).speed_num(),
            final(self).signal_len() == old(self).signal_len(),
            r is Some <==> running && produces_frame(
                old(self).frame_ms(),
                old(self).speed_num(),
                old(self).signal_len(),
                old(self).frame(),
            ),
            r is None ==> final(self).frame() == old(self).frame(),
            r matches Some(job) ==> {
                &&& job.frame as int == old(self).frame()
                &&& job.phase as int == phase_at(
                    old(self).frame_ms(),
                    old(self).speed_num(),
                    old(self).signal_len(),
                    old(self).frame(),
                )
                &&& 0 <= job.phase < FX_ONE
                &&& final(self).frame() == old(self).frame() + 1
            },
    {
        if !running {
            return None;
        }
        proof {
            lemma_clock_ranges(self.frame_ms as int, self.speed_num as int, self.n as int);
        }
        let gain: u128 = (self.frame_ms as u128) * (self.speed_num as u128) * 44100;
        let dur: u128 = (self.n as u128) * 1000 * 4294967296;
        let ghost g = clock_gain(self.frame_ms as int, self.speed_num as int);
        let ghost d = duration_num(self.n as int);
        match (self.frame as u128).checked_mul(gain) {
            None => {
                proof {
                    lemma_mul_nonnegative(self.frame as int, g);
                }
                None
            },
            Some(prod) => {
                if prod > dur {
                    None
                } else {
                    let rem = prod % dur;
                    proof {
                        lemma_mod_division_less_than_divisor(prod as int, d);
                        lemma_mul_nonnegative(rem as int, FX_ONE as int);
                        lemma_div_pos_is_pos(rem as int * FX_ONE as int, d);
                        lemma_mul_strict_inequality(rem as int, d, FX_ONE as int);
                        vstd::arithmetic::div_mod::lemma_multiply_divide_lt(
                            (rem as int) * (FX_ONE as int),
                            d,
                            FX_ONE as int,
                        );
                    }
                    let phase = rem * 4294967296 / dur;
                    let job = FrameJob { frame: self.frame, phase: phase as i128 };
                    proof {
                        lemma_div_is_ordered(self.frame as int * g, d, g);
                        lemma_div_multiples_vanish(self.frame as int, g);
                        assert(self.frame as int * g == g * self.frame as int) by (nonlinear_arith);
                    }
                    self.frame = self.frame + 1;
                    Some(job)
                }
            },
        }
    }
}

/// Frame-count law: an uncancelled run produces the frames
/// `0 .. total_frames - 1` and no others — frame `f` is produced
/// exactly when `f < total_frames`, so the run hands the sink exactly
/// `duration_num / clock_gain + 1` frames.
pub proof fn lemma_clock_frame_count(frame_ms: int, speed_num: int, n: int, f: int)
    requires
        1 <= frame_ms,
        1 <= speed_num,
        1 <= n,
        0 <= f,
    ensures
        produces_frame(frame_ms, speed_num, n, f) <==> f < total_frames(frame_ms, speed_num, n),
{
    let g = clock_gain(frame_ms, speed_num);
    let d = duration_num(n);
    assert(1 <= g && 0 <= d) by (nonlinear_arith)
        requires
            1 <= frame_ms && 1 <= speed_num && g == frame_ms * speed_num * 44100 && 1 <= n && d
                == n * 1000 * 4294967296;
    if produces_frame(frame_ms, speed_num, n, f) {
        lemma_div_is_ordered(f * g, d, g);
        lemma_div_multiples_vanish(f, g);
        assert(f * g == g * f) by (nonlinear_arith);
    }
    if f < total_frames(frame_ms, speed_num, n) {
        lemma_mul_inequality(f, d / g, g);
        lemma_fundamental_div_mod(d, g);
        lemma_mod_division_less_than_divisor(d, g);
        assert((d / g) * g == g * (d / g)) by (nonlinear_arith);
    }
}

} // verus!
