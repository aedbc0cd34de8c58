use fft_anything::clock::Clock;
use fft_anything::cpx::{to_pixel, Cx};
use fft_anything::decode::{decode_mono, decode_stereo, mono_from_stereo, VisError};
use fft_anything::driver::first_opengl_index;
use fft_anything::rot::{rot, HALF_TURN, QUARTER_TURN};
use fft_anything::engine::epicycle_positions;
use fft_anything::fx::FX_ONE;
use fft_anything::spectrum::Spectrum;

#[test]
fn decode_round_trip() {
    let samples: Vec<i32> = vec![1000, -2000, 300, 400, -32768, 32767];
    let mono = decode_mono(2, 44100, 16, &samples).unwrap();
    assert_eq!(mono.bits, 16);
    assert_eq!(mono.nums, vec![-1000, 700, -1]);
    // Each mono entry is exactly the average of the two normalized
    // channel samples.
    for i in 0..mono.nums.len() {
        let left = samples[2 * i] as f64 / 32768.0;
        let right = samples[2 * i + 1] as f64 / 32768.0;
        let value = mono.nums[i] as f64 / 65536.0;
        assert_eq!(value, (left + right) / 2.0);
    }
}

#[test]
fn decode_matches_stereo_average() {
    let samples: Vec<i32> = vec![12, 34, -56, 78];
    let stereo = decode_stereo(2, 44100, 16, &samples).unwrap();
    assert_eq!(stereo.left, vec![12, -56]);
    assert_eq!(stereo.right, vec![34, 78]);
    let mono = mono_from_stereo(&stereo);
    assert_eq!(mono.nums, vec![46, 22]);
}

#[test]
fn decode_rejects_mono_file() {
    let samples: Vec<i32> = vec![1, 2];
    assert!(matches!(decode_mono(1, 44100, 16, &samples), Err(VisError::UnsupportedFormat)));
}

#[test]
fn decode_rejects_other_rate() {
    let samples: Vec<i32> = vec![1, 2];
    assert!(matches!(decode_mono(2, 48000, 16, &samples), Err(VisError::UnsupportedFormat)));
}

#[test]
fn decode_rejects_odd_stream() {
    let samples: Vec<i32> = vec![1, 2, 3];
    assert!(matches!(decode_mono(2, 44100, 16, &samples), Err(VisError::CorruptInput)));
}

#[test]
fn decode_normalization_bound() {
    let samples: Vec<i32> = vec![32767, 32767, -32768, -32768, -32768, 32767];
    let mono = decode_mono(2, 44100, 16, &samples).unwrap();
    for &m in mono.nums.iter() {
        assert!(-65536 <= m && m <= 65536);
    }
}

#[test]
fn pixel_origin_is_canvas_center() {
    let p = to_pixel(&Cx { re: 0, im: 0 }, 1920, 1080);
    assert_eq!(p, (960, 540));
}

#[test]
fn pixel_known_value() {
    // re = 0.5, im = -0.5: a quarter of the width away from center on
    // both axes, the vertical axis scaled by the width as well.
    let c = Cx { re: FX_ONE / 2, im: -(FX_ONE / 2) };
    let p = to_pixel(&c, 1920, 1080);
    assert_eq!(p, (1440, 60));
}

#[test]
fn pixel_mapping_deterministic() {
    let c = Cx { re: 123456789, im: -987654321 };
    let a = to_pixel(&c, 1920, 1080);
    let b = to_pixel(&c, 1920, 1080);
    assert_eq!(a, b);
}

#[test]
fn clock_produces_exact_frame_count() {
    // One second of signal at speed 1.0 and 16 ms frames: frames
    // 0..=62 have simulated time at most one second, so 63 frames.
    let mut clock = Clock::new(16, FX_ONE as u64, 44100).unwrap();
    let mut frames = 0u64;
    loop {
        match clock.step(true) {
            Some(job) => {
                assert_eq!(job.frame, frames);
                frames += 1;
            }
            None => break,
        }
    }
    assert_eq!(frames, 44100 * 1000 / (16 * 44100) + 1);
    assert_eq!(frames, 63);
    // Once finished, the clock stays finished.
    assert!(clock.step(true).is_none());
}

#[test]
fn clock_cancellation_stops_frames() {
    let mut clock = Clock::new(16, FX_ONE as u64, 44100).unwrap();
    let mut frames = 0u64;
    // The flag is cleared before frame 5: no more than 5 frames are
    // handed out.
    for i in 0..100 {
        let running = i < 4;
        match clock.step(running) {
            Some(_) => frames += 1,
            None => assert!(!running),
        }
    }
    assert!(frames <= 5);
    assert_eq!(frames, 4);
}

#[test]
fn clock_pre_cancelled_produces_nothing() {
    let mut clock = Clock::new(16, FX_ONE as u64, 44100).unwrap();
    assert!(clock.step(false).is_none());
    assert!(clock.step(false).is_none());
    // Cancellation does not advance the clock.
    let job = clock.step(true).unwrap();
    assert_eq!(job.frame, 0);
}

#[test]
fn clock_rejects_bad_configuration() {
    assert!(Clock::new(0, FX_ONE as u64, 44100).is_none());
    assert!(Clock::new(16, 0, 44100).is_none());
    assert!(Clock::new(16, FX_ONE as u64, 0).is_none());
}

#[test]
fn engine_rejects_excess_harmonics() {
    let coeffs = vec![Cx { re: 0, im: 0 }; 8];
    let s = Spectrum::new(coeffs).unwrap();
    let r = epicycle_positions(&s, 5, FX_ONE, 0);
    assert_eq!(r, Err(VisError::NumericEdgeCase));
    assert!(epicycle_positions(&s, 4, FX_ONE, 0).is_ok());
}

#[test]
fn engine_dc_chain_exact() {
    // A two-sample spectrum holding only a DC term of value 2: with
    // scale 1 and one harmonic, the chain is the origin followed by
    // the DC vector 2 / 2 = 1.
    let coeffs = vec![Cx { re: 2 * FX_ONE, im: 0 }, Cx { re: 0, im: 0 }];
    let s = Spectrum::new(coeffs).unwrap();
    let v = epicycle_positions(&s, 1, FX_ONE, 0).unwrap();
    assert_eq!(v.len(), 2);
    assert_eq!(v[0], Cx { re: 0, im: 0 });
    assert_eq!(v[1], Cx { re: FX_ONE, im: 0 });
}

#[test]
fn spectrum_refuses_oversized_coefficient() {
    let coeffs = vec![Cx { re: i128::MAX, im: 0 }];
    assert!(Spectrum::new(coeffs).is_none());
    assert!(Spectrum::new(Vec::new()).is_none());
}

#[test]
fn spectrum_mirrored_addressing() {
    let coeffs = vec![
        Cx { re: 10, im: 0 },
        Cx { re: 11, im: 0 },
        Cx { re: 12, im: 0 },
        Cx { re: 13, im: 0 },
    ];
    let s = Spectrum::new(coeffs).unwrap();
    assert_eq!(s.len(), 4);
    assert_eq!(s.positive_bin(1), Cx { re: 11, im: 0 });
    assert_eq!(s.negative_bin(1), Cx { re: 13, im: 0 });
    assert_eq!(s.negative_bin(3), Cx { re: 11, im: 0 });
}

#[test]
fn opengl_driver_picked_first() {
    let names = vec![
        String::from("software"),
        String::from("opengl"),
        String::from("opengl"),
    ];
    assert_eq!(first_opengl_index(&names), Some(1));
}

#[test]
fn opengl_driver_absent() {
    let names = vec![String::from("software"), String::from("metal")];
    assert_eq!(first_opengl_index(&names), None);
}

#[test]
fn rotation_cardinal_points() {
    assert_eq!(rot(0), Cx { re: FX_ONE, im: 0 });
    assert_eq!(rot(QUARTER_TURN), Cx { re: 0, im: FX_ONE });
    assert_eq!(rot(HALF_TURN), Cx { re: -FX_ONE, im: 0 });
    assert_eq!(rot(-QUARTER_TURN), Cx { re: 0, im: -FX_ONE });
}

#[test]
fn rotation_is_periodic() {
    let angle = 123456789i128;
    assert_eq!(rot(angle), rot(angle + FX_ONE));
    assert_eq!(rot(angle), rot(angle - FX_ONE));
}
