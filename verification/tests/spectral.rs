use fft_anything::cpx::Cx;
use fft_anything::engine::{epicycle_positions, raw_harmonic_vectors};
use fft_anything::fx::FX_ONE;
use fft_anything::spectrum::Spectrum;
use rustfft::num_complex::Complex;
use rustfft::FftPlanner;
use std::f64::consts::PI;

fn forward_transform(signal: &[f64]) -> Vec<Complex<f32>> {
    let mut planner = FftPlanner::<f32>::new();
    let fft = planner.plan_fft_forward(signal.len());
    let mut buf: Vec<Complex<f32>> = signal
        .iter()
        .map(|&x| Complex::new(x as f32, 0.0))
        .collect();
    fft.process(&mut buf);
    buf
}

fn to_spectrum(buf: &[Complex<f32>]) -> Spectrum {
    let coeffs: Vec<Cx> = buf
        .iter()
        .map(|c| Cx {
            re: (c.re as f64 * FX_ONE as f64).round() as i128,
            im: (c.im as f64 * FX_ONE as f64).round() as i128,
        })
        .collect();
    Spectrum::new(coeffs).unwrap()
}

fn magnitude(c: &Complex<f32>) -> f64 {
    ((c.re as f64).powi(2) + (c.im as f64).powi(2)).sqrt()
}

#[test]
fn transform_concentrates_pure_tone() {
    // A pure sinusoid at three times the fundamental: all the energy
    // sits in bin 3 and its mirror, bin 61.
    let n = 64usize;
    let signal: Vec<f64> = (0..n).map(|t| (2.0 * PI * 3.0 * t as f64 / n as f64).cos()).collect();
    let buf = forward_transform(&signal);
    for (k, c) in buf.iter().enumerate() {
        let m = magnitude(c);
        if k == 3 || k == n - 3 {
            assert!((m - n as f64 / 2.0).abs() < 1e-3 * n as f64, "bin {k} magnitude {m}");
        } else {
            assert!(m < 1e-3 * n as f64, "bin {k} magnitude {m}");
        }
    }
}

#[test]
fn epicycle_chain_reconstructs_signal() {
    // Summing every positive and negative harmonic term at the time of
    // sample 5 reproduces the signal value there. The signal has no
    // energy at the Nyquist bin, so the chain of 2 * (n/2) - 1 vectors
    // carries the whole spectrum.
    let n = 16usize;
    let signal: Vec<f64> = (0..n)
        .map(|t| {
            let x = t as f64 / n as f64;
            (2.0 * PI * 2.0 * x).cos() + 0.5 * (2.0 * PI * 3.0 * x).sin()
        })
        .collect();
    let buf = forward_transform(&signal);
    let s = to_spectrum(&buf);
    let j = 5usize;
    let phase = (j as i128) * FX_ONE / (n as i128);
    let v = epicycle_positions(&s, n / 2, FX_ONE, phase).unwrap();
    assert_eq!(v.len(), n);
    let end = v[v.len() - 1];
    let re = end.re as f64 / FX_ONE as f64;
    let im = end.im as f64 / FX_ONE as f64;
    assert!((re - signal[j]).abs() < 0.05, "reconstructed {re}, signal {}", signal[j]);
    assert!(im.abs() < 0.05, "imaginary leftover {im}");
}

#[test]
fn raw_vectors_match_chain_steps() {
    let n = 16usize;
    let signal: Vec<f64> = (0..n).map(|t| (2.0 * PI * t as f64 / n as f64).cos()).collect();
    let buf = forward_transform(&signal);
    let s = to_spectrum(&buf);
    let phase = 3 * FX_ONE / 16;
    let v = epicycle_positions(&s, n / 2, 2 * FX_ONE, phase).unwrap();
    let raw = raw_harmonic_vectors(&s, n / 2, 2 * FX_ONE, phase).unwrap();
    assert_eq!(raw.len(), n / 2);
    // Each raw vector is exactly the step the chain takes for the same
    // positive harmonic.
    for i in 0..raw.len() {
        assert_eq!(raw[i].re, v[i + 1].re - v[i].re);
        assert_eq!(raw[i].im, v[i + 1].im - v[i].im);
    }
}
