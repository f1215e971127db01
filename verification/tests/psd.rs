use esig::fft::fftshift;
use esig::fft::pad_to;
use esig::fft::segment_starts;
use esig::fft::shifted_freq_numerators;
use rustfft::num_complex::Complex;
use rustfft::FftPlanner;
use std::f64::consts::PI;

/// The Welch estimate around the library's plan: Hann window, overlapping
/// segments, power normalized by the squared window sum, averaged over the
/// segment count, in decibels, shifted to a centered axis.
fn compute_psd(
    input: &[Complex<f64>],
    nfft: usize,
    noverlap: usize,
    sample_rate: f64,
) -> (Vec<f64>, Vec<f64>) {
    let padded = pad_to(&input.to_vec(), nfft, Complex::new(0.0, 0.0));
    let window: Vec<f64> = (0..nfft)
        .map(|i| 0.5 * (1.0 - (2.0 * PI * i as f64 / (nfft as f64 - 1.0)).cos()))
        .collect();
    let wsum: f64 = window.iter().sum();
    let mut planner = FftPlanner::new();
    let fft = planner.plan_fft_forward(nfft);
    let starts = segment_starts(padded.len(), nfft, noverlap);
    let count = starts.len() as f64;
    let mut acc = vec![0.0f64; nfft];
    for &s in starts.iter() {
        let mut seg: Vec<Complex<f64>> =
            (0..nfft).map(|i| padded[s + i] * window[i]).collect();
        fft.process(&mut seg);
        for i in 0..nfft {
            acc[i] += seg[i].norm_sqr() / (wsum * wsum);
        }
    }
    let psd: Vec<f64> = acc.iter().map(|x| 10.0 * (x / count).log10()).collect();
    let freqs: Vec<f64> = shifted_freq_numerators(nfft)
        .iter()
        .map(|k| *k as f64 * sample_rate / nfft as f64)
        .collect();
    (freqs, fftshift(&psd))
}

#[test]
fn segment_starts_stride_and_count() {
    // stride nfft - noverlap, while a full segment fits
    assert_eq!(segment_starts(2048, 1024, 0), vec![0, 1024]);
    assert_eq!(segment_starts(2500, 1024, 0), vec![0, 1024]);
    assert_eq!(segment_starts(2048, 1024, 512), vec![0, 512, 1024]);
    assert_eq!(segment_starts(1024, 1024, 0), vec![0]);
    assert_eq!(segment_starts(10, 3, 1), vec![0, 2, 4, 6]);
}

#[test]
fn pad_to_extends_short_input_with_fill() {
    let v = vec![1.0f64, 2.0];
    let p = pad_to(&v, 5, 0.0);
    assert_eq!(p, vec![1.0, 2.0, 0.0, 0.0, 0.0]);
    let w = vec![1.0f64, 2.0, 3.0];
    assert_eq!(pad_to(&w, 2, 0.0), w);
}

#[test]
fn fftshift_swaps_the_halves() {
    assert_eq!(fftshift(&vec![0, 1, 2, 3]), vec![2, 3, 0, 1]);
    // for an odd length the longer (upper) half comes first
    assert_eq!(fftshift(&vec![0, 1, 2, 3, 4]), vec![2, 3, 4, 0, 1]);
    assert_eq!(fftshift(&Vec::<i32>::new()), Vec::<i32>::new());
}

#[test]
fn shifted_axis_ascends_through_zero() {
    let nums = shifted_freq_numerators(8);
    assert_eq!(nums, vec![-4, -3, -2, -1, 0, 1, 2, 3]);
    let odd = shifted_freq_numerators(5);
    assert_eq!(odd, vec![-3, -2, -1, 0, 1]);
}

#[test]
fn sine_peak_lands_on_its_frequency() {
    // 2048 real samples of a pure sine at f0, one bin wide of the truth
    let rate = 2048.0;
    let f0 = 200.0;
    let input: Vec<Complex<f64>> = (0..2048)
        .map(|t| Complex::new((2.0 * PI * f0 * t as f64 / rate).sin(), 0.0))
        .collect();
    let (freqs, psd) = compute_psd(&input, 1024, 0, rate);
    assert_eq!(freqs.len(), 1024);
    assert_eq!(psd.len(), 1024);
    let mut best = 0;
    for i in 1..psd.len() {
        if psd[i] > psd[best] {
            best = i;
        }
    }
    let bin_width = rate / 1024.0;
    assert!(
        (freqs[best].abs() - f0).abs() <= bin_width,
        "peak at {} Hz, expected within {} of ±{}",
        freqs[best],
        bin_width,
        f0
    );
}

#[test]
fn real_input_spectrum_is_symmetric() {
    // a real-only signal's power spectrum mirrors about the DC bin
    let rate = 1000.0;
    let input: Vec<Complex<f64>> = (0..1024)
        .map(|t| {
            let x = t as f64 / rate;
            Complex::new((2.0 * PI * 130.0 * x).sin() + 0.5 * (2.0 * PI * 77.0 * x).cos(), 0.0)
        })
        .collect();
    let (_freqs, psd) = compute_psd(&input, 256, 0, rate);
    let half = 128;
    for d in 1..half {
        let up = psd[half + d];
        let down = psd[half - d];
        assert!(
            (up - down).abs() <= 1e-9 * up.abs().max(1.0),
            "asymmetry at offset {}: {} vs {}",
            d,
            up,
            down
        );
    }
}

#[test]
fn psd_is_deterministic() {
    let rate = 500.0;
    let input: Vec<Complex<f64>> = (0..3000)
        .map(|t| {
            let x = t as f64 / rate;
            Complex::new((2.0 * PI * 60.0 * x).sin(), (2.0 * PI * 10.0 * x).cos())
        })
        .collect();
    let (f1, p1) = compute_psd(&input, 512, 128, rate);
    let (f2, p2) = compute_psd(&input, 512, 128, rate);
    assert_eq!(f1.len(), p1.len());
    for i in 0..p1.len() {
        assert_eq!(f1[i].to_bits(), f2[i].to_bits(), "frequency bin {}", i);
        assert_eq!(p1[i].to_bits(), p2[i].to_bits(), "power bin {}", i);
    }
}

#[test]
fn empty_input_yields_full_length_spectrum() {
    let (freqs, psd) = compute_psd(&[], 1024, 0, 48000.0);
    assert_eq!(freqs.len(), 1024);
    assert_eq!(psd.len(), 1024);
}
