use std::time::Instant;
use tabs::dsp::{conv_at_k, detect, is_hit, isqrt, MatchedFilterKernel, DETECTION_THRESHOLD};
use tabs::Hz;

fn tap_energy(re: i64, im: i64) -> i128 {
    (re as i128) * (re as i128) + (im as i128) * (im as i128)
}

/// A window of `len` samples of a pure sine at `f_hz`, Q15 amplitude `amp`.
fn sine_window(len: usize, fs: f32, f_hz: f32, amp: f32) -> Vec<i16> {
    let mut v = Vec::with_capacity(len);
    for k in 0..len {
        let theta = 2.0 * std::f32::consts::PI * f_hz * (k as f32) / fs;
        v.push((theta.sin() * amp) as i16);
    }
    v
}

#[test]
fn test_sin_cos_hann() {
    let fs = 48_000;
    let f_expected = Hz(82_510);
    let nr_periods = 10;
    let _filter = MatchedFilterKernel::build(fs, f_expected, nr_periods);
}

#[test]
fn test_sin_cos_hann_timed() {
    const FS: u32 = 48_000;
    let f_expected = Hz(82_510);
    let nr_periods = 40;

    let start = Instant::now();

    let nr_test = 10_000u32;

    for _ in 0..nr_test {
        let _filter = MatchedFilterKernel::build(FS, f_expected, nr_periods);
    }

    let end = Instant::now();
    println!("sin_cos_hann (generate) = {:?}", (end - start) / nr_test);

    let filter = MatchedFilterKernel::build(FS, f_expected, nr_periods);

    let data = vec![0i16; FS as usize];
    let start = Instant::now();

    let mut sink: i64 = 0;
    for _ in 0..nr_test {
        let r = conv_at_k(&data, &filter, (FS / 2) as usize);
        sink = sink.wrapping_add(r.0);
    }

    let end = Instant::now();
    println!("conv_at_k (apply) = {:?}", (end - start) / nr_test);
    assert_eq!(sink, 0);
}

#[test]
fn kernel_shape() {
    // Odd length, centre tap carrying the largest Hann weight, energy
    // symmetric about the centre.
    let fs = 4096;
    let f = Hz(329_640);
    let kernel = MatchedFilterKernel::build(fs, f, 40);
    let len = kernel.taps.len();
    assert_eq!(len % 2, 1);
    assert!(len >= 3);

    let centre = &kernel.taps[len / 2];
    // At offset zero the carrier is pure cosine: no real part, and the
    // imaginary part is the full Hann peak.
    assert_eq!(centre.re, 0);
    assert!(centre.im > 0);
    for t in &kernel.taps {
        // No tap component outweighs the centre's Hann peak.
        assert!(t.re.abs() <= centre.im);
        assert!(t.im.abs() <= centre.im);
    }
    for j in 0..len {
        let a = &kernel.taps[j];
        let b = &kernel.taps[len - 1 - j];
        assert_eq!(tap_energy(a.re, a.im), tap_energy(b.re, b.im));
    }
}

#[test]
fn kernel_length_follows_frequency() {
    // Lower targets need longer windows to resolve pitch.
    let low = MatchedFilterKernel::build(48_000, Hz(82_510), 10);
    let high = MatchedFilterKernel::build(48_000, Hz(329_640), 10);
    assert!(low.taps.len() > high.taps.len());
}

#[test]
fn detector_selectivity() {
    // A matched tone with ample amplitude clears the threshold; a tone at
    // 1.5 times the target (no harmonic relation) stays below it.
    let fs = 4096u32;
    let f_target = Hz(329_640);
    let kernel = MatchedFilterKernel::build(fs, f_target, 40);
    let anchor = (fs / 2) as usize;

    let matched = sine_window(fs as usize, fs as f32, 329.640, 16384.0);
    let mag_hit = detect(&matched, &kernel, anchor);
    assert!(
        is_hit(mag_hit),
        "matched tone stayed below threshold: {} <= {}",
        mag_hit,
        DETECTION_THRESHOLD
    );

    let off = sine_window(fs as usize, fs as f32, 329.640 * 1.5, 16384.0);
    let mag_miss = detect(&off, &kernel, anchor);
    assert!(
        !is_hit(mag_miss),
        "off tone cleared threshold: {} > {}",
        mag_miss,
        DETECTION_THRESHOLD
    );
}

#[test]
fn detector_silence() {
    let fs = 4096u32;
    let kernel = MatchedFilterKernel::build(fs, Hz(440_000), 40);
    let silence = vec![0i16; fs as usize];
    let mag = detect(&silence, &kernel, (fs / 2) as usize);
    assert_eq!(mag, 0);
    assert!(!is_hit(mag));
}

#[test]
fn isqrt_exact() {
    assert_eq!(isqrt(0), 0);
    assert_eq!(isqrt(1), 1);
    assert_eq!(isqrt(3), 1);
    assert_eq!(isqrt(4), 2);
    assert_eq!(isqrt(99), 9);
    assert_eq!(isqrt(100), 10);
    assert_eq!(isqrt(10u128.pow(36) - 1), 10u64.pow(18) - 1);
    assert_eq!(isqrt(10u128.pow(36)), 10u64.pow(18));
}
