use epicycles::complex::Complex;
use epicycles::fft::butterfly;
use epicycles::fft::dft;
use epicycles::fft::fft;

const SCALE_F: f64 = 4294967296.0;

fn fx(x: f64) -> i64 {
    (x * SCALE_F).round() as i64
}

fn to_f64(v: i64) -> f64 {
    v as f64 / SCALE_F
}

fn cpx(re: f64, im: f64) -> Complex {
    Complex::new(fx(re), fx(im))
}

fn assert_complex_eq(expected: &Complex, actual: &Complex, epsilon: f64) {
    let dre = (to_f64(expected.re) - to_f64(actual.re)).abs();
    let dim = (to_f64(expected.im) - to_f64(actual.im)).abs();
    if dre > epsilon || dim > epsilon {
        panic!(
            "Actual value ({}, {}) differs from expected ({}, {}). Tolerance: {}",
            to_f64(actual.re),
            to_f64(actual.im),
            to_f64(expected.re),
            to_f64(expected.im),
            epsilon
        );
    }
}

#[test]
fn fft_butterfly_test() {
    let a = cpx(1.0, 2.0);
    let b = cpx(3.0, 4.0);
    let c = cpx(-5.0, 10.0);
    let d = cpx(4.5, -67.4);
    let e = cpx(45.5, 98.9);
    let f = cpx(32.4, -0.87);
    let g = cpx(3.72, 87.0);
    let h = cpx(2.65, -7.0);

    let mut data = vec![a, b, c, d, e, f, g, h];
    butterfly(&mut data);
    assert_eq!(cpx(1.0, 2.0), data[0]);
    assert_eq!(cpx(3.0, 4.0), data[4]);
    assert_eq!(cpx(-5.0, 10.0), data[2]);
    assert_eq!(cpx(4.5, -67.4), data[6]);
    assert_eq!(cpx(45.5, 98.9), data[1]);
    assert_eq!(cpx(32.4, -0.87), data[5]);
    assert_eq!(cpx(3.72, 87.0), data[3]);
    assert_eq!(cpx(2.65, -7.0), data[7]);
}

#[test]
fn fft_fft_test() {
    let mut data = vec![
        cpx(1.0, 1.0),
        cpx(2.0, 2.0),
        cpx(3.0, 3.0),
        cpx(4.0, 4.0),
        cpx(5.0, 5.0),
        cpx(6.0, 6.0),
        cpx(7.0, 7.0),
        cpx(8.0, 8.0),
    ];

    fft(&mut data);

    assert_complex_eq(&cpx(36.000000, 36.000000), &data[0], 1e-6);
    assert_complex_eq(&cpx(-13.656854, 5.656854), &data[1], 1e-6);
    assert_complex_eq(&cpx(-8.000000, 0.000000), &data[2], 1e-6);
    assert_complex_eq(&cpx(-5.656854, -2.343146), &data[3], 1e-6);
    assert_complex_eq(&cpx(-4.000000, -4.000000), &data[4], 1e-6);
    assert_complex_eq(&cpx(-2.343146, -5.656854), &data[5], 1e-6);
    assert_complex_eq(&cpx(0.000000, -8.000000), &data[6], 1e-6);
    assert_complex_eq(&cpx(5.656854, -13.656854), &data[7], 1e-6);
}

#[test]
fn fft_dft_test() {
    let data = vec![
        cpx(1.0, 1.0),
        cpx(2.0, 2.0),
        cpx(3.0, 3.0),
        cpx(4.0, 4.0),
        cpx(5.0, 5.0),
        cpx(6.0, 6.0),
        cpx(7.0, 7.0),
        cpx(8.0, 8.0),
    ];

    let result = dft(data);

    assert_complex_eq(&cpx(36.000000, 36.000000), &result[0], 1e-6);
    assert_complex_eq(&cpx(-13.656854, 5.656854), &result[1], 1e-6);
    assert_complex_eq(&cpx(-8.000000, 0.000000), &result[2], 1e-6);
    assert_complex_eq(&cpx(-5.656854, -2.343146), &result[3], 1e-6);
    assert_complex_eq(&cpx(-4.000000, -4.000000), &result[4], 1e-6);
    assert_complex_eq(&cpx(-2.343146, -5.656854), &result[5], 1e-6);
    assert_complex_eq(&cpx(0.000000, -8.000000), &result[6], 1e-6);
    assert_complex_eq(&cpx(5.656854, -13.656854), &result[7], 1e-6);
}

fn pseudo_random_samples(len: usize, seed: u64) -> Vec<Complex> {
    // A small linear congruential generator keeps the inputs deterministic.
    let mut state = seed;
    let mut out = Vec::new();
    for _ in 0..len {
        state = state.wrapping_mul(6364136223846793005).wrapping_add(1442695040888963407);
        let re = ((state >> 33) as f64 / (1u64 << 31) as f64) * 20.0 - 10.0;
        state = state.wrapping_mul(6364136223846793005).wrapping_add(1442695040888963407);
        let im = ((state >> 33) as f64 / (1u64 << 31) as f64) * 20.0 - 10.0;
        out.push(cpx(re, im));
    }
    out
}

#[test]
fn butterfly_involution_test() {
    // Applying the bit-reversal permutation twice returns the original
    // sequence, for every power-of-two length tested.
    for len in [1usize, 2, 4, 8, 16] {
        let original = pseudo_random_samples(len, 7 + len as u64);
        let mut data = original.clone();
        butterfly(&mut data);
        butterfly(&mut data);
        for i in 0..len {
            assert_eq!(original[i].re, data[i].re);
            assert_eq!(original[i].im, data[i].im);
        }
    }
}

#[test]
fn fft_matches_dft_test() {
    // The fast and the reference transform agree within 1e-6 per component
    // for every power-of-two length tested.
    for len in [1usize, 2, 4, 8, 16] {
        let original = pseudo_random_samples(len, 40 + len as u64);
        let mut fast = original.clone();
        fft(&mut fast);
        let reference = dft(original);
        for i in 0..len {
            assert_complex_eq(&reference[i], &fast[i], 1e-6);
        }
    }
}
