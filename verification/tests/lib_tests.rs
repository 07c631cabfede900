use epicycles::complex::Complex;
use epicycles::fft::butterfly;
use epicycles::fft::dft;
use epicycles::fft::fft;

const SCALE_F: f64 = 4294967296.0;

fn fx(x: f64) -> i64 {
    (x * SCALE_F).round() as i64
}

fn to_f64(v: i64) -> f64 {
    v as f64 / SCALE_F
}

fn cpx(re: f64, im: f64) -> Complex {
    Complex::new(fx(re), fx(im))
}

fn assert_complex_eq(expected: &Complex, actual: &Complex, epsilon: f64) {
    let dre = (to_f64(expected.re) - to_f64(actual.re)).abs();
    let dim = (to_f64(expected.im) - to_f64(actual.im)).abs();
    if dre > epsilon || dim > epsilon {
        panic!(
            "Actual value ({}, {}) differs from expected ({}, {}). Tolerance: {}",
            to_f64(actual.re),
            to_f64(actual.im),
            to_f64(expected.re),
            to_f64(expected.im),
            epsilon
        );
    }
}

#[test]
fn lib_phase_test() {
    let c = cpx(0.0, 1.0);
    let expected = angular::Angle::<f64>::quarter().in_radians();
    assert!((expected - to_f64(c.phase())).abs() < 1e-6);
}

#[test]
fn lib_amplitude_test() {
    let c = cpx(3.0, 4.0);
    assert!((5.0 - to_f64(c.amplitude())).abs() < 1e-8);
}

#[test]
fn lib_add_test() {
    let a = cpx(1.0, 2.2);
    let b = cpx(35.4, -54.8);
    let c = cpx(36.4, -52.6);
    assert_eq!(c, Complex::add(&a, &b));
}

#[test]
fn lib_minus_test() {
    let a = cpx(1.0, 2.0);
    let b = cpx(35.4, -54.8);
    let c = cpx(-34.4, 56.8);
    assert_eq!(c, Complex::minus(&a, &b));
}

#[test]
fn lib_multiply_test() {
    let a = cpx(1.0, 2.0);
    let b = cpx(3.0, 4.0);
    let c = cpx(-5.0, 10.0);
    assert_eq!(c, Complex::multiply(&a, &b));
}

#[test]
fn lib_butterfly_test() {
    let a = cpx(1.0, 2.0);
    let b = cpx(3.0, 4.0);
    let c = cpx(-5.0, 10.0);
    let d = cpx(4.5, -67.4);
    let e = cpx(45.5, 98.9);
    let f = cpx(32.4, -0.87);
    let g = cpx(3.72, 87.0);
    let h = cpx(2.65, -7.0);

    let mut data = vec![a, b, c, d, e, f, g, h];
    butterfly(&mut data);
    assert_eq!(cpx(1.0, 2.0), data[0]);
    assert_eq!(cpx(3.0, 4.0), data[4]);
    assert_eq!(cpx(-5.0, 10.0), data[2]);
    assert_eq!(cpx(4.5, -67.4), data[6]);
    assert_eq!(cpx(45.5, 98.9), data[1]);
    assert_eq!(cpx(32.4, -0.87), data[5]);
    assert_eq!(cpx(3.72, 87.0), data[3]);
    assert_eq!(cpx(2.65, -7.0), data[7]);
}

#[test]
fn lib_fft_test() {
    let mut data = vec![
        cpx(1.0, 1.0),
        cpx(2.0, 2.0),
        cpx(3.0, 3.0),
        cpx(4.0, 4.0),
        cpx(5.0, 5.0),
        cpx(6.0, 6.0),
        cpx(7.0, 7.0),
        cpx(8.0, 8.0),
    ];

    fft(&mut data);

    assert_complex_eq(&cpx(36.000000, 36.000000), &data[0], 1e-6);
    assert_complex_eq(&cpx(-13.656854, 5.656854), &data[1], 1e-6);
    assert_complex_eq(&cpx(-8.000000, 0.000000), &data[2], 1e-6);
    assert_complex_eq(&cpx(-5.656854, -2.343146), &data[3], 1e-6);
    assert_complex_eq(&cpx(-4.000000, -4.000000), &data[4], 1e-6);
    assert_complex_eq(&cpx(-2.343146, -5.656854), &data[5], 1e-6);
    assert_complex_eq(&cpx(0.000000, -8.000000), &data[6], 1e-6);
    assert_complex_eq(&cpx(5.656854, -13.656854), &data[7], 1e-6);
}

#[test]
fn lib_dft_test() {
    let data = vec![
        cpx(1.0, 1.0),
        cpx(2.0, 2.0),
        cpx(3.0, 3.0),
        cpx(4.0, 4.0),
        cpx(5.0, 5.0),
        cpx(6.0, 6.0),
        cpx(7.0, 7.0),
        cpx(8.0, 8.0),
    ];

    let result = dft(data);

    assert_complex_eq(&cpx(36.000000, 36.000000), &result[0], 1e-6);
    assert_complex_eq(&cpx(-13.656854, 5.656854), &result[1], 1e-6);
    assert_complex_eq(&cpx(-8.000000, 0.000000), &result[2], 1e-6);
    assert_complex_eq(&cpx(-5.656854, -2.343146), &result[3], 1e-6);
    assert_complex_eq(&cpx(-4.000000, -4.000000), &result[4], 1e-6);
    assert_complex_eq(&cpx(-2.343146, -5.656854), &result[5], 1e-6);
    assert_complex_eq(&cpx(0.000000, -8.000000), &result[6], 1e-6);
    assert_complex_eq(&cpx(5.656854, -13.656854), &result[7], 1e-6);
}
