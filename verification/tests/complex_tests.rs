use epicycles::complex::Complex;
use float_cmp::ApproxEq;
use float_cmp::F64Margin;

const SCALE_F: f64 = 4294967296.0;

fn fx(x: f64) -> i64 {
    (x * SCALE_F).round() as i64
}

fn to_f64(v: i64) -> f64 {
    v as f64 / SCALE_F
}

fn cpx(re: f64, im: f64) -> Complex {
    Complex::new(fx(re), fx(im))
}

#[test]
fn complex_phase_test() {
    let c = cpx(0.0, 1.0);
    let expected = angular::Angle::<f64>::quarter().in_radians();
    assert!((expected - to_f64(c.phase())).abs() < 1e-6);
}

#[test]
fn complex_amplitude_test() {
    let c = cpx(3.0, 4.0);
    assert!(5.0f64.approx_eq(to_f64(c.amplitude()), F64Margin { epsilon: 1e-8, ulps: 0 }));
}

#[test]
fn complex_add_test() {
    let a = cpx(1.0, 2.2);
    let b = cpx(35.4, -54.8);
    let c = cpx(36.4, -52.6);
    assert_eq!(c, Complex::add(&a, &b));
}

#[test]
fn complex_minus_test() {
    let a = cpx(1.0, 2.0);
    let b = cpx(35.4, -54.8);
    let c = cpx(-34.4, 56.8);
    assert_eq!(c, Complex::minus(&a, &b));
}

#[test]
fn complex_multiply_test() {
    let a = cpx(1.0, 2.0);
    let b = cpx(3.0, 4.0);
    let c = cpx(-5.0, 10.0);
    assert_eq!(c, Complex::multiply(&a, &b));
}

#[test]
fn add_minus_identity_test() {
    let a = cpx(12.75, -3.5);
    let zero = Complex::minus(&a, &a);
    assert_eq!(cpx(0.0, 0.0), zero);
    assert_eq!(a, Complex::add(&a, &zero));
}

#[test]
fn multiply_commutative_test() {
    let a = cpx(1.5, -2.25);
    let b = cpx(-7.125, 0.625);
    let ab = Complex::multiply(&a, &b);
    let ba = Complex::multiply(&b, &a);
    assert_eq!(ab.re, ba.re);
    assert_eq!(ab.im, ba.im);
}

#[test]
fn amplitude_rotation_invariant_test() {
    // Multiplying by a unit-amplitude value leaves the amplitude unchanged
    // within 1e-6.
    let angles = [0.3f64, 1.1, 2.9, -0.7, 4.4];
    let a = cpx(3.0, -4.0);
    let base = to_f64(a.amplitude());
    for theta in angles {
        let unit = cpx(theta.cos(), theta.sin());
        let rotated = Complex::multiply(&unit, &a);
        let amp = to_f64(rotated.amplitude());
        assert!((amp - base).abs() < 1e-6);
    }
}
