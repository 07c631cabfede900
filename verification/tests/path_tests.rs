use epicycles::complex::Complex;
use epicycles::path::Path;

const SCALE_F: f64 = 4294967296.0;

fn fx(x: f64) -> i64 {
    (x * SCALE_F).round() as i64
}

fn to_f64(v: i64) -> f64 {
    v as f64 / SCALE_F
}

fn cpx(re: f64, im: f64) -> Complex {
    Complex::new(fx(re), fx(im))
}

fn circle_points() -> Vec<Complex> {
    let s = (2.0f64).sqrt() / 2.0;
    vec![
        cpx(2.0, 1.0),
        cpx(1.0 + s, 1.0 + s),
        cpx(1.0, 2.0),
        cpx(1.0 - s, 1.0 + s),
        cpx(0.0, 1.0),
        cpx(1.0 - s, 1.0 - s),
        cpx(1.0, 0.0),
        cpx(1.0 + s, 1.0 - s),
    ]
}

#[test]
fn read_from_file_test() {
    let path = Path::new(circle_points()).expect("Problem reading file");

    assert_eq!(8, path.data.len());
}

#[test]
fn test_normalize() {
    let path = Path::new(circle_points()).expect("Problem reading file");
    let sqrt_2_over_2: f64 = (2.0_f64).sqrt() / 2.0;

    assert!((to_f64(path.data[0].re) - 2.0) < 1E-8);
    assert!((to_f64(path.data[0].im) - 1.0) < 1E-8);
    assert!((to_f64(path.data[1].re) - (sqrt_2_over_2 + 1.0)) < 1E-8);
    assert!((to_f64(path.data[1].im) - (sqrt_2_over_2 + 1.0)) < 1E-8);
    assert!((to_f64(path.data[2].re) - 1.0) < 1E-8);
    assert!((to_f64(path.data[2].im) - 2.0) < 1E-8);
    assert!((to_f64(path.data[3].re) - (-sqrt_2_over_2 + 1.0)) < 1E-8);
    assert!((to_f64(path.data[3].im) - (sqrt_2_over_2 + 1.0)) < 1E-8);
    assert!((to_f64(path.data[4].re) - 0.0) < 1E-8);
    assert!((to_f64(path.data[4].im) - 1.0) < 1E-8);
    assert!((to_f64(path.data[5].re) - (-sqrt_2_over_2 + 1.0)) < 1E-8);
    assert!((to_f64(path.data[5].im) - (-sqrt_2_over_2 + 1.0)) < 1E-8);
    assert!((to_f64(path.data[6].re) - 1.0) < 1E-8);
    assert!((to_f64(path.data[6].im) - 0.0) < 1E-8);
    assert!((to_f64(path.data[7].re) - (sqrt_2_over_2 + 1.0)) < 1E-8);
    assert!((to_f64(path.data[7].im) - (-sqrt_2_over_2 + 1.0)) < 1E-8);
}

#[test]
fn normalize_values_test() {
    // The normalized path fits the unit-scale frame anchored at the origin:
    // each point is (raw - min) / diagonal, with diagonal 2 * sqrt(2) here.
    let path = Path::new(circle_points()).expect("valid length");
    let diag = (8.0f64).sqrt();
    assert!((to_f64(path.data[0].re) - 2.0 / diag).abs() < 1e-6);
    assert!((to_f64(path.data[0].im) - 1.0 / diag).abs() < 1e-6);
    assert!((to_f64(path.data[4].re) - 0.0).abs() < 1e-6);
    assert!((to_f64(path.data[6].im) - 0.0).abs() < 1e-6);
}

#[test]
fn wrong_length_test() {
    // A length that is not a power of two is rejected and reported.
    let three = vec![cpx(1.0, 1.0), cpx(2.0, 2.0), cpx(3.0, 3.0)];
    let err = Path::new(three).unwrap_err();
    assert_eq!(3, err.wrong_length);

    let empty: Vec<Complex> = Vec::new();
    let err = Path::new(empty).unwrap_err();
    assert_eq!(0, err.wrong_length);

    let mut twelve = Vec::new();
    for i in 0..12 {
        twelve.push(cpx(i as f64, -(i as f64)));
    }
    let err = Path::new(twelve).unwrap_err();
    assert_eq!(12, err.wrong_length);

    let one = vec![cpx(4.5, -1.5)];
    assert!(Path::new(one).is_ok());
}
