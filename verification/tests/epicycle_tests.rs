use epicycles::complex::Complex;
use epicycles::epicycle::Epicycle;
use epicycles::path::Path;
use epicycles::trig::PI_FX;

const SCALE_F: f64 = 4294967296.0;

fn fx(x: f64) -> i64 {
    (x * SCALE_F).round() as i64
}

fn to_f64(v: i64) -> f64 {
    v as f64 / SCALE_F
}

fn cpx(re: f64, im: f64) -> Complex {
    Complex::new(fx(re), fx(im))
}

#[test]
fn get_coordinate_test() {
    // With the samples (1+1i), (3+4i), (5+6i), the model sorts the terms by
    // descending amplitude: (5+6i, frequency 2), (3+4i, frequency 1),
    // (1+1i, frequency 0). At time pi the frequency-2 term contributes its
    // own components (its angle is a full turn plus its phase), the
    // frequency-1 term contributes the negated components, and the
    // frequency-0 term contributes (1, 1).
    let mut data = vec![];
    data.push(cpx(1.0, 1.0));
    data.push(cpx(3.0, 4.0));
    data.push(cpx(5.0, 6.0));

    let epicycle = Epicycle::new(data);

    let mut coord = epicycle.get_coordinate_for(PI_FX, 1).unwrap();
    assert!((to_f64(coord.x) - 5.0).abs() < 1e-6);
    assert!((to_f64(coord.y) - 6.0).abs() < 1e-6);

    coord = epicycle.get_coordinate_for(PI_FX, 2).unwrap();
    assert!((to_f64(coord.x) - 2.0).abs() < 1e-6);
    assert!((to_f64(coord.y) - 2.0).abs() < 1e-6);

    coord = epicycle.get_coordinate_for(PI_FX, 3).unwrap();
    assert!((to_f64(coord.x) - 3.0).abs() < 1e-6);
    assert!((to_f64(coord.y) - 3.0).abs() < 1e-6);
}

#[test]
fn sorts_by_descending_amplitude_test() {
    let data = vec![cpx(1.0, 1.0), cpx(5.0, 6.0), cpx(3.0, 4.0)];
    let epicycle = Epicycle::new(data);
    assert_eq!(1, epicycle.data[0].1);
    assert_eq!(2, epicycle.data[1].1);
    assert_eq!(0, epicycle.data[2].1);
    assert!(epicycle.data[0].0.amplitude() >= epicycle.data[1].0.amplitude());
    assert!(epicycle.data[1].0.amplitude() >= epicycle.data[2].0.amplitude());
}

#[test]
fn invalid_precision_test() {
    // Asking for more terms than the model holds fails with the requested
    // and the largest usable precision; it never clamps.
    let data = vec![cpx(1.0, 1.0), cpx(3.0, 4.0), cpx(5.0, 6.0)];
    let epicycle = Epicycle::new(data);
    let err = epicycle.get_coordinate_for(PI_FX, 4).unwrap_err();
    assert_eq!(4, err.requested_precision);
    assert_eq!(3, err.max_precision);
    assert!(epicycle.get_coordinate_for(PI_FX, 3).is_ok());
    assert!(epicycle.get_coordinate_for(PI_FX, 0).is_ok());
}

#[test]
fn coordinate_deterministic_test() {
    // The same model, time and precision always give the same point.
    let data = vec![cpx(1.0, 1.0), cpx(3.0, 4.0), cpx(5.0, 6.0)];
    let epicycle = Epicycle::new(data);
    let first = epicycle.get_coordinate_for(12345678901, 3).unwrap();
    let second = epicycle.get_coordinate_for(12345678901, 3).unwrap();
    assert_eq!(first.x, second.x);
    assert_eq!(first.y, second.y);
}

#[test]
fn reconstruction_round_trip_test() {
    // These samples are the inverse transform of a spectrum whose
    // coefficients all have positive real parts, so the single-argument
    // arctangent recovers each coefficient's true angle. Reconstructing
    // with precision equal to the total term count at each original sample
    // time t_n = 2*pi*n/8 must then reproduce the samples, scaled by the
    // term count (the reconstruction sum has no 1/N factor).
    let mut samples = vec![
        cpx(3.625000000000, 1.812500000000),
        cpx(1.214689302659, -0.117417478528),
        cpx(0.687500000000, 0.000000000000),
        cpx(0.830805826176, 0.190640783231),
        cpx(0.875000000000, -0.062500000000),
        cpx(-0.464689302659, -0.382582521472),
        cpx(0.312500000000, -0.250000000000),
        cpx(0.919194173824, 0.809359216769),
    ];
    let originals: Vec<(f64, f64)> = samples.iter().map(|c| (to_f64(c.re), to_f64(c.im))).collect();
    epicycles::fft::fft(&mut samples);
    let model = Epicycle::new(samples);
    for n in 0..8usize {
        let t = 2.0 * std::f64::consts::PI * n as f64 / 8.0;
        let coord = model.get_coordinate_for(fx(t), 8).unwrap();
        assert!((to_f64(coord.x) - 8.0 * originals[n].0).abs() < 1e-5);
        assert!((to_f64(coord.y) - 8.0 * originals[n].1).abs() < 1e-5);
    }
}

#[test]
fn from_path_test() {
    // An eight-point path flows through validation, normalization, the
    // forward transform and the sort.
    let s = (2.0f64).sqrt() / 2.0;
    let raw = vec![
        cpx(2.0, 1.0),
        cpx(1.0 + s, 1.0 + s),
        cpx(1.0, 2.0),
        cpx(1.0 - s, 1.0 + s),
        cpx(0.0, 1.0),
        cpx(1.0 - s, 1.0 - s),
        cpx(1.0, 0.0),
        cpx(1.0 + s, 1.0 - s),
    ];
    let path = Path::new(raw).unwrap();
    let epicycle = Epicycle::from_path(path);
    assert_eq!(8, epicycle.data.len());
    for i in 1..epicycle.data.len() {
        assert!(epicycle.data[i - 1].0.amplitude() >= epicycle.data[i].0.amplitude());
    }
    // For a circle traversed once, the constant offset dominates and the
    // first harmonic comes second.
    assert_eq!(0, epicycle.data[0].1);
    assert_eq!(1, epicycle.data[1].1);
}
