use buddhabrot::double::{Complex, Double, INFINITY_BITS, SIGN_BIT};

fn double(value: f64) -> Double {
    Double::from_bits(value.to_bits())
}

fn samples() -> Vec<f64> {
    vec![
        0.0,
        -0.0,
        f64::MIN_POSITIVE,
        -f64::MIN_POSITIVE,
        5e-324,
        -5e-324,
        0.5,
        -0.5,
        1.0,
        -1.0,
        1.99,
        2.0,
        2.0000000000000004,
        4.0,
        36.0,
        -36.0,
        1e300,
        -1e300,
        f64::MAX,
        f64::MIN,
        f64::INFINITY,
        f64::NEG_INFINITY,
        f64::NAN,
        -f64::NAN,
    ]
}

#[test]
fn gt_agrees_with_the_machine_on_every_pair() {
    for a in samples() {
        for b in samples() {
            assert_eq!(double(a).gt(double(b)), a > b, "{:?} > {:?}", a, b);
        }
    }
}

#[test]
fn gt_is_strict() {
    assert!(!double(4.0).gt(double(4.0)));
    assert!(double(4.000000000000001).gt(double(4.0)));
    assert!(!double(3.9999999999999996).gt(double(4.0)));
}

#[test]
fn the_two_zeros_are_equal() {
    assert!(!double(0.0).gt(double(-0.0)));
    assert!(!double(-0.0).gt(double(0.0)));
}

#[test]
fn nan_exceeds_nothing_and_nothing_exceeds_it() {
    for a in samples() {
        assert!(!double(f64::NAN).gt(double(a)));
        assert!(!double(a).gt(double(f64::NAN)));
    }
}

#[test]
fn not_a_number_is_told_by_the_magnitude() {
    assert!(double(f64::NAN).is_not_a_number());
    assert!(double(-f64::NAN).is_not_a_number());
    assert!(Double::from_bits(INFINITY_BITS + 1).is_not_a_number());
    assert!(!double(f64::INFINITY).is_not_a_number());
    assert!(!double(f64::NEG_INFINITY).is_not_a_number());
    assert!(!double(0.0).is_not_a_number());
    assert!(!double(-1.5).is_not_a_number());
}

#[test]
fn bits_round_trip() {
    assert_eq!(Double::from_bits(0x4010_0000_0000_0000).to_bits(), 4.0_f64.to_bits());
    assert_eq!(double(-0.0).to_bits(), SIGN_BIT);
    assert_eq!(double(f64::INFINITY).to_bits(), INFINITY_BITS);
    assert_eq!(Double::zero().to_bits(), 0);
    assert_eq!(f64::from_bits(Double::zero().to_bits()), 0.0);
}

#[test]
fn the_origin_is_zero_on_both_axes() {
    let z = Complex::zero();
    assert_eq!(z.re, Double { bits: 0 });
    assert_eq!(z.im, Double { bits: 0 });
}
