use flico::ieee::{
    double_abs, double_at_most, double_less, single_finite, single_less, E3, E6, E9, EM3, EM4, EM6,
    HUNDRED, ONE, TEN,
};

const DOUBLES: [f64; 17] = [
    f64::NEG_INFINITY,
    f64::MIN,
    -1e6,
    -1.0,
    -f64::MIN_POSITIVE,
    -5e-324,
    -0.0,
    0.0,
    5e-324,
    f64::MIN_POSITIVE,
    1e-9,
    1.0,
    1.0000000000000002,
    1e6,
    f64::MAX,
    f64::INFINITY,
    f64::NAN,
];

#[test]
fn doubles_compare_as_numbers() {
    for a in DOUBLES {
        for b in DOUBLES {
            assert_eq!(double_less(a.to_bits(), b.to_bits()), a < b, "{a} < {b}");
            assert_eq!(double_at_most(a.to_bits(), b.to_bits()), a <= b, "{a} <= {b}");
        }
        assert_eq!(double_abs(a.to_bits()), a.abs().to_bits());
    }
    let negative_nan = f64::NAN.to_bits() | (1 << 63);
    assert!(!double_less(negative_nan, ONE));
    assert!(!double_less(ONE, negative_nan));
}

#[test]
fn singles_compare_as_numbers() {
    for a in DOUBLES {
        for b in DOUBLES {
            let (a, b) = (a as f32, b as f32);
            assert_eq!(single_less(a.to_bits(), b.to_bits()), a < b, "{a} < {b}");
        }
        assert_eq!(single_finite((a as f32).to_bits()), (a as f32).is_finite());
    }
}

#[test]
fn constants_are_powers_of_ten() {
    assert_eq!(f64::from_bits(E9), 1e9);
    assert_eq!(f64::from_bits(E6), 1e6);
    assert_eq!(f64::from_bits(E3), 1e3);
    assert_eq!(f64::from_bits(HUNDRED), 100.0);
    assert_eq!(f64::from_bits(TEN), 10.0);
    assert_eq!(f64::from_bits(ONE), 1.0);
    assert_eq!(f64::from_bits(EM3), 1e-3);
    assert_eq!(f64::from_bits(EM4), 1e-4);
    assert_eq!(f64::from_bits(EM6), 1e-6);
}
