use deadaim::binary32::{
    is_below, is_finite, is_nan, is_non_positive, rank_of, HALF_MAX, INFINITY, MAX, SIGN, ZERO,
};

fn samples() -> Vec<f32> {
    vec![
        0.0,
        -0.0,
        1.0,
        -1.0,
        0.5,
        25.0,
        -25.0,
        1.0e-45,
        -1.0e-45,
        f32::MIN_POSITIVE,
        f32::MAX,
        f32::MIN,
        f32::INFINITY,
        f32::NEG_INFINITY,
        f32::NAN,
        -f32::NAN,
        f32::from_bits(0x7f80_0001),
        f32::from_bits(0xffff_ffff),
        3.0e38,
        -3.0e38,
    ]
}

#[test]
fn constants_are_the_patterns_they_name() {
    assert_eq!(ZERO, 0.0f32.to_bits());
    assert_eq!(SIGN, (-0.0f32).to_bits());
    assert_eq!(MAX, f32::MAX.to_bits());
    assert_eq!(INFINITY, f32::INFINITY.to_bits());
    assert_eq!(HALF_MAX, (f32::MAX / 2.0).to_bits());
}

#[test]
fn half_max_is_the_largest_value_whose_double_is_finite() {
    assert_eq!(f32::from_bits(HALF_MAX) * 2.0, f32::MAX);
    assert!((f32::from_bits(HALF_MAX + 1) * 2.0).is_infinite());
    assert!((f32::from_bits(HALF_MAX) - (-f32::from_bits(HALF_MAX))).is_finite());
    assert!((f32::from_bits(HALF_MAX + 1) - (-f32::from_bits(HALF_MAX + 1))).is_infinite());
}

#[test]
fn is_finite_agrees_with_the_values() {
    for v in samples() {
        assert_eq!(is_finite(v.to_bits()), v.is_finite(), "{:?}", v);
    }
    assert!(is_finite(MAX));
    assert!(is_finite(SIGN + MAX));
    assert!(!is_finite(INFINITY));
    assert!(!is_finite(SIGN + INFINITY));
    assert!(!is_finite(INFINITY + 1));
}

#[test]
fn is_nan_agrees_with_the_values() {
    for v in samples() {
        assert_eq!(is_nan(v.to_bits()), v.is_nan(), "{:?}", v);
    }
    assert!(!is_nan(0x7f80_0000));
    assert!(is_nan(0x7f80_0001));
    assert!(!is_nan(0xff80_0000));
    assert!(is_nan(0xff80_0001));
}

#[test]
fn is_below_agrees_with_the_values() {
    for a in samples() {
        for b in samples() {
            assert_eq!(is_below(a.to_bits(), b.to_bits()), a < b, "{:?} < {:?}", a, b);
        }
    }
}

#[test]
fn is_below_is_false_between_the_two_zeros() {
    assert!(!is_below(SIGN, ZERO));
    assert!(!is_below(ZERO, SIGN));
}

#[test]
fn is_non_positive_agrees_with_the_values() {
    for v in samples() {
        assert_eq!(is_non_positive(v.to_bits()), v <= 0.0, "{:?}", v);
    }
}

#[test]
fn rank_of_exact_values() {
    assert_eq!(rank_of(0), 0);
    assert_eq!(rank_of(SIGN), 0);
    assert_eq!(rank_of(1), 1);
    assert_eq!(rank_of(SIGN + 1), -1);
    assert_eq!(rank_of(MAX), 0x7f7f_ffff);
    assert_eq!(rank_of(0xffff_ffff), -0x7fff_ffff);
    assert_eq!(rank_of(1.0f32.to_bits()), 0x3f80_0000);
}

#[test]
fn rank_of_orders_numbers_as_values() {
    for a in samples() {
        for b in samples() {
            if !a.is_nan() && !b.is_nan() {
                assert_eq!(rank_of(a.to_bits()) < rank_of(b.to_bits()), a < b, "{:?} {:?}", a, b);
                assert_eq!(rank_of(a.to_bits()) == rank_of(b.to_bits()), a == b, "{:?} {:?}", a, b);
            }
        }
    }
}
