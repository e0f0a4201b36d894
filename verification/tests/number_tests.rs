use matheval::number::{
    at_most_bits, is_nan_bits, is_negative_bits, is_zero_bits, less_than, magnitude_of, max_of,
    min_of, negate, whole_number, Whole, E, INFINITY, MINUS_ONE, NEG_INFINITY, ONE, PI,
    TWO_HUNDRED, ZERO,
};

fn samples() -> Vec<f64> {
    let mut values = vec![
        0.0,
        -0.0,
        1.0,
        -1.0,
        0.5,
        -0.5,
        2.0,
        20.0,
        21.0,
        0.1,
        -0.1,
        1e-310,
        -1e-310,
        5e-324,
        f64::MIN_POSITIVE,
        f64::MAX,
        f64::MIN,
        f64::EPSILON,
        1.0 + f64::EPSILON,
        1.0 - f64::EPSILON / 2.0,
        -1.0 - f64::EPSILON,
        4503599627370496.0,
        4503599627370495.5,
        9007199254740992.0,
        1e300,
        -1e300,
        f64::INFINITY,
        f64::NEG_INFINITY,
        f64::NAN,
        -f64::NAN,
        f64::from_bits(0x7FF0_0000_0000_0001),
        f64::from_bits(0xFFFF_FFFF_FFFF_FFFF),
    ];
    for k in 0..64 {
        values.push((k as f64) * 0.25);
        values.push(-(k as f64) * 0.25);
    }
    values
}

#[test]
fn constants_are_the_bits_of_their_values() {
    assert_eq!(ZERO, 0.0f64.to_bits());
    assert_eq!(ONE, 1.0f64.to_bits());
    assert_eq!(MINUS_ONE, (-1.0f64).to_bits());
    assert_eq!(TWO_HUNDRED, 200.0f64.to_bits());
    assert_eq!(INFINITY, f64::INFINITY.to_bits());
    assert_eq!(NEG_INFINITY, f64::NEG_INFINITY.to_bits());
    assert_eq!(PI, std::f64::consts::PI.to_bits());
    assert_eq!(E, std::f64::consts::E.to_bits());
}

#[test]
fn classification_agrees_with_binary64() {
    for x in samples() {
        let bits = x.to_bits();
        assert_eq!(is_nan_bits(bits), x.is_nan());
        assert_eq!(is_zero_bits(bits), x == 0.0);
        assert_eq!(is_negative_bits(bits), x.is_sign_negative());
        assert_eq!(magnitude_of(bits), x.abs().to_bits());
        assert_eq!(negate(bits), (-x).to_bits());
        assert_eq!(negate(negate(bits)), bits);
    }
}

#[test]
fn order_agrees_with_binary64() {
    for a in samples() {
        for b in samples() {
            assert_eq!(less_than(a.to_bits(), b.to_bits()), a < b, "{} < {}", a, b);
            assert_eq!(at_most_bits(a.to_bits(), b.to_bits()), a <= b, "{} <= {}", a, b);
        }
    }
}

#[test]
fn greatest_and_least_agree_with_binary64() {
    for a in samples() {
        for b in samples() {
            let max = f64::from_bits(max_of(a.to_bits(), b.to_bits()));
            let min = f64::from_bits(min_of(a.to_bits(), b.to_bits()));
            if a.is_nan() && b.is_nan() {
                assert!(max.is_nan() && min.is_nan());
            } else {
                assert_eq!(max, a.max(b));
                assert_eq!(min, a.min(b));
            }
        }
    }
}

#[test]
fn whole_numbers_agree_with_binary64() {
    for x in samples() {
        let expected = if x.is_nan() || x.is_infinite() || x.fract() != 0.0 || (x < 0.0) {
            Whole::No
        } else if x <= 20.0 {
            Whole::Small(x as u64)
        } else {
            Whole::Large
        };
        assert_eq!(whole_number(x.to_bits(), 20), expected, "{}", x);
    }
    assert_eq!(whole_number(4503599627370495.0f64.to_bits(), 4503599627370495), Whole::Small(4503599627370495));
    assert_eq!(whole_number(4503599627370495.0f64.to_bits(), 4503599627370494), Whole::Large);
    assert_eq!(whole_number((-0.0f64).to_bits(), 0), Whole::Small(0));
    assert_eq!(whole_number(1.0f64.to_bits(), 0), Whole::Large);
}
