use lox_interp::number::{
    absolute, less, less_equal, nan, negate, within_epsilon, zero, EPSILON_BITS, INFINITY_BITS,
    SIGN_BIT,
};
use lox_interp::text::decimal;

fn samples() -> Vec<f64> {
    vec![
        0.0,
        -0.0,
        1.0,
        -1.0,
        0.5,
        -0.5,
        2.0,
        1e-320,
        -1e-320,
        f64::MIN_POSITIVE,
        f64::EPSILON,
        -f64::EPSILON,
        f64::EPSILON / 2.0,
        1e300,
        -1e300,
        f64::MAX,
        f64::MIN,
        f64::INFINITY,
        f64::NEG_INFINITY,
        f64::NAN,
        -f64::NAN,
        3.141592653589793,
        -123456.789,
    ]
}

#[test]
fn the_constants_are_the_patterns_of_the_values() {
    assert_eq!(SIGN_BIT, (-0.0f64).to_bits());
    assert_eq!(INFINITY_BITS, f64::INFINITY.to_bits());
    assert_eq!(EPSILON_BITS, f64::EPSILON.to_bits());
}

#[test]
fn negation_flips_the_sign() {
    for x in samples() {
        assert_eq!(negate(x.to_bits()), (-x).to_bits());
    }
}

#[test]
fn the_magnitude_is_the_absolute_value() {
    for x in samples() {
        assert_eq!(absolute(x.to_bits()), x.abs().to_bits());
    }
}

#[test]
fn zero_and_not_a_number_are_told_from_the_pattern() {
    for x in samples() {
        assert_eq!(zero(x.to_bits()), x == 0.0);
        assert_eq!(nan(x.to_bits()), x.is_nan());
    }
}

#[test]
fn the_order_is_that_of_the_numbers() {
    for x in samples() {
        for y in samples() {
            assert_eq!(less(x.to_bits(), y.to_bits()), x < y, "{} < {}", x, y);
            assert_eq!(less_equal(x.to_bits(), y.to_bits()), x <= y, "{} <= {}", x, y);
        }
    }
}

#[test]
fn closeness_is_a_difference_below_epsilon() {
    for x in samples() {
        assert_eq!(within_epsilon(x.to_bits()), x.abs() < f64::EPSILON, "{}", x);
    }
    for x in samples() {
        for y in samples() {
            let d = x - y;
            assert_eq!(within_epsilon(d.to_bits()), (x - y).abs() < f64::EPSILON);
        }
    }
}

#[test]
fn decimal_rendering() {
    assert_eq!(decimal(0), "0");
    assert_eq!(decimal(7), "7");
    assert_eq!(decimal(10), "10");
    assert_eq!(decimal(1234567890), "1234567890");
    assert_eq!(decimal(usize::MAX), usize::MAX.to_string());
}
