use hiwkhao::number::{
    bits_of_i64, equal, flip, less, nan, negative, round_whole, truncate, whole, zero,
};
use hiwkhao::Real;

fn number(x: f64) -> Real {
    Real::new(x.to_bits(), format!("{}", x), format!("{:.1}", x))
}

fn samples() -> Vec<f64> {
    let mut v = vec![
        0.0,
        -0.0,
        1.0,
        -1.0,
        0.5,
        -0.5,
        1.5,
        2.5,
        -2.5,
        0.1,
        0.25,
        0.35,
        0.45,
        3.14,
        -3.14,
        10.5,
        1e10,
        -1e10,
        1e300,
        -1e300,
        1e-300,
        5e-324,
        -5e-324,
        2147483647.0,
        2147483648.0,
        2147483647.9,
        -2147483648.0,
        -2147483649.0,
        -2147483648.9,
        4503599627370496.0,
        4503599627370495.5,
        9007199254740992.0,
        9007199254740993.0,
        123456789.125,
        f64::MAX,
        f64::MIN,
        f64::MIN_POSITIVE,
        f64::EPSILON,
        f64::INFINITY,
        f64::NEG_INFINITY,
        f64::NAN,
        -f64::NAN,
    ];
    let mut x = 0.001;
    while x < 1e12 {
        v.push(x);
        v.push(-x);
        v.push(x.floor());
        x *= 3.7;
    }
    v
}

#[test]
fn truncation_is_the_cast_to_i32() {
    for x in samples() {
        assert_eq!(truncate(x.to_bits()), x as i32, "{}", x);
    }
}

#[test]
fn wholeness_is_an_empty_fraction() {
    for x in samples() {
        assert_eq!(whole(x.to_bits()), x.fract() == 0.0, "{}", x);
    }
}

#[test]
fn order_is_the_order_of_the_numbers() {
    for x in samples() {
        for y in samples() {
            assert_eq!(less(x.to_bits(), y.to_bits()), x < y, "{} < {}", x, y);
            assert_eq!(equal(x.to_bits(), y.to_bits()), x == y, "{} == {}", x, y);
        }
    }
}

#[test]
fn signs_and_zeros() {
    for x in samples() {
        assert_eq!(zero(x.to_bits()), x == 0.0, "{}", x);
        assert_eq!(negative(x.to_bits()), x < 0.0, "{}", x);
        assert_eq!(nan(x.to_bits()), x.is_nan(), "{}", x);
        assert_eq!(flip(x.to_bits()), (-x).to_bits(), "{}", x);
    }
}

#[test]
fn negation_flips_the_renderings() {
    for x in samples() {
        let r = number(x).negate();
        let expected = number(-x);
        assert_eq!(r.bits, expected.bits, "{}", x);
        assert_eq!(r.text, expected.text, "{}", x);
        assert_eq!(r.fixed, expected.fixed, "{}", x);
    }
}

#[test]
fn absolute_value_drops_the_sign() {
    for x in samples() {
        let r = number(x).abs();
        let expected = number(x.abs());
        assert_eq!(r.bits, expected.bits, "{}", x);
        assert_eq!(r.text, expected.text, "{}", x);
        assert_eq!(r.fixed, expected.fixed, "{}", x);
    }
}

fn whole_samples() -> Vec<i64> {
    let mut v = vec![
        0,
        1,
        -1,
        2,
        3,
        7,
        10,
        -10,
        255,
        256,
        1000000,
        i32::MAX as i64,
        i32::MIN as i64,
        (1 << 52) - 1,
        1 << 52,
        (1 << 52) + 1,
        (1 << 53) - 1,
        1 << 53,
        (1 << 53) + 1,
        (1 << 53) + 2,
        (1 << 53) + 3,
        (1 << 54) + 2,
        (1 << 54) + 6,
        (1 << 60) + 127,
        (1 << 60) + 128,
        (1 << 60) + 129,
        (1 << 60) + 384,
        i64::MAX,
        i64::MAX - 1,
        i64::MAX - 511,
        i64::MAX - 512,
        i64::MAX - 513,
        i64::MIN,
        i64::MIN + 1,
        -((1 << 53) + 1),
        -((1 << 53) + 3),
    ];
    let mut x: i64 = 1;
    while x < i64::MAX / 5 {
        v.push(x);
        v.push(-x);
        v.push(x + 1);
        x = x * 5 + 3;
    }
    v
}

#[test]
fn whole_numbers_become_the_nearest_real() {
    for n in whole_samples() {
        assert_eq!(bits_of_i64(n), (n as f64).to_bits(), "{}", n);
    }
}

#[test]
fn integers_become_reals_with_their_renderings() {
    let mut values = vec![0, 1, -1, 9, 10, -10, 12345, -99999, i32::MAX, i32::MIN, i32::MAX - 1];
    let mut x: i32 = 1;
    while x < i32::MAX / 7 {
        values.push(x);
        values.push(-x);
        x = x * 7 + 1;
    }
    for n in values {
        let r = Real::from_i32(n);
        let x = n as f64;
        assert_eq!(r.bits, x.to_bits(), "{}", n);
        assert_eq!(r.text, format!("{}", x), "{}", n);
        assert_eq!(r.fixed, format!("{:.1}", x), "{}", n);
    }
}

#[test]
fn rounding_gives_pattern_and_value() {
    for n in whole_samples() {
        if n >= 0 {
            let (bits, value) = round_whole(n as u64);
            let x = n as f64;
            assert_eq!(bits, x.to_bits(), "{}", n);
            assert_eq!(value as f64, x, "{}", n);
        }
    }
    let (bits, value) = round_whole(1 << 63);
    assert_eq!(bits, 9223372036854775808.0f64.to_bits());
    assert_eq!(value, 1 << 63);
}

#[test]
fn a_copy_is_the_same_number() {
    let r = number(2.5);
    let c = r.copy();
    assert_eq!(c.bits, 2.5f64.to_bits());
    assert_eq!(c.text, "2.5");
    assert_eq!(c.fixed, "2.5");
}
