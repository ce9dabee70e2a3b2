use zudb_js::number::{double, is_whole, is_zero, read, to_i64, to_u64, to_usize};
use zudb_js::text::{counted, integer, lowercase, strip};

#[test]
fn a_double_is_whole_or_it_is_not() {
    for (n, whole) in [
        (0.0, true),
        (-0.0, true),
        (1.0, true),
        (-3.0, true),
        (0.5, false),
        (2.5, false),
        (1e300, true),
        (f64::NAN, false),
        (f64::INFINITY, false),
        (f64::NEG_INFINITY, false),
        (f64::MIN_POSITIVE, false),
        (5e-324, false),
    ] {
        assert_eq!(is_whole(n.to_bits()), whole, "{n}");
        assert_eq!(is_whole(n.to_bits()), n.fract() == 0.0, "{n}");
    }
}

#[test]
fn a_double_casts_to_an_integer_the_way_as_does() {
    for n in [
        0.0,
        -0.0,
        0.9,
        -0.9,
        1.5,
        -7.99,
        4294967295.0,
        4294967296.0,
        9007199254740991.0,
        9007199254740992.0,
        9223372036854775807.0,
        -9223372036854775808.0,
        18446744073709551615.0,
        1e19,
        1e300,
        -1e300,
        f64::NAN,
        f64::INFINITY,
        f64::NEG_INFINITY,
        5e-324,
    ] {
        assert_eq!(to_i64(n.to_bits()), n as i64, "{n}");
        assert_eq!(to_u64(n.to_bits()), n as u64, "{n}");
        assert_eq!(to_usize(n.to_bits()), n as usize, "{n}");
        assert_eq!(is_zero(n.to_bits()), n == 0.0, "{n}");
    }
    assert_eq!(read((-12.75f64).to_bits()), (false, -12));
}

/// Every integer up to 2^53 is a double as it is, and past that the nearest one there is, the
/// even one of two that are as near.
#[test]
fn an_integer_rounds_to_the_double_as_does() {
    for n in [
        0i128,
        1,
        -1,
        9_007_199_254_740_991,
        9_007_199_254_740_992,
        9_007_199_254_740_993,
        9_007_199_254_740_995,
        -9_007_199_254_740_993,
        9_223_372_036_854_775_807,
        -9_223_372_036_854_775_808,
        18_446_744_073_709_551_615,
        123_456_789_012_345_678,
    ] {
        assert_eq!(f64::from_bits(double(n)), n as f64, "{n}");
    }
    assert_eq!(f64::from_bits(double(9_007_199_254_740_993)), 9_007_199_254_740_992.0);
}

#[test]
fn numbers_are_written_in_decimal() {
    assert_eq!(counted(0), "0");
    assert_eq!(counted(10), "10");
    assert_eq!(counted(18_446_744_073_709_551_615), u64::MAX.to_string());
    assert_eq!(integer(-9_223_372_036_854_775_808), i64::MIN.to_string());
    assert_eq!(integer(42), "42");
}

#[test]
fn only_ascii_letters_are_lowered() {
    assert_eq!(lowercase("A BigInt"), "a bigint");
    assert_eq!(lowercase("\u{c9}TE"), "\u{c9}te");
}

#[test]
fn an_opening_comes_off_a_string_that_has_it() {
    assert_eq!(strip("Temporal.PlainDate", "Temporal."), Some("PlainDate"));
    assert_eq!(strip("Temporal", "Temporal."), None);
    assert_eq!(strip("temporal.PlainDate", "Temporal."), None);
    assert_eq!(strip("abc", ""), Some("abc"));
}

#[test]
fn an_integer_becomes_the_zero_without_a_sign() {
    assert_eq!(double(0), 0f64.to_bits());
    assert_ne!(double(0), (-0f64).to_bits());
    assert_eq!(double(-1), (-1f64).to_bits());
}
