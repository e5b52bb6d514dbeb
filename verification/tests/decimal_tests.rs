use fastnum::D128;
use payments_engine::types::{finite_of, ParseDecimalError, SignedDecimal, UnsignedDecimal};

fn parts(d: SignedDecimal) -> (bool, u128, i16) {
    (d.negative, d.coefficient, d.scale)
}

fn d128(s: &str) -> D128 {
    D128::from_str(s, fastnum::decimal::Context::default()).unwrap()
}

fn d128_parts(d: D128) -> (bool, u128, i16) {
    (d.is_sign_negative(), d.digits().to_u128().unwrap(), d.fractional_digits_count())
}

#[test]
fn signed_parse_exact_parts() {
    assert_eq!(parts(SignedDecimal::parse("100.0").unwrap()), (false, 1000, 1));
    assert_eq!(parts(SignedDecimal::parse("1.2345").unwrap()), (false, 12345, 4));
    assert_eq!(parts(SignedDecimal::parse("-60.0").unwrap()), (true, 600, 1));
    assert_eq!(parts(SignedDecimal::parse("0").unwrap()), (false, 0, 0));
    assert_eq!(parts(SignedDecimal::parse("5e2").unwrap()), (false, 5, -2));
}

#[test]
fn signed_parse_keeps_every_fractional_digit() {
    assert_eq!(parts(SignedDecimal::parse("1.23456789").unwrap()), (false, 123456789, 8));
    assert_eq!(parts(SignedDecimal::parse("1.5e-3").unwrap()), (false, 15, 4));
}

#[test]
fn signed_parse_refuses_non_numbers() {
    assert_eq!(SignedDecimal::parse("abc"), None);
    assert_eq!(SignedDecimal::parse(""), None);
    assert_eq!(SignedDecimal::parse("NaN"), None);
    assert_eq!(SignedDecimal::parse("inf"), None);
}

#[test]
fn parse_refuses_exponent_beyond_range() {
    assert_eq!(UnsignedDecimal::parse("1.5e-2147483648"), None);
    assert_eq!(SignedDecimal::parse("1.5e-2147483648"), None);
    assert_eq!(SignedDecimal::parse("1.55e-2147483647"), None);
    assert_eq!(UnsignedDecimal::parse("1.5e-1000000000"), Some(UnsignedDecimal::zero()));
    assert_eq!(UnsignedDecimal::parse("1.5e-2147483647"), Some(UnsignedDecimal::zero()));
    assert_eq!(UnsignedDecimal::parse("1e-2147483648"), Some(UnsignedDecimal::zero()));
    assert_eq!(UnsignedDecimal::parse("1e-99999999999"), None);
}

#[test]
fn parse_reads_exponent_by_value() {
    let a = UnsignedDecimal::parse("1.5e-000000000003").unwrap();
    assert_eq!((a.coefficient, a.scale), (15, 4));
    let b = UnsignedDecimal::parse("1e00000000005").unwrap();
    assert_eq!(b, UnsignedDecimal::parse("100000").unwrap());
    assert!(UnsignedDecimal::parse("1.5e-3").is_some());
}

#[test]
fn unsigned_parse_exact_parts() {
    let d = UnsignedDecimal::parse("2.5").unwrap();
    assert_eq!((d.coefficient, d.scale), (25, 1));
    let e = UnsignedDecimal::parse("0.00001").unwrap();
    assert_eq!((e.coefficient, e.scale), (1, 5));
}

#[test]
fn unsigned_parse_refuses_negative() {
    assert_eq!(UnsignedDecimal::parse("-1.0"), None);
    assert_eq!(UnsignedDecimal::parse("-0"), None);
}

#[test]
fn from_str_matches_parse() {
    let a: Result<SignedDecimal, ParseDecimalError> = "3.25".parse();
    assert_eq!(parts(a.unwrap()), (false, 325, 2));
    let b: Result<UnsignedDecimal, ParseDecimalError> = "x".parse();
    assert_eq!(b, Err(ParseDecimalError));
}

#[test]
fn equality_by_value() {
    assert_eq!(SignedDecimal::parse("1.50").unwrap(), SignedDecimal::parse("1.5").unwrap());
    assert_ne!(SignedDecimal::parse("1.51").unwrap(), SignedDecimal::parse("1.5").unwrap());
    assert_eq!(UnsignedDecimal::parse("0.000").unwrap(), UnsignedDecimal::zero());
    assert_eq!(SignedDecimal { negative: true, coefficient: 0, scale: 3 }, SignedDecimal::zero());
    let huge = SignedDecimal { negative: false, coefficient: u128::MAX, scale: 0 };
    let tiny = SignedDecimal { negative: false, coefficient: 1, scale: 30 };
    assert_ne!(huge, tiny);
}

#[test]
fn signed_arithmetic() {
    let a = SignedDecimal::parse("10").unwrap();
    let b = UnsignedDecimal::parse("2.5").unwrap();
    assert_eq!(a.checked_add(b).unwrap(), SignedDecimal::parse("12.5").unwrap());
    assert_eq!(parts(a.checked_sub(b).unwrap()), (false, 75, 1));
    assert_eq!(parts(SignedDecimal::parse("1").unwrap().checked_sub(b).unwrap()), (true, 15, 1));
    assert!(a.covers(b));
    assert!(!SignedDecimal::parse("-1").unwrap().covers(b));
    let small = UnsignedDecimal::parse("0.00001").unwrap();
    assert_eq!(a.checked_add(small).unwrap(), SignedDecimal::parse("10.00001").unwrap());
}

#[test]
fn thirty_eight_places_are_exact() {
    let two = SignedDecimal::parse("2").unwrap();
    let amount = UnsignedDecimal { coefficient: 150_000_000_000_000_000_000_000_000_000_000_000_000, scale: 38 };
    assert_eq!(two.checked_sub(amount).unwrap(), SignedDecimal::parse("0.5").unwrap());
    assert_eq!(two.checked_add(amount).unwrap(), SignedDecimal::parse("3.5").unwrap());
}

#[test]
fn sum_beyond_128_bits_is_rounded_as_fastnum_rounds() {
    let max = SignedDecimal { negative: false, coefficient: u128::MAX, scale: 0 };
    let one = UnsignedDecimal { coefficient: 1, scale: 0 };
    let expected = d128(&u128::MAX.to_string()) + d128("1");
    assert_eq!(parts(max.checked_add(one).unwrap()), d128_parts(expected));
    let min = SignedDecimal { negative: true, coefficient: u128::MAX, scale: 0 };
    let expected = d128(&format!("-{}", u128::MAX)) - d128("1");
    assert_eq!(parts(min.checked_sub(one).unwrap()), d128_parts(expected));
}

#[test]
fn sum_beyond_the_largest_exponent_is_refused() {
    let big = SignedDecimal { negative: false, coefficient: u128::MAX, scale: -32768 };
    let more = UnsignedDecimal { coefficient: u128::MAX, scale: -32768 };
    assert_eq!(big.checked_add(more), None);
    let low = SignedDecimal { negative: true, coefficient: u128::MAX, scale: -32768 };
    assert_eq!(low.checked_sub(more), None);
    let held = UnsignedDecimal { coefficient: u128::MAX, scale: -32768 };
    assert_eq!(held.checked_add(more), None);
}

#[test]
fn unsigned_arithmetic() {
    let a = UnsignedDecimal::parse("1").unwrap();
    let b = UnsignedDecimal::parse("2.25").unwrap();
    assert_eq!(a.checked_add(b).unwrap(), UnsignedDecimal::parse("3.25").unwrap());
    assert_eq!(b.checked_sub(a).unwrap(), UnsignedDecimal::parse("1.25").unwrap());
    assert_eq!(a.checked_sub(b), None);
    assert!(b.covers(a));
    assert!(!a.covers(b));
    assert!(UnsignedDecimal::zero().is_zero());
    assert!(!a.is_zero());
}

#[test]
fn times_pow10_examples() {
    assert_eq!(payments_engine::types::times_pow10_unsigned(5, 3), Some(5000));
    assert_eq!(payments_engine::types::times_pow10_unsigned(4, 38), None);
    assert_eq!(payments_engine::types::times_pow10_unsigned(0, 60000), Some(0));
    assert_eq!(payments_engine::types::times_pow10_unsigned(3, 38), Some(300_000_000_000_000_000_000_000_000_000_000_000_000));
}

#[test]
fn text_with_four_places() {
    assert_eq!(SignedDecimal::parse("1.5").unwrap().to_text(), Some("1.5000".to_string()));
    assert_eq!(SignedDecimal::parse("-2.25").unwrap().to_text(), Some("-2.2500".to_string()));
    assert_eq!(UnsignedDecimal::parse("1.23456").unwrap().to_text(), Some(format!("{:.4}", d128("1.23456"))));
    assert_eq!(UnsignedDecimal { coefficient: 1, scale: -5 }.to_text(), Some("100000.0000".to_string()));
    assert_eq!(UnsignedDecimal::zero().to_text(), Some("0.0000".to_string()));
}

#[test]
fn cancelling_sum_is_positive_zero() {
    let a = SignedDecimal::parse("-1.5").unwrap();
    let b = UnsignedDecimal::parse("1.5").unwrap();
    let r = a.checked_add(b).unwrap();
    assert_eq!(parts(r), (false, 0, 1));
    assert_eq!(parts(r), d128_parts(d128("-1.5") + d128("1.5")));
    assert_eq!(r.to_text(), Some("0.0000".to_string()));
    let z = SignedDecimal { negative: true, coefficient: 0, scale: 0 };
    assert_eq!(parts(z.checked_sub(UnsignedDecimal::zero()).unwrap()), (true, 0, 0));
}

#[test]
fn finite_of_examples() {
    assert_eq!(finite_of(Some((true, false, true, 5, 2))).map(parts), Some((true, 5, 2)));
    assert_eq!(finite_of(Some((true, true, false, 5, 2))), None);
    assert_eq!(finite_of(Some((false, false, false, 0, 0))), None);
    assert_eq!(finite_of(None), None);
}
