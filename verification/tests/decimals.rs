use orderbook_merger::decimal::{Decimal, SignedDecimal, FRACTION_DIGITS, UNITS_PER_WHOLE};

#[test]
fn parse_reads_whole_numbers() {
    assert_eq!(Decimal::parse("100"), Some(Decimal::from_units(10_000_000_000)));
    assert_eq!(Decimal::parse("0"), Some(Decimal::from_units(0)));
    assert_eq!(Decimal::parse("007"), Some(Decimal::from_units(700_000_000)));
}

#[test]
fn parse_reads_fractions() {
    assert_eq!(Decimal::parse("100.5"), Some(Decimal::from_units(10_050_000_000)));
    assert_eq!(Decimal::parse("0.00000001"), Some(Decimal::from_units(1)));
    assert_eq!(Decimal::parse("0.12345678"), Some(Decimal::from_units(12_345_678)));
    assert_eq!(Decimal::parse("67234.12000000"), Some(Decimal::from_units(6_723_412_000_000)));
}

#[test]
fn parse_takes_a_plus_sign_and_a_missing_part() {
    assert_eq!(Decimal::parse("+1"), Some(Decimal::from_units(100_000_000)));
    assert_eq!(Decimal::parse("+1.5"), Some(Decimal::from_units(150_000_000)));
    assert_eq!(Decimal::parse("5."), Some(Decimal::from_units(500_000_000)));
    assert_eq!(Decimal::parse(".5"), Some(Decimal::from_units(50_000_000)));
    assert_eq!(Decimal::parse("+.5"), Some(Decimal::from_units(50_000_000)));
    assert_eq!(Decimal::parse("+5."), Some(Decimal::from_units(500_000_000)));
    assert_eq!(Decimal::parse("0."), Some(Decimal::from_units(0)));
    assert_eq!(Decimal::parse(".0"), Some(Decimal::from_units(0)));
}

#[test]
fn parse_refuses_what_is_no_decimal() {
    assert_eq!(Decimal::parse(""), None);
    assert_eq!(Decimal::parse("."), None);
    assert_eq!(Decimal::parse("+"), None);
    assert_eq!(Decimal::parse("+."), None);
    assert_eq!(Decimal::parse("++1"), None);
    assert_eq!(Decimal::parse("+-1"), None);
    assert_eq!(Decimal::parse("1+"), None);
    assert_eq!(Decimal::parse("-1"), None);
    assert_eq!(Decimal::parse("-0"), None);
    assert_eq!(Decimal::parse("1e5"), None);
    assert_eq!(Decimal::parse("1E5"), None);
    assert_eq!(Decimal::parse("1.2.3"), None);
    assert_eq!(Decimal::parse("1..2"), None);
    assert_eq!(Decimal::parse(" 1"), None);
    assert_eq!(Decimal::parse("1 "), None);
    assert_eq!(Decimal::parse("1,5"), None);
    assert_eq!(Decimal::parse("1.5x"), None);
    assert_eq!(Decimal::parse("x"), None);
    assert_eq!(Decimal::parse("NaN"), None);
    assert_eq!(Decimal::parse("inf"), None);
    assert_eq!(Decimal::parse("infinity"), None);
    assert_eq!(Decimal::parse("\u{661}\u{662}"), None);
}

#[test]
fn parse_takes_only_zeros_behind_the_eighth_fraction_digit() {
    assert_eq!(Decimal::parse("0.123456780"), Some(Decimal::from_units(12_345_678)));
    assert_eq!(Decimal::parse("0.1234567800000"), Some(Decimal::from_units(12_345_678)));
    assert_eq!(Decimal::parse("0.000000000"), Some(Decimal::from_units(0)));
    assert_eq!(Decimal::parse("7.500000000000000000000000000000"), Some(Decimal::from_units(750_000_000)));
    assert_eq!(Decimal::parse(".000000010"), Some(Decimal::from_units(1)));
    assert_eq!(Decimal::parse("0.123456789"), None);
    assert_eq!(Decimal::parse("0.000000001"), None);
    assert_eq!(Decimal::parse("0.1234567801"), None);
    assert_eq!(Decimal::parse("0.12345678x"), None);
    assert_eq!(Decimal::parse("0.123456780x"), None);
    assert_eq!(Decimal::parse("0.123456780.0"), None);
}

#[test]
fn what_parse_takes_is_a_number_of_that_value() {
    for text in ["0", "007", "100.5", "+1", "5.", ".5", "0.00000001", "67234.12000000", "1.000000000"] {
        let units = Decimal::parse(text).unwrap().units;
        let float: f64 = text.parse().unwrap();
        assert!((units as f64 / 100_000_000.0 - float).abs() < 1e-9);
    }
}

#[test]
fn parse_refuses_what_does_not_fit() {
    assert_eq!(
        Decimal::parse("184467440737.09551615"),
        Some(Decimal::from_units(18_446_744_073_709_551_615))
    );
    assert_eq!(Decimal::parse("184467440737.09551616"), None);
    assert_eq!(Decimal::parse("184467440738"), None);
    assert_eq!(Decimal::parse("99999999999999999999999999999999999999999999"), None);
}

#[test]
fn to_text_writes_all_eight_fraction_digits() {
    assert_eq!(Decimal::from_units(10_050_000_000).to_text(), "100.50000000");
    assert_eq!(Decimal::from_units(0).to_text(), "0.00000000");
    assert_eq!(Decimal::from_units(1).to_text(), "0.00000001");
    assert_eq!(Decimal::from_units(u64::MAX).to_text(), "184467440737.09551615");
}

#[test]
fn text_reads_back() {
    for units in [0u64, 1, 99_999_999, 100_000_000, 123_456_789_012, u64::MAX] {
        let d = Decimal::from_units(units);
        assert_eq!(Decimal::parse(&d.to_text()), Some(d));
    }
}

#[test]
fn minus_is_exact_and_signed() {
    let a = Decimal::parse("101").unwrap();
    let b = Decimal::parse("100.2").unwrap();
    assert_eq!(a.minus(b), SignedDecimal { units: 80_000_000 });
    assert_eq!(b.minus(a), SignedDecimal { units: -80_000_000 });
    assert_eq!(
        Decimal::from_units(0).minus(Decimal::from_units(u64::MAX)).units,
        -(u64::MAX as i128)
    );
    assert!(b.minus(a).is_negative());
    assert!(!a.minus(b).is_negative());
    assert!(!a.minus(a).is_negative());
}

#[test]
fn signed_text_has_a_minus_below_zero() {
    assert_eq!(SignedDecimal { units: 80_000_000 }.to_text(), "0.80000000");
    assert_eq!(SignedDecimal { units: -80_000_000 }.to_text(), "-0.80000000");
    assert_eq!(SignedDecimal { units: 0 }.to_text(), "0.00000000");
    assert_eq!(
        SignedDecimal { units: i128::MIN }.to_text(),
        "-1701411834604692317316873037158.84105728"
    );
    assert_eq!(
        SignedDecimal { units: i128::MAX }.to_text(),
        "1701411834604692317316873037158.84105727"
    );
}

#[test]
fn decimals_compare_by_value() {
    let a = Decimal::parse("1.5").unwrap();
    let b = Decimal::parse("1.50").unwrap();
    let c = Decimal::parse("2").unwrap();
    assert_eq!(a, b);
    assert!(a.is_below(c));
    assert!(c.is_above(a));
    assert!(!a.is_below(b));
    assert!(!a.is_above(b));
}

#[test]
fn a_whole_is_ten_to_the_eighth_units() {
    assert_eq!(FRACTION_DIGITS, 8);
    assert_eq!(UNITS_PER_WHOLE, 100_000_000);
    assert_eq!(Decimal::parse("1"), Some(Decimal::from_units(UNITS_PER_WHOLE)));
}
