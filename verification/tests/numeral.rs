use thermo_species::numeral::{parse_decimal, parse_integer, Decimal, NumberKind};

fn d(negative: bool, mantissa: u64, exponent: i64) -> Option<Decimal> {
    Some(Decimal { kind: NumberKind::Finite, negative, mantissa, exponent })
}

#[test]
fn decimals_are_read_exactly() {
    assert_eq!(parse_decimal("298.150"), d(false, 298150, -3));
    assert_eq!(parse_decimal("-7.453750000e+02"), d(true, 7453750000, -7));
    assert_eq!(parse_decimal("1.0E-3"), d(false, 10, -4));
    assert_eq!(parse_decimal("+5"), d(false, 5, 0));
    assert_eq!(parse_decimal("1."), d(false, 1, 0));
    assert_eq!(parse_decimal(".5"), d(false, 5, -1));
    assert_eq!(parse_decimal("-0.0"), d(true, 0, -1));
    assert_eq!(parse_decimal("9999999999999999999"), d(false, 9999999999999999999, 0));
}

#[test]
fn non_numerals_are_refused() {
    assert_eq!(parse_decimal(""), None);
    assert_eq!(parse_decimal("."), None);
    assert_eq!(parse_decimal("-"), None);
    assert_eq!(parse_decimal("1e"), None);
    assert_eq!(parse_decimal("1e+"), None);
    assert_eq!(parse_decimal("1D+02"), None);
    assert_eq!(parse_decimal(" 1"), None);
    assert_eq!(parse_decimal("infin"), None);
    assert_eq!(parse_decimal("nan1"), None);
    assert_eq!(parse_decimal("1e5x"), None);
    assert_eq!(parse_decimal("1.2.3"), None);
}

#[test]
fn integers_follow_rust_from_str() {
    assert_eq!(parse_integer("3", false), Some(3));
    assert_eq!(parse_integer("+3", false), Some(3));
    assert_eq!(parse_integer("-3", false), None);
    assert_eq!(parse_integer("-3", true), Some(-3));
    assert_eq!(parse_integer("", true), None);
    assert_eq!(parse_integer("+", true), None);
    assert_eq!(parse_integer("1 ", true), None);
    assert_eq!(parse_integer("123456789", true), Some(123456789));
}

fn special(kind: NumberKind, negative: bool) -> Option<Decimal> {
    Some(Decimal { kind, negative, mantissa: 0, exponent: 0 })
}

#[test]
fn infinities_and_nan_read_as_rust_reads_them() {
    assert_eq!(parse_decimal("inf"), special(NumberKind::Infinite, false));
    assert_eq!(parse_decimal("-Infinity"), special(NumberKind::Infinite, true));
    assert_eq!(parse_decimal("+INF"), special(NumberKind::Infinite, false));
    assert_eq!(parse_decimal("NaN"), special(NumberKind::NotANumber, false));
    assert_eq!(parse_decimal("-nan"), special(NumberKind::NotANumber, true));
    for text in ["inf", "-Infinity", "+INF", "NaN", "-nan", "1.5e3"] {
        let ours = parse_decimal(text).unwrap();
        let std = text.parse::<f64>().unwrap();
        match ours.kind {
            NumberKind::Infinite => {
                assert!(std.is_infinite());
                assert_eq!(std.is_sign_negative(), ours.negative);
            }
            NumberKind::NotANumber => assert!(std.is_nan()),
            NumberKind::Finite => assert_eq!(std, 1500.0),
        }
    }
}
