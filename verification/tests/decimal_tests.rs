use harmony::decimal::Decimal;
use harmony::filter::error::SymbolFilterError;
use harmony::math::{to_decimal, Range};

fn dec(value: &str) -> Decimal {
    to_decimal(value).unwrap()
}

#[test]
fn test_parse_shapes() {
    assert_eq!(dec("0.4").mantissa(), 4);
    assert_eq!(dec("0.4").scale(), 1);
    assert_eq!(dec("0.4000").mantissa(), 4000);
    assert_eq!(dec("0.4000").scale(), 4);
    assert_eq!(dec("-12.5").mantissa(), -125);
    assert_eq!(dec("-12.5").scale(), 1);
    assert_eq!(dec("9001").mantissa(), 9001);
    assert_eq!(dec("9001").scale(), 0);

    assert_eq!(to_decimal(""), Err(SymbolFilterError::Decimal));
    assert_eq!(to_decimal("-"), Err(SymbolFilterError::Decimal));
    assert_eq!(to_decimal("1."), Err(SymbolFilterError::Decimal));
    assert_eq!(to_decimal(".5"), Err(SymbolFilterError::Decimal));
    assert_eq!(to_decimal("1..2"), Err(SymbolFilterError::Decimal));
    assert_eq!(to_decimal("12a"), Err(SymbolFilterError::Decimal));
    assert_eq!(to_decimal("1e5"), Err(SymbolFilterError::Decimal));
    // more than eighteen fractional digits do not fit
    assert_eq!(
        to_decimal("0.0000000000000000001"),
        Err(SymbolFilterError::Decimal)
    );
    // the magnitude bound is ten billion billion
    assert!(to_decimal("9999999999999999999").is_ok());
    assert_eq!(
        to_decimal("100000000000000000000"),
        Err(SymbolFilterError::Decimal)
    );
}

#[test]
fn test_value_equality_ignores_trailing_zeros() {
    assert_eq!(dec("0.4"), dec("0.4000"));
    assert_eq!(dec("5"), dec("5.000000"));
    assert_eq!(dec("0"), dec("0.000"));
    assert_eq!(dec("-1.20"), dec("-1.2"));
    assert_ne!(dec("0.4"), dec("0.40001"));
}

#[test]
fn test_exact_arithmetic() {
    // exact base-10 addition, where binary floating point would drift
    let sum = dec("0.1").checked_add(&dec("0.2")).unwrap();
    assert_eq!(sum, dec("0.3"));

    let diff = dec("1").checked_sub(&dec("0.999")).unwrap();
    assert_eq!(diff, dec("0.001"));

    let product = dec("3685.96").checked_mul(&dec("0.0015")).unwrap();
    assert_eq!(product, dec("5.528940"));

    let quotient = dec("1070").checked_div(&dec("80")).unwrap();
    assert_eq!(quotient, dec("13.375"));
    assert!(dec("1").checked_div(&dec("0")).is_none());

    // the remainder follows the dividend's sign
    let rem = dec("7.5").checked_rem(&dec("2")).unwrap();
    assert_eq!(rem, dec("1.5"));
    let rem = dec("-7.5").checked_rem(&dec("2")).unwrap();
    assert_eq!(rem, dec("-1.5"));
    assert!(dec("7.5").checked_rem(&dec("0")).is_none());

    // an inexact quotient is truncated, never rounded up
    let third = dec("2").checked_div(&dec("3")).unwrap();
    assert_eq!(third, dec("0.666666666666666666"));
}

#[test]
fn test_trunc_with_scale() {
    assert_eq!(dec("1.23456").trunc_with_scale(2), dec("1.23"));
    assert_eq!(dec("-1.23456").trunc_with_scale(2), dec("-1.23"));
    // truncation never rounds up
    assert_eq!(dec("1.9999").trunc_with_scale(3), dec("1.999"));
    // a value already at the scale is untouched, keeping its representation
    let d = dec("1.20");
    let t = d.trunc_with_scale(5);
    assert_eq!(t.scale(), 2);
    assert_eq!(t, d);
}

#[test]
fn test_comparisons() {
    assert!(dec("1.5").lt(&dec("2")));
    assert!(dec("2").gt(&dec("1.5")));
    assert!(dec("2.0").le(&dec("2")));
    assert!(dec("2.0").ge(&dec("2")));
    assert!(dec("-3").lt(&dec("0")));
    assert!(dec("0.0000").is_zero());
    assert!(!dec("0.0001").is_zero());
    assert!(dec("1").lt(&Decimal::max_value()));
}

#[test]
fn test_range_exclusivity() {
    let range = Range(dec("10"), dec("20"));
    assert!(!range.is_within(&dec("10")));
    assert!(!range.is_within(&dec("20")));
    assert!(range.is_within(&dec("15")));

    // order-independence of the bounds
    let reversed = Range(dec("20"), dec("10"));
    assert!(reversed.is_within(&dec("15")));
    assert!(!reversed.is_within(&dec("10")));

    // a range with equal bounds contains no values
    let empty = Range(dec("10"), dec("10"));
    assert!(!empty.is_within(&dec("10")));
}

#[test]
fn test_within_ranges() {
    let ranges = vec![Range(dec("210"), dec("250")), Range(dec("200"), dec("205"))];
    assert!(harmony::math::is_within_ranges(&dec("202"), &ranges));
    assert!(harmony::math::is_within_ranges(&dec("230"), &ranges));
    assert!(!harmony::math::is_within_ranges(&dec("205"), &ranges));
    assert!(!harmony::math::is_within_ranges(&dec("208"), &ranges));

    // membership over an empty list is false by definition
    let none: Vec<Range<Decimal>> = vec![];
    assert!(!harmony::math::is_within_ranges(&dec("202"), &none));
}

#[test]
fn test_new_and_constants() {
    let d = Decimal::new(1500, 4).unwrap();
    assert_eq!(d, dec("0.15"));
    assert!(Decimal::new(1, 19).is_none());
    assert_eq!(Decimal::zero(), dec("0"));
    assert_eq!(Decimal::one(), dec("1"));
    let neg = dec("1.5").neg();
    assert_eq!(neg, dec("-1.5"));
}
