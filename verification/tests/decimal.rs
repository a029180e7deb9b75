use my_calculator::Decimal;

fn literal(text: &str) -> Decimal {
    Decimal::from_literal(text).unwrap()
}

fn parts(value: &Decimal) -> (String, i64) {
    (value.unscaled_text().to_string(), value.scale())
}

#[test]
fn literal_without_point_has_scale_zero() {
    assert_eq!(parts(&literal("42")), ("42".to_string(), 0));
}

#[test]
fn literal_counts_digits_behind_the_point() {
    assert_eq!(parts(&literal("0.3")), ("3".to_string(), 1));
    assert_eq!(parts(&literal("12.345")), ("12345".to_string(), 3));
}

#[test]
fn literal_may_begin_with_the_point() {
    assert_eq!(parts(&literal(".125")), ("125".to_string(), 3));
}

#[test]
fn literal_may_end_with_the_point() {
    assert_eq!(parts(&literal("1.")), ("1".to_string(), 0));
}

#[test]
fn literal_drops_leading_zeros_and_keeps_trailing_ones() {
    assert_eq!(parts(&literal("007.50")), ("750".to_string(), 2));
    assert_eq!(parts(&literal("0.00")), ("0".to_string(), 2));
}

#[test]
fn literal_needs_a_digit() {
    assert!(Decimal::from_literal(".").is_none());
    assert!(Decimal::from_literal("").is_none());
}

#[test]
fn literal_takes_one_point_at_most() {
    assert!(Decimal::from_literal("1.2.3").is_none());
    assert!(Decimal::from_literal("1..2").is_none());
    assert!(Decimal::from_literal("..").is_none());
}

#[test]
fn literal_takes_digits_and_points_only() {
    assert!(Decimal::from_literal("1e5").is_none());
    assert!(Decimal::from_literal("-1").is_none());
    assert!(Decimal::from_literal("+1").is_none());
    assert!(Decimal::from_literal("1_000").is_none());
    assert!(Decimal::from_literal(" 1").is_none());
    assert!(Decimal::from_literal("1é").is_none());
}

#[test]
fn sum_is_taken_at_the_larger_scale() {
    let sum = literal("0.1").checked_add(&literal("0.2")).unwrap();
    assert_eq!(parts(&sum), ("3".to_string(), 1));
    let sum = literal("1.5").checked_add(&literal("2.25")).unwrap();
    assert_eq!(parts(&sum), ("375".to_string(), 2));
    let sum = literal("0.00").checked_add(&literal("1")).unwrap();
    assert_eq!(parts(&sum), ("100".to_string(), 2));
}

#[test]
fn difference_is_taken_at_the_larger_scale() {
    let difference = literal("1").checked_sub(&literal("0.25")).unwrap();
    assert_eq!(parts(&difference), ("75".to_string(), 2));
    let difference = literal("5").checked_sub(&literal("7")).unwrap();
    assert_eq!(parts(&difference), ("-2".to_string(), 0));
    let difference = literal("1.50").checked_sub(&literal("0")).unwrap();
    assert_eq!(parts(&difference), ("150".to_string(), 2));
}

#[test]
fn product_adds_the_scales() {
    let product = literal("1.5").checked_mul(&literal("0.2")).unwrap();
    assert_eq!(parts(&product), ("30".to_string(), 2));
    let product = literal("1.0").checked_mul(&literal("7")).unwrap();
    assert_eq!(parts(&product), ("70".to_string(), 1));
}

#[test]
fn quotient_of_an_exact_division() {
    let quotient = literal("42").checked_div(&literal("2")).unwrap();
    assert_eq!(parts(&quotient), ("21".to_string(), 0));
    let quotient = literal("1").checked_div(&literal("8")).unwrap();
    assert_eq!(parts(&quotient), ("125".to_string(), 3));
}

#[test]
fn quotient_is_rounded_to_a_hundred_digits() {
    let quotient = literal("1").checked_div(&literal("3")).unwrap();
    assert_eq!(parts(&quotient), ("3".repeat(100), 100));
    let quotient = literal("2").checked_div(&literal("3")).unwrap();
    assert_eq!(parts(&quotient), (format!("{}7", "6".repeat(99)), 100));
}

#[test]
fn quotient_by_zero_is_refused() {
    assert!(literal("1").checked_div(&literal("0")).is_none());
    assert!(literal("0").checked_div(&literal("0.000")).is_none());
}

#[test]
fn negation_changes_the_sign_only() {
    assert_eq!(parts(&literal("1.5").negated()), ("-15".to_string(), 1));
    assert_eq!(parts(&literal("1.5").negated().negated()), ("15".to_string(), 1));
    assert_eq!(parts(&literal("0.0").negated()), ("0".to_string(), 1));
}

#[test]
fn zero_is_zero_at_every_scale() {
    assert!(literal("0").is_zero());
    assert!(literal("0.00").is_zero());
    assert!(literal(".0").is_zero());
    assert!(!literal("0.10").is_zero());
    assert!(!literal("10").is_zero());
    assert!(!literal("1").negated().is_zero());
}

#[test]
fn clone_keeps_the_value() {
    let value = literal("12.50").negated();
    assert_eq!(parts(&value.clone()), ("-1250".to_string(), 2));
}

#[test]
fn scale_beyond_the_limit_is_refused() {
    let mut value = literal("0.1");
    for _ in 0..30 {
        value = value.checked_mul(&value).unwrap();
    }
    assert_eq!(parts(&value), ("1".to_string(), 1_073_741_824));
    assert!(value.checked_mul(&value).is_none());
}
