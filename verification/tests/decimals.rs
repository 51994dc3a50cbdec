use exchange_core::decimal::{Decimal, DecimalError, RoundingMode};

#[test]
fn new_keeps_mantissa_and_scale() {
    let d = Decimal::new(12345, 2);
    assert_eq!(d.mantissa(), 12345);
    assert_eq!(d.scale(), 2);
    assert_eq!(Decimal::zero().mantissa(), 0);
    assert_eq!(Decimal::zero().scale(), 0);
}

#[test]
fn try_new_refuses_scale_above_28() {
    assert_eq!(Decimal::try_new(1, 28).unwrap().scale(), 28);
    assert_eq!(Decimal::try_new(1, 29).unwrap_err(), DecimalError::ScaleOutOfRange);
}

#[test]
fn equality_is_by_value() {
    assert_eq!(Decimal::new(10, 1), Decimal::new(1, 0));
    assert_eq!(Decimal::new(100, 2), Decimal::new(1000, 3));
    assert_ne!(Decimal::new(100, 2), Decimal::new(101, 2));
    assert_eq!(Decimal::new(0, 5), Decimal::zero());
}

#[test]
fn compare_across_scales() {
    assert_eq!(Decimal::new(15, 1).compare(&Decimal::new(149, 2)), 1);
    assert_eq!(Decimal::new(149, 2).compare(&Decimal::new(15, 1)), -1);
    assert_eq!(Decimal::new(150, 2).compare(&Decimal::new(15, 1)), 0);
    assert_eq!(Decimal::new(-1, 0).compare(&Decimal::new(1, 28)), -1);
    assert!(Decimal::new(1, 2).lt(&Decimal::new(2, 2)));
    assert!(Decimal::new(2, 2).le(&Decimal::new(2, 2)));
    assert!(Decimal::new(3, 2).gt(&Decimal::new(2, 2)));
    assert!(Decimal::new(2, 2).ge(&Decimal::new(20, 3)));
    assert!(!Decimal::new(2, 2).lt(&Decimal::new(20, 3)));
}

#[test]
fn compare_is_exact_where_aligning_overflows() {
    let huge = Decimal::new(i128::MAX, 0);
    let tiny = Decimal::new(1, 28);
    assert_eq!(huge.compare(&tiny), 1);
    assert_eq!(tiny.compare(&huge), -1);
    let low = Decimal::new(i128::MIN, 0);
    assert_eq!(low.compare(&tiny), -1);
    assert_eq!(tiny.compare(&low), 1);
    assert_eq!(low.compare(&Decimal::new(i128::MIN, 0)), 0);
}

#[test]
fn signs() {
    assert!(Decimal::new(0, 3).is_zero());
    assert!(Decimal::new(1, 3).is_positive());
    assert!(Decimal::new(-1, 3).is_negative());
    assert!(!Decimal::new(-1, 3).is_positive());
    assert!(!Decimal::new(0, 3).is_negative());
}

#[test]
fn add_and_subtract_at_the_finer_scale() {
    let a = Decimal::new(150, 2);
    let b = Decimal::new(25, 3);
    let sum = a.checked_add(&b).unwrap();
    assert_eq!(sum.mantissa(), 1525);
    assert_eq!(sum.scale(), 3);
    let diff = a.checked_sub(&b).unwrap();
    assert_eq!(diff.mantissa(), 1475);
    assert_eq!(diff.scale(), 3);
    let back = b.checked_sub(&a).unwrap();
    assert_eq!(back.mantissa(), -1475);
}

#[test]
fn add_and_subtract_detect_overflow() {
    let max = Decimal::new(i128::MAX, 0);
    assert_eq!(max.checked_add(&Decimal::new(1, 0)).unwrap_err(), DecimalError::PrecisionOverflow);
    assert_eq!(max.checked_add(&Decimal::new(1, 1)).unwrap_err(), DecimalError::PrecisionOverflow);
    let min = Decimal::new(i128::MIN, 0);
    assert_eq!(min.checked_sub(&Decimal::new(1, 0)).unwrap_err(), DecimalError::PrecisionOverflow);
    assert_eq!(max.checked_add(&Decimal::new(-1, 0)).unwrap().mantissa(), i128::MAX - 1);
}

#[test]
fn multiply_by_integer_keeps_scale() {
    let d = Decimal::new(125, 2).checked_mul_int(4).unwrap();
    assert_eq!(d.mantissa(), 500);
    assert_eq!(d.scale(), 2);
    assert_eq!(
        Decimal::new(i128::MAX, 2).checked_mul_int(2).unwrap_err(),
        DecimalError::PrecisionOverflow
    );
}

#[test]
fn multiply_adds_scales() {
    let d = Decimal::new(15, 1).checked_mul(&Decimal::new(25, 2)).unwrap();
    assert_eq!(d.mantissa(), 375);
    assert_eq!(d.scale(), 3);
    assert_eq!(
        Decimal::new(1, 20).checked_mul(&Decimal::new(1, 9)).unwrap_err(),
        DecimalError::PrecisionOverflow
    );
    assert_eq!(
        Decimal::new(i128::MAX, 0).checked_mul(&Decimal::new(2, 0)).unwrap_err(),
        DecimalError::PrecisionOverflow
    );
}

#[test]
fn rescale_to_finer_scale_is_exact() {
    let d = Decimal::new(15, 1).rescale(3, RoundingMode::HalfEven).unwrap();
    assert_eq!(d.mantissa(), 1500);
    assert_eq!(d.scale(), 3);
    assert_eq!(
        Decimal::new(i128::MAX, 0).rescale(1, RoundingMode::HalfEven).unwrap_err(),
        DecimalError::PrecisionOverflow
    );
    assert_eq!(
        Decimal::new(1, 0).rescale(29, RoundingMode::HalfEven).unwrap_err(),
        DecimalError::ScaleOutOfRange
    );
}

#[test]
fn rescale_half_even() {
    let r = |m: i128| Decimal::new(m, 1).rescale(0, RoundingMode::HalfEven).unwrap().mantissa();
    assert_eq!(r(25), 2);
    assert_eq!(r(35), 4);
    assert_eq!(r(24), 2);
    assert_eq!(r(26), 3);
    assert_eq!(r(-25), -2);
    assert_eq!(r(-35), -4);
    assert_eq!(r(-26), -3);
    assert_eq!(r(-24), -2);
    assert_eq!(r(20), 2);
}

#[test]
fn rescale_toward_and_away_from_zero() {
    let t = |m: i128| Decimal::new(m, 1).rescale(0, RoundingMode::TowardZero).unwrap().mantissa();
    let a =
        |m: i128| Decimal::new(m, 1).rescale(0, RoundingMode::AwayFromZero).unwrap().mantissa();
    assert_eq!(t(29), 2);
    assert_eq!(t(-29), -2);
    assert_eq!(t(-20), -2);
    assert_eq!(a(21), 3);
    assert_eq!(a(-21), -3);
    assert_eq!(a(20), 2);
    assert_eq!(a(-20), -2);
}

#[test]
fn units_at_a_scale() {
    assert_eq!(Decimal::new(15, 1).units_at(3), Some(1500));
    assert_eq!(Decimal::new(1500, 3).units_at(1), Some(15));
    assert_eq!(Decimal::new(1501, 3).units_at(1), None);
    assert_eq!(Decimal::new(i128::MAX, 0).units_at(1), None);
    assert_eq!(Decimal::new(-1500, 3).units_at(1), Some(-15));
}

#[test]
fn from_str_reads_sign_digits_and_point() {
    let d = Decimal::from_str("100.00").unwrap();
    assert_eq!(d.mantissa(), 10000);
    assert_eq!(d.scale(), 2);
    let n = Decimal::from_str("-0.001").unwrap();
    assert_eq!(n.mantissa(), -1);
    assert_eq!(n.scale(), 3);
    let p = Decimal::from_str("+42").unwrap();
    assert_eq!(p.mantissa(), 42);
    assert_eq!(p.scale(), 0);
    assert_eq!(Decimal::from_str("007.50").unwrap(), Decimal::new(75, 1));
}

#[test]
fn from_str_refuses_other_shapes() {
    for bad in ["", "-", "+", ".5", "5.", "1.2.3", "12a", "1 2", "--1", "1e5", "٣"] {
        assert_eq!(Decimal::from_str(bad).unwrap_err(), DecimalError::Syntax, "{:?}", bad);
    }
}

#[test]
fn from_str_bounds() {
    let fine = format!("0.{}", "1".repeat(28));
    assert_eq!(Decimal::from_str(&fine).unwrap().scale(), 28);
    let deep = format!("0.{}", "1".repeat(29));
    assert_eq!(Decimal::from_str(&deep).unwrap_err(), DecimalError::ScaleOutOfRange);
    assert_eq!(
        Decimal::from_str("170141183460469231731687303715884105727").unwrap().mantissa(),
        i128::MAX
    );
    assert_eq!(
        Decimal::from_str("170141183460469231731687303715884105728").unwrap_err(),
        DecimalError::PrecisionOverflow
    );
    assert_eq!(
        Decimal::from_str("-170141183460469231731687303715884105728").unwrap().mantissa(),
        i128::MIN
    );
    assert_eq!(
        Decimal::from_str("-170141183460469231731687303715884105729").unwrap_err(),
        DecimalError::PrecisionOverflow
    );
}
