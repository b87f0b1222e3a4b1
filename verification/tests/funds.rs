use themis::{Amount, Funds};

#[test]
fn test_display_positive() {
    assert_eq!(Funds::from(15000_i64).to_string(), "1.5000");
}

#[test]
fn test_display_negative() {
    assert_eq!(Funds::from(-12345_i64).to_string(), "-1.2345");
}

#[test]
fn funds_test_display_zero() {
    assert_eq!(Funds::from(0_i64).to_string(), "0.0000");
}

#[test]
fn funds_display_extremes() {
    assert_eq!(Funds::from(-1_i64).to_string(), "-0.0001");
    assert_eq!(
        Funds::from(i128::MIN).to_string(),
        "-17014118346046923173168730371588410.5728"
    );
    assert_eq!(
        Funds::from(i128::MAX).to_string(),
        "17014118346046923173168730371588410.5727"
    );
}

#[test]
fn funds_arithmetic_with_amounts() {
    let f = Funds::from(-50_i64).plus(Amount::raw(80));
    assert_eq!(f, 30);
    assert_eq!(f.minus(Amount::raw(100)), -70);
    assert!(Funds::from(-1_i64).is_less_than(Amount::raw(0)));
    assert!(!Funds::from(5_i64).is_less_than(Amount::raw(5)));
    assert!(Funds::from(5_i64) == Amount::raw(5));
    assert_eq!(Funds::zero().units(), 0);
    assert!(Funds::from(4_i64) < Amount::raw(5));
    assert!(Funds::from(5_i64) >= Amount::raw(5));
    assert_eq!(Funds::from(-50_i64) + Amount::raw(80), 30);
    assert_eq!(Funds::from(-50_i64) - Amount::raw(80), -130);
    assert_eq!(Funds::from(-3_i128).units(), -3);
}

#[test]
fn funds_compare_with_each_other() {
    assert_eq!(Funds::from(15000_i64), Funds::from(15000_i128));
    assert_ne!(Funds::from(1_i64), Funds::from(-1_i64));
    assert!(Funds::from(-2_i64) < Funds::from(1_i64));
    assert!(Funds::from(i128::MAX) > Funds::zero());
    assert_eq!(Funds::from(7_i64).max(Funds::from(3_i64)), Funds::from(7_i64));
    assert_eq!(Funds::default(), Funds::zero());
}
