use orbit_sim::decimal::Decimal;

fn dec(text: &str) -> Decimal {
    Decimal::from_str(text).unwrap()
}

#[test]
fn parses_and_prints_plain_text() {
    assert_eq!(dec("12.5").to_string(), "12.5");
    assert_eq!(dec("-0.001").to_string(), "-0.001");
    assert_eq!(dec("384400000").to_string(), "384400000");
    assert_eq!(dec("6.02e3").to_string(), "6020");
}

#[test]
fn precision_is_the_number_of_digits_written() {
    assert_eq!(dec("12.34").precision(), 4);
    assert_eq!(dec("12.34000").precision(), 7);
    assert_eq!(dec("0.0000000000667408").precision(), 17);
    assert_eq!(Decimal::zero().precision(), 0);
    assert_eq!(Decimal::one().precision(), 0);
}

#[test]
fn rejects_text_that_is_no_number() {
    assert!(Decimal::from_str("abc").is_none());
    assert!(Decimal::from_str("").is_none());
    assert!(Decimal::from_str("1.2.3").is_none());
}

#[test]
fn rejects_numbers_beyond_the_limits() {
    assert!(Decimal::from_str("1e2000000").is_none());
    assert!(Decimal::from_str("1e-2000000").is_none());
    assert!(Decimal::from_str("1e1000000").is_some());
}

#[test]
fn rejects_exponent_parts_of_more_than_eight_characters() {
    assert_eq!(dec("1e00000001").to_string(), "10");
    assert_eq!(dec("25E-0000002").to_string(), "0.25");
    assert_eq!(dec("25@-2").to_string(), "0.25");
    assert!(Decimal::from_str("1e000000001").is_none());
    assert!(Decimal::from_str("1.5e-9223372036854775808").is_none());
    assert!(Decimal::from_str("1.5E+9223372036854775807").is_none());
    // digits without an exponent part may be as many as they like
    assert_eq!(
        dec("6.2831853071795864769252867665590057683943387987502").precision(),
        50
    );
}

#[test]
fn adds_subtracts_multiplies() {
    assert_eq!(dec("1.5").add(&dec("2.25")).unwrap().to_string(), "3.75");
    assert_eq!(dec("1.5").sub(&dec("2.25")).unwrap().to_string(), "-0.75");
    assert_eq!(dec("1.500").mul(&dec("2.25")).unwrap().to_string(), "3.375");
}

#[test]
fn rounds_to_the_larger_precision_ties_away_from_zero() {
    assert_eq!(dec("1.5").mul(&dec("2.25")).unwrap().to_string(), "3.38");
    assert_eq!(dec("-1.5").mul(&dec("2.25")).unwrap().to_string(), "-3.38");
    assert_eq!(dec("1.5").mul(&dec("2.25")).unwrap().precision(), 3);
}

#[test]
fn divides_to_the_joint_precision() {
    assert_eq!(dec("1.000").div(&dec("3")).unwrap().to_string(), "0.3333");
    assert_eq!(dec("10").div(&dec("4")).unwrap().to_string(), "2.5");
}

#[test]
fn division_without_result_is_none() {
    assert!(dec("1.0").div(&Decimal::zero()).is_none());
    assert!(dec("1.0").div(&dec("0")).is_none());
    assert!(dec("0").div(&dec("0")).is_none());
    assert!(Decimal::one().div(&Decimal::one()).is_none());
}

#[test]
fn square_root_and_fraction() {
    assert_eq!(dec("16.00").sqrt().unwrap().to_string(), "4");
    assert_eq!(dec("2.000000000").sqrt().unwrap().to_string(), "1.414213562");
    assert_eq!(dec("12.75").fract().unwrap().to_string(), "0.75");
    assert_eq!(dec("-12.75").fract().unwrap().to_string(), "-0.75");
    assert_eq!(dec("12").fract().unwrap().to_string(), "0");
}

#[test]
fn square_root_without_result_is_none() {
    assert!(dec("-4.0").sqrt().is_none());
    assert!(Decimal::one().sqrt().is_none());
}

#[test]
fn the_root_of_zero_is_that_zero() {
    assert_eq!(Decimal::zero().sqrt().unwrap().to_string(), "0");
    assert_eq!(Decimal::zero().sqrt().unwrap().precision(), 0);
    let z = dec("0.000").sqrt().unwrap();
    assert!(z.is_zero());
    assert_eq!(z.precision(), 4);
    assert!(dec("-0").sqrt().unwrap().is_zero());
}

#[test]
fn orders_by_value() {
    assert!(dec("1.5").lt(&dec("2")));
    assert!(!dec("2").lt(&dec("1.5")));
    assert!(!dec("2").lt(&dec("2.000")));
    assert!(dec("-3").lt(&dec("0.001")));
    assert!(dec("2").gt(&dec("1.5")));
    assert!(dec("1e3").gt(&dec("999")));
    assert!(!Decimal::zero().lt(&Decimal::zero().neg()));
    assert!(!Decimal::zero().gt(&Decimal::zero().neg()));
}

#[test]
fn negation_changes_the_sign() {
    assert_eq!(dec("2.5").neg().to_string(), "-2.5");
    assert_eq!(dec("-2.5").neg().to_string(), "2.5");
    assert!(Decimal::zero().neg().is_zero());
    assert_eq!(dec("2.5").neg().precision(), 2);
}

#[test]
fn zero_is_recognized() {
    assert!(Decimal::zero().is_zero());
    assert!(dec("0.000").is_zero());
    assert!(dec("-0").is_zero());
    assert!(!dec("0.001").is_zero());
    assert!(!Decimal::one().is_zero());
}

#[test]
fn builds_from_digits() {
    let d = Decimal::from_digits(true, vec![1, 2, 5], -1, 5).unwrap();
    assert_eq!(d.to_string(), "-12.5");
    assert_eq!(d.precision(), 5);
    assert_eq!(Decimal::from_digits(false, vec![0], 0, 0).unwrap().to_string(), "0");
}

#[test]
fn refuses_digits_that_are_not_canonical() {
    assert!(Decimal::from_digits(false, vec![], 0, 0).is_none());
    assert!(Decimal::from_digits(false, vec![1, 10], 0, 0).is_none());
    assert!(Decimal::from_digits(false, vec![0, 1], 0, 0).is_none());
    assert!(Decimal::from_digits(false, vec![1, 0], 0, 0).is_none());
    assert!(Decimal::from_digits(true, vec![0], 0, 0).is_none());
    assert!(Decimal::from_digits(false, vec![0], 3, 0).is_none());
    assert!(Decimal::from_digits(false, vec![1, 2, 3], 0, 1).is_none());
    assert!(Decimal::from_digits(false, vec![1], 1_000_001, 0).is_none());
    assert!(Decimal::from_digits(false, vec![1], 0, 1_000_001).is_none());
}

#[test]
fn builds_from_integers() {
    assert_eq!(Decimal::from_u64(0).to_string(), "0");
    assert_eq!(Decimal::from_u64(0).precision(), 0);
    assert_eq!(Decimal::from_u64(7).to_string(), "7");
    assert_eq!(Decimal::from_u64(4032).to_string(), "4032");
    assert_eq!(Decimal::from_u64(4032).precision(), 0);
    assert_eq!(Decimal::from_u64(384400000).to_string(), "384400000");
    assert_eq!(Decimal::from_u64(u64::MAX).to_string(), "18446744073709551615");
    assert_eq!(Decimal::from_u64(10_000_000_000_000_000_000).to_string(), "10000000000000000000");
}

#[test]
fn integers_agree_with_their_text() {
    for n in [1u64, 10, 12, 100, 101, 2332800, 31536000] {
        let a = Decimal::from_u64(n);
        let b = dec(n.to_string().as_str());
        assert_eq!(a.to_string(), b.to_string());
        assert!(!a.lt(&b) && !b.lt(&a));
    }
}

#[test]
fn integers_multiply_exactly() {
    let product = Decimal::from_u64(63).mul(&Decimal::from_u64(64)).unwrap();
    assert_eq!(product.to_string(), "4032");
    let large = Decimal::from_u64(u64::MAX).mul(&Decimal::from_u64(u64::MAX)).unwrap();
    assert_eq!(large.to_string(), "340282366920938463426481119284349108225");
}

#[test]
fn zero_is_neutral_in_sums() {
    let x = dec("12.5");
    assert_eq!(x.add(&Decimal::zero()).unwrap().to_string(), "12.5");
    assert_eq!(Decimal::zero().add(&x).unwrap().to_string(), "12.5");
    assert_eq!(x.sub(&Decimal::zero()).unwrap().to_string(), "12.5");
    assert!(Decimal::zero().add(&Decimal::zero()).unwrap().is_zero());
    assert!(Decimal::zero().sub(&Decimal::zero().neg()).unwrap().is_zero());
}

#[test]
fn a_number_less_itself_is_zero() {
    for text in ["12.5", "-0.5", "0.5", "1e10", "0", "123456789.123456789"] {
        let x = dec(text);
        assert!(x.sub(&x).unwrap().is_zero());
    }
}

#[test]
fn products_with_zero_are_zero_and_no_others() {
    let x = dec("-12.5");
    assert!(x.mul(&Decimal::zero()).unwrap().is_zero());
    assert!(Decimal::zero().mul(&x).unwrap().is_zero());
    assert!(dec("0.00").mul(&dec("-0")).unwrap().is_zero());
    assert!(!dec("1e-9").mul(&dec("1e-9")).unwrap().is_zero());
}

#[test]
fn products_do_not_depend_on_the_order() {
    let pairs = [("1.5", "2.25"), ("-3.14159", "2.71828182"), ("1e5", "0.003"), ("7", "0.142857")];
    for (a, b) in pairs {
        let ab = dec(a).mul(&dec(b)).unwrap();
        let ba = dec(b).mul(&dec(a)).unwrap();
        assert_eq!(ab.to_string(), ba.to_string());
        assert_eq!(ab.precision(), ba.precision());
    }
}

#[test]
fn zero_divided_by_a_number_is_zero() {
    assert!(dec("0").div(&dec("3")).unwrap().is_zero());
    assert!(Decimal::zero().div(&dec("-0.5")).unwrap().is_zero());
}

#[test]
fn copies_keep_value_and_precision() {
    let x = dec("-12.500");
    let y = x.clone();
    assert_eq!(y.to_string(), "-12.5");
    assert_eq!(y.precision(), 5);
}
