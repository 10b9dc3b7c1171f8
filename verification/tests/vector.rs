use orbit_sim::decimal::Decimal;
use orbit_sim::decimal_vector_3d::DecimalVector3d;
use orbit_sim::violation::Violation;
use std::str::FromStr;

fn dec(text: &str) -> Decimal {
    Decimal::from_str(text).unwrap()
}

fn vec3(x: &str, y: &str, z: &str) -> DecimalVector3d {
    DecimalVector3d::from_str(x, y, z).unwrap()
}

fn approx(d: &Decimal) -> f64 {
    f64::from_str(d.to_string().as_str()).unwrap()
}

fn texts(v: &DecimalVector3d) -> (String, String, String) {
    (v.x.to_string(), v.y.to_string(), v.z.to_string())
}

fn owned(x: &str, y: &str, z: &str) -> (String, String, String) {
    (x.to_string(), y.to_string(), z.to_string())
}

#[test]
fn zero_vector_has_three_zeros() {
    let z = DecimalVector3d::zero();
    assert_eq!(texts(&z), owned("0", "0", "0"));
    assert_eq!(z.x.precision(), 0);
}

#[test]
fn new_keeps_the_components() {
    let v = DecimalVector3d::new(dec("1.5"), dec("-2"), dec("3e2"));
    assert_eq!(texts(&v), owned("1.5", "-2", "300"));
}

#[test]
fn assign_overwrites_all_three() {
    let mut v = vec3("1", "2", "3");
    v.assign(vec3("4.5", "5.5", "6.5"));
    assert_eq!(texts(&v), owned("4.5", "5.5", "6.5"));
}

#[test]
fn from_str_refuses_a_bad_component() {
    assert!(DecimalVector3d::from_str("1", "x", "3").is_none());
    assert!(DecimalVector3d::from_str("1", "2", "").is_none());
}

#[test]
fn displays_in_braces() {
    let v = vec3("1.5", "-2", "0.25");
    assert_eq!(v.to_string(), "{ x: 1.5, y: -2, z: 0.25 }");
}

#[test]
fn dot_product_sums_the_products() {
    let a = vec3("1.000", "2.000", "3.000");
    let b = vec3("4.000", "5.000", "6.000");
    assert_eq!(a.dot(&b).unwrap().to_string(), "32");
}

#[test]
fn cross_product_is_right_handed() {
    let x = vec3("1.00", "0.00", "0.00");
    let y = vec3("0.00", "1.00", "0.00");
    let z = x.cross(&y).unwrap();
    assert_eq!(texts(&z), owned("0", "0", "1"));
    let a = vec3("1.000", "2.000", "3.000");
    let b = vec3("4.000", "5.000", "6.000");
    assert_eq!(texts(&a.cross(&b).unwrap()), owned("-3", "6", "-3"));
}

#[test]
fn cross_product_changes_sign_with_the_order() {
    let a = vec3("1.25", "-2.5", "3.75");
    let b = vec3("-4.5", "5.25", "6.125");
    let ab = a.cross(&b).unwrap();
    let ba = b.cross(&a).unwrap();
    assert_eq!(ab.x.to_string(), ba.x.neg().to_string());
    assert_eq!(ab.y.to_string(), ba.y.neg().to_string());
    assert_eq!(ab.z.to_string(), ba.z.neg().to_string());
}

#[test]
fn cross_product_with_itself_is_zero() {
    let a = vec3("1.25", "-2.5", "3.75");
    let r = a.cross(&a).unwrap();
    assert!(r.x.is_zero() && r.y.is_zero() && r.z.is_zero());
    let b = vec3("0.5", "0.5", "1e-3");
    let r = b.cross(&b.clone()).unwrap();
    assert!(r.x.is_zero() && r.y.is_zero() && r.z.is_zero());
}

#[test]
fn length_is_the_root_of_the_squares() {
    let v = vec3("3.000", "4.000", "0.000");
    assert_eq!(v.length_squared().unwrap().to_string(), "25");
    assert_eq!(v.length().unwrap().to_string(), "5");
}

#[test]
fn distance_is_the_length_of_the_difference() {
    let a = vec3("1.000", "2.000", "3.000");
    let b = vec3("4.000", "6.000", "3.000");
    assert_eq!(a.distance_to(&b).unwrap().to_string(), "5");
    assert_eq!(b.distance_to(&a).unwrap().to_string(), "5");
}

#[test]
fn normalized_vector_has_length_one() {
    let v = vec3("3.0000000000000000000", "-4.0000000000000000000", "12.000000000000000000");
    let n = v.normalized().unwrap();
    assert!((approx(&n.length().unwrap()) - 1.0).abs() < 1e-15);
    assert!((approx(&n.x) - 3.0 / 13.0).abs() < 1e-15);
    let w = vec3("0.10000000000000000000", "1.0000000000000000000", "0.0000000000000000000");
    assert!((approx(&w.normalized().unwrap().length().unwrap()) - 1.0).abs() < 1e-15);
}

#[test]
fn normalize_changes_the_vector_in_place() {
    let mut v = vec3("0.000", "5.000", "0.000");
    assert_eq!(v.normalize(), Ok(()));
    assert_eq!(texts(&v), owned("0", "1", "0"));
}

#[test]
fn normalizing_a_zero_vector_is_a_violation() {
    let mut v = vec3("0.0", "0.0", "0.0");
    assert!(matches!(v.normalized(), Err(Violation::DegenerateNormalize)));
    assert_eq!(v.normalize(), Err(Violation::DegenerateNormalize));
    assert_eq!(texts(&v), owned("0", "0", "0"));
}

#[test]
fn every_zero_vector_is_degenerate() {
    for v in [
        DecimalVector3d::zero(),
        vec3("0", "0", "0"),
        vec3("0.000", "-0", "0e5"),
        DecimalVector3d::new(Decimal::zero(), dec("0.0"), Decimal::zero().neg()),
    ] {
        assert!(v.length_squared().unwrap().is_zero());
        assert!(v.length().unwrap().is_zero());
        assert!(v.dot(&vec3("1.5", "2.5", "3.5")).unwrap().is_zero());
        assert!(matches!(v.normalized(), Err(Violation::DegenerateNormalize)));
    }
}

#[test]
fn normalizing_without_precision_is_unrepresentable() {
    let v = DecimalVector3d::new(Decimal::one(), Decimal::one(), Decimal::one());
    assert!(matches!(v.normalized(), Err(Violation::Unrepresentable)));
}

#[test]
fn scaling_and_dividing_by_the_same_scalar_gives_the_vector_back() {
    let v = vec3("1.2500000000000000000", "-2.5000000000000000000", "1234.5678900000000000");
    let s = dec("3.1415926535897932385");
    let back = v.mul_scalar(&s).unwrap().div_scalar(&s).unwrap();
    assert!((approx(&back.x) - 1.25).abs() < 1e-15);
    assert!((approx(&back.y) + 2.5).abs() < 1e-15);
    assert!((approx(&back.z) - 1234.56789).abs() < 1e-12);
    let exact = vec3("1.5", "-2.5", "8").mul_scalar(&dec("4")).unwrap().div_scalar(&dec("4")).unwrap();
    assert_eq!(texts(&exact), owned("1.5", "-2.5", "8"));
}

#[test]
fn component_wise_arithmetic() {
    let a = vec3("1.50", "2.50", "-3.50");
    let b = vec3("0.5", "0.25", "2");
    assert_eq!(texts(&a.add(&b).unwrap()), owned("2", "2.75", "-1.5"));
    assert_eq!(texts(&a.sub(&b).unwrap()), owned("1", "2.25", "-5.5"));
    assert_eq!(texts(&a.mul(&b).unwrap()), owned("0.75", "0.625", "-7"));
    assert_eq!(texts(&a.div(&b).unwrap()), owned("3", "10", "-1.75"));
}

#[test]
fn arithmetic_with_a_scalar() {
    let a = vec3("1.50", "2.50", "-3.50");
    let s = dec("0.5");
    assert_eq!(texts(&a.add_scalar(&s).unwrap()), owned("2", "3", "-3"));
    assert_eq!(texts(&a.sub_scalar(&s).unwrap()), owned("1", "2", "-4"));
    assert_eq!(texts(&a.mul_scalar(&s).unwrap()), owned("0.75", "1.25", "-1.75"));
    assert_eq!(texts(&a.div_scalar(&s).unwrap()), owned("3", "5", "-7"));
}

#[test]
fn arithmetic_in_place() {
    let s = dec("0.5");
    let mut a = vec3("1.50", "2.50", "-3.50");
    assert_eq!(a.add_assign(&s), Some(()));
    assert_eq!(texts(&a), owned("2", "3", "-3"));
    assert_eq!(a.sub_assign(&s), Some(()));
    assert_eq!(texts(&a), owned("1.5", "2.5", "-3.5"));
    assert_eq!(a.mul_assign(&s), Some(()));
    assert_eq!(texts(&a), owned("0.75", "1.25", "-1.75"));
    assert_eq!(a.div_assign(&s), Some(()));
    assert_eq!(texts(&a), owned("1.5", "2.5", "-3.5"));
}

#[test]
fn failed_arithmetic_in_place_leaves_the_vector() {
    let mut a = vec3("1.5", "2.5", "-3.5");
    assert_eq!(a.div_assign(&Decimal::zero()), None);
    assert_eq!(texts(&a), owned("1.5", "2.5", "-3.5"));
    assert!(a.div_scalar(&dec("0")).is_none());
    assert!(a.div(&vec3("1", "0", "1")).is_none());
}
