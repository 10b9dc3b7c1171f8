use orbit_sim::au::{au_meters_constant, au_to_meters, meters_to_au};
use orbit_sim::decimal::Decimal;
use orbit_sim::decimal_matrix_3d::DecimalMatrix3d;
use orbit_sim::decimal_vector_3d::DecimalVector3d;
use orbit_sim::sin_cos::{cos, pimul2, sin};
use std::str::FromStr;

fn dec(text: &str) -> Decimal {
    Decimal::from_str(text).unwrap()
}

fn vec3(x: &str, y: &str, z: &str) -> DecimalVector3d {
    DecimalVector3d::from_str(x, y, z).unwrap()
}

fn approx(d: &Decimal) -> f64 {
    f64::from_str(d.to_string().as_str()).unwrap()
}

fn entries(m: &DecimalMatrix3d) -> Vec<String> {
    let mut out = Vec::new();
    for row in m.data.iter() {
        for entry in row.iter() {
            out.push(entry.to_string());
        }
    }
    out
}

fn basis() -> [(DecimalVector3d, usize); 3] {
    [
        (vec3("1", "0", "0"), 0),
        (vec3("0", "1", "0"), 1),
        (vec3("0", "0", "1"), 2),
    ]
}

#[test]
fn two_pi_has_fifty_digits() {
    let two_pi = pimul2();
    assert_eq!(
        two_pi.to_string(),
        "6.2831853071795864769252867665590057683943387987502"
    );
    assert_eq!(two_pi.precision(), 50);
}

#[test]
fn series_of_no_terms_is_zero_and_of_one_term_is_its_first() {
    assert_eq!(cos(dec("1.25"), 0).unwrap().to_string(), "0");
    assert_eq!(sin(dec("1.25"), 0).unwrap().to_string(), "0");
    assert_eq!(cos(dec("1.25"), 1).unwrap().to_string(), "1");
    assert_eq!(sin(dec("1.25"), 1).unwrap().to_string(), "1.25");
}

#[test]
fn series_of_two_terms_follow_the_formula() {
    // 1 - x^2/2 and x - x^3/6 at x = 0.5, with digits to spare
    assert_eq!(cos(dec("0.50000000"), 2).unwrap().to_string(), "0.875");
    assert_eq!(
        sin(dec("0.5000000000"), 2).unwrap().to_string(),
        "0.479166666667"
    );
}

#[test]
fn sine_and_cosine_agree_with_the_floats() {
    for text in [
        "0.10000000000000000000000000",
        "1.0000000000000000000000000",
        "-2.5000000000000000000000000",
        "6.0000000000000000000000000",
    ] {
        let x = f64::from_str(text).unwrap();
        assert!((approx(&sin(dec(text), 32).unwrap()) - x.sin()).abs() < 1e-14);
        assert!((approx(&cos(dec(text), 32).unwrap()) - x.cos()).abs() < 1e-14);
    }
}

#[test]
fn sine_and_cosine_of_zero() {
    assert_eq!(cos(dec("0"), 32).unwrap().to_string(), "1");
    assert!(sin(dec("0"), 32).unwrap().is_zero());
    assert_eq!(cos(Decimal::zero(), 32).unwrap().to_string(), "1");
    assert!(sin(Decimal::zero(), 32).unwrap().is_zero());
    assert!(sin(Decimal::zero().neg(), 32).unwrap().is_zero());
    assert_eq!(cos(dec("0.000"), 1).unwrap().to_string(), "1");
    assert_eq!(sin(dec("0.000"), 1).unwrap().precision(), 4);
}

#[test]
fn identity_has_ones_on_the_diagonal() {
    let m = DecimalMatrix3d::identity();
    assert_eq!(entries(&m), ["1", "0", "0", "0", "1", "0", "0", "0", "1"]);
}

#[test]
fn identity_leaves_vectors_as_they_are() {
    let v = vec3("1.5", "-2.25", "1e3");
    let r = DecimalMatrix3d::identity().apply(&v).unwrap();
    assert_eq!(r.to_string(), "{ x: 1.5, y: -2.25, z: 1000 }");
}

#[test]
fn apply_combines_the_columns() {
    let m = DecimalMatrix3d {
        data: [
            [dec("1.00"), dec("2.00"), dec("3.00")],
            [dec("4.00"), dec("5.00"), dec("6.00")],
            [dec("7.00"), dec("8.00"), dec("9.00")],
        ],
    };
    let r = m.apply(&vec3("1", "10", "100")).unwrap();
    assert_eq!(r.to_string(), "{ x: 741, y: 852, z: 963 }");
}

#[test]
fn rotation_by_zero_is_the_identity() {
    for (axis, _) in basis() {
        for angle in [dec("0"), dec("0.000"), dec("-0"), Decimal::zero(), Decimal::zero().neg()] {
            let m = DecimalMatrix3d::axis_angle(&axis, angle).unwrap();
            assert_eq!(entries(&m), ["1", "0", "0", "0", "1", "0", "0", "0", "1"]);
        }
    }
    let tilted = vec3("0.6", "0.8", "0");
    let m = DecimalMatrix3d::axis_angle(&tilted, dec("0")).unwrap();
    assert_eq!(entries(&m), ["1", "0", "0", "0", "1", "0", "0", "0", "1"]);
    let exact = DecimalVector3d::new(Decimal::zero(), Decimal::one(), Decimal::zero());
    let m = DecimalMatrix3d::axis_angle(&exact, Decimal::zero()).unwrap();
    assert_eq!(entries(&m), ["1", "0", "0", "0", "1", "0", "0", "0", "1"]);
}

#[test]
fn quarter_turn_about_z_takes_x_to_y() {
    let axis = vec3("0", "0", "1");
    let quarter = dec("1.5707963267948966192313216916");
    let m = DecimalMatrix3d::axis_angle(&axis, quarter).unwrap();
    let r = m.apply(&vec3("1", "0", "0")).unwrap();
    assert!(approx(&r.x).abs() < 1e-14);
    assert!((approx(&r.y) - 1.0).abs() < 1e-14);
    assert!(approx(&r.z).abs() < 1e-14);
}

#[test]
fn rotation_matrix_follows_rodrigues_with_the_negated_angle() {
    let axis = vec3("0", "0", "1");
    let angle = "0.50000000000000000000000000";
    let m = DecimalMatrix3d::axis_angle(&axis, dec(angle)).unwrap();
    let (s, c) = (-0.5f64).sin_cos();
    let expected = [[c, -s, 0.0], [s, c, 0.0], [0.0, 0.0, 1.0]];
    for i in 0..3 {
        for j in 0..3 {
            assert!((approx(&m.data[i][j]) - expected[i][j]).abs() < 1e-14);
        }
    }
}

#[test]
fn quaternion_of_a_rotation_turns_by_the_same_angle_about_the_same_axis() {
    for angle in [
        "0.50000000000000000000000000",
        "1.0000000000000000000000000",
        "2.5000000000000000000000000",
        "3.1000000000000000000000000",
    ] {
        let half = f64::from_str(angle).unwrap() / 2.0;
        for (axis, place) in basis() {
            let m = DecimalMatrix3d::axis_angle(&axis, dec(angle)).unwrap();
            let q = m.as_quat().unwrap();
            for i in 0..3 {
                let expected = if i == place { half.sin() } else { 0.0 };
                assert!((approx(&q[i]) - expected).abs() < 1e-12);
            }
            assert!((approx(&q[3]) - half.cos()).abs() < 1e-12);
        }
    }
}

#[test]
fn quaternion_by_the_trace() {
    // trace 3: r = sqrt(4) = 2, w = r/2, the rest (differences) * (1/2 / r)
    let m = DecimalMatrix3d {
        data: [
            [dec("1.000"), dec("0.400"), dec("0.000")],
            [dec("0.000"), dec("1.000"), dec("0.800")],
            [dec("1.200"), dec("0.000"), dec("1.000")],
        ],
    };
    let q = m.as_quat().unwrap();
    let texts: Vec<String> = q.iter().map(|d| d.to_string()).collect();
    assert_eq!(texts, ["0.2", "0.3", "0.1", "1"]);
}

#[test]
fn quaternion_by_the_largest_diagonal_entry() {
    // trace -1, largest diagonal entry in the middle: i = 1, j = 2, k = 0,
    // r = sqrt(1 + 1 + 1 + 1) = 2
    let m = DecimalMatrix3d {
        data: [
            [dec("-1.000"), dec("0.400"), dec("0.200")],
            [dec("0.800"), dec("1.000"), dec("1.200")],
            [dec("0.600"), dec("0.400"), dec("-1.000")],
        ],
    };
    let q = m.as_quat().unwrap();
    let texts: Vec<String> = q.iter().map(|d| d.to_string()).collect();
    // out[1] = r/2 = 1; w = (m20 - m02) * 0.25 = 0.1;
    // out[2] = (m21 + m12) * 0.25 = 0.4; out[0] = (m01 + m10) * 0.25 = 0.3
    assert_eq!(texts, ["0.3", "1", "0.4", "0.1"]);
}

#[test]
fn quaternion_prefers_the_first_of_equal_diagonal_entries() {
    let m = DecimalMatrix3d {
        data: [
            [dec("0.000"), dec("0.400"), dec("0.200")],
            [dec("0.800"), dec("0.000"), dec("1.200")],
            [dec("0.600"), dec("0.400"), dec("0.000")],
        ],
    };
    // trace 0 is not positive; i = 0, j = 1, k = 2, r = sqrt(1) = 1
    let q = m.as_quat().unwrap();
    let texts: Vec<String> = q.iter().map(|d| d.to_string()).collect();
    // out[0] = 0.5; w = (m12 - m21) * 0.5 = 0.4; out[1] = (m10 + m01) * 0.5 = 0.6;
    // out[2] = (m20 + m02) * 0.5 = 0.4
    assert_eq!(texts, ["0.5", "0.6", "0.4", "0.4"]);
}

#[test]
fn quaternion_needs_a_precision() {
    assert!(DecimalMatrix3d::identity().as_quat().is_none());
}

#[test]
fn copies_of_a_matrix_are_equal() {
    let m = DecimalMatrix3d::axis_angle(&vec3("0", "1", "0"), dec("0.25000000")).unwrap();
    assert_eq!(entries(&m.clone()), entries(&m));
}

#[test]
fn astronomical_unit_in_metres() {
    assert_eq!(au_meters_constant().to_string(), "149597870691");
    assert_eq!(au_meters_constant().precision(), 12);
    assert_eq!(au_to_meters(dec("1")).unwrap().to_string(), "149597870691");
    assert_eq!(au_to_meters(dec("2.0")).unwrap().to_string(), "299195741382");
    assert_eq!(meters_to_au(dec("149597870691")).unwrap().to_string(), "1");
    assert_eq!(meters_to_au(dec("74798935345.5")).unwrap().to_string(), "0.5");
}
