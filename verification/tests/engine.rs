use orbit_sim::body::{Body, BodyDynamics, OrbitingBodyDynamics, StaticBodyDynamics};
use orbit_sim::decimal::Decimal;
use orbit_sim::decimal_vector_3d::DecimalVector3d;
use orbit_sim::simulation::{SimulatedBody, Simulation};
use orbit_sim::violation::Violation;
use std::str::FromStr;

fn dec(text: &str) -> Decimal {
    Decimal::from_str(text).unwrap()
}

fn vec3(x: &str, y: &str, z: &str) -> DecimalVector3d {
    DecimalVector3d::from_str(x, y, z).unwrap()
}

fn approx(d: &Decimal) -> f64 {
    f64::from_str(d.to_string().as_str()).unwrap()
}

fn fixed(name: &str, position: DecimalVector3d, mass: &str, satellites: Vec<Body>) -> Body {
    Body {
        name: name.to_string(),
        dynamics: BodyDynamics::Static(StaticBodyDynamics { position }),
        mass: dec(mass),
        satellites,
        rotation_axis: vec3("0", "1", "0"),
        rotation_period: dec("86400.000000"),
    }
}

fn orbiting(name: &str, radius: &str, period: &str, satellites: Vec<Body>) -> Body {
    Body {
        name: name.to_string(),
        dynamics: BodyDynamics::Orbiting(OrbitingBodyDynamics {
            orbit_radius: dec(radius),
            orbit_period: dec(period),
            orbit_plane_normal: vec3("0", "1", "0"),
        }),
        mass: dec("1.000e20"),
        satellites,
        rotation_axis: vec3("0", "1", "0"),
        rotation_period: dec("86400.000000"),
    }
}

fn system() -> Simulation {
    let moon = orbiting("moon", "384400000.00000", "2332800.0000000", vec![]);
    let venus = orbiting("venus", "108200000000.00", "19414080.000000", vec![]);
    let earth = orbiting("earth", "149597870691.00", "31536000.000000", vec![moon]);
    let mars = orbiting("mars", "227900000000.00", "59356800.000000", vec![]);
    let sun = fixed("sun", vec3("5e9", "0", "0"), "1.98847e30", vec![venus, earth, mars]);
    let mut sim = Simulation::new();
    sim.add_hierarchy(sun, None);
    sim
}

fn names(bodies: &[&SimulatedBody]) -> Vec<String> {
    bodies.iter().map(|b| b.body.name.clone()).collect()
}

fn state(sim: &Simulation) -> Vec<String> {
    let mut out = Vec::new();
    for b in sim.bodies.iter() {
        out.push(b.position.to_string());
        out.push(b.velocity.to_string());
        for row in b.orientation.data.iter() {
            for entry in row.iter() {
                out.push(format!("{} @{}", entry.to_string(), entry.precision()));
            }
        }
        out.push(format!(
            "{} {} {}",
            b.position.x.precision(),
            b.velocity.x.precision(),
            b.id()
        ));
    }
    out
}

#[test]
fn new_simulation_is_empty() {
    let sim = Simulation::new();
    assert!(sim.bodies.is_empty());
    assert!(sim.get_body_by_id(0).is_none());
}

#[test]
fn ids_go_in_pre_order_and_records_in_post_order() {
    let sim = system();
    let held: Vec<(String, i32, Option<i32>)> = sim
        .bodies
        .iter()
        .map(|b| (b.body.name.clone(), b.id(), b.parent()))
        .collect();
    let expected = [
        ("venus", 1, Some(0)),
        ("moon", 3, Some(2)),
        ("earth", 2, Some(0)),
        ("mars", 4, Some(0)),
        ("sun", 0, None),
    ];
    assert_eq!(held.len(), expected.len());
    for (h, e) in held.iter().zip(expected.iter()) {
        assert_eq!((h.0.as_str(), h.1, h.2), *e);
    }
}

#[test]
fn add_hierarchy_returns_the_id_of_the_root_and_counts_on() {
    let mut sim = Simulation::new();
    let first = sim.add_hierarchy(
        fixed("a", vec3("0", "0", "0"), "1", vec![orbiting("b", "1", "1", vec![])]),
        None,
    );
    let second = sim.add_hierarchy(fixed("c", vec3("0", "0", "0"), "1", vec![]), None);
    let third = sim.add_hierarchy(orbiting("d", "1", "1", vec![]), Some(first));
    assert_eq!((first, second, third), (0, 2, 3));
    assert_eq!(sim.get_body("d").unwrap().parent(), Some(0));
    assert_eq!(sim.bodies.len(), 4);
}

#[test]
fn new_bodies_rest_in_the_origin() {
    let sim = system();
    for b in sim.bodies.iter() {
        assert_eq!(b.position.to_string(), "{ x: 0, y: 0, z: 0 }");
        assert_eq!(b.velocity.to_string(), "{ x: 0, y: 0, z: 0 }");
        assert_eq!(b.orientation.data[0][0].to_string(), "1");
        assert_eq!(b.orientation.data[0][1].to_string(), "0");
        assert_eq!(b.orientation.data[2][2].to_string(), "1");
    }
}

#[test]
fn bodies_are_found_by_name_and_by_id() {
    let sim = system();
    assert_eq!(sim.get_body("earth").unwrap().id(), 2);
    assert_eq!(sim.get_body_by_name("moon").unwrap().id(), 3);
    assert_eq!(sim.get_body_by_id(4).unwrap().body.name, "mars");
    assert!(sim.get_body_by_name("pluto").is_none());
    assert!(sim.get_body_by_id(5).is_none());
    assert!(sim.get_body_by_id(-1).is_none());
}

#[test]
fn a_missing_body_is_a_lookup_miss() {
    let sim = system();
    assert!(matches!(sim.get_body("pluto"), Err(Violation::LookupMiss)));
    assert!(matches!(sim.get_body("Earth"), Err(Violation::LookupMiss)));
    assert!(matches!(
        sim.get_surface_velocity("pluto", &vec3("1", "0", "0")),
        Err(Violation::LookupMiss)
    ));
}

#[test]
fn descendants_come_in_depth_first_pre_order() {
    let sim = system();
    let sun = sim.get_body("sun").unwrap();
    assert_eq!(
        names(&sim.resolve_hierarchy_down(sun)),
        ["venus", "earth", "moon", "mars"]
    );
    let earth = sim.get_body("earth").unwrap();
    assert_eq!(names(&sim.resolve_hierarchy_down(earth)), ["moon"]);
    let moon = sim.get_body("moon").unwrap();
    assert!(sim.resolve_hierarchy_down(moon).is_empty());
}

#[test]
fn ancestors_come_nearest_first() {
    let sim = system();
    let moon = sim.get_body("moon").unwrap();
    assert_eq!(names(&sim.resolve_hierarchy_up(moon)), ["earth", "sun"]);
    let mars = sim.get_body("mars").unwrap();
    assert_eq!(names(&sim.resolve_hierarchy_up(mars)), ["sun"]);
    let sun = sim.get_body("sun").unwrap();
    assert!(sim.resolve_hierarchy_up(sun).is_empty());
}

#[test]
fn a_child_is_below_its_parent_and_the_parent_once_above_the_child() {
    let sim = system();
    for body in sim.bodies.iter() {
        if let Some(parent_id) = body.parent() {
            let parent = sim.get_body_by_id(parent_id).unwrap();
            let down = sim.resolve_hierarchy_down(parent);
            assert_eq!(down.iter().filter(|b| b.id() == body.id()).count(), 1);
            let up = sim.resolve_hierarchy_up(body);
            assert_eq!(up.iter().filter(|b| b.id() == parent_id).count(), 1);
            assert_eq!(up[0].id(), parent_id);
            for (at, ancestor) in up.iter().enumerate() {
                assert!(up[at + 1..].iter().all(|b| b.id() < ancestor.id()));
            }
        }
    }
}

#[test]
fn update_leaves_static_bodies_and_moves_what_orbits_them() {
    let mut sim = system();
    sim.update(dec("0.0000000000")).unwrap();
    let sun = sim.get_body("sun").unwrap();
    assert_eq!(sun.position.to_string(), "{ x: 0, y: 0, z: 0 }");
    // at time zero the phase angle is zero: the body stands at (radius, 0, 0)
    // from where its parent is held to be
    let earth = sim.get_body("earth").unwrap();
    assert_eq!(earth.position.to_string(), "{ x: 149597870691, y: 0, z: 0 }");
    let moon = sim.get_body("moon").unwrap();
    assert_eq!(moon.position.to_string(), "{ x: 149982270691, y: 0, z: 0 }");
    assert_eq!(earth.orientation.data[1][1].to_string(), "1");
}

#[test]
fn update_follows_the_circular_orbit() {
    let mut sim = system();
    // a quarter of the earth's period
    sim.update(dec("7884000.0000000")).unwrap();
    let earth = sim.get_body("earth").unwrap();
    let r = 149597870691.0;
    assert!(approx(&earth.position.x).abs() < 1e-3);
    assert!(approx(&earth.position.y).abs() < 1e-3);
    assert!((approx(&earth.position.z).abs() - r).abs() < 1e-3);
    // the way made in the last time unit
    let speed = approx(&earth.velocity.length().unwrap());
    let expected = 2.0 * std::f64::consts::PI * r / 31536000.0;
    assert!((speed - expected).abs() < 1e-3 * expected);
    // the moon goes by where the earth is now
    let moon = sim.get_body("moon").unwrap();
    let d = approx(&moon.position.distance_to(&earth.position).unwrap());
    assert!((d - 384400000.0).abs() < 1e-3);
}

#[test]
fn update_turns_the_body_about_its_axis() {
    let mut sim = system();
    // a quarter of a day
    sim.update(dec("21600.000000000")).unwrap();
    let earth = sim.get_body("earth").unwrap();
    let turned = earth.orientation.apply(&vec3("1", "0", "0")).unwrap();
    assert!(approx(&turned.x).abs() < 1e-9);
    assert!((approx(&turned.z).abs() - 1.0).abs() < 1e-9);
}

#[test]
fn a_second_update_to_the_same_time_changes_nothing() {
    let mut sim = system();
    sim.update(dec("123123.00000000")).unwrap();
    let once = state(&sim);
    sim.update(dec("123123.00000000")).unwrap();
    assert_eq!(state(&sim), once);
    sim.update(dec("123123.00000000")).unwrap();
    assert_eq!(state(&sim), once);
}

#[test]
fn a_static_body_below_another_is_brought_to_its_place() {
    let inner = fixed(
        "station",
        vec3("7", "8", "9"),
        "1",
        vec![orbiting("probe", "10.000000", "100.00000", vec![])],
    );
    let outer = fixed("hub", vec3("1", "2", "3"), "1", vec![inner]);
    let mut sim = Simulation::new();
    sim.add_hierarchy(outer, None);
    sim.update(dec("0.0000000")).unwrap();
    assert_eq!(sim.get_body("hub").unwrap().position.to_string(), "{ x: 0, y: 0, z: 0 }");
    assert_eq!(
        sim.get_body("station").unwrap().position.to_string(),
        "{ x: 7, y: 8, z: 9 }"
    );
    assert_eq!(
        sim.get_body("probe").unwrap().position.to_string(),
        "{ x: 17, y: 8, z: 9 }"
    );
    let once = state(&sim);
    sim.update(dec("0.0000000")).unwrap();
    assert_eq!(state(&sim), once);
}

#[test]
fn bodies_below_no_static_body_are_never_updated() {
    let mut sim = Simulation::new();
    sim.add_hierarchy(
        orbiting("rogue", "10.000", "100.00", vec![orbiting("mate", "1.0000", "10.000", vec![])]),
        None,
    );
    assert_eq!(sim.update(dec("5.0000")), Ok(()));
    for b in sim.bodies.iter() {
        assert_eq!(b.position.to_string(), "{ x: 0, y: 0, z: 0 }");
    }
}

#[test]
fn an_orbit_without_a_period_is_unrepresentable() {
    let mut sim = Simulation::new();
    sim.add_hierarchy(
        fixed("hub", vec3("0", "0", "0"), "1", vec![orbiting("stuck", "10.000", "0", vec![])]),
        None,
    );
    assert_eq!(sim.update(dec("5.0000")), Err(Violation::Unrepresentable));
}

#[test]
fn an_orbiting_body_without_a_parent_cannot_be_placed() {
    let mut sim = Simulation::new();
    sim.add_hierarchy(orbiting("rogue", "10.000", "100.00", vec![]), None);
    let rogue = sim.get_body("rogue").unwrap();
    assert!(matches!(
        sim.get_body_position(&dec("5.0000"), rogue),
        Err(Violation::UnreachableParent)
    ));
    assert!(sim.get_body_orientation(&dec("5.0000"), rogue).is_some());
}

#[test]
fn a_static_body_is_placed_where_it_was_described() {
    let sim = system();
    let sun = sim.get_body("sun").unwrap();
    let p = sim.get_body_position(&dec("5.0000"), sun).unwrap();
    assert_eq!(p.to_string(), "{ x: 5000000000, y: 0, z: 0 }");
}

#[test]
fn closest_static_body_is_the_nearest_and_the_first_of_equals() {
    let mut sim = Simulation::new();
    sim.add_hierarchy(fixed("left", vec3("0", "0", "0"), "1", vec![]), None);
    sim.add_hierarchy(fixed("right", vec3("0", "0", "0"), "1", vec![]), None);
    // both are held at the origin until an update reaches them: a tie
    let found = sim.find_closest_static(&vec3("1.000", "2.000", "2.000")).unwrap();
    assert_eq!(found.body.name, "left");
}

#[test]
fn closest_static_body_goes_by_where_the_bodies_are_held() {
    let far = fixed("far", vec3("100.00", "0", "0"), "1", vec![]);
    let near = fixed("near", vec3("1.0000", "0", "0"), "1", vec![]);
    let hub = fixed("hub", vec3("0", "0", "0"), "1", vec![far, near]);
    let mut sim = Simulation::new();
    sim.add_hierarchy(hub, None);
    sim.update(dec("0.0000")).unwrap();
    assert_eq!(
        sim.find_closest_static(&vec3("2.0000", "0.0000", "0.0000")).unwrap().body.name,
        "near"
    );
    assert_eq!(
        sim.find_closest_static(&vec3("90.000", "0.0000", "0.0000")).unwrap().body.name,
        "far"
    );
}

#[test]
fn without_a_static_body_the_closest_is_a_lookup_miss() {
    let empty = Simulation::new();
    let point = vec3("1.000", "2.000", "2.000");
    assert!(matches!(empty.find_closest_static(&point), Err(Violation::LookupMiss)));
    assert!(matches!(empty.find_closest_body(&point), Err(Violation::LookupMiss)));
    assert!(matches!(empty.calculate_gravity_flux(&point), Err(Violation::LookupMiss)));
    let mut rogue = Simulation::new();
    rogue.add_hierarchy(orbiting("rogue", "10.000", "100.00", vec![]), None);
    assert!(matches!(rogue.find_closest_static(&point), Err(Violation::LookupMiss)));
}

#[test]
fn closest_body_is_a_descendant_of_the_closest_static_body() {
    let mut sim = system();
    sim.update(dec("0.0000000000")).unwrap();
    let near_moon = vec3("149982270000.00", "0.00", "0.00");
    assert_eq!(sim.find_closest_body(&near_moon).unwrap().body.name, "moon");
    let near_venus = vec3("108200000001.00", "0.00", "0.00");
    assert_eq!(sim.find_closest_body(&near_venus).unwrap().body.name, "venus");
    // the static body itself does not compete with its descendants
    let near_sun = vec3("1.0000000000000", "0.00", "0.00");
    assert_eq!(sim.find_closest_body(&near_sun).unwrap().body.name, "venus");
    let found = sim.find_closest_body(&near_moon).unwrap();
    assert!(sim.bodies.iter().any(|b| std::ptr::eq(b, found)));
}

#[test]
fn closest_body_of_a_lonely_static_body_is_that_body() {
    let mut sim = Simulation::new();
    sim.add_hierarchy(fixed("lonely", vec3("0", "0", "0"), "1", vec![]), None);
    let found = sim.find_closest_body(&vec3("1.000", "2.000", "2.000")).unwrap();
    assert_eq!(found.body.name, "lonely");
    let anchor = sim.find_closest_static(&vec3("1.000", "2.000", "2.000")).unwrap();
    assert!(std::ptr::eq(found, anchor));
}

#[test]
fn gravity_flux_of_one_body_follows_newton() {
    let mut sim = Simulation::new();
    sim.add_hierarchy(fixed("rock", vec3("0", "0", "0"), "1.000000e20", vec![]), None);
    // G m / d^2 = 6.67408e-11 * 1e20 / 1e6, towards the body
    let flux = sim.calculate_gravity_flux(&vec3("1000.000", "0.000", "0.000")).unwrap();
    assert_eq!(flux.to_string(), "{ x: -6674.08, y: 0, z: 0 }");
}

#[test]
fn gravity_flux_sums_over_the_local_system_only() {
    let mut sim = Simulation::new();
    let moonlet = orbiting("moonlet", "2000.0000000", "100.00000000", vec![]);
    sim.add_hierarchy(fixed("rock", vec3("0", "0", "0"), "1.000000e20", vec![moonlet]), None);
    sim.add_hierarchy(fixed("giant", vec3("0", "0", "0"), "1.000000e30", vec![]), None);
    sim.update(dec("0.00000000")).unwrap();
    // rock at the origin pulls with 6674.08 to the left, moonlet at x = 2000
    // with the same to the right; the giant is no part of the local system
    let flux = sim.calculate_gravity_flux(&vec3("1000.000", "0.000", "0.000")).unwrap();
    assert!(approx(&flux.x).abs() < 1e-6);
    assert!(approx(&flux.y).abs() < 1e-6);
}

#[test]
fn gravity_flux_at_a_body_is_unrepresentable() {
    let mut sim = Simulation::new();
    sim.add_hierarchy(fixed("rock", vec3("0", "0", "0"), "1.000000e20", vec![]), None);
    let at = vec3("0.000", "0.000", "0.000");
    assert!(matches!(sim.calculate_gravity_flux(&at), Err(Violation::Unrepresentable)));
}

#[test]
fn surface_velocity_is_the_spin_crossed_with_the_point() {
    let sim = system();
    // axis (0, 1, 0), one turn in 86400: (0, w, 0) x (r, 0, 0) = (0, 0, -w r)
    let v = sim
        .get_surface_velocity("earth", &vec3("6371000.0000000", "0", "0"))
        .unwrap();
    let expected = 2.0 * std::f64::consts::PI / 86400.0 * 6371000.0;
    assert!(v.x.is_zero());
    assert!(v.y.is_zero());
    assert!((approx(&v.z) + expected).abs() < 1e-9);
}

#[test]
fn a_simulation_built_by_its_methods_is_consistent() {
    let mut sim = system();
    assert!(sim.is_consistent());
    sim.update(dec("123123.00000000")).unwrap();
    assert!(sim.is_consistent());
    sim.add_hierarchy(orbiting("comet", "1.0000", "10.000", vec![]), Some(0));
    assert!(sim.is_consistent());
    assert!(Simulation::new().is_consistent());
}

#[test]
fn the_order_of_the_records_does_not_matter_for_consistency() {
    let mut sim = system();
    sim.bodies.swap(0, 4);
    assert!(sim.is_consistent());
    let sun = sim.get_body("sun").unwrap();
    assert_eq!(
        names(&sim.resolve_hierarchy_down(sun)),
        ["venus", "earth", "moon", "mars"]
    );
}

#[test]
fn a_simulation_changed_from_outside_is_found_out() {
    let mut short = system();
    short.bodies.pop();
    assert!(!short.is_consistent());

    let mut doubled = system();
    let copy = doubled.bodies[0].clone();
    doubled.bodies.push(copy);
    assert!(!doubled.is_consistent());

    let mut emptied = system();
    emptied.bodies.clear();
    assert!(!emptied.is_consistent());
}

#[test]
fn a_body_added_below_a_parent_has_that_parent_above_it() {
    let mut sim = system();
    sim.add_hierarchy(orbiting("comet", "1.0000", "10.000", vec![]), Some(2));
    let comet = sim.get_body("comet").unwrap();
    assert_eq!(names(&sim.resolve_hierarchy_up(comet)), ["earth", "sun"]);
    // the parent was not told of it
    let earth = sim.get_body("earth").unwrap();
    assert_eq!(names(&sim.resolve_hierarchy_down(earth)), ["moon"]);
}

#[test]
fn getters_hand_out_the_fields() {
    let mut sim = system();
    sim.update(dec("123123.00000000")).unwrap();
    assert_eq!(sim.bodies().len(), 5);
    let earth = sim.get_body("earth").unwrap();
    assert_eq!(earth.body().name, "earth");
    assert_eq!(earth.position().to_string(), earth.position.to_string());
    assert_eq!(earth.velocity().to_string(), earth.velocity.to_string());
    assert_eq!(
        earth.orientation().data[0][0].to_string(),
        earth.orientation.data[0][0].to_string()
    );
    assert_eq!(sim.bodies()[2].body().name, "earth");
}

#[test]
fn copies_of_a_record_keep_what_it_holds() {
    let mut sim = system();
    sim.update(dec("123123.00000000")).unwrap();
    let earth = sim.get_body("earth").unwrap();
    let copy = earth.clone();
    assert_eq!(copy.id(), earth.id());
    assert_eq!(copy.parent(), earth.parent());
    assert_eq!(copy.body.name, earth.body.name);
    assert_eq!(copy.body.satellites.len(), 1);
    assert_eq!(copy.position.to_string(), earth.position.to_string());
    assert_eq!(copy.velocity.to_string(), earth.velocity.to_string());
}
