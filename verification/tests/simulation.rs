use orbit_sim::au::au_to_meters;
use orbit_sim::body::{Body, BodyDynamics, OrbitingBodyDynamics, StaticBodyDynamics};
use orbit_sim::decimal::Decimal;
use orbit_sim::decimal_vector_3d::DecimalVector3d;
use orbit_sim::simulation::Simulation;
use std::str::FromStr;

fn f64_to_dbig(f: f64) -> Decimal {
    Decimal::from_str(f.to_string().as_str()).unwrap()
}

fn from_int(n: i64) -> Decimal {
    Decimal::from_str(n.to_string().as_str()).unwrap()
}

fn from_f64(x: f64, y: f64, z: f64) -> DecimalVector3d {
    DecimalVector3d::new(f64_to_dbig(x), f64_to_dbig(y), f64_to_dbig(z))
}

fn dbig_to_f64(v: &Decimal) -> f64 {
    f64::from_str(v.to_string().as_str()).unwrap()
}

fn prepare_sim() -> Simulation {
    let ten_to_24 = Decimal::from_str("1000000000000000000000000").unwrap();

    let moon = Body {
        name: String::from_str("moon").unwrap(),
        dynamics: BodyDynamics::Orbiting(OrbitingBodyDynamics {
            orbit_radius: from_int(384400000),
            orbit_period: from_int(27 * 24 * 3600),
            orbit_plane_normal: from_f64(0.0, 1.0, 0.1).normalized().unwrap(),
        }),
        mass: f64_to_dbig(0.073).mul(&ten_to_24).unwrap(),
        satellites: vec![],
        rotation_axis: from_f64(0.3, 1.0, 0.2).normalized().unwrap(),
        rotation_period: from_int(27 * 24 * 3600),
    };

    let earth = Body {
        name: String::from_str("earth").unwrap(),
        dynamics: BodyDynamics::Orbiting(OrbitingBodyDynamics {
            orbit_radius: au_to_meters(f64_to_dbig(1.0)).unwrap(),
            orbit_period: from_int(365 * 24 * 3600),
            orbit_plane_normal: from_f64(0.1, 1.0, 0.0).normalized().unwrap(),
        }),
        mass: f64_to_dbig(5.97219).mul(&ten_to_24).unwrap(),
        satellites: vec![moon.clone()],
        rotation_axis: from_f64(0.0, 1.0, 0.0).normalized().unwrap(),
        rotation_period: from_int(24 * 3600),
    };

    let sun = Body {
        name: String::from_str("sun").unwrap(),
        dynamics: BodyDynamics::Static(StaticBodyDynamics {
            position: DecimalVector3d::from_str(
                "64959787070023434667",
                "23454569021239234304",
                "29349283489",
            )
            .unwrap(),
        }),
        mass: f64_to_dbig(1988470.0).mul(&ten_to_24).unwrap(),
        satellites: vec![earth.clone()],
        rotation_axis: from_f64(0.0, 1.0, 0.0).normalized().unwrap(),
        rotation_period: from_int(7 * 24 * 3600),
    };

    let mut sim = Simulation::new();
    sim.add_hierarchy(sun, None);
    sim
}

#[test]
fn gravity_flux_works() {
    let mut sim = prepare_sim();
    sim.update(f64_to_dbig(123123.0)).unwrap();
    let earth_now = sim.get_body("earth").unwrap();
    let flux = sim
        .calculate_gravity_flux(
            &earth_now
                .position
                .add(&from_f64(6371000.0, 0.0, 0.0))
                .unwrap(),
        )
        .unwrap();
    println!("flux is {}", flux.length().unwrap().to_string());
    assert!((dbig_to_f64(&flux.length().unwrap()) - 9.82).abs() < 0.01);
}

#[test]
fn surface_velocity_works() {
    let sim = prepare_sim();
    let surf_vel = sim
        .get_surface_velocity("earth", &from_f64(6371000.0, 0.0, 0.0))
        .unwrap();
    println!("surf_vel is {}", surf_vel.length().unwrap().to_string());
    assert!((dbig_to_f64(&surf_vel.length().unwrap()) - 463.31).abs() < 0.01);
}
