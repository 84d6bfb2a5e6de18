//! End-to-end simulation tests: orbit round trips, energy conservation,
//! significance pruning, collision determinism and the error paths.

use orbits::body::{Body, Preset};
use orbits::scalar::Scalar;
use orbits::sim::{calc_acceleration, is_mass_significant, Orbital, SimError};
use orbits::vector::{Position, Velocity};

fn s2f(s: &Scalar) -> f64 {
    let v = (s.mant as f64) * 2f64.powi(s.exp as i32);
    if s.neg {
        -v
    } else {
        v
    }
}

fn load(app: &mut Orbital, preset_num: usize) {
    app.load_preset(preset_num).unwrap();
    // mirror the interactive pre-start flow: velocities feed the grouping,
    // the grouping feeds the velocity locks
    app.set_velocities().unwrap();
    app.refresh_hierarchy().unwrap();
    app.set_velocities().unwrap();
}

/// The satellite-around-fixed-Earth scenario: |r| = 6778 km (400 km
/// altitude), velocity from the circular-orbit formula; after one orbital
/// period (about 5560 s, from Kepler's third law) the position is back within
/// one percent and the energy drift stays under half a percent.
#[test]
fn low_earth_orbit_returns_after_one_period() {
    let mut app = Orbital::new();
    load(&mut app, 0);
    app.start().unwrap();

    let sat_start = app.hierarchy.bodies[1].absolute_pos;
    let (sx, sy) = (s2f(&sat_start.x), s2f(&sat_start.y));
    let r = (sx * sx + sy * sy).sqrt();
    assert!((r - 6778.0).abs() < 1.0);

    // one period, tick by tick (dt = 1 s)
    app.num_ticks = 5560;
    app.run().unwrap();

    let sat_end = app.hierarchy.bodies[1].absolute_pos;
    let (ex, ey) = (s2f(&sat_end.x), s2f(&sat_end.y));
    let miss = ((ex - sx).powi(2) + (ey - sy).powi(2)).sqrt();
    assert!(miss / r < 0.01, "missed the start by {} km", miss);

    let drift = s2f(&app.analysis.diff_percentage);
    assert!((drift - 100.0).abs() < 0.5, "energy drift {}", drift);
}

/// Two bodies at barycentric circular velocity come back to the start after
/// one full period (computable from Kepler's third law for the two-body
/// case), and the symplectic integrator keeps the energy drift small.
#[test]
fn binary_orbit_round_trip_and_energy_drift() {
    let mut b1 = Body::blank();
    b1.name = "a".to_string();
    b1.mass = Scalar::from_int(10_000_000_000_000_000_000_000);
    b1.absolute_pos = Position::new(Scalar::from_int(1000), Scalar::from_int(0));
    b1.lock_to_circular_velocity = true;
    b1.selected_vel_lock = 1;
    let mut b2 = Body::blank();
    b2.name = "b".to_string();
    b2.mass = Scalar::from_int(10_000_000_000_000_000_000_000);
    b2.absolute_pos = Position::new(Scalar::from_int(-1000), Scalar::from_int(0));
    b2.lock_to_circular_velocity = true;
    b2.selected_vel_lock = 0;

    let mut preset = Preset::earth_moon();
    preset.bodies = vec![b1, b2];
    preset.dt = Scalar::from_int(1);
    preset.ticks_per_press = 1;

    let mut app = Orbital::new();
    app.presets = vec![preset];
    load(&mut app, 0);
    app.start().unwrap();

    // v = sqrt(G (m1 + m2) / (d * 1e9)) / 2 per body; T = 2 pi rho / v
    let g: f64 = 6.674e-11;
    let v = (g * 2e22 / (2000.0 * 1e9) as f64).sqrt() / 2.0;
    let period = (2.0 * std::f64::consts::PI * 1000.0 / v).round() as i32;

    app.num_ticks = period;
    app.run().unwrap();

    let p1 = app.hierarchy.bodies[0].absolute_pos;
    let miss = ((s2f(&p1.x) - 1000.0).powi(2) + s2f(&p1.y).powi(2)).sqrt();
    assert!(miss / 1000.0 < 0.02, "missed the start by {} km", miss);

    let drift = s2f(&app.analysis.diff_percentage);
    assert!((drift - 100.0).abs() < 1.0, "energy drift {}", drift);
}

/// Energy drift over a long run of an untuned preset stays within one
/// percent: the symplectic ordering (velocity first, position with the new
/// velocity) is what keeps it bounded.
#[test]
fn equal_binary_energy_drift_stays_bounded() {
    let mut app = Orbital::new();
    load(&mut app, 4); // the equal-mass circular binary, dt = 10 s
    app.start().unwrap();
    app.num_ticks = 10_000;
    app.run().unwrap();
    assert!(!app.stopped);
    let drift = s2f(&app.analysis.diff_percentage);
    assert!((drift - 100.0).abs() < 1.0, "energy drift {}", drift);
}

/// Mass-ratio pruning: a body 1000 times lighter than another exerts zero
/// measurable acceleration on it — dropping it from the source list leaves
/// the heavy body's acceleration bit-for-bit unchanged.
#[test]
fn insignificant_sources_change_nothing() {
    let mut heavy = Body::earth();
    heavy.is_fixed = false;
    let mut light = Body::outer_low();
    light.pos = light.absolute_pos;
    assert!(!is_mass_significant(&heavy, &light));
    assert!(is_mass_significant(&light, &heavy));

    let mut moon = Body::moon();
    moon.pos = moon.absolute_pos;
    let with_light = calc_acceleration(&heavy, &vec![moon.full_copy(), light.full_copy()]);
    let without_light = calc_acceleration(&heavy, &vec![moon.full_copy()]);
    assert_eq!(with_light.x, without_light.x);
    assert_eq!(with_light.y, without_light.y);
    // while a significant source really does pull
    assert!(!with_light.x.is_zero() || !with_light.y.is_zero());
}

/// Collision determinism: two bodies on a direct collision course at known
/// positions, velocities and radii stop exactly at the tick where the
/// distance first reaches the radius sum, and the state freezes afterwards.
#[test]
fn head_on_collision_stops_at_the_exact_tick() {
    // negligible masses: the closing speed stays 2 km/s, so the gap of
    // 2000 - 800 km closes at tick 600
    let mut b1 = Body::blank();
    b1.name = "a".to_string();
    b1.mass = Scalar::from_int(1);
    b1.radius = Scalar::from_int(400);
    b1.absolute_pos = Position::new(Scalar::from_int(-1000), Scalar::from_int(0));
    b1.absolute_vel = Velocity::new(Scalar::from_int(1), Scalar::from_int(0));
    let mut b2 = Body::blank();
    b2.name = "b".to_string();
    b2.mass = Scalar::from_int(1);
    b2.radius = Scalar::from_int(400);
    b2.absolute_pos = Position::new(Scalar::from_int(1000), Scalar::from_int(0));
    b2.absolute_vel = Velocity::new(Scalar::from_int(-1), Scalar::from_int(0));

    let mut preset = Preset::earth_moon();
    preset.bodies = vec![b1, b2];
    preset.dt = Scalar::from_int(1);
    preset.ticks_per_press = 1;

    let mut app = Orbital::new();
    app.presets = vec![preset];
    app.load_preset(0).unwrap();
    // velocities are set manually here: no locks to apply
    app.start().unwrap();

    for tick in 1..=599 {
        app.step().unwrap();
        assert!(!app.stopped, "stopped early at tick {}", tick);
    }
    app.step().unwrap();
    assert!(app.stopped, "did not stop at tick 600");
    assert_eq!(app.collided, Some((0, 1)));

    // frozen: further steps are no-ops
    let pos_after = app.hierarchy.bodies[0].absolute_pos;
    let traj_len = app.hierarchy.bodies[0].trajectory.len();
    app.step().unwrap();
    app.step().unwrap();
    assert_eq!(app.hierarchy.bodies[0].absolute_pos.x, pos_after.x);
    assert_eq!(app.hierarchy.bodies[0].absolute_pos.y, pos_after.y);
    assert_eq!(app.hierarchy.bodies[0].trajectory.len(), traj_len);
}

/// Rebuilding the hierarchy twice from the same flat body list produces a
/// structurally identical tree, and `reset` returns every body to its first
/// snapshot.
#[test]
fn reset_restores_initial_state_and_hierarchy() {
    let mut app = Orbital::new();
    load(&mut app, 4);
    let before: Vec<(f64, f64)> = app
        .hierarchy
        .bodies
        .iter()
        .map(|b| (s2f(&b.absolute_pos.x), s2f(&b.absolute_pos.y)))
        .collect();
    let parents = app.hierarchy.parent.clone();
    app.start().unwrap();
    app.num_ticks = 500;
    app.run().unwrap();
    app.reset().unwrap();
    assert!(!app.started && !app.stopped);
    assert_eq!(app.hierarchy.parent, parents);
    for (i, (bx, by)) in before.iter().enumerate() {
        let ax = s2f(&app.hierarchy.bodies[i].absolute_pos.x);
        let ay = s2f(&app.hierarchy.bodies[i].absolute_pos.y);
        assert!((ax - bx).abs() < 1e-9 && (ay - by).abs() < 1e-9);
    }
}

#[test]
fn lock_errors_are_reported_without_changes() {
    let mut bad = Body::blank();
    bad.name = "bad".to_string();
    bad.mass = Scalar::from_int(5);
    bad.lock_to_circular_velocity = true;
    bad.selected_vel_lock = 99;
    let mut anchor = Body::blank();
    anchor.name = "anchor".to_string();
    anchor.mass = Scalar::from_int(5);
    anchor.absolute_pos = Position::new(Scalar::from_int(500), Scalar::from_int(0));

    let mut preset = Preset::earth_moon();
    preset.bodies = vec![bad, anchor];
    let mut app = Orbital::new();
    app.presets = vec![preset];
    app.load_preset(0).unwrap();
    assert_eq!(app.set_velocities(), Err(SimError::LockOutOfRange));

    // a lock against a coincident body has no defined formula
    let bodies = &mut app.hierarchy.bodies;
    bodies[0].selected_vel_lock = 1;
    bodies[1].pos = bodies[0].pos;
    assert_eq!(app.set_velocities(), Err(SimError::DegenerateLock));
}

#[test]
fn coincident_interacting_bodies_are_undefined_dynamics() {
    let mut b1 = Body::blank();
    b1.name = "a".to_string();
    b1.mass = Scalar::from_int(1000);
    b1.absolute_pos = Position::new(Scalar::from_int(0), Scalar::from_int(0));
    let mut b2 = Body::blank();
    b2.name = "b".to_string();
    b2.mass = Scalar::from_int(1000);
    b2.absolute_pos = Position::new(Scalar::from_int(0), Scalar::from_int(0));

    let mut preset = Preset::earth_moon();
    preset.bodies = vec![b1, b2];
    let mut app = Orbital::new();
    app.presets = vec![preset];
    app.load_preset(0).unwrap();
    app.start().unwrap_err();
}

#[test]
fn preset_catalog_round_trips_parameters() {
    let mut app = Orbital::new();
    let presets = Preset::defaults();
    assert_eq!(presets.len(), 7);
    app.load_preset(2).unwrap(); // the Moon-orbiting-Earth preset
    assert_eq!(app.num_ticks, 100_000);
    assert_eq!(app.distance_per_px, 4000);
    assert_eq!(app.dt, Scalar::from_int(1));
    assert_eq!(app.bodies.len(), 2);
    assert!(!app.started && !app.stopped);
    // time advances with the trajectory
    app.set_velocities().unwrap();
    app.start().unwrap();
    app.num_ticks = 10;
    app.run().unwrap();
    assert_eq!(app.t(), Scalar::from_int(10));
}
