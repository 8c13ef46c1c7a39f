use cloth_sim::params::{ConfigError, PhysicalConstants, SimulationParameters, Sphere};
use cloth_sim::sim::{initialize, step_particle, Particle};
use cloth_sim::topology::NO_NEIGHBOR;
use cloth_sim::vec3::Vec3;

fn v(x: i64, y: i64, z: i64) -> Vec3 {
    Vec3 { x, y, z }
}

/// A sphere far below everything, so collisions never trigger.
fn sphere_far() -> Sphere {
    Sphere { center: v(0, -1_000_000_000, 0), radius: 1000 }
}

fn constants(
    mass: i64,
    rest_length: i64,
    stiffness: i64,
    damping: i64,
    friction: i64,
) -> PhysicalConstants {
    PhysicalConstants {
        mass,
        rest_length,
        structural_stiffness: stiffness,
        shear_stiffness: stiffness,
        bend_stiffness: stiffness,
        damping_factor: damping,
        friction_factor: friction,
    }
}

fn params(c: &PhysicalConstants, delta_time: i64, count: u32, sphere: Sphere) -> SimulationParameters {
    SimulationParameters {
        delta_time,
        particle_count: count,
        particle_radius: 800,
        sphere,
        mass: c.mass,
        rest_length: c.rest_length,
        structural_stiffness: c.structural_stiffness,
        shear_stiffness: c.shear_stiffness,
        bend_stiffness: c.bend_stiffness,
        damping_factor: c.damping_factor,
        friction_factor: c.friction_factor,
    }
}

/// Two particles joined by one structural spring along the x axis.
fn spring_pair(x0: i64, x1: i64) -> Vec<Particle> {
    vec![
        Particle {
            position: v(x0, 0, 0),
            velocity: v(0, 0, 0),
            neighbors: [NO_NEIGHBOR, 1, NO_NEIGHBOR, NO_NEIGHBOR],
        },
        Particle {
            position: v(x1, 0, 0),
            velocity: v(0, 0, 0),
            neighbors: [0, NO_NEIGHBOR, NO_NEIGHBOR, NO_NEIGHBOR],
        },
    ]
}

/// Steps every particle against the pre-step buffer, then swaps: the
/// double-buffered schedule.
fn advance_buffer(pr: &SimulationParameters, parts: &mut Vec<Particle>) {
    let mut next = Vec::new();
    for i in 0..parts.len() {
        next.push(step_particle(pr, parts, i));
    }
    *parts = next;
}

#[test]
fn initialize_rejects_zero_row_size() {
    let r = initialize(0, 3000, 25_000, 800, sphere_far(), constants(1000, 6000, 1000, 3500, 100));
    assert_eq!(r.unwrap_err(), ConfigError::ZeroRowSize);
}

#[test]
fn initialize_rejects_non_positive_mass() {
    let r = initialize(5, 3000, 25_000, 800, sphere_far(), constants(0, 6000, 1000, 3500, 100));
    assert_eq!(r.unwrap_err(), ConfigError::NonPositiveMass);
    let r = initialize(5, 3000, 25_000, 800, sphere_far(), constants(-7, 6000, 1000, 3500, 100));
    assert_eq!(r.unwrap_err(), ConfigError::NonPositiveMass);
}

#[test]
fn initialize_rejects_degenerate_sphere() {
    let bad = Sphere { center: v(0, 0, 0), radius: 0 };
    let r = initialize(5, 3000, 25_000, 800, bad, constants(1000, 6000, 1000, 3500, 100));
    assert_eq!(r.unwrap_err(), ConfigError::DegenerateSphereRadius);
}

#[test]
fn initialize_lays_out_the_grid() {
    let s = initialize(2, 3000, 25_000, 800, sphere_far(), constants(1000, 6000, 1000, 3500, 100))
        .unwrap();
    assert_eq!(s.particles.len(), 4);
    // offset is 2 * 3000 / 2 = 3000
    assert_eq!(s.particles[0].position, v(-3000, 25_000, -3000));
    assert_eq!(s.particles[1].position, v(0, 25_000, -3000));
    assert_eq!(s.particles[2].position, v(-3000, 25_000, 0));
    assert_eq!(s.particles[3].position, v(0, 25_000, 0));
    for p in &s.particles {
        assert_eq!(p.velocity, v(0, 0, 0));
    }
    assert_eq!(s.particles[0].neighbors, [NO_NEIGHBOR, 1, NO_NEIGHBOR, 2]);
    assert_eq!(s.particles[3].neighbors, [2, NO_NEIGHBOR, 1, NO_NEIGHBOR]);
}

#[test]
fn scenario_one_step_of_a_stretched_pair() {
    // Two particles 10.0 apart, rest length 6.0, stiffness 1.0, mass 1.0,
    // no damping, no friction, sphere out of range, one step of 0.016 s.
    // Spring force 1.0 * (10.0 - 6.0) = 4.0 pulls them together, so each
    // accelerates by 4.0, gains velocity 0.064, and moves 0.001024,
    // truncated to the fixed-point unit 0.001.
    let parts = spring_pair(0, 10_000);
    let pr = params(&constants(1000, 6000, 1000, 0, 0), 16, 2, sphere_far());
    let p0 = step_particle(&pr, &parts, 0);
    let p1 = step_particle(&pr, &parts, 1);
    assert_eq!(p0.velocity, v(64, 0, 0));
    assert_eq!(p1.velocity, v(-64, 0, 0));
    assert_eq!(p0.position, v(1, 0, 0));
    assert_eq!(p1.position, v(9999, 0, 0));
}

#[test]
fn rest_length_pair_stays_stationary() {
    // Exactly at rest length, zero velocity: stationary over many steps,
    // whatever damping is set to.
    let mut parts = spring_pair(0, 6000);
    let pr = params(&constants(1000, 6000, 1000, 3500, 0), 16, 2, sphere_far());
    for _ in 0..50 {
        advance_buffer(&pr, &mut parts);
        assert_eq!(parts[0].position, v(0, 0, 0));
        assert_eq!(parts[1].position, v(6000, 0, 0));
        assert_eq!(parts[0].velocity, v(0, 0, 0));
        assert_eq!(parts[1].velocity, v(0, 0, 0));
    }
}

#[test]
fn rest_length_grid_stays_stationary() {
    // A 2x2 grid spaced exactly at the rest length is a global equilibrium.
    let mut s = initialize(2, 6000, 25_000, 800, sphere_far(), constants(1000, 6000, 1000, 3500, 100))
        .unwrap();
    let initial: Vec<Vec3> = s.particles.iter().map(|p| p.position).collect();
    for _ in 0..20 {
        s.advance(16);
        for (p, q) in s.particles.iter().zip(initial.iter()) {
            assert_eq!(p.position, *q);
            assert_eq!(p.velocity, v(0, 0, 0));
        }
    }
}

#[test]
fn damped_pair_converges_to_rest_length() {
    // Stretched to 10.0 with rest length 6.0 and strong damping: the gap
    // error must decay toward zero and its amplitude must never grow.
    let mut parts = spring_pair(0, 10_000);
    let pr = params(&constants(1000, 6000, 1000, 3500, 0), 16, 2, sphere_far());
    let gap_error = |parts: &Vec<Particle>| -> i64 {
        ((parts[1].position.x - parts[0].position.x) - 6000).abs()
    };
    let initial = gap_error(&parts);
    let mut window_maxima = Vec::new();
    for _w in 0..10 {
        let mut m: i64 = 0;
        for _ in 0..100 {
            advance_buffer(&pr, &mut parts);
            let e = gap_error(&parts);
            assert!(e <= initial, "amplitude grew past the initial stretch");
            m = m.max(e);
        }
        window_maxima.push(m);
    }
    for w in 1..window_maxima.len() {
        assert!(
            window_maxima[w] <= window_maxima[w - 1],
            "oscillation amplitude increased between windows"
        );
    }
    // convergence is toward rest length up to the fixed-point resolution:
    // truncation freezes the motion once forces fall below one unit per step
    assert!(
        *window_maxima.last().unwrap() <= initial / 8,
        "gap error did not converge: {window_maxima:?}"
    );
}

fn distance_from(p: &Particle, center: Vec3) -> i64 {
    let dx = (p.position.x - center.x) as i128;
    let dy = (p.position.y - center.y) as i128;
    let dz = (p.position.z - center.z) as i128;
    let n = (dx * dx + dy * dy + dz * dz) as u128;
    let mut lo: u128 = 0;
    let mut hi: u128 = 1 << 64;
    while lo + 1 < hi {
        let mid = lo + (hi - lo) / 2;
        if mid * mid <= n {
            lo = mid;
        } else {
            hi = mid;
        }
    }
    lo as i64
}

#[test]
fn sphere_non_penetration_after_advance() {
    // A 3x3 grid built right inside a big sphere: after every advance, no
    // particle may remain interpenetrating (up to fixed-point tolerance).
    let sphere = Sphere { center: v(0, 0, 0), radius: 15_000 };
    let mut s = initialize(3, 3000, 0, 800, sphere, constants(1000, 6000, 1000, 3500, 100))
        .unwrap();
    let threshold = 15_000 + 800;
    for _ in 0..10 {
        s.advance(16);
        for p in &s.particles {
            let d = distance_from(p, v(0, 0, 0));
            assert!(
                d >= threshold - 50,
                "particle at {:?} penetrates the sphere: {d} < {threshold}",
                p.position
            );
        }
    }
}

#[test]
fn lone_particle_is_pushed_to_the_surface() {
    let sphere = Sphere { center: v(0, 0, 0), radius: 15_000 };
    let parts = vec![Particle {
        position: v(1000, 0, 0),
        velocity: v(0, 0, 0),
        neighbors: [NO_NEIGHBOR; 4],
    }];
    let pr = params(&constants(1000, 6000, 1000, 0, 0), 16, 1, sphere);
    let p = step_particle(&pr, &parts, 0);
    // pushed along +x to radius 15.0 + particle radius 0.8
    assert_eq!(p.position, v(15_800, 0, 0));
    assert_eq!(p.velocity, v(0, 0, 0));
    // reapplied to the already-resting particle: unchanged
    let again = step_particle(&pr, &vec![p], 0);
    assert_eq!(again.position, p.position);
    assert_eq!(again.velocity, p.velocity);
}

#[test]
fn inward_velocity_is_removed_on_contact() {
    let sphere = Sphere { center: v(0, 0, 0), radius: 15_000 };
    let parts = vec![Particle {
        position: v(1000, 0, 0),
        velocity: v(-500, 0, 0),
        neighbors: [NO_NEIGHBOR; 4],
    }];
    // no friction so the inward velocity survives until contact handling
    let pr = params(&constants(1000, 6000, 1000, 0, 0), 16, 1, sphere);
    let p = step_particle(&pr, &parts, 0);
    assert_eq!(p.position, v(15_800, 0, 0));
    assert_eq!(p.velocity, v(0, 0, 0));
}

#[test]
fn particle_at_sphere_center_is_pushed_up() {
    let sphere = Sphere { center: v(2000, 3000, 4000), radius: 15_000 };
    let parts = vec![Particle {
        position: v(2000, 3000, 4000),
        velocity: v(0, 0, 0),
        neighbors: [NO_NEIGHBOR; 4],
    }];
    let pr = params(&constants(1000, 6000, 1000, 0, 0), 16, 1, sphere);
    let p = step_particle(&pr, &parts, 0);
    assert_eq!(p.position, v(2000, 3000 + 15_800, 4000));
}

#[test]
fn coincident_particles_contribute_no_force() {
    // A zero-length spring is guarded: zero contribution, nothing moves.
    let mut parts = spring_pair(500, 500);
    let pr = params(&constants(1000, 6000, 1000, 3500, 100), 16, 2, sphere_far());
    advance_buffer(&pr, &mut parts);
    assert_eq!(parts[0].position, v(500, 0, 0));
    assert_eq!(parts[1].position, v(500, 0, 0));
    assert_eq!(parts[0].velocity, v(0, 0, 0));
    assert_eq!(parts[1].velocity, v(0, 0, 0));
}

#[test]
fn friction_decays_free_velocity() {
    // A lone moving particle with no springs: friction alone must bleed
    // speed off toward zero.
    let mut parts = vec![Particle {
        position: v(0, 0, 0),
        velocity: v(10_000, 0, 0),
        neighbors: [NO_NEIGHBOR; 4],
    }];
    let pr = params(&constants(1000, 6000, 1000, 0, 10_000), 16, 1, sphere_far());
    let mut last = parts[0].velocity.x;
    for _ in 0..100 {
        advance_buffer(&pr, &mut parts);
        let now = parts[0].velocity.x;
        assert!(now >= 0 && now <= last, "friction must not reverse or grow speed");
        last = now;
    }
    assert!(last < 10_000, "friction had no effect");
}

#[test]
fn determinism_across_runs() {
    let c = constants(1000, 6000, 1000, 3500, 100);
    let sphere = Sphere { center: v(0, -20_000, 0), radius: 15_000 };
    let dts = [16, 17, 16, 33, 8, 16, 16, 25];
    let mut a = initialize(5, 3000, 2000, 800, sphere, c).unwrap();
    let mut b = initialize(5, 3000, 2000, 800, sphere, c).unwrap();
    for &dt in dts.iter() {
        a.advance(dt);
        b.advance(dt);
    }
    for (p, q) in a.particles.iter().zip(b.particles.iter()) {
        assert_eq!(p.position, q.position);
        assert_eq!(p.velocity, q.velocity);
    }
}

#[test]
fn in_range_reports_the_buffer_state() {
    let s = initialize(3, 3000, 2000, 800, sphere_far(), constants(1000, 6000, 1000, 3500, 100))
        .unwrap();
    assert!(s.in_range());
    let mut bad = s;
    bad.particles[0].position.x = i64::MAX / 2;
    assert!(!bad.in_range());
}

#[test]
fn advance_equals_per_particle_stepping() {
    // The scheduler must produce exactly the kernel's result for every
    // particle, all read from the pre-step buffer.
    let c = constants(1000, 6000, 1000, 3500, 100);
    let sphere = Sphere { center: v(0, -20_000, 0), radius: 15_000 };
    let mut s = initialize(4, 3000, 2000, 800, sphere, c).unwrap();
    let pr = params(&c, 16, 16, sphere);
    let mut manual = s.particles.clone();
    for _ in 0..5 {
        advance_buffer(&pr, &mut manual);
        s.advance(16);
        for (p, q) in s.particles.iter().zip(manual.iter()) {
            assert_eq!(p.position, q.position);
            assert_eq!(p.velocity, q.velocity);
            assert_eq!(p.neighbors, q.neighbors);
        }
    }
}

#[test]
fn full_sheet_stays_in_range() {
    // A full 15x15 cloth sheet hanging over the sphere.
    let c = constants(1000, 6000, 1000, 3500, 100);
    let sphere = Sphere { center: v(0, 0, 0), radius: 15_000 };
    let mut s = initialize(15, 3000, 25_000, 800, sphere, c).unwrap();
    assert_eq!(s.particles.len(), 225);
    for _ in 0..60 {
        assert!(s.in_range());
        s.advance(16);
    }
}
