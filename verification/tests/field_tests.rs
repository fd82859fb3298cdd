use particle_sim::driver::{ConsistencyMode, RunConfig};
use particle_sim::field::ParticleSystem;
use particle_sim::particle::Particle;

fn system_with(particles: Vec<Particle>, enclosure_size: u64, collision_threshold: u64) -> ParticleSystem {
    ParticleSystem {
        particles,
        enclosure_size,
        collision_threshold,
        collision_count: 0,
    }
}

#[test]
fn two_close_particles_collide_once() {
    // Enclosure 10.0, particles at (5.0, 5.0) and (5.05, 5.05), threshold 0.2,
    // in fixed-point ticks at scale 1000.
    let sys = system_with(
        vec![Particle { x: 5000, y: 5000 }, Particle { x: 5050, y: 5050 }],
        10_000,
        200,
    );
    assert_eq!(sys.check_collisions(), 1);
}

#[test]
fn moved_apart_no_collision() {
    let sys = system_with(
        vec![Particle { x: 5000, y: 5000 }, Particle { x: 8000, y: 8000 }],
        10_000,
        200,
    );
    assert_eq!(sys.check_collisions(), 0);
}

#[test]
fn all_identical_positions_count_all_pairs() {
    let n: usize = 6;
    let particles = vec![Particle { x: 777, y: 777 }; n];
    let sys = system_with(particles, 10_000, 1);
    assert_eq!(sys.check_collisions(), (n * (n - 1) / 2) as u64);
}

#[test]
fn all_separated_count_zero() {
    let particles = vec![
        Particle { x: 0, y: 0 },
        Particle { x: 5000, y: 0 },
        Particle { x: 0, y: 5000 },
        Particle { x: 5000, y: 5000 },
    ];
    let sys = system_with(particles, 10_000, 200);
    assert_eq!(sys.check_collisions(), 0);
}

#[test]
fn permuting_particles_keeps_count() {
    let a = Particle { x: 100, y: 100 };
    let b = Particle { x: 150, y: 150 };
    let c = Particle { x: 9000, y: 9000 };
    let d = Particle { x: 9100, y: 9050 };
    let one = system_with(vec![a, b, c, d], 10_000, 200);
    let two = system_with(vec![d, b, a, c], 10_000, 200);
    let three = system_with(vec![c, d, b, a], 10_000, 200);
    let count = one.check_collisions();
    assert_eq!(count, 2);
    assert_eq!(two.check_collisions(), count);
    assert_eq!(three.check_collisions(), count);
}

#[test]
fn empty_field_scans_to_zero() {
    let config = RunConfig {
        particle_count: 0,
        enclosure_size: 10_000,
        run_duration_ms: 0,
        collision_threshold: 200,
        mode: ConsistencyMode::SharedLock,
    };
    let mut sys = ParticleSystem::new(&config);
    assert_eq!(sys.get_particle_count(), 0);
    assert_eq!(sys.check_collisions(), 0);
    sys.scan_and_record();
    assert_eq!(sys.get_collision_count(), 0);
}

#[test]
fn single_particle_never_collides_with_itself() {
    let sys = system_with(vec![Particle { x: 42, y: 42 }], 10_000, 200);
    assert_eq!(sys.check_collisions(), 0);
}

#[test]
fn tally_accumulates_exact_total() {
    let scans: [u64; 4] = [3, 0, 7, 5];
    let mut sys = system_with(Vec::new(), 10_000, 200);
    for s in scans {
        sys.record_collisions(s);
    }
    assert_eq!(sys.get_collision_count(), 15);

    let mut reordered = system_with(Vec::new(), 10_000, 200);
    for s in [5, 7, 0, 3] {
        reordered.record_collisions(s);
    }
    assert_eq!(reordered.get_collision_count(), 15);
}

#[test]
fn folding_all_scans_yields_exact_total() {
    let mut sys = system_with(Vec::new(), 10_000, 200);
    sys.record_all(&vec![1, 2, 3, 4, 5, 0, 85]);
    assert_eq!(sys.get_collision_count(), 100);
    sys.record_all(&Vec::new());
    assert_eq!(sys.get_collision_count(), 100);
    sys.record_all(&vec![85, 0, 5, 4, 3, 2, 1]);
    assert_eq!(sys.get_collision_count(), 200);
}

#[test]
fn tally_saturates_instead_of_wrapping() {
    let mut sys = system_with(Vec::new(), 10_000, 200);
    sys.record_collisions(u64::MAX - 1);
    sys.record_collisions(10);
    assert_eq!(sys.get_collision_count(), u64::MAX);
}

#[test]
fn scan_and_record_folds_scan_into_tally() {
    let mut sys = system_with(
        vec![Particle { x: 5000, y: 5000 }, Particle { x: 5050, y: 5050 }],
        10_000,
        200,
    );
    sys.scan_and_record();
    sys.scan_and_record();
    assert_eq!(sys.get_collision_count(), 2);
    // The scan itself leaves the particles untouched.
    assert_eq!(sys.get_particle_positions(), vec![(5000, 5000), (5050, 5050)]);
}

#[test]
fn positions_snapshot_reports_every_particle() {
    let sys = system_with(
        vec![Particle { x: 1, y: 2 }, Particle { x: 3, y: 4 }],
        10_000,
        200,
    );
    assert_eq!(sys.get_particle_positions(), vec![(1, 2), (3, 4)]);
}

#[test]
fn random_placement_stays_inside_enclosure() {
    let config = RunConfig {
        particle_count: 50,
        enclosure_size: 1000,
        run_duration_ms: 0,
        collision_threshold: 200,
        mode: ConsistencyMode::SplitTally,
    };
    let sys = ParticleSystem::new(&config);
    assert_eq!(sys.get_particle_count(), 50);
    assert!(sys.is_well_formed());
    for (x, y) in sys.get_particle_positions() {
        assert!(x < 1000);
        assert!(y < 1000);
    }
}

#[test]
fn moving_particles_keeps_clamp_invariant() {
    let config = RunConfig {
        particle_count: 20,
        enclosure_size: 2000,
        run_duration_ms: 0,
        collision_threshold: 200,
        mode: ConsistencyMode::SharedLock,
    };
    let mut sys = ParticleSystem::new(&config);
    for _ in 0..100 {
        sys.move_particles();
        for (x, y) in sys.get_particle_positions() {
            assert!(x <= 2000);
            assert!(y <= 2000);
        }
    }
    assert!(sys.is_well_formed());
    assert_eq!(sys.get_particle_count(), 20);
}

#[test]
fn collide_is_symmetric() {
    let a = Particle { x: 10, y: 20 };
    let b = Particle { x: 110, y: 140 };
    assert_eq!(a.collide(&b, 200), b.collide(&a, 200));
    assert_eq!(a.collide(&b, 100), b.collide(&a, 100));
}

#[test]
fn collide_threshold_is_strict() {
    let a = Particle { x: 0, y: 0 };
    let b = Particle { x: 300, y: 400 };
    // Distance is exactly 500 ticks: strictly-less comparison rejects it.
    assert!(!a.collide(&b, 500));
    assert!(a.collide(&b, 501));
}

#[test]
fn particle_moves_at_most_one_unit_per_step() {
    let mut p = Particle { x: 5000, y: 5000 };
    let before = p.get_position();
    p.move_particle(10_000);
    let after = p.get_position();
    assert!(after.0.abs_diff(before.0) <= 1000);
    assert!(after.1.abs_diff(before.1) <= 1000);
    assert!(after.0 <= 10_000 && after.1 <= 10_000);
}

#[test]
fn advance_by_clamps_to_enclosure() {
    let mut p = Particle { x: 10, y: 990 };
    p.advance_by(-500, 500, 1000);
    assert_eq!(p.get_position(), (0, 1000));
    let mut q = Particle { x: 400, y: 400 };
    q.advance_by(100, -150, 1000);
    assert_eq!(q.get_position(), (500, 250));
}

#[test]
fn degenerate_enclosure_pins_particles_to_origin() {
    let config = RunConfig {
        particle_count: 3,
        enclosure_size: 0,
        run_duration_ms: 0,
        collision_threshold: 1,
        mode: ConsistencyMode::SharedLock,
    };
    let mut sys = ParticleSystem::new(&config);
    sys.move_particles();
    for (x, y) in sys.get_particle_positions() {
        assert_eq!((x, y), (0, 0));
    }
    // All three sit at one point: 3 * 2 / 2 pairs collide.
    assert_eq!(sys.check_collisions(), 3);
}
