use rand::SeedableRng;
use rand::rngs::StdRng;
use swarm_grid_steer::pso::{
    initialize_population, Particle, PsoParams, SwarmState, BEST_INF, CONVERGENCE_FP, DOMAIN_FP,
};

fn isqrt64(n: u64) -> u64 {
    let mut lo: u64 = 0;
    let mut hi: u64 = 0xFFFF_FFFF;
    while lo < hi {
        let mid = lo + (hi - lo + 1) / 2;
        if mid * mid <= n {
            lo = mid;
        } else {
            hi = mid - 1;
        }
    }
    lo
}

fn dist_fp(px: i64, py: i64, tx: i64, ty: i64) -> i64 {
    let dx = px - tx;
    let dy = py - ty;
    isqrt64((dx * dx + dy * dy) as u64) as i64
}

#[test]
fn initialize_population_draws_fresh_particles() {
    let mut rng = StdRng::seed_from_u64(1);
    let v = initialize_population(10, &mut rng).unwrap();
    assert_eq!(v.len(), 10);
    for p in &v {
        assert!(p.pos_x >= -DOMAIN_FP && p.pos_x < DOMAIN_FP);
        assert!(p.pos_y >= -DOMAIN_FP && p.pos_y < DOMAIN_FP);
        assert_eq!(p.vel_x, 0);
        assert_eq!(p.vel_y, 0);
        assert_eq!(p.best_x, p.pos_x);
        assert_eq!(p.best_y, p.pos_y);
        assert_eq!(p.best_val, BEST_INF);
    }
}

#[test]
fn initialize_population_rejects_empty() {
    let mut rng = StdRng::seed_from_u64(1);
    assert!(initialize_population(0, &mut rng).is_none());
    assert!(initialize_population(1, &mut rng).is_some());
}

#[test]
fn default_params() {
    let p = PsoParams::default();
    assert_eq!(p.population, 10);
    assert_eq!(p.generations, 15);
    assert_eq!(p.w, 600);
    assert_eq!(p.c1, 1800);
    assert_eq!(p.c2, 2100);
}

#[test]
fn set_target_resets_progress() {
    let mut rng = StdRng::seed_from_u64(3);
    let mut s = SwarmState::new(PsoParams::default());
    s.set_target(5000, -5000, &mut rng);
    s.step(&mut rng);
    assert_eq!(s.generation, 1);
    s.set_target(1000, 1000, &mut rng);
    assert_eq!(s.generation, 0);
    assert_eq!(s.gbest_val, BEST_INF);
    assert!(!s.converged);
    assert_eq!(s.target, Some((1000, 1000)));
    assert_eq!(s.particles.len(), 10);
    for p in &s.particles {
        assert_eq!(p.best_val, BEST_INF);
        assert_eq!(p.vel_x, 0);
    }
}

#[test]
fn step_without_target_is_a_no_op() {
    let mut rng = StdRng::seed_from_u64(4);
    let mut s = SwarmState::new(PsoParams::default());
    s.step(&mut rng);
    assert_eq!(s.generation, 0);
    assert_eq!(s.particles.len(), 0);
    assert!(!s.converged);
}

#[test]
fn step_after_convergence_is_a_no_op() {
    let mut rng = StdRng::seed_from_u64(5);
    let positions = vec![(0, 0), (100, 0), (0, 100)];
    let mut s = SwarmState::with_positions(PsoParams::default(), &positions, 0, 0);
    s.step(&mut rng);
    // the best distance (zero) is far below the threshold
    assert!(s.gbest_val < CONVERGENCE_FP);
    assert!(s.converged);
    let gen = s.generation;
    let saved: Vec<Particle> = s.particles.clone();
    s.step(&mut rng);
    assert_eq!(s.generation, gen);
    assert_eq!(s.particles, saved);
}

#[test]
fn personal_bests_never_worsen_and_positions_stay_in_domain() {
    let mut rng = StdRng::seed_from_u64(6);
    let mut s = SwarmState::new(PsoParams::default());
    s.set_target(20000, -15000, &mut rng);
    for _ in 0..20 {
        let before: Vec<i64> = s.particles.iter().map(|p| p.best_val).collect();
        s.step(&mut rng);
        for (p, b) in s.particles.iter().zip(before.iter()) {
            assert!(p.best_val <= *b);
            assert!(p.pos_x >= -DOMAIN_FP && p.pos_x <= DOMAIN_FP);
            assert!(p.pos_y >= -DOMAIN_FP && p.pos_y <= DOMAIN_FP);
        }
    }
}

#[test]
fn global_best_is_least_current_distance() {
    let mut rng = StdRng::seed_from_u64(7);
    let mut s = SwarmState::new(PsoParams::default());
    s.set_target(12000, 8000, &mut rng);
    for _ in 0..5 {
        let dists: Vec<i64> =
            s.particles.iter().map(|p| dist_fp(p.pos_x, p.pos_y, 12000, 8000)).collect();
        let expected = dists.iter().copied().min().unwrap();
        s.step(&mut rng);
        assert_eq!(s.gbest_val, expected);
    }
}

#[test]
fn global_best_equals_least_personal_best_on_fresh_swarm() {
    let mut rng = StdRng::seed_from_u64(8);
    let positions = vec![(1000, 0), (2000, 0), (3000, 0), (0, 4000), (5000, 5000)];
    let mut s = SwarmState::with_positions(PsoParams::default(), &positions, 0, 0);
    s.step(&mut rng);
    let min_best = s.particles.iter().map(|p| p.best_val).min().unwrap();
    assert_eq!(s.gbest_val, min_best);
    assert_eq!(s.gbest_val, 1000);
    assert_eq!((s.gbest_x, s.gbest_y), (1000, 0));
}

#[test]
fn global_best_never_beats_the_least_personal_best() {
    let mut rng = StdRng::seed_from_u64(13);
    let mut s = SwarmState::new(PsoParams::default());
    s.set_target(12000, 8000, &mut rng);
    for _ in 0..10 {
        s.step(&mut rng);
        if s.converged {
            break;
        }
        let min_best = s.particles.iter().map(|p| p.best_val).min().unwrap();
        assert!(s.gbest_val >= min_best);
    }
}

#[test]
fn zero_coefficients_leave_velocity_and_position_alone() {
    let mut rng = StdRng::seed_from_u64(9);
    let params = PsoParams { population: 5, generations: 15, w: 0, c1: 0, c2: 0 };
    let positions = vec![(1000, 0), (2000, 0), (3000, 0), (0, 4000), (5000, 5000)];
    let mut s = SwarmState::with_positions(params, &positions, 0, 0);
    s.step(&mut rng);
    for (p, (x, y)) in s.particles.iter().zip(positions.iter()) {
        assert_eq!(p.vel_x, 0);
        assert_eq!(p.vel_y, 0);
        assert_eq!((p.pos_x, p.pos_y), (*x, *y));
        assert_eq!(p.best_val, dist_fp(*x, *y, 0, 0));
    }
    assert_eq!(s.gbest_val, 1000);
}

#[test]
fn lone_particle_first_step_scores_its_distance_and_stays() {
    let mut rng = StdRng::seed_from_u64(10);
    let params = PsoParams { population: 3, generations: 50, w: 600, c1: 1800, c2: 2100 };
    let positions = vec![(0, 0)];
    let mut s = SwarmState::with_positions(params, &positions, 10000, 10000);
    s.step(&mut rng);
    // distance of (0,0) to (10,10) in fixed point: floor(10000 * sqrt(2))
    assert_eq!(s.gbest_val, 14142);
    // its own position is both personal and global best, so it does not move
    assert_eq!((s.particles[0].pos_x, s.particles[0].pos_y), (0, 0));
}

#[test]
fn social_pull_moves_the_far_particle_strictly_closer() {
    let mut rng = StdRng::seed_from_u64(42);
    let params = PsoParams { population: 3, generations: 50, w: 600, c1: 1800, c2: 2100 };
    let positions = vec![(0, 0), (5000, 5000)];
    let mut s = SwarmState::with_positions(params, &positions, 10000, 10000);
    s.step(&mut rng);
    // the nearer particle holds the global best
    assert_eq!(s.gbest_val, 7071);
    assert_eq!((s.gbest_x, s.gbest_y), (5000, 5000));
    // the far particle is pulled toward it: strictly closer to the target
    // on both axes
    let p = &s.particles[0];
    assert!(p.pos_x > 0 && p.pos_x < 20000);
    assert!(p.pos_y > 0 && p.pos_y < 20000);
}

#[test]
fn generation_limit_marks_convergence() {
    let mut rng = StdRng::seed_from_u64(11);
    let params = PsoParams { population: 3, generations: 2, w: 600, c1: 1800, c2: 2100 };
    let positions = vec![(-20000, -20000), (-25000, 0), (0, -25000)];
    let mut s = SwarmState::with_positions(params, &positions, 25000, 25000);
    s.step(&mut rng);
    s.step(&mut rng);
    assert!(s.generation >= 2 || s.converged);
    assert!(s.converged);
}

#[test]
fn setters_clamp_their_ranges() {
    let mut s = SwarmState::new(PsoParams::default());
    s.set_population(1);
    assert_eq!(s.params.population, 3);
    s.set_population(25);
    assert_eq!(s.params.population, 25);
    s.set_w(5000);
    assert_eq!(s.params.w, 1200);
    s.set_w(-10);
    assert_eq!(s.params.w, 0);
    s.set_c1(-5);
    assert_eq!(s.params.c1, 0);
    s.set_c1(2500);
    assert_eq!(s.params.c1, 2500);
    s.set_c2(300);
    assert_eq!(s.params.c2, 300);
    s.set_generations(99);
    assert_eq!(s.params.generations, 99);
}

#[test]
fn reset_keeps_target_and_redraws_population() {
    let mut rng = StdRng::seed_from_u64(12);
    let mut s = SwarmState::new(PsoParams::default());
    s.set_target(9000, 9000, &mut rng);
    s.step(&mut rng);
    s.reset(&mut rng);
    assert_eq!(s.target, Some((9000, 9000)));
    assert_eq!(s.generation, 0);
    assert_eq!(s.gbest_val, BEST_INF);
    assert!(!s.converged);
    assert_eq!(s.particles.len(), 10);
}
