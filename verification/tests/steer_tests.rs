use rand::SeedableRng;
use rand::rngs::StdRng;
use swarm_grid_steer::steer::{
    apply_force, arrive_force, containment_force, cos_deg, evade_force, flee_force, integrate,
    pursuit_force, seek_force, separation_all, separation_pair, sin_deg, wander_force,
    KinematicAgent, Vec2, WanderState, SPEED_LIMIT,
};
use swarm_grid_steer::SCALE;

fn v(x: i64, y: i64) -> Vec2 {
    Vec2 { x, y }
}

fn norm_sq(a: Vec2) -> i64 {
    a.x * a.x + a.y * a.y
}

fn agent(pos: Vec2, vel: Vec2, ms: i64, mf: i64) -> KinematicAgent {
    KinematicAgent { pos, vel, heading: v(SCALE, 0), max_speed: ms, max_force: mf }
}

#[test]
fn seek_force_is_exact_on_a_straight_line() {
    let f = seek_force(v(0, 0), v(0, 0), Some(v(10000, 0)), 3500, 800);
    assert_eq!(f, v(800, 0));
}

#[test]
fn flee_force_is_the_exact_opposite() {
    let f = flee_force(v(0, 0), v(0, 0), Some(v(10000, 0)), 3500, 800);
    assert_eq!(f, v(-800, 0));
}

#[test]
fn seek_force_never_exceeds_max_force() {
    let cases = [
        (v(0, 0), v(0, 0), v(1, 1), 4000, 700),
        (v(-999_999_999, 5), v(1_000_000, -1_000_000), v(999_999_999, -7), 1_000_000, 1),
        (v(123, -456), v(-789, 1000), v(123, -456), 0, 0),
        (v(5, 5), v(999_999, -999_999), v(-5, -5), 777, 909),
    ];
    for (pos, vel, t, ms, mf) in cases {
        let f = seek_force(pos, vel, Some(t), ms, mf);
        assert!(norm_sq(f) <= mf * mf);
        let f = flee_force(pos, vel, Some(t), ms, mf);
        assert!(norm_sq(f) <= mf * mf);
    }
}

#[test]
fn missing_targets_contribute_nothing() {
    assert_eq!(seek_force(v(1, 2), v(3, 4), None, 500, 600), v(0, 0));
    assert_eq!(flee_force(v(1, 2), v(3, 4), None, 500, 600), v(0, 0));
    assert_eq!(arrive_force(v(1, 2), v(3, 4), None, 5000, 500, 600), v(0, 0));
    assert_eq!(pursuit_force(v(1, 2), v(3, 4), None, 500, 600), v(0, 0));
    assert_eq!(evade_force(v(1, 2), v(3, 4), None, 500, 600), v(0, 0));
}

#[test]
fn arrive_slows_inside_the_radius() {
    // distance 2000 inside radius 5000: desired speed 4000 * 2000 / 5000
    let f = arrive_force(v(0, 0), v(0, 0), Some(v(2000, 0)), 5000, 4000, 700);
    assert_eq!(f, v(700, 0));
    let f = arrive_force(v(0, 0), v(0, 0), Some(v(2000, 0)), 5000, 4000, 2000);
    assert_eq!(f, v(1600, 0));
    // outside the radius: full speed
    let f = arrive_force(v(0, 0), v(0, 0), Some(v(20000, 0)), 5000, 4000, 5000);
    assert_eq!(f, v(4000, 0));
}

#[test]
fn pursuit_chases_the_predicted_point() {
    // target 10 units to the right moving right at 1 unit/s, own top speed 1:
    // predicted point 20 units out; desired straight right at full speed
    let f = pursuit_force(v(0, 0), v(0, 0), Some((v(10000, 0), v(1000, 0))), 1000, 900);
    assert_eq!(f, v(900, 0));
    let f = evade_force(v(0, 0), v(0, 0), Some((v(10000, 0), v(1000, 0))), 1000, 900);
    assert_eq!(f, v(-900, 0));
}

#[test]
fn sine_table_matches_the_approximation() {
    assert_eq!(sin_deg(0), 0);
    assert_eq!(sin_deg(90), SCALE);
    assert_eq!(sin_deg(180), 0);
    assert_eq!(sin_deg(270), -SCALE);
    assert_eq!(cos_deg(0), SCALE);
    assert_eq!(cos_deg(90), 0);
    assert_eq!(cos_deg(180), -SCALE);
    for d in 0..360 {
        assert!(sin_deg(d).abs() <= SCALE);
        assert!(cos_deg(d).abs() <= SCALE);
    }
}

#[test]
fn wander_turns_within_its_bound_and_stays_under_max_force() {
    let mut rng = StdRng::seed_from_u64(1);
    let mut w = WanderState {
        circle_distance: 3000,
        circle_radius: 1500,
        wander_angle: 0,
        angle_change: 23,
    };
    let mut prev = w.wander_angle;
    for _ in 0..100 {
        let f = wander_force(v(1500, 0), &mut w, 300, &mut rng);
        assert!(norm_sq(f) <= 300 * 300);
        assert!(w.wander_angle >= 0 && w.wander_angle < 360);
        // the turn is bounded, up to the wrap of the circle
        let diff = (w.wander_angle - prev).abs();
        assert!(diff <= 23 || diff >= 360 - 23);
        prev = w.wander_angle;
    }
}

#[test]
fn wander_force_follows_the_velocity_when_angle_is_zero() {
    let mut rng = StdRng::seed_from_u64(2);
    let mut w = WanderState {
        circle_distance: 3000,
        circle_radius: 1500,
        wander_angle: 90,
        angle_change: 1,
    };
    // circle center 3000 ahead on x; offset at 90 degrees is (0, 1500):
    // force direction (3000, 1500) scaled to 500
    let f = wander_force(v(2000, 0), &mut w, 500, &mut rng);
    assert!(f.x > 0 && f.y > 0);
    assert!(norm_sq(f) <= 500 * 500);
}

#[test]
fn containment_pushes_back_inside() {
    // beyond the boundary on +x: desired velocity is -max_speed on x
    let f = containment_force(v(13000, 0), v(0, 0), 3000, 800, 12000);
    assert_eq!(f, v(-1600, 0));
    // inside: no correction
    let f = containment_force(v(11000, 0), v(500, 500), 3000, 800, 12000);
    assert_eq!(f, v(0, 0));
    // beyond on -y
    let f = containment_force(v(0, -13000), v(0, 0), 3000, 800, 12000);
    assert_eq!(f, v(0, 1600));
}

#[test]
fn integrate_clamps_speed_exactly() {
    let mut a = agent(v(0, 0), v(5000, 0), 1000, 800);
    integrate(&mut a, SCALE);
    assert_eq!(a.vel, v(1000, 0));
    assert_eq!(a.pos, v(1000, 0));
    // heading turned to the motion, a unit vector in fixed point
    assert_eq!(a.heading, v(SCALE, 0));
}

#[test]
fn integrate_never_exceeds_max_speed() {
    let cases = [
        (v(987_654, -321_000), 4200),
        (v(-1_000_000, 1_000_000), 1),
        (v(0, 0), 777),
        (v(3, 4), 5),
    ];
    for (vel, ms) in cases {
        let mut a = agent(v(0, 0), vel, ms, 800);
        integrate(&mut a, 16);
        assert!(norm_sq(a.vel) <= ms * ms);
    }
}

#[test]
fn integrate_keeps_heading_when_still() {
    let mut a = agent(v(5, 5), v(0, 0), 1000, 800);
    let h = a.heading;
    integrate(&mut a, SCALE);
    assert_eq!(a.heading, h);
    assert_eq!(a.pos, v(5, 5));
}

#[test]
fn apply_force_saturates_at_the_machine_range() {
    let mut a = agent(v(0, 0), v(100, -100), 1000, 800);
    apply_force(&mut a, v(50, 25));
    assert_eq!(a.vel, v(150, -75));
    apply_force(&mut a, v(i64::MAX / 4, -(i64::MAX / 4)));
    assert_eq!(a.vel, v(SPEED_LIMIT, -SPEED_LIMIT));
}

#[test]
fn separation_is_zero_exactly_at_the_desired_distance() {
    // exactly 2 units apart with desired distance 2: the boundary is
    // exclusive, so no force
    let (fa, fb) = separation_pair(v(0, 0), v(2000, 0), 800, 1000, 2000);
    assert_eq!(fa, v(0, 0));
    assert_eq!(fb, v(0, 0));
    // just inside: both pushed apart, each by its own budget
    let (fa, fb) = separation_pair(v(0, 0), v(1999, 0), 800, 1000, 2000);
    assert!(fa.x < 0 && fb.x > 0);
    assert_eq!(fa.y, 0);
    assert_eq!(fb.y, 0);
}

#[test]
fn separation_force_scales_inversely_with_distance() {
    // 0.5 units apart, max force 0.8: magnitude 0.8/0.5 = 1.6
    let (fa, fb) = separation_pair(v(0, 0), v(500, 0), 800, 800, 2000);
    assert_eq!(fa, v(-1600, 0));
    assert_eq!(fb, v(1600, 0));
}

#[test]
fn overlapping_agents_get_no_separation_force() {
    let (fa, fb) = separation_pair(v(7, 7), v(7, 7), 800, 800, 2000);
    assert_eq!(fa, v(0, 0));
    assert_eq!(fb, v(0, 0));
}

#[test]
fn separation_pass_pushes_close_agents_apart() {
    let mut agents = vec![
        agent(v(0, 0), v(0, 0), 3500, 800),
        agent(v(1000, 0), v(0, 0), 3000, 1000),
        agent(v(500_000, 0), v(0, 0), 4000, 700),
    ];
    separation_all(&mut agents, 2000);
    // the close pair repels; the far agent is untouched
    assert!(agents[0].vel.x < 0);
    assert!(agents[1].vel.x > 0);
    assert_eq!(agents[2].vel, v(0, 0));
    // positions and budgets never change in the pass
    assert_eq!(agents[0].pos, v(0, 0));
    assert_eq!(agents[1].pos, v(1000, 0));
    assert_eq!(agents[0].max_speed, 3500);
    assert_eq!(agents[1].max_force, 1000);
}

#[test]
fn a_full_tick_keeps_every_agent_within_its_speed() {
    let mut rng = StdRng::seed_from_u64(3);
    let player = v(0, 0);
    let mut agents = vec![
        agent(v(-10000, -10000), v(0, 0), 3500, 800),
        agent(v(5000, 5000), v(0, 0), 3000, 1000),
        agent(v(10000, -10000), v(0, 0), 4000, 700),
        agent(v(-10000, 10000), v(0, 0), 1500, 300),
    ];
    let mut w = WanderState {
        circle_distance: 3000,
        circle_radius: 1500,
        wander_angle: 0,
        angle_change: 23,
    };
    for _ in 0..50 {
        let f = seek_force(agents[0].pos, agents[0].vel, Some(player), 3500, 800);
        apply_force(&mut agents[0], f);
        let f = flee_force(agents[1].pos, agents[1].vel, Some(player), 3000, 1000);
        apply_force(&mut agents[1], f);
        let f = arrive_force(agents[2].pos, agents[2].vel, Some(player), 5000, 4000, 700);
        apply_force(&mut agents[2], f);
        let f = wander_force(agents[3].vel, &mut w, 300, &mut rng);
        apply_force(&mut agents[3], f);
        separation_all(&mut agents, 2000);
        for a in agents.iter_mut() {
            let f = containment_force(a.pos, a.vel, a.max_speed, a.max_force, 12000);
            apply_force(a, f);
            integrate(a, 16);
            assert!(norm_sq(a.vel) <= a.max_speed * a.max_speed);
            assert!(a.pos.x.abs() <= 1_000_000_000 && a.pos.y.abs() <= 1_000_000_000);
        }
    }
}
