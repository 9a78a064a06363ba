use rand::SeedableRng;
use rand::rngs::StdRng;
use swarm_grid_steer::grid::{Action, Cell, Environment, State, MAP_SIZE, MAX_HP, symbol_of};
use swarm_grid_steer::qlearn::QLearningAgent;
use swarm_grid_steer::rng::sample_range;
use swarm_grid_steer::SCALE;

fn st(x: usize, y: usize) -> State {
    State { x, y }
}

#[test]
fn sample_range_respects_its_bounds() {
    let mut rng = StdRng::seed_from_u64(1);
    assert_eq!(sample_range(&mut rng, 5, 6), 5);
    for _ in 0..200 {
        let v = sample_range(&mut rng, -3, 4);
        assert!(v >= -3 && v < 4);
    }
}

#[test]
fn sample_range_covers_its_range() {
    let mut rng = StdRng::seed_from_u64(2);
    let mut seen = [false; 4];
    for _ in 0..200 {
        let v = sample_range(&mut rng, 0, 4);
        seen[v as usize] = true;
    }
    assert!(seen.iter().all(|s| *s));
}

#[test]
fn from_cells_checks_the_grid() {
    // well-formed
    let env = Environment::from_cells(vec![Cell::Start, Cell::Goal], 2, 1).unwrap();
    assert_eq!(env.start, st(0, 0));
    assert_eq!(env.goal, st(1, 0));
    // no start
    assert!(Environment::from_cells(vec![Cell::Empty, Cell::Goal], 2, 1).is_none());
    // two starts
    assert!(
        Environment::from_cells(vec![Cell::Start, Cell::Start, Cell::Goal], 3, 1).is_none()
    );
    // no goal
    assert!(Environment::from_cells(vec![Cell::Start, Cell::Empty], 2, 1).is_none());
    // dimension mismatch
    assert!(Environment::from_cells(vec![Cell::Start, Cell::Goal], 3, 1).is_none());
    // zero dimension
    assert!(Environment::from_cells(vec![], 0, 1).is_none());
}

#[test]
fn random_map_holds_its_invariants() {
    let mut rng = StdRng::seed_from_u64(3);
    for _ in 0..5 {
        let env = Environment::random_map(&mut rng);
        assert_eq!(env.width, MAP_SIZE);
        assert_eq!(env.height, MAP_SIZE);
        assert_eq!(env.start, st(0, 0));
        assert!(env.goal.x >= 7 && env.goal.x < MAP_SIZE);
        assert!(env.goal.y >= 7 && env.goal.y < MAP_SIZE);
        let starts = env.map.iter().filter(|c| **c == Cell::Start).count();
        let goals = env.map.iter().filter(|c| **c == Cell::Goal).count();
        let walls = env.map.iter().filter(|c| **c == Cell::Wall).count();
        let t1 = env.map.iter().filter(|c| **c == Cell::T1).count();
        let t2 = env.map.iter().filter(|c| **c == Cell::T2).count();
        let t3 = env.map.iter().filter(|c| **c == Cell::T3).count();
        assert_eq!(starts, 1);
        assert_eq!(goals, 1);
        assert!(walls <= 15 && t1 <= 5 && t2 <= 4 && t3 <= 2);
    }
}

#[test]
fn rewards_damage_and_terminal_match_the_cells() {
    let cells = vec![
        Cell::Start,
        Cell::T1,
        Cell::T2,
        Cell::T3,
        Cell::Wall,
        Cell::Goal,
    ];
    let env = Environment::from_cells(cells, 6, 1).unwrap();
    assert_eq!(env.get_reward(st(0, 0)), -1 * SCALE);
    assert_eq!(env.get_reward(st(1, 0)), -25 * SCALE);
    assert_eq!(env.get_reward(st(2, 0)), -50 * SCALE);
    assert_eq!(env.get_reward(st(3, 0)), -100 * SCALE);
    assert_eq!(env.get_reward(st(4, 0)), -10 * SCALE);
    assert_eq!(env.get_reward(st(5, 0)), 100 * SCALE);
    assert_eq!(env.get_hp_damage(st(0, 0)), 0);
    assert_eq!(env.get_hp_damage(st(1, 0)), 25);
    assert_eq!(env.get_hp_damage(st(2, 0)), 50);
    assert_eq!(env.get_hp_damage(st(3, 0)), 100);
    assert!(!env.is_terminal(st(0, 0), 100));
    assert!(env.is_terminal(st(5, 0), 100));
    assert!(env.is_terminal(st(0, 0), 0));
    assert!(env.is_terminal(st(0, 0), -5));
}

#[test]
fn step_into_wall_reverts_and_reports() {
    let env = Environment::from_cells(vec![Cell::Start, Cell::Wall, Cell::Goal], 3, 1).unwrap();
    let (next, dmg, hit) = env.step(st(0, 0), Action::Right);
    assert_eq!(next, st(0, 0));
    assert!(hit);
    assert_eq!(dmg, 0);
}

#[test]
fn step_clamps_at_the_border() {
    let env = Environment::from_cells(vec![Cell::Start, Cell::Goal], 2, 1).unwrap();
    let (next, _, hit) = env.step(st(0, 0), Action::Up);
    assert_eq!(next, st(0, 0));
    assert!(!hit);
    let (next, _, _) = env.step(st(0, 0), Action::Left);
    assert_eq!(next, st(0, 0));
    let (next, _, _) = env.step(st(0, 0), Action::Down);
    assert_eq!(next, st(0, 0));
    let (next, _, _) = env.step(st(0, 0), Action::Right);
    assert_eq!(next, st(1, 0));
}

#[test]
fn step_reads_damage_from_the_destination() {
    let env =
        Environment::from_cells(vec![Cell::Start, Cell::T2, Cell::Goal], 3, 1).unwrap();
    let (next, dmg, hit) = env.step(st(0, 0), Action::Right);
    assert_eq!(next, st(1, 0));
    assert!(!hit);
    assert_eq!(dmg, 50);
}

#[test]
fn update_with_done_ignores_the_next_state() {
    let env = Environment::from_cells(vec![Cell::Start, Cell::Goal], 2, 1).unwrap();
    let mut agent = QLearningAgent::new(env.width, env.height, 100, 900, 100);
    let s = st(0, 0);
    let next = st(1, 0);
    // make the next state very attractive; a terminal update must ignore it
    agent.update(next, Action::Up, 80 * SCALE, next, true);
    assert_eq!(agent.get_q_value(next, Action::Up), 8000);
    // q := q + 0.1 * (reward - q), exactly, from q = 0
    agent.update(s, Action::Right, 5000, next, true);
    assert_eq!(agent.get_q_value(s, Action::Right), 500);
    // and again from q = 500
    agent.update(s, Action::Right, 2000, next, true);
    assert_eq!(agent.get_q_value(s, Action::Right), 650);
}

#[test]
fn update_bootstraps_from_the_best_next_value() {
    let env = Environment::from_cells(vec![Cell::Start, Cell::Goal], 2, 1).unwrap();
    let mut agent = QLearningAgent::new(env.width, env.height, 100, 900, 100);
    let s = st(0, 0);
    let next = st(1, 0);
    agent.update(next, Action::Up, 8000, next, true);
    assert_eq!(agent.get_q_value(next, Action::Up), 800);
    // q := 0 + 0.1 * (1000 + 0.9 * 800 - 0) = 172, exactly
    agent.update(s, Action::Right, 1000, next, false);
    assert_eq!(agent.get_q_value(s, Action::Right), 172);
}

#[test]
fn unvisited_pairs_read_as_zero() {
    let agent = QLearningAgent::new(4, 4, 100, 900, 100);
    for y in 0..4 {
        for x in 0..4 {
            for a in [Action::Up, Action::Down, Action::Left, Action::Right] {
                assert_eq!(agent.get_q_value(st(x, y), a), 0);
            }
        }
    }
}

#[test]
fn greedy_choice_takes_the_strict_maximum() {
    let mut rng = StdRng::seed_from_u64(4);
    let mut agent = QLearningAgent::new(2, 1, 100, 900, 0);
    let s = st(0, 0);
    agent.update(s, Action::Right, 8000, s, true);
    assert!(agent.get_q_value(s, Action::Right) > 0);
    for _ in 0..20 {
        assert_eq!(agent.choose_action(s, &mut rng), Action::Right);
    }
}

#[test]
fn greedy_choice_breaks_ties_in_enumeration_order() {
    let mut rng = StdRng::seed_from_u64(5);
    let agent = QLearningAgent::new(2, 1, 100, 900, 0);
    // all four values equal: the first enumerated action wins
    assert_eq!(agent.choose_action(st(0, 0), &mut rng), Action::Up);
}

#[test]
fn rollout_on_a_converged_two_by_two_grid_is_two_states() {
    let mut rng = StdRng::seed_from_u64(6);
    let env = Environment::from_cells(
        vec![Cell::Start, Cell::Goal, Cell::Empty, Cell::Empty],
        2,
        2,
    )
    .unwrap();
    let mut agent = QLearningAgent::new(env.width, env.height, 100, 900, 0);
    agent.update(st(0, 0), Action::Right, 8000, st(1, 0), true);
    let path = agent.get_episode_path(&env, 0, &mut rng);
    assert_eq!(path, vec![st(0, 0), st(1, 0)]);
}

#[test]
fn training_on_a_start_goal_corridor_finds_the_goal() {
    let mut rng = StdRng::seed_from_u64(7);
    let env = Environment::from_cells(vec![Cell::Start, Cell::Goal], 2, 1).unwrap();
    let mut agent = QLearningAgent::new(env.width, env.height, 100, 900, 100);
    agent.train(&env, 50, 100, &mut rng);
    let path = agent.get_episode_path(&env, 0, &mut rng);
    assert_eq!(path, vec![st(0, 0), st(1, 0)]);
}

#[test]
fn training_on_the_random_map_reaches_a_terminal_or_gives_up() {
    let mut rng = StdRng::seed_from_u64(8);
    let env = Environment::random_map(&mut rng);
    let mut agent = QLearningAgent::new(env.width, env.height, 100, 900, 100);
    agent.train(&env, 300, 100, &mut rng);
    let path = agent.get_episode_path(&env, 0, &mut rng);
    assert!(!path.is_empty());
    assert!(path.len() <= 501);
    assert_eq!(path[0], env.start);
    // consecutive states differ by at most one clamped unit move
    for w in path.windows(2) {
        let dx = (w[0].x as i64 - w[1].x as i64).abs();
        let dy = (w[0].y as i64 - w[1].y as i64).abs();
        assert!(dx + dy <= 1);
    }
}

#[test]
fn snapshots_are_independent_of_later_training() {
    let env = Environment::from_cells(vec![Cell::Start, Cell::Goal], 2, 1).unwrap();
    let mut agent = QLearningAgent::new(env.width, env.height, 100, 900, 100);
    agent.update(st(0, 0), Action::Right, 5000, st(1, 0), true);
    let snap = agent.snapshot();
    agent.update(st(0, 0), Action::Right, 2000, st(1, 0), true);
    assert_eq!(snap.get_q_value(st(0, 0), Action::Right), 500);
    assert_eq!(agent.get_q_value(st(0, 0), Action::Right), 650);
}

#[test]
fn actions_enumerate_in_fixed_order() {
    assert_eq!(
        Action::all(),
        vec![Action::Up, Action::Down, Action::Left, Action::Right]
    );
}

#[test]
fn map_symbols() {
    assert_eq!(symbol_of(Cell::Start), 'S');
    assert_eq!(symbol_of(Cell::Goal), 'G');
    assert_eq!(symbol_of(Cell::Wall), '#');
    assert_eq!(symbol_of(Cell::T1), '1');
    assert_eq!(symbol_of(Cell::T2), '2');
    assert_eq!(symbol_of(Cell::T3), '3');
    assert_eq!(symbol_of(Cell::Empty), '.');
}

#[test]
fn hit_points_start_full() {
    assert_eq!(MAX_HP, 100);
}
