use swarm_grid_steer::grid::{Cell, Environment, State, MAX_HP};
use swarm_grid_steer::replay::{Replay, ReplayEvent};

fn st(x: usize, y: usize) -> State {
    State { x, y }
}

fn corridor(cells: Vec<Cell>) -> Environment {
    let w = cells.len();
    Environment::from_cells(cells, w, 1).unwrap()
}

#[test]
fn start_checks_the_path() {
    let env = corridor(vec![Cell::Start, Cell::Goal]);
    assert!(Replay::start(vec![], &env).is_none());
    assert!(Replay::start(vec![st(5, 0)], &env).is_none());
    let r = Replay::start(vec![st(0, 0), st(1, 0)], &env).unwrap();
    assert_eq!(r.current_index, 0);
    assert_eq!(r.hp, MAX_HP);
    assert!(!r.finished);
}

#[test]
fn a_walk_to_the_goal_reports_each_event() {
    let env = corridor(vec![Cell::Start, Cell::T1, Cell::Goal]);
    let mut r = Replay::start(vec![st(0, 0), st(1, 0), st(2, 0)], &env).unwrap();
    assert_eq!(r.advance(&env), ReplayEvent::Trap1);
    assert_eq!(r.hp, 75);
    assert_eq!(r.advance(&env), ReplayEvent::Step);
    assert_eq!(r.hp, 75);
    assert_eq!(r.advance(&env), ReplayEvent::GoalReached);
    assert!(r.finished);
    assert_eq!(r.advance(&env), ReplayEvent::Done);
}

#[test]
fn a_blocked_move_is_a_wall_bump() {
    let env = corridor(vec![Cell::Start, Cell::Wall, Cell::Goal]);
    let mut r = Replay::start(vec![st(0, 0), st(0, 0), st(0, 0)], &env).unwrap();
    assert_eq!(r.advance(&env), ReplayEvent::WallBump);
    assert_eq!(r.hp, MAX_HP);
    assert_eq!(r.advance(&env), ReplayEvent::WallBump);
}

#[test]
fn exhausted_hit_points_end_the_walk() {
    let env = corridor(vec![Cell::Start, Cell::T3, Cell::Empty, Cell::Goal]);
    let mut r = Replay::start(vec![st(0, 0), st(1, 0), st(2, 0), st(3, 0)], &env).unwrap();
    assert_eq!(r.advance(&env), ReplayEvent::Trap3);
    assert_eq!(r.hp, 0);
    assert_eq!(r.advance(&env), ReplayEvent::Died);
    assert!(r.finished);
    assert_eq!(r.advance(&env), ReplayEvent::Done);
}

#[test]
fn trap_tiers_pay_their_damage() {
    let env = corridor(vec![Cell::Start, Cell::T1, Cell::T2, Cell::T3, Cell::Goal]);
    let mut r =
        Replay::start(vec![st(0, 0), st(1, 0), st(2, 0), st(3, 0), st(4, 0)], &env).unwrap();
    assert_eq!(r.advance(&env), ReplayEvent::Trap1);
    assert_eq!(r.hp, 75);
    assert_eq!(r.advance(&env), ReplayEvent::Trap2);
    assert_eq!(r.hp, 25);
    assert_eq!(r.advance(&env), ReplayEvent::Trap3);
    assert_eq!(r.hp, -75);
    assert_eq!(r.advance(&env), ReplayEvent::Died);
}

#[test]
fn a_walk_ending_off_the_goal_just_finishes() {
    let env = corridor(vec![Cell::Start, Cell::Empty, Cell::Goal]);
    let mut r = Replay::start(vec![st(0, 0), st(1, 0)], &env).unwrap();
    assert_eq!(r.advance(&env), ReplayEvent::Step);
    assert_eq!(r.advance(&env), ReplayEvent::Done);
    assert!(r.finished);
}

#[test]
fn restart_rewinds_everything() {
    let env = corridor(vec![Cell::Start, Cell::T2, Cell::Goal]);
    let mut r = Replay::start(vec![st(0, 0), st(1, 0), st(2, 0)], &env).unwrap();
    r.advance(&env);
    r.advance(&env);
    r.advance(&env);
    assert!(r.finished);
    r.restart();
    assert_eq!(r.current_index, 0);
    assert_eq!(r.hp, MAX_HP);
    assert!(!r.finished);
    assert_eq!(r.advance(&env), ReplayEvent::Trap2);
}

#[test]
fn a_single_state_path_finishes_at_once() {
    let env = corridor(vec![Cell::Start, Cell::Goal]);
    let mut r = Replay::start(vec![st(1, 0)], &env).unwrap();
    assert_eq!(r.advance(&env), ReplayEvent::GoalReached);
    assert!(r.finished);
}
