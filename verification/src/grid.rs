//! The grid world: cells, states, actions, and the environment an agent
//! moves in. A move is one of four unit steps clamped to the grid; walking
//! into a wall reverts the move; damage and reward are read from the cell
//! the move ends on.

use vstd::prelude::*;
use vstd::arithmetic::div_mod::lemma_fundamental_div_mod;
use vstd::arithmetic::div_mod::lemma_mod_bound;
use vstd::arithmetic::div_mod::lemma_multiply_divide_lt;
use crate::fixed::SCALE;
use crate::rng::sample_range;

verus! {

/// Side length of the randomly generated map.
pub const MAP_SIZE: usize = 10;

/// Hit points an agent starts each episode or replay with.
pub const MAX_HP: i64 = 100;

#[derive(Clone, Copy, PartialEq, Eq, Structural, Debug)]
pub enum Cell {
    Empty,
    Start,
    Goal,
    Wall,
    T1,
    T2,
    T3,
}

#[derive(Clone, Copy, PartialEq, Eq, Structural, Debug)]
pub enum Action {
    Up,
    Down,
    Left,
    Right,
}

/// A grid coordinate.
#[derive(Clone, Copy, PartialEq, Eq, Structural, Debug)]
pub struct State {
    pub x: usize,
    pub y: usize,
}

impl Action {
    /// Position of the action in the fixed enumeration order
    /// Up, Down, Left, Right.
    pub open spec fn index_spec(self) -> int {
        match self {
            Action::Up => 0,
            Action::Down => 1,
            Action::Left => 2,
            Action::Right => 3,
        }
    }

    pub fn index(self) -> (i: usize)
        ensures
            i == self.index_spec(),
    {
        match self {
            Action::Up => 0,
            Action::Down => 1,
            Action::Left => 2,
            Action::Right => 3,
        }
    }

    pub fn from_index(i: usize) -> (a: Action)
        requires
            i < 4,
        ensures
            a.index_spec() == i,
    {
        if i == 0 {
            Action::Up
        } else if i == 1 {
            Action::Down
        } else if i == 2 {
            Action::Left
        } else {
            Action::Right
        }
    }

    /// The four actions in their fixed enumeration order.
    pub fn all() -> (v: Vec<Action>)
        ensures
            v@ =~= seq![Action::Up, Action::Down, Action::Left, Action::Right],
    {
        let mut v: Vec<Action> = Vec::new();
        v.push(Action::Up);
        v.push(Action::Down);
        v.push(Action::Left);
        v.push(Action::Right);
        assert(v@ =~= seq![Action::Up, Action::Down, Action::Left, Action::Right]);
        v
    }
}

/// Hit points lost on entering a cell.
pub open spec fn damage_of(c: Cell) -> int {
    match c {
        Cell::T1 => 25,
        Cell::T2 => 50,
        Cell::T3 => 100,
        _ => 0,
    }
}

/// Reward for ending a move on a cell, in fixed-point units.
pub open spec fn reward_of(c: Cell) -> int {
    match c {
        Cell::Goal => 100 * SCALE,
        Cell::Wall => -10 * SCALE,
        Cell::T1 => -25 * SCALE,
        Cell::T2 => -50 * SCALE,
        Cell::T3 => -100 * SCALE,
        _ => -1 * SCALE,
    }
}

/// A state ends an episode when it lies on the goal or hit points are
/// exhausted.
pub open spec fn terminal_spec(env: Environment, s: State, hp: int) -> bool {
    env.cell_at(s) == Cell::Goal || hp <= 0
}

/// Row-major index of a state in a grid of the given width.
pub open spec fn idx_of(s: State, width: int) -> int {
    s.y * width + s.x
}

/// The unit move for an action, clamped to a `w` by `h` grid.
pub open spec fn moved_state(s: State, a: Action, w: int, h: int) -> State {
    match a {
        Action::Up => if s.y > 0 {
            State { x: s.x, y: (s.y - 1) as usize }
        } else {
            s
        },
        Action::Down => if s.y + 1 < h {
            State { x: s.x, y: (s.y + 1) as usize }
        } else {
            s
        },
        Action::Left => if s.x > 0 {
            State { x: (s.x - 1) as usize, y: s.y }
        } else {
            s
        },
        Action::Right => if s.x + 1 < w {
            State { x: (s.x + 1) as usize, y: s.y }
        } else {
            s
        },
    }
}

/// `c` occurs in `s` exactly once, at position `k`.
pub open spec fn unique_at(s: Seq<Cell>, c: Cell, k: int) -> bool {
    &&& 0 <= k < s.len()
    &&& s[k] == c
    &&& forall|j: int| 0 <= j < s.len() && s[j] == c ==> j == k
}

/// `c` occurs in `s` exactly once.
pub open spec fn has_unique(s: Seq<Cell>, c: Cell) -> bool {
    exists|k: int| unique_at(s, c, k)
}

pub proof fn lemma_grid_index(x: int, y: int, w: int, h: int)
    by (nonlinear_arith)
    requires
        0 <= x < w,
        0 <= y < h,
    ensures
        0 <= y * w + x < w * h,
{
}

/// The grid an agent learns on: immutable after construction, with exactly
/// one start cell and exactly one goal cell.
pub struct Environment {
    pub map: Vec<Cell>,
    pub width: usize,
    pub height: usize,
    pub start: State,
    pub goal: State,
}

impl Environment {
    pub open spec fn in_bounds(self, s: State) -> bool {
        s.x < self.width && s.y < self.height
    }

    /// The cell a state lies on.
    pub open spec fn cell_at(self, s: State) -> Cell {
        self.map@[idx_of(s, self.width as int)]
    }

    /// Well-formedness: a non-empty rectangular map holding `Start` exactly
    /// at the start coordinate and `Goal` exactly at the goal coordinate.
    pub open spec fn wf(self) -> bool {
        &&& 1 <= self.width
        &&& 1 <= self.height
        &&& self.map@.len() == self.width * self.height
        &&& self.in_bounds(self.start)
        &&& self.in_bounds(self.goal)
        &&& unique_at(self.map@, Cell::Start, idx_of(self.start, self.width as int))
        &&& unique_at(self.map@, Cell::Goal, idx_of(self.goal, self.width as int))
    }

    /// Where a move ends: the clamped unit move, reverted if it lands on a
    /// wall.
    pub open spec fn step_next(self, s: State, a: Action) -> State {
        let m = moved_state(s, a, self.width as int, self.height as int);
        if self.cell_at(m) == Cell::Wall {
            s
        } else {
            m
        }
    }

    pub fn cell(&self, s: State) -> (c: Cell)
        requires
            self.wf(),
            self.in_bounds(s),
        ensures
            c == self.cell_at(s),
    {
        proof {
            lemma_grid_index(s.x as int, s.y as int, self.width as int, self.height as int);
        }
        let n = self.map.len();
        assert(s.y * self.width + s.x < n);
        self.map[s.y * self.width + s.x]
    }

    pub fn get_hp_damage(&self, s: State) -> (d: i64)
        requires
            self.wf(),
            self.in_bounds(s),
        ensures
            d == damage_of(self.cell_at(s)),
    {
        match self.cell(s) {
            Cell::T1 => 25,
            Cell::T2 => 50,
            Cell::T3 => 100,
            _ => 0,
        }
    }

    pub fn get_reward(&self, s: State) -> (r: i64)
        requires
            self.wf(),
            self.in_bounds(s),
        ensures
            r == reward_of(self.cell_at(s)),
    {
        match self.cell(s) {
            Cell::Goal => 100 * SCALE,
            Cell::Wall => -10 * SCALE,
            Cell::T1 => -25 * SCALE,
            Cell::T2 => -50 * SCALE,
            Cell::T3 => -100 * SCALE,
            _ => -1 * SCALE,
        }
    }

    /// A state ends an episode when it lies on the goal or hit points are
    /// exhausted.
    pub fn is_terminal(&self, s: State, hp: i64) -> (t: bool)
        requires
            self.wf(),
            self.in_bounds(s),
        ensures
            t == terminal_spec(*self, s, hp as int),
    {
        self.cell(s) == Cell::Goal || hp <= 0
    }

    /// One environment transition: the state the move ends on, the damage of
    /// that cell, and whether a wall blocked the move.
    pub fn step(&self, s: State, a: Action) -> (r: (State, i64, bool))
        requires
            self.wf(),
            self.in_bounds(s),
        ensures
            r.0 == self.step_next(s, a),
            self.in_bounds(r.0),
            r.1 == damage_of(self.cell_at(r.0)),
            r.2 == (self.cell_at(moved_state(s, a, self.width as int, self.height as int))
                == Cell::Wall),
    {
        let moved = match a {
            Action::Up => if s.y > 0 {
                State { x: s.x, y: s.y - 1 }
            } else {
                s
            },
            Action::Down => if s.y + 1 < self.height {
                State { x: s.x, y: s.y + 1 }
            } else {
                s
            },
            Action::Left => if s.x > 0 {
                State { x: s.x - 1, y: s.y }
            } else {
                s
            },
            Action::Right => if s.x + 1 < self.width {
                State { x: s.x + 1, y: s.y }
            } else {
                s
            },
        };
        let hit_wall = self.cell(moved) == Cell::Wall;
        let next = if hit_wall {
            s
        } else {
            moved
        };
        let dmg = self.get_hp_damage(next);
        (next, dmg, hit_wall)
    }
}

/// `post` differs from `pre` only where `pre` was empty, and there it holds
/// `c`.
pub open spec fn only_filled(pre: Seq<Cell>, post: Seq<Cell>, c: Cell) -> bool {
    &&& post.len() == pre.len()
    &&& forall|i: int|
        0 <= i < pre.len() ==> (post[i] == pre[i] || (pre[i] == Cell::Empty && #[trigger] post[i]
            == c))
}

/// Filling empty cells with a marker other than `m` keeps the unique
/// occurrence of `m` in place.
proof fn lemma_fill_keeps_unique(pre: Seq<Cell>, post: Seq<Cell>, c: Cell, m: Cell, k: int)
    requires
        only_filled(pre, post, c),
        c != m,
        m != Cell::Empty,
        unique_at(pre, m, k),
    ensures
        unique_at(post, m, k),
{
    assert(post[k] == m);
    assert forall|j: int| 0 <= j < post.len() && post[j] == m implies j == k by {
        assert(pre[j] == m);
    }
}

/// How many cells of `s` hold `c`.
pub open spec fn count_of(s: Seq<Cell>, c: Cell) -> int
    decreases s.len(),
{
    if s.len() == 0 {
        0
    } else {
        count_of(s.drop_last(), c) + if s.last() == c {
            1int
        } else {
            0int
        }
    }
}

/// A marker that occurs nowhere counts zero.
proof fn lemma_count_absent(s: Seq<Cell>, c: Cell)
    requires
        forall|j: int| 0 <= j < s.len() ==> s[j] != c,
    ensures
        count_of(s, c) == 0,
    decreases s.len(),
{
    if s.len() > 0 {
        lemma_count_absent(s.drop_last(), c);
    }
}

/// Overwriting one cell changes a marker's count by at most the one cell.
proof fn lemma_count_update(s: Seq<Cell>, i: int, v: Cell, c: Cell)
    requires
        0 <= i < s.len(),
    ensures
        count_of(s.update(i, v), c) == count_of(s, c) + (if v == c && s[i] != c {
            1int
        } else if v != c && s[i] == c {
            -1int
        } else {
            0int
        }),
    decreases s.len(),
{
    let u = s.update(i, v);
    if i == s.len() - 1 {
        assert(u.drop_last() =~= s.drop_last());
    } else {
        assert(u.drop_last() =~= s.drop_last().update(i, v));
        lemma_count_update(s.drop_last(), i, v, c);
    }
}

/// Filling empty cells with `c` leaves the count of any other non-empty
/// marker alone.
proof fn lemma_fill_keeps_count(pre: Seq<Cell>, post: Seq<Cell>, c: Cell, m: Cell)
    requires
        only_filled(pre, post, c),
        m != c,
        m != Cell::Empty,
    ensures
        count_of(post, m) == count_of(pre, m),
    decreases pre.len(),
{
    if pre.len() > 0 {
        assert(only_filled(pre.drop_last(), post.drop_last(), c));
        lemma_fill_keeps_count(pre.drop_last(), post.drop_last(), c, m);
        assert(post.last() == m <==> pre.last() == m);
    }
}

impl Environment {
    /// Builds an environment from an explicit cell grid. Returns `None`
    /// exactly when the grid is not well-formed: an empty dimension, a cell
    /// count that does not match the dimensions, or a start or goal cell
    /// that is missing or duplicated.
    pub fn from_cells(cells: Vec<Cell>, width: usize, height: usize) -> (r: Option<Environment>)
        ensures
            r is Some <==> (1 <= width && 1 <= height && cells@.len() == width * height
                && has_unique(cells@, Cell::Start) && has_unique(cells@, Cell::Goal)),
            r matches Some(env) ==> env.wf() && env.map@ == cells@ && env.width == width
                && env.height == height,
    {
        if width < 1 || height < 1 {
            return None;
        }
        match width.checked_mul(height) {
            None => {
                return None;
            },
            Some(p) => {
                if p != cells.len() {
                    return None;
                }
            },
        }
        let n = cells.len();
        let mut start_idx: usize = n;
        let mut goal_idx: usize = n;
        let mut i: usize = 0;
        while i < n
            invariant
                i <= n,
                n == cells@.len(),
                start_idx <= n,
                goal_idx <= n,
                start_idx == n ==> forall|j: int| 0 <= j < i ==> cells@[j] != Cell::Start,
                start_idx < n ==> start_idx < i && cells@[start_idx as int] == Cell::Start,
                start_idx < n ==> forall|j: int|
                    0 <= j < i && j != start_idx ==> cells@[j] != Cell::Start,
                goal_idx == n ==> forall|j: int| 0 <= j < i ==> cells@[j] != Cell::Goal,
                goal_idx < n ==> goal_idx < i && cells@[goal_idx as int] == Cell::Goal,
                goal_idx < n ==> forall|j: int|
                    0 <= j < i && j != goal_idx ==> cells@[j] != Cell::Goal,
            decreases n - i,
        {
            let c = cells[i];
            if c == Cell::Start {
                if start_idx < n {
                    proof {
                        assert forall|k: int| !unique_at(cells@, Cell::Start, k) by {
                            if unique_at(cells@, Cell::Start, k) {
                                assert(cells@[start_idx as int] == Cell::Start);
                                assert(cells@[i as int] == Cell::Start);
                            }
                        }
                    }
                    return None;
                }
                start_idx = i;
            }
            if c == Cell::Goal {
                if goal_idx < n {
                    proof {
                        assert forall|k: int| !unique_at(cells@, Cell::Goal, k) by {
                            if unique_at(cells@, Cell::Goal, k) {
                                assert(cells@[goal_idx as int] == Cell::Goal);
                                assert(cells@[i as int] == Cell::Goal);
                            }
                        }
                    }
                    return None;
                }
                goal_idx = i;
            }
            i = i + 1;
        }
        if start_idx == n || goal_idx == n {
            return None;
        }
        let sx = start_idx % width;
        let sy = start_idx / width;
        let gx = goal_idx % width;
        let gy = goal_idx / width;
        proof {
            lemma_fundamental_div_mod(start_idx as int, width as int);
            lemma_mod_bound(start_idx as int, width as int);
            lemma_multiply_divide_lt(start_idx as int, width as int, height as int);
            lemma_fundamental_div_mod(goal_idx as int, width as int);
            lemma_mod_bound(goal_idx as int, width as int);
            lemma_multiply_divide_lt(goal_idx as int, width as int, height as int);
            assert(sy * width == width * sy) by (nonlinear_arith);
            assert(gy * width == width * gy) by (nonlinear_arith);
        }
        let start = State { x: sx, y: sy };
        let goal = State { x: gx, y: gy };
        let env = Environment { map: cells, width, height, start, goal };
        proof {
            assert(idx_of(start, width as int) == start_idx);
            assert(idx_of(goal, width as int) == goal_idx);
            assert(unique_at(env.map@, Cell::Start, start_idx as int));
            assert(unique_at(env.map@, Cell::Goal, goal_idx as int));
        }
        Some(env)
    }

    /// Scatters up to `count` cells of marker `c` onto empty cells at random
    /// positions; a draw that lands on an occupied cell is skipped, not
    /// retried.
    fn scatter(map: &mut Vec<Cell>, c: Cell, count: usize, rng: &mut rand::rngs::StdRng)
        requires
            old(map)@.len() == MAP_SIZE * MAP_SIZE,
            c == Cell::Wall || c == Cell::T1 || c == Cell::T2 || c == Cell::T3,
        ensures
            only_filled(old(map)@, final(map)@, c),
            count_of(final(map)@, c) <= count_of(old(map)@, c) + count,
    {
        let mut k: usize = 0;
        while k < count
            invariant
                old(map)@.len() == MAP_SIZE * MAP_SIZE,
                c != Cell::Empty,
                k <= count,
                only_filled(old(map)@, map@, c),
                count_of(map@, c) <= count_of(old(map)@, c) + k,
            decreases count - k,
        {
            let idx = sample_range(rng, 0, 100) as usize;
            if map[idx] == Cell::Empty {
                let ghost pre = map@;
                map[idx] = c;
                proof {
                    lemma_count_update(pre, idx as int, c, c);
                }
            }
            k = k + 1;
        }
    }

    /// Builds the demo map: `MAP_SIZE` by `MAP_SIZE`, start in the corner,
    /// goal drawn uniformly from the far corner region, then walls and the
    /// three trap tiers scattered onto empty cells (collisions skipped, so
    /// actual counts may be lower than requested). With one start, one goal
    /// and the bounded marker counts, every remaining cell is empty.
    pub fn random_map(rng: &mut rand::rngs::StdRng) -> (env: Environment)
        ensures
            env.wf(),
            env.width == MAP_SIZE,
            env.height == MAP_SIZE,
            env.start == (State { x: 0, y: 0 }),
            7 <= env.goal.x < MAP_SIZE,
            7 <= env.goal.y < MAP_SIZE,
            count_of(env.map@, Cell::Wall) <= 15,
            count_of(env.map@, Cell::T1) <= 5,
            count_of(env.map@, Cell::T2) <= 4,
            count_of(env.map@, Cell::T3) <= 2,
    {
        let mut map: Vec<Cell> = Vec::new();
        let mut k: usize = 0;
        while k < MAP_SIZE * MAP_SIZE
            invariant
                map@.len() == k,
                k <= MAP_SIZE * MAP_SIZE,
                forall|j: int| 0 <= j < k ==> map@[j] == Cell::Empty,
            decreases MAP_SIZE * MAP_SIZE - k,
        {
            map.push(Cell::Empty);
            k = k + 1;
        }
        let gx = sample_range(rng, 7, 10) as usize;
        let gy = sample_range(rng, 7, 10) as usize;
        let gidx = gy * MAP_SIZE + gx;
        map[0] = Cell::Start;
        map[gidx] = Cell::Goal;
        let start = State { x: 0, y: 0 };
        let goal = State { x: gx, y: gy };
        let ghost placed = map@;
        proof {
            assert(unique_at(placed, Cell::Start, 0));
            assert(unique_at(placed, Cell::Goal, gidx as int));
            lemma_count_absent(placed, Cell::Wall);
            lemma_count_absent(placed, Cell::T1);
            lemma_count_absent(placed, Cell::T2);
            lemma_count_absent(placed, Cell::T3);
        }
        Self::scatter(&mut map, Cell::Wall, 15, rng);
        let ghost m1 = map@;
        Self::scatter(&mut map, Cell::T1, 5, rng);
        let ghost m2 = map@;
        Self::scatter(&mut map, Cell::T2, 4, rng);
        let ghost m3 = map@;
        Self::scatter(&mut map, Cell::T3, 2, rng);
        proof {
            lemma_fill_keeps_unique(placed, m1, Cell::Wall, Cell::Start, 0);
            lemma_fill_keeps_unique(placed, m1, Cell::Wall, Cell::Goal, gidx as int);
            lemma_fill_keeps_unique(m1, m2, Cell::T1, Cell::Start, 0);
            lemma_fill_keeps_unique(m1, m2, Cell::T1, Cell::Goal, gidx as int);
            lemma_fill_keeps_unique(m2, m3, Cell::T2, Cell::Start, 0);
            lemma_fill_keeps_unique(m2, m3, Cell::T2, Cell::Goal, gidx as int);
            lemma_fill_keeps_unique(m3, map@, Cell::T3, Cell::Start, 0);
            lemma_fill_keeps_unique(m3, map@, Cell::T3, Cell::Goal, gidx as int);
            // each marker count is set by its own scatter and untouched by
            // the later ones
            lemma_fill_keeps_count(m1, m2, Cell::T1, Cell::Wall);
            lemma_fill_keeps_count(m2, m3, Cell::T2, Cell::Wall);
            lemma_fill_keeps_count(m3, map@, Cell::T3, Cell::Wall);
            lemma_fill_keeps_count(placed, m1, Cell::Wall, Cell::T1);
            lemma_fill_keeps_count(m2, m3, Cell::T2, Cell::T1);
            lemma_fill_keeps_count(m3, map@, Cell::T3, Cell::T1);
            lemma_fill_keeps_count(placed, m1, Cell::Wall, Cell::T2);
            lemma_fill_keeps_count(m1, m2, Cell::T1, Cell::T2);
            lemma_fill_keeps_count(m3, map@, Cell::T3, Cell::T2);
            lemma_fill_keeps_count(placed, m1, Cell::Wall, Cell::T3);
            lemma_fill_keeps_count(m1, m2, Cell::T1, Cell::T3);
            lemma_fill_keeps_count(m2, m3, Cell::T2, Cell::T3);
        }
        Environment { map, width: MAP_SIZE, height: MAP_SIZE, start, goal }
    }
}

/// Map symbol for one cell, as the text rendering of a map shows it.
pub fn symbol_of(c: Cell) -> (ch: char)
    ensures
        ch == match c {
            Cell::Start => 'S',
            Cell::Goal => 'G',
            Cell::Wall => '#',
            Cell::T1 => '1',
            Cell::T2 => '2',
            Cell::T3 => '3',
            Cell::Empty => '.',
        },
{
    match c {
        Cell::Start => 'S',
        Cell::Goal => 'G',
        Cell::Wall => '#',
        Cell::T1 => '1',
        Cell::T2 => '2',
        Cell::T3 => '3',
        Cell::Empty => '.',
    }
}

} // verus!
