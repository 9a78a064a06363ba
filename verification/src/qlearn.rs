//! Tabular Q-learning over a grid world. The value table maps every
//! (state, action) pair to a fixed-point estimate, starting at zero; one
//! temporal-difference update moves an entry toward the observed reward
//! plus the discounted best estimate of the next state, and the bootstrap
//! term is exactly zero on a terminal transition.

use vstd::prelude::*;
use crate::fixed::{SCALE, tdiv, abs_i, lemma_scale_frac, lemma_tdiv_times_divisor,
    lemma_abs_mul_bound, div_trunc};
use crate::grid::{Action, Environment, State, MAX_HP, damage_of, reward_of, lemma_grid_index,
    terminal_spec};
use crate::rng::sample_range;

verus! {

/// Hit points left after walking a path: the starting maximum minus the
/// damage of every cell entered after the first.
pub open spec fn hp_walk(env: Environment, path: Seq<State>) -> int
    decreases path.len(),
{
    if path.len() <= 1 {
        MAX_HP as int
    } else {
        hp_walk(env, path.drop_last()) - damage_of(env.cell_at(path.last()))
    }
}

/// Every table entry stays within this bound; it dominates the fixed point
/// of the update rule for rewards up to `REWARD_BOUND` and a discount
/// factor strictly below one.
pub const Q_BOUND: i64 = 1_000_000_000;

/// Largest reward magnitude an update accepts, in fixed-point units.
pub const REWARD_BOUND: i64 = 100 * 1000;

/// Larger of two values.
pub open spec fn max2(a: int, b: int) -> int {
    if a >= b {
        a
    } else {
        b
    }
}

/// Index of a (state, action) pair in the flat value table.
pub open spec fn q_idx(s: State, a: Action, width: int) -> int {
    (s.y * width + s.x) * 4 + a.index_spec()
}

/// Every (state, action) index of an in-bounds state lies within a table of
/// `w * h * 4` entries.
pub proof fn lemma_q_idx_range(s: State, w: int, h: int)
    requires
        1 <= w,
        1 <= h,
        s.x < w,
        s.y < h,
    ensures
        forall|a: Action| 0 <= #[trigger] q_idx(s, a, w) < w * h * 4,
{
    lemma_grid_index(s.x as int, s.y as int, w, h);
    assert forall|a: Action| 0 <= #[trigger] q_idx(s, a, w) < w * h * 4 by {
        assert(0 <= a.index_spec() < 4);
    }
}

/// The value of a (state, action) pair in a flat table.
pub open spec fn table_at(t: Seq<i64>, s: State, a: Action, w: int) -> int {
    t[q_idx(s, a, w)] as int
}

/// The best table value of a state over the four actions, in the fixed
/// fold order Up, Down, Left, Right.
pub open spec fn table_max(t: Seq<i64>, s: State, w: int) -> int {
    max2(
        max2(
            max2(table_at(t, s, Action::Up, w), table_at(t, s, Action::Down, w)),
            table_at(t, s, Action::Left, w),
        ),
        table_at(t, s, Action::Right, w),
    )
}

/// One training transition from state `s` with hit points `hp`, taking
/// action `a`: the move by `env.step_next`, the entered cell's damage and
/// reward, terminality of the post-move state, and the table with exactly
/// the `(s, a)` entry rewritten by the update rule. Returns the new table,
/// the new state, the new hit points, and whether the transition ended the
/// episode.
pub open spec fn train_step(env: Environment, t: Seq<i64>, s: State, hp: int, a: Action, lr: int,
    df: int, w: int) -> (Seq<i64>, State, int, bool) {
    let next = env.step_next(s, a);
    let hp2 = hp - damage_of(env.cell_at(next));
    let reward = reward_of(env.cell_at(next));
    let done = terminal_spec(env, next, hp2);
    let nv = QLearningAgent::updated_q(table_at(t, s, a, w), table_max(t, next, w), reward, lr,
        df, done);
    (t.update(q_idx(s, a, w), nv as i64), next, hp2, done)
}

/// The configuration reached by taking a sequence of actions from a start
/// configuration, each one a training transition. The last component says
/// whether the final transition was terminal (false for no actions).
pub open spec fn run_actions(env: Environment, t: Seq<i64>, s: State, hp: int,
    actions: Seq<Action>, lr: int, df: int, w: int) -> (Seq<i64>, State, int, bool)
    decreases actions.len(),
{
    if actions.len() == 0 {
        (t, s, hp, false)
    } else {
        let prev = run_actions(env, t, s, hp, actions.drop_last(), lr, df, w);
        train_step(env, prev.0, prev.1, prev.2, actions.last(), lr, df, w)
    }
}

/// No transition before the last one was terminal: an episode never walks
/// past a terminal state.
pub open spec fn no_mid_terminal(env: Environment, t: Seq<i64>, actions: Seq<Action>, lr: int,
    df: int, w: int) -> bool
    decreases actions.len(),
{
    if actions.len() <= 1 {
        true
    } else {
        &&& no_mid_terminal(env, t, actions.drop_last(), lr, df, w)
        &&& !run_actions(env, t, env.start, MAX_HP as int, actions.drop_last(), lr, df, w).3
    }
}

/// One episode's actions are admissible against the table it started on:
/// at most `max_steps` of them from the start cell with full hit points,
/// never continuing past a terminal transition, and ending before the step
/// cap only on a terminal transition.
pub open spec fn episode_ok(env: Environment, t: Seq<i64>, actions: Seq<Action>, max_steps: int,
    lr: int, df: int, w: int) -> bool {
    &&& actions.len() <= max_steps
    &&& actions.len() < max_steps ==> run_actions(env, t, env.start, MAX_HP as int, actions, lr,
        df, w).3
    &&& no_mid_terminal(env, t, actions, lr, df, w)
}

/// The table after the given episodes, each starting at the environment's
/// start cell with full hit points.
pub open spec fn run_episodes(env: Environment, t: Seq<i64>, eps: Seq<Seq<Action>>, lr: int,
    df: int, w: int) -> Seq<i64>
    decreases eps.len(),
{
    if eps.len() == 0 {
        t
    } else {
        let prev = run_episodes(env, t, eps.drop_last(), lr, df, w);
        run_actions(env, prev, env.start, MAX_HP as int, eps.last(), lr, df, w).0
    }
}

/// Every episode is admissible against the table it started on.
pub open spec fn episodes_ok(env: Environment, t: Seq<i64>, eps: Seq<Seq<Action>>,
    max_steps: int, lr: int, df: int, w: int) -> bool
    decreases eps.len(),
{
    if eps.len() == 0 {
        true
    } else {
        &&& episodes_ok(env, t, eps.drop_last(), max_steps, lr, df, w)
        &&& episode_ok(env, run_episodes(env, t, eps.drop_last(), lr, df, w), eps.last(),
            max_steps, lr, df, w)
    }
}

/// A tabular Q-learning agent: the flat value table for a `width` by
/// `height` grid, and the fixed-point learning parameters.
pub struct QLearningAgent {
    pub q: Vec<i64>,
    pub width: usize,
    pub height: usize,
    pub learning_rate: i64,
    pub discount_factor: i64,
    pub epsilon: i64,
}

impl QLearningAgent {
    /// The table value of a (state, action) pair.
    pub open spec fn q_at(self, s: State, a: Action) -> int {
        self.q@[q_idx(s, a, self.width as int)] as int
    }

    /// The best table value over the four actions, in the fixed fold order
    /// Up, Down, Left, Right.
    pub open spec fn max_q(self, s: State) -> int {
        max2(
            max2(max2(self.q_at(s, Action::Up), self.q_at(s, Action::Down)), self.q_at(s,
                Action::Left)),
            self.q_at(s, Action::Right),
        )
    }

    /// The greedy action: the highest-valued of the four, ties broken by the
    /// enumeration order Up, Down, Left, Right (a later action wins only by
    /// a strictly greater value).
    pub open spec fn greedy_action(self, s: State) -> Action {
        let b1 = Action::Up;
        let b2 = if self.q_at(s, Action::Down) > self.q_at(s, b1) {
            Action::Down
        } else {
            b1
        };
        let b3 = if self.q_at(s, Action::Left) > self.q_at(s, b2) {
            Action::Left
        } else {
            b2
        };
        if self.q_at(s, Action::Right) > self.q_at(s, b3) {
            Action::Right
        } else {
            b3
        }
    }

    pub open spec fn in_bounds(self, s: State) -> bool {
        s.x < self.width && s.y < self.height
    }

    /// Well-formedness: the table covers the whole grid, every entry is
    /// bounded, and the learning parameters are fixed-point fractions (the
    /// discount factor strictly below one, which keeps the table bounded).
    pub open spec fn wf(self) -> bool {
        &&& 1 <= self.width
        &&& 1 <= self.height
        &&& self.q@.len() == self.width * self.height * 4
        &&& forall|i: int| 0 <= i < self.q@.len() ==> abs_i(#[trigger] self.q@[i] as int) <= Q_BOUND
        &&& 0 <= self.learning_rate <= SCALE
        &&& 0 <= self.discount_factor < SCALE
        &&& 0 <= self.epsilon <= SCALE
    }

    /// The agent's table matches the environment's grid.
    pub open spec fn fits(self, env: Environment) -> bool {
        self.width == env.width && self.height == env.height
    }

    /// A fresh agent: every table value zero.
    pub fn new(width: usize, height: usize, learning_rate: i64, discount_factor: i64, epsilon: i64)
        -> (agent: QLearningAgent)
        requires
            1 <= width,
            1 <= height,
            width * height * 4 <= usize::MAX,
            0 <= learning_rate <= SCALE,
            0 <= discount_factor < SCALE,
            0 <= epsilon <= SCALE,
        ensures
            agent.wf(),
            agent.width == width,
            agent.height == height,
            agent.learning_rate == learning_rate,
            agent.discount_factor == discount_factor,
            agent.epsilon == epsilon,
            forall|i: int| 0 <= i < agent.q@.len() ==> agent.q@[i] == 0,
    {
        let total = width * height * 4;
        let mut q: Vec<i64> = Vec::new();
        let mut k: usize = 0;
        while k < total
            invariant
                q@.len() == k,
                k <= total,
                forall|i: int| 0 <= i < k ==> q@[i] == 0,
            decreases total - k,
        {
            q.push(0);
            k = k + 1;
        }
        QLearningAgent { q, width, height, learning_rate, discount_factor, epsilon }
    }

    /// Flat index of a (state, action) pair.
    fn q_index(&self, s: State, a: Action) -> (i: usize)
        requires
            1 <= self.width,
            1 <= self.height,
            self.q@.len() == self.width * self.height * 4,
            self.in_bounds(s),
        ensures
            i == q_idx(s, a, self.width as int),
            i < self.q@.len(),
    {
        proof {
            lemma_grid_index(s.x as int, s.y as int, self.width as int, self.height as int);
        }
        let n = self.q.len();
        let cell = s.y * self.width + s.x;
        assert(cell * 4 + 3 < n);
        cell * 4 + a.index()
    }

    /// The learned value of a (state, action) pair; a pair never updated
    /// reads as zero.
    pub fn get_q_value(&self, s: State, a: Action) -> (v: i64)
        requires
            self.wf(),
            self.in_bounds(s),
        ensures
            v == self.q_at(s, a),
    {
        let i = self.q_index(s, a);
        self.q[i]
    }

    /// The best learned value of a state over the four actions.
    pub fn max_next_q(&self, s: State) -> (v: i64)
        requires
            self.wf(),
            self.in_bounds(s),
        ensures
            v == self.max_q(s),
            abs_i(v as int) <= Q_BOUND,
    {
        proof {
            lemma_q_idx_range(s, self.width as int, self.height as int);
        }
        let mut best = self.get_q_value(s, Action::Up);
        let vd = self.get_q_value(s, Action::Down);
        if vd > best {
            best = vd;
        }
        let vl = self.get_q_value(s, Action::Left);
        if vl > best {
            best = vl;
        }
        let vr = self.get_q_value(s, Action::Right);
        if vr > best {
            best = vr;
        }
        best
    }

    /// The greedy action for a state.
    pub fn greedy(&self, s: State) -> (a: Action)
        requires
            self.wf(),
            self.in_bounds(s),
        ensures
            a == self.greedy_action(s),
    {
        let mut best = Action::Up;
        let mut best_v = self.get_q_value(s, best);
        let vd = self.get_q_value(s, Action::Down);
        if vd > best_v {
            best = Action::Down;
            best_v = vd;
        }
        let vl = self.get_q_value(s, Action::Left);
        if vl > best_v {
            best = Action::Left;
            best_v = vl;
        }
        let vr = self.get_q_value(s, Action::Right);
        if vr > best_v {
            best = Action::Right;
            best_v = vr;
        }
        best
    }

    /// Epsilon-greedy choice: with probability `epsilon` a uniformly random
    /// action, otherwise the greedy one. With `epsilon` zero the choice is
    /// exactly the greedy action.
    pub fn choose_action(&self, s: State, rng: &mut rand::rngs::StdRng) -> (a: Action)
        requires
            self.wf(),
            self.in_bounds(s),
        ensures
            self.epsilon == 0 ==> a == self.greedy_action(s),
    {
        let r = sample_range(rng, 0, SCALE);
        if r < self.epsilon {
            let i = sample_range(rng, 0, 4);
            Action::from_index(i as usize)
        } else {
            self.greedy(s)
        }
    }

    /// The value an update writes: the old value moved by `learning_rate`
    /// toward `reward` plus the discounted bootstrap, which is zero when the
    /// transition was terminal.
    pub open spec fn updated_q(old_q: int, max_next: int, reward: int, lr: int, df: int,
        done: bool) -> int {
        let bootstrap = if done {
            0
        } else {
            tdiv(df * max_next, SCALE as int)
        };
        old_q + tdiv(lr * (reward + bootstrap - old_q), SCALE as int)
    }

    /// One temporal-difference update of the (state, action) entry.
    /// On a terminal transition the new value is exactly
    /// `old + lr * (reward - old)` in fixed point: the best next value is
    /// never incorporated.
    pub fn update(&mut self, s: State, a: Action, reward: i64, next_state: State, done: bool)
        requires
            old(self).wf(),
            old(self).in_bounds(s),
            old(self).in_bounds(next_state),
            abs_i(reward as int) <= REWARD_BOUND,
        ensures
            final(self).wf(),
            final(self).width == old(self).width,
            final(self).height == old(self).height,
            final(self).learning_rate == old(self).learning_rate,
            final(self).discount_factor == old(self).discount_factor,
            final(self).epsilon == old(self).epsilon,
            final(self).q@.len() == old(self).q@.len(),
            forall|j: int|
                0 <= j < old(self).q@.len() && j != q_idx(s, a, old(self).width as int)
                    ==> final(self).q@[j] == old(self).q@[j],
            final(self).q_at(s, a) == Self::updated_q(
                old(self).q_at(s, a),
                old(self).max_q(next_state),
                reward as int,
                old(self).learning_rate as int,
                old(self).discount_factor as int,
                done,
            ),
            done ==> final(self).q_at(s, a) == old(self).q_at(s, a) + tdiv(
                old(self).learning_rate * (reward - old(self).q_at(s, a)),
                SCALE as int,
            ),
    {
        proof {
            lemma_q_idx_range(s, self.width as int, self.height as int);
        }
        let cur = self.get_q_value(s, a);
        let bootstrap: i64 = if done {
            0
        } else {
            let mn = self.max_next_q(next_state);
            proof {
                lemma_abs_mul_bound(
                    self.discount_factor as int,
                    mn as int,
                    (SCALE - 1) as int,
                    Q_BOUND as int,
                );
                lemma_tdiv_times_divisor(self.discount_factor * mn, SCALE as int);
            }
            div_trunc(self.discount_factor * mn, SCALE)
        };
        assert(abs_i(bootstrap as int) <= Q_BOUND - 1_000_000);
        let inner = reward + bootstrap - cur;
        proof {
            lemma_abs_mul_bound(
                self.learning_rate as int,
                inner as int,
                SCALE as int,
                3_000_000_000int,
            );
            lemma_scale_frac(self.learning_rate as int, inner as int, SCALE as int);
        }
        let step = div_trunc(self.learning_rate * inner, SCALE);
        let new_q = cur + step;
        let i = self.q_index(s, a);
        self.q[i] = new_q;
        proof {
            assert(abs_i(new_q as int) <= Q_BOUND);
            assert(self.q_at(s, a) == new_q);
        }
    }

    /// An independent copy of the agent, for replaying a learning stage
    /// while the live table keeps training.
    pub fn snapshot(&self) -> (t: QLearningAgent)
        ensures
            t.q@ == self.q@,
            t.width == self.width,
            t.height == self.height,
            t.learning_rate == self.learning_rate,
            t.discount_factor == self.discount_factor,
            t.epsilon == self.epsilon,
            self.wf() ==> t.wf(),
    {
        let mut q: Vec<i64> = Vec::new();
        let n = self.q.len();
        let mut k: usize = 0;
        while k < n
            invariant
                q@.len() == k,
                k <= n,
                n == self.q@.len(),
                forall|i: int| 0 <= i < k ==> q@[i] == self.q@[i],
            decreases n - k,
        {
            let v = self.q[k];
            q.push(v);
            k = k + 1;
        }
        proof {
            assert(q@ =~= self.q@);
        }
        QLearningAgent {
            q,
            width: self.width,
            height: self.height,
            learning_rate: self.learning_rate,
            discount_factor: self.discount_factor,
            epsilon: self.epsilon,
        }
    }

    /// Trains for the given number of episodes. Every episode starts at the
    /// environment's start cell with full hit points and runs until a
    /// terminal state or the step cap; every transition applies one
    /// temporal-difference update, fully sequentially. The returned ghost
    /// trace names the actions the random policy took: the final table is
    /// exactly the fold of those episodes over the starting table, and each
    /// episode is admissible — it never walks past a terminal state and
    /// stops early only on one.
    pub fn train(&mut self, env: &Environment, episodes: usize, max_steps: usize,
        rng: &mut rand::rngs::StdRng) -> (trace: Ghost<Seq<Seq<Action>>>)
        requires
            old(self).wf(),
            old(self).fits(*env),
            env.wf(),
            max_steps <= 1_000_000,
        ensures
            final(self).wf(),
            final(self).fits(*env),
            final(self).width == old(self).width,
            final(self).height == old(self).height,
            final(self).learning_rate == old(self).learning_rate,
            final(self).discount_factor == old(self).discount_factor,
            final(self).epsilon == old(self).epsilon,
            trace@.len() == episodes,
            episodes_ok(
                *env,
                old(self).q@,
                trace@,
                max_steps as int,
                old(self).learning_rate as int,
                old(self).discount_factor as int,
                old(self).width as int,
            ),
            final(self).q@ == run_episodes(
                *env,
                old(self).q@,
                trace@,
                old(self).learning_rate as int,
                old(self).discount_factor as int,
                old(self).width as int,
            ),
    {
        let ghost mut trace: Seq<Seq<Action>> = Seq::empty();
        let mut ep: usize = 0;
        while ep < episodes
            invariant
                self.wf(),
                self.fits(*env),
                env.wf(),
                max_steps <= 1_000_000,
                self.width == old(self).width,
                self.height == old(self).height,
                self.learning_rate == old(self).learning_rate,
                self.discount_factor == old(self).discount_factor,
                self.epsilon == old(self).epsilon,
                ep <= episodes,
                trace.len() == ep,
                episodes_ok(
                    *env,
                    old(self).q@,
                    trace,
                    max_steps as int,
                    old(self).learning_rate as int,
                    old(self).discount_factor as int,
                    old(self).width as int,
                ),
                self.q@ == run_episodes(
                    *env,
                    old(self).q@,
                    trace,
                    old(self).learning_rate as int,
                    old(self).discount_factor as int,
                    old(self).width as int,
                ),
            decreases episodes - ep,
        {
            let mut state = env.start;
            let mut hp: i64 = MAX_HP;
            let mut done = false;
            let mut step_i: usize = 0;
            let ghost t0 = self.q@;
            let ghost mut acts: Seq<Action> = Seq::empty();
            while step_i < max_steps && !done
                invariant
                    self.wf(),
                    self.fits(*env),
                    env.wf(),
                    max_steps <= 1_000_000,
                    self.width == old(self).width,
                    self.height == old(self).height,
                    self.learning_rate == old(self).learning_rate,
                    self.discount_factor == old(self).discount_factor,
                    self.epsilon == old(self).epsilon,
                    env.in_bounds(state),
                    step_i <= max_steps,
                    MAX_HP - 100 * step_i <= hp <= MAX_HP,
                    trace.len() == ep,
                    episodes_ok(
                        *env,
                        old(self).q@,
                        trace,
                        max_steps as int,
                        old(self).learning_rate as int,
                        old(self).discount_factor as int,
                        old(self).width as int,
                    ),
                    t0 == run_episodes(
                        *env,
                        old(self).q@,
                        trace,
                        old(self).learning_rate as int,
                        old(self).discount_factor as int,
                        old(self).width as int,
                    ),
                    acts.len() == step_i,
                    run_actions(
                        *env,
                        t0,
                        env.start,
                        MAX_HP as int,
                        acts,
                        old(self).learning_rate as int,
                        old(self).discount_factor as int,
                        old(self).width as int,
                    ) == (self.q@, state, hp as int, done),
                    no_mid_terminal(
                        *env,
                        t0,
                        acts,
                        old(self).learning_rate as int,
                        old(self).discount_factor as int,
                        old(self).width as int,
                    ),
                decreases max_steps - step_i,
            {
                let action = self.choose_action(state, rng);
                let (next, dmg, _hit) = env.step(state, action);
                assert(0 <= dmg <= 100);
                let ghost hp0 = hp as int;
                let ghost q_pre = self.q@;
                let ghost acts0 = acts;
                hp = hp - dmg;
                let reward = env.get_reward(next);
                assert(abs_i(reward as int) <= REWARD_BOUND);
                done = env.is_terminal(next, hp);
                self.update(state, action, reward, next, done);
                proof {
                    lemma_q_idx_range(state, old(self).width as int, old(self).height as int);
                    let idx = q_idx(state, action, old(self).width as int);
                    let stepres = train_step(
                        *env,
                        q_pre,
                        state,
                        hp0,
                        action,
                        old(self).learning_rate as int,
                        old(self).discount_factor as int,
                        old(self).width as int,
                    );
                    assert(stepres.1 == next);
                    assert(stepres.2 == hp as int);
                    assert(stepres.3 == done);
                    assert(self.q@[idx] as int == stepres.0[idx] as int);
                    assert(stepres.0 =~= self.q@);
                    acts = acts.push(action);
                    assert(acts.drop_last() =~= acts0);
                    assert(run_actions(
                        *env,
                        t0,
                        env.start,
                        MAX_HP as int,
                        acts,
                        old(self).learning_rate as int,
                        old(self).discount_factor as int,
                        old(self).width as int,
                    ) == (self.q@, next, hp as int, done));
                    assert(no_mid_terminal(
                        *env,
                        t0,
                        acts,
                        old(self).learning_rate as int,
                        old(self).discount_factor as int,
                        old(self).width as int,
                    ));
                }
                state = next;
                step_i = step_i + 1;
            }
            proof {
                assert(episode_ok(
                    *env,
                    t0,
                    acts,
                    max_steps as int,
                    old(self).learning_rate as int,
                    old(self).discount_factor as int,
                    old(self).width as int,
                ));
                let ghost trace0 = trace;
                trace = trace.push(acts);
                assert(trace.drop_last() =~= trace0);
                assert(self.q@ == run_episodes(
                    *env,
                    old(self).q@,
                    trace,
                    old(self).learning_rate as int,
                    old(self).discount_factor as int,
                    old(self).width as int,
                ));
            }
            ep = ep + 1;
        }
        Ghost(trace)
    }

    /// The path is a faithful rollout of this agent's table on `env`: it
    /// begins at the start cell, every consecutive pair is one environment
    /// transition, no state but the last was terminal when it was left, and
    /// — when `greedy_only` holds — every transition takes the greedy
    /// action.
    pub open spec fn walk_ok(self, env: Environment, greedy_only: bool, path: Seq<State>) -> bool
        decreases path.len(),
    {
        if path.len() == 0 {
            false
        } else if path.len() == 1 {
            path[0] == env.start
        } else {
            let prev = path[path.len() - 2];
            let cur = path.last();
            &&& self.walk_ok(env, greedy_only, path.drop_last())
            &&& exists|a: Action| cur == env.step_next(prev, a)
            &&& (greedy_only ==> cur == env.step_next(prev, self.greedy_action(prev)))
            &&& !terminal_spec(env, prev, hp_walk(env, path.drop_last()))
        }
    }

    /// Rolls the learned policy out from the start cell: the ordered
    /// sequence of visited states, ending at the first terminal state, or
    /// cut off once it holds more than 500 states (the walk is then stuck,
    /// which the caller decides how to present). Each consecutive pair is
    /// one environment transition; with `epsilon` zero every transition
    /// takes the greedy action.
    pub fn get_episode_path(&self, env: &Environment, epsilon: i64, rng: &mut rand::rngs::StdRng)
        -> (path: Vec<State>)
        requires
            self.wf(),
            self.fits(*env),
            env.wf(),
            0 <= epsilon <= SCALE,
        ensures
            1 <= path@.len() <= 501,
            self.walk_ok(*env, epsilon == 0, path@),
            forall|i: int| 0 <= i < path@.len() ==> env.in_bounds(#[trigger] path@[i]),
            path@.len() <= 500 ==> terminal_spec(*env, path@.last(), hp_walk(*env, path@)),
    {
        let mut path: Vec<State> = Vec::new();
        path.push(env.start);
        let mut state = env.start;
        let mut hp: i64 = MAX_HP;
        loop
            invariant_except_break
                1 <= path@.len() <= 500,
            invariant
                self.wf(),
                self.fits(*env),
                env.wf(),
                0 <= epsilon <= SCALE,
                1 <= path@.len() <= 501,
                state == path@.last(),
                env.in_bounds(state),
                hp == hp_walk(*env, path@),
                MAX_HP - 100 * (path@.len() - 1) <= hp <= MAX_HP,
                self.walk_ok(*env, epsilon == 0, path@),
                forall|i: int| 0 <= i < path@.len() ==> env.in_bounds(#[trigger] path@[i]),
            ensures
                1 <= path@.len() <= 501,
                state == path@.last(),
                hp == hp_walk(*env, path@),
                self.walk_ok(*env, epsilon == 0, path@),
                forall|i: int| 0 <= i < path@.len() ==> env.in_bounds(#[trigger] path@[i]),
                terminal_spec(*env, state, hp as int) || path@.len() == 501,
            decreases 501 - path@.len(),
        {
            if env.is_terminal(state, hp) {
                break;
            }
            let r = sample_range(rng, 0, SCALE);
            let action = if r < epsilon {
                let i = sample_range(rng, 0, 4);
                Action::from_index(i as usize)
            } else {
                self.greedy(state)
            };
            let (next, dmg, _hit) = env.step(state, action);
            let ghost old_path = path@;
            hp = hp - dmg;
            state = next;
            path.push(state);
            proof {
                assert(path@.drop_last() =~= old_path);
                assert(path@[path@.len() - 2] == old_path.last());
                assert(path@.last() == env.step_next(old_path.last(), action));
            }
            if path.len() > 500 {
                break;
            }
        }
        path
    }
}

} // verus!
