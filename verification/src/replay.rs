//! Replay of a precomputed path: an agent walks the states one tick at a
//! time, loses hit points on trap cells, and reports each transition as a
//! discrete event for a presentation layer to render.

use vstd::prelude::*;
use crate::grid::{Cell, Environment, State, MAX_HP};

verus! {

/// What one replay tick did.
#[derive(Clone, Copy, PartialEq, Eq, Structural, Debug)]
pub enum ReplayEvent {
    /// Nothing happened: the replay had already finished, or finished now
    /// away from the goal.
    Done,
    /// Hit points ran out.
    Died,
    /// The final state was the goal.
    GoalReached,
    /// The next step was a blocked move: two equal consecutive states.
    WallBump,
    /// Entered a tier-one trap.
    Trap1,
    /// Entered a tier-two trap.
    Trap2,
    /// Entered a tier-three trap.
    Trap3,
    /// An ordinary move.
    Step,
}

/// A replaying agent: the fixed path, the index it has walked to, its hit
/// points, and whether the walk has ended.
pub struct Replay {
    pub path: Vec<State>,
    pub current_index: usize,
    pub finished: bool,
    pub hp: i64,
}

impl Replay {
    /// Well-formedness against the environment the path was made on.
    pub open spec fn wf(self, env: Environment) -> bool {
        &&& 1 <= self.path@.len() <= 1_000_000
        &&& forall|i: int| 0 <= i < self.path@.len() ==> env.in_bounds(#[trigger] self.path@[i])
        &&& self.current_index < self.path@.len()
        &&& MAX_HP - 100 * self.current_index <= self.hp <= MAX_HP
    }

    /// Starts a replay of a path. Returns `None` exactly when the path is
    /// empty, longer than the replay cap, or leaves the grid.
    pub fn start(path: Vec<State>, env: &Environment) -> (r: Option<Replay>)
        requires
            env.wf(),
        ensures
            r is Some <==> (1 <= path@.len() <= 1_000_000 && forall|i: int|
                0 <= i < path@.len() ==> env.in_bounds(#[trigger] path@[i])),
            r matches Some(a) ==> a.wf(*env) && a.path@ == path@ && a.current_index == 0
                && !a.finished && a.hp == MAX_HP,
    {
        if path.len() < 1 || path.len() > 1_000_000 {
            return None;
        }
        let n = path.len();
        let mut i: usize = 0;
        while i < n
            invariant
                n == path@.len(),
                i <= n,
                forall|j: int| 0 <= j < i ==> env.in_bounds(#[trigger] path@[j]),
            decreases n - i,
        {
            let s = path[i];
            if s.x >= env.width || s.y >= env.height {
                return None;
            }
            i = i + 1;
        }
        Some(Replay { path, current_index: 0, finished: false, hp: MAX_HP })
    }

    /// Rewinds the replay to the start with full hit points.
    pub fn restart(&mut self)
        requires
            old(self).path@.len() >= 1,
        ensures
            final(self).path == old(self).path,
            final(self).current_index == 0,
            !final(self).finished,
            final(self).hp == MAX_HP,
    {
        self.current_index = 0;
        self.finished = false;
        self.hp = MAX_HP;
    }

    /// One replay tick. An exhausted agent dies; at the end of the path the
    /// walk finishes, with a goal event when it ends on the goal; otherwise
    /// the agent advances one state, reporting a wall bump for a blocked
    /// move and paying the entered cell's damage for a trap.
    pub fn advance(&mut self, env: &Environment) -> (ev: ReplayEvent)
        requires
            env.wf(),
            old(self).wf(*env),
        ensures
            final(self).wf(*env),
            final(self).path == old(self).path,
            old(self).finished ==> *final(self) == *old(self) && ev == ReplayEvent::Done,
            !old(self).finished && old(self).hp <= 0 ==> final(self).finished && final(self).hp
                == old(self).hp && final(self).current_index == old(self).current_index && ev
                == ReplayEvent::Died,
            !old(self).finished && old(self).hp > 0 && old(self).current_index + 1
                >= old(self).path@.len() ==> final(self).finished && final(self).hp == old(
                self,
            ).hp && final(self).current_index == old(self).current_index && ev == (if env.cell_at(
                old(self).path@[old(self).current_index as int],
            ) == Cell::Goal {
                ReplayEvent::GoalReached
            } else {
                ReplayEvent::Done
            }),
            !old(self).finished && old(self).hp > 0 && old(self).current_index + 1 < old(
                self,
            ).path@.len() ==> ({
                let cur = old(self).path@[old(self).current_index as int];
                let next = old(self).path@[old(self).current_index as int + 1];
                let c = env.cell_at(next);
                &&& final(self).current_index == old(self).current_index + 1
                &&& final(self).finished == old(self).finished
                &&& (cur == next ==> ev == ReplayEvent::WallBump && final(self).hp == old(
                    self,
                ).hp)
                &&& (cur != next ==> ({
                    &&& c == Cell::T1 ==> ev == ReplayEvent::Trap1 && final(self).hp == old(
                        self,
                    ).hp - 25
                    &&& c == Cell::T2 ==> ev == ReplayEvent::Trap2 && final(self).hp == old(
                        self,
                    ).hp - 50
                    &&& c == Cell::T3 ==> ev == ReplayEvent::Trap3 && final(self).hp == old(
                        self,
                    ).hp - 100
                    &&& (c != Cell::T1 && c != Cell::T2 && c != Cell::T3) ==> ev
                        == ReplayEvent::Step && final(self).hp == old(self).hp
                }))
            }),
    {
        if self.finished {
            return ReplayEvent::Done;
        }
        if self.hp <= 0 {
            self.finished = true;
            return ReplayEvent::Died;
        }
        if self.current_index + 1 >= self.path.len() {
            self.finished = true;
            let last = self.path[self.current_index];
            if env.cell(last) == Cell::Goal {
                return ReplayEvent::GoalReached;
            }
            return ReplayEvent::Done;
        }
        let cur = self.path[self.current_index];
        let next = self.path[self.current_index + 1];
        self.current_index = self.current_index + 1;
        if cur == next {
            return ReplayEvent::WallBump;
        }
        match env.cell(next) {
            Cell::T1 => {
                self.hp = self.hp - 25;
                ReplayEvent::Trap1
            },
            Cell::T2 => {
                self.hp = self.hp - 50;
                ReplayEvent::Trap2
            },
            Cell::T3 => {
                self.hp = self.hp - 100;
                ReplayEvent::Trap3
            },
            _ => ReplayEvent::Step,
        }
    }
}

} // verus!
