//! Verified cores of three small simulation engines: a particle-swarm
//! optimizer over a bounded two-dimensional domain, a tabular Q-learning
//! agent on a grid world with traps and hit points, and classic
//! autonomous-agent steering behaviours.
//!
//! All quantities are fixed-point integers: a value scaled by `SCALE`
//! stands for the real number `value / SCALE`.

use vstd::prelude::*;

pub mod fixed;
pub mod grid;
pub mod pso;
pub mod qlearn;
pub mod replay;
pub mod rng;
pub mod steer;

pub use fixed::SCALE;

verus! {

} // verus!
