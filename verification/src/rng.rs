//! The random source used by the engines.
//!
//! Randomness is an injected dependency: every randomized operation takes a
//! `&mut rand::rngs::StdRng`, so callers (and tests) can seed it and replay
//! a run. Nothing is assumed of a sample beyond its range.

use vstd::prelude::*;

verus! {

#[verifier::external_type_specification]
#[verifier::external_body]
pub struct ExStdRng(rand::rngs::StdRng);

/// Relies on rand::Rng::gen_range over `lo..hi`: the sample lies in
/// `[lo, hi)`, and the call panics only on an empty range, which
/// `lo < hi` rules out.
#[verifier::external_body]
pub fn sample_range(rng: &mut rand::rngs::StdRng, lo: i64, hi: i64) -> (r: i64)
    requires
        lo < hi,
    ensures
        lo <= r < hi,
{
    rand::Rng::gen_range(rng, lo..hi)
}

} // verus!
