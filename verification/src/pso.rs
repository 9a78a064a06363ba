//! Particle swarm optimization over a bounded two-dimensional domain.
//!
//! A swarm of particles chases a user-set target. Each generation first
//! refreshes every particle's personal best and the swarm's global best
//! from the current positions, then moves every particle by a velocity
//! blended from inertia, the pull toward its personal best, and the pull
//! toward the global best, with the position clamped to the domain box on
//! each axis independently.

use vstd::prelude::*;
use crate::fixed::{SCALE, tdiv, abs_i, min2, is_sqrt, isqrt, div_trunc, clamp_i64, clamp_spec,
    lemma_abs_mul_bound, lemma_tdiv_bounds};
use crate::rng::sample_range;

verus! {

/// Half-width of the square domain particles live in (30 whole units).
pub const DOMAIN_FP: i64 = 30_000;

/// A global best closer to the target than this counts as converged
/// (0.7 whole units).
pub const CONVERGENCE_FP: i64 = 700;

/// Stands for "no best seen yet": larger than any reachable distance.
pub const BEST_INF: i64 = 1_000_000_000;

/// Velocities saturate at this magnitude per axis; far beyond anything the
/// domain box lets matter, it only keeps the arithmetic in machine range.
pub const V_CAP: i64 = 1_000_000_000;

/// Largest inertia weight (1.2).
pub const W_MAX: i64 = 1200;

/// Largest cognitive or social coefficient (100.0); a machine limit, far
/// above the useful range around 2.
pub const COEFF_MAX: i64 = 100_000;

/// Largest target coordinate magnitude the swarm accepts; a machine limit.
pub const TARGET_LIMIT: i64 = 100_000_000;

/// No distance in range exceeds this.
pub const DIST_MAX: i64 = 150_000_000;

/// The integer square root as a function, pinned by its characterization.
pub open spec fn sqrt_i(n: int) -> int {
    choose|r: int| is_sqrt(n, r)
}

/// `is_sqrt` has at most one witness, so `sqrt_i` equals any witness.
pub proof fn lemma_sqrt_unique(n: int, r: int)
    requires
        is_sqrt(n, r),
    ensures
        sqrt_i(n) == r,
{
    let r2 = choose|x: int| is_sqrt(n, x);
    assert(is_sqrt(n, r2));
    assert(r2 == r) by (nonlinear_arith)
        requires
            r >= 0,
            r * r <= n,
            n < (r + 1) * (r + 1),
            r2 >= 0,
            r2 * r2 <= n,
            n < (r2 + 1) * (r2 + 1),
    ;
}

/// Squared Euclidean distance between two points.
pub open spec fn dist_sq(px: int, py: int, tx: int, ty: int) -> int {
    (px - tx) * (px - tx) + (py - ty) * (py - ty)
}

/// Euclidean distance in fixed point, rounded down.
pub open spec fn dist_fp(px: int, py: int, tx: int, ty: int) -> int {
    sqrt_i(dist_sq(px, py, tx, ty))
}

/// Both coordinates lie in the domain box.
pub open spec fn in_domain(x: int, y: int) -> bool {
    abs_i(x) <= DOMAIN_FP && abs_i(y) <= DOMAIN_FP
}

/// The distance of a point in the domain box to a target in range.
pub fn euclid_dist(px: i64, py: i64, tx: i64, ty: i64) -> (d: i64)
    requires
        in_domain(px as int, py as int),
        abs_i(tx as int) <= TARGET_LIMIT,
        abs_i(ty as int) <= TARGET_LIMIT,
    ensures
        d == dist_fp(px as int, py as int, tx as int, ty as int),
        0 <= d < DIST_MAX,
{
    let dx = px - tx;
    let dy = py - ty;
    proof {
        lemma_abs_mul_bound(dx as int, dx as int, 100_030_000int, 100_030_000int);
        lemma_abs_mul_bound(dy as int, dy as int, 100_030_000int, 100_030_000int);
        assert(dx * dx >= 0) by (nonlinear_arith);
        assert(dy * dy >= 0) by (nonlinear_arith);
    }
    let s = (dx * dx + dy * dy) as u64;
    let r = isqrt(s);
    proof {
        lemma_sqrt_unique(s as int, r as int);
        assert((r as int) < DIST_MAX) by (nonlinear_arith)
            requires
                (r as int) * (r as int) <= s as int,
                s as int <= 2int * 100_030_000 * 100_030_000,
                r >= 0,
        ;
    }
    r as i64
}

/// The tunable swarm parameters, all runtime-adjustable through the
/// clamping setters on `SwarmState`.
#[derive(Clone, Copy, PartialEq, Eq, Structural, Debug)]
pub struct PsoParams {
    pub population: usize,
    pub generations: usize,
    pub w: i64,
    pub c1: i64,
    pub c2: i64,
}

impl PsoParams {
    /// Parameter ranges the engine keeps: population at least 3, inertia in
    /// `[0, 1.2]`, coefficients non-negative and within machine range.
    pub open spec fn wf(self) -> bool {
        &&& 3 <= self.population
        &&& 0 <= self.w <= W_MAX
        &&& 0 <= self.c1 <= COEFF_MAX
        &&& 0 <= self.c2 <= COEFF_MAX
    }
}

impl Default for PsoParams {
    /// Ten particles, fifteen generations, w 0.6, c1 1.8, c2 2.1.
    fn default() -> (p: PsoParams)
        ensures
            p.wf(),
            p.population == 10,
            p.generations == 15,
            p.w == 600,
            p.c1 == 1800,
            p.c2 == 2100,
    {
        PsoParams { population: 10, generations: 15, w: 600, c1: 1800, c2: 2100 }
    }
}

/// One particle: current position and velocity, and the best position it
/// has ever sat on with its distance to the target (`BEST_INF` until the
/// first evaluation).
#[derive(Clone, Copy, PartialEq, Eq, Structural, Debug)]
pub struct Particle {
    pub pos_x: i64,
    pub pos_y: i64,
    pub vel_x: i64,
    pub vel_y: i64,
    pub best_x: i64,
    pub best_y: i64,
    pub best_val: i64,
}

impl Particle {
    pub open spec fn wf(self) -> bool {
        &&& in_domain(self.pos_x as int, self.pos_y as int)
        &&& in_domain(self.best_x as int, self.best_y as int)
        &&& abs_i(self.vel_x as int) <= V_CAP
        &&& abs_i(self.vel_y as int) <= V_CAP
        &&& 0 <= self.best_val <= BEST_INF
    }

    /// A particle as population initialization makes it: at the given
    /// position, at rest, with no best seen yet.
    pub open spec fn fresh_at(self, x: int, y: int) -> bool {
        &&& self.pos_x == x
        &&& self.pos_y == y
        &&& self.vel_x == 0
        &&& self.vel_y == 0
        &&& self.best_x == x
        &&& self.best_y == y
        &&& self.best_val == BEST_INF
    }
}

/// Draws a population of fresh particles uniformly over the domain box.
/// Returns `None` exactly when fewer than one particle is asked for.
pub fn initialize_population(population: usize, rng: &mut rand::rngs::StdRng) -> (r: Option<
    Vec<Particle>>)
    ensures
        r is Some <==> population >= 1,
        r matches Some(v) ==> v@.len() == population && forall|i: int|
            0 <= i < v@.len() ==> (#[trigger] v@[i]).wf() && v@[i].fresh_at(
                v@[i].pos_x as int,
                v@[i].pos_y as int,
            ),
{
    if population < 1 {
        return None;
    }
    let mut v: Vec<Particle> = Vec::new();
    let mut k: usize = 0;
    while k < population
        invariant
            v@.len() == k,
            k <= population,
            forall|i: int|
                0 <= i < k ==> (#[trigger] v@[i]).wf() && v@[i].fresh_at(
                    v@[i].pos_x as int,
                    v@[i].pos_y as int,
                ),
        decreases population - k,
    {
        let x = sample_range(rng, -DOMAIN_FP, DOMAIN_FP);
        let y = sample_range(rng, -DOMAIN_FP, DOMAIN_FP);
        v.push(Particle {
            pos_x: x,
            pos_y: y,
            vel_x: 0,
            vel_y: 0,
            best_x: x,
            best_y: y,
            best_val: BEST_INF,
        });
        k = k + 1;
    }
    Some(v)
}

/// The personal-best value after evaluating a particle's position against
/// the target: the old best, or the current distance if that is strictly
/// better.
pub open spec fn new_best_val(p: Particle, tx: int, ty: int) -> int {
    let d = dist_fp(p.pos_x as int, p.pos_y as int, tx, ty);
    if d < p.best_val {
        d
    } else {
        p.best_val as int
    }
}

/// The personal-best x coordinate after evaluation.
pub open spec fn new_best_x(p: Particle, tx: int, ty: int) -> int {
    if dist_fp(p.pos_x as int, p.pos_y as int, tx, ty) < p.best_val {
        p.pos_x as int
    } else {
        p.best_x as int
    }
}

/// The personal-best y coordinate after evaluation.
pub open spec fn new_best_y(p: Particle, tx: int, ty: int) -> int {
    if dist_fp(p.pos_x as int, p.pos_y as int, tx, ty) < p.best_val {
        p.pos_y as int
    } else {
        p.best_y as int
    }
}

/// The global-best candidate over the first `k` particles, folded in order
/// from the no-best-yet state: value, x, y. A later particle wins only by a
/// strictly smaller distance of its current position to the target.
pub open spec fn best_prefix(ps: Seq<Particle>, tx: int, ty: int, k: int) -> (int, int, int)
    decreases k,
{
    if k <= 0 {
        (BEST_INF as int, 0int, 0int)
    } else {
        let prev = best_prefix(ps, tx, ty, k - 1);
        let d = dist_fp(ps[k - 1].pos_x as int, ps[k - 1].pos_y as int, tx, ty);
        if d < prev.0 {
            (d, ps[k - 1].pos_x as int, ps[k - 1].pos_y as int)
        } else {
            prev
        }
    }
}

/// The least personal-best value over the first `k` particles.
pub open spec fn min_best(ps: Seq<Particle>, k: int) -> int
    decreases k,
{
    if k <= 0 {
        BEST_INF as int
    } else {
        min2(min_best(ps, k - 1), ps[k - 1].best_val as int)
    }
}

/// One axis of the velocity rule: inertia plus the two random pulls, in
/// fixed point, saturated at the velocity cap.
pub open spec fn vel_formula(w: int, v: int, c1: int, r1: int, dp: int, c2: int, r2: int,
    dg: int) -> int {
    clamp_spec(
        tdiv(w * v, SCALE as int) + tdiv(c1 * r1 * dp, SCALE * SCALE) + tdiv(
            c2 * r2 * dg,
            SCALE * SCALE,
        ),
        -V_CAP as int,
        V_CAP as int,
    )
}

/// One particle's move: with random pulls `r1` and `r2`, the new velocity
/// follows the velocity rule toward its own best and the given global best,
/// and the new position is the old one moved by it and clamped into the
/// domain box on each axis; the best fields are untouched.
pub open spec fn moved_from(p0: Particle, pn: Particle, w: int, c1: int, c2: int, gx: int,
    gy: int, r1: int, r2: int) -> bool {
    &&& 0 <= r1 < SCALE
    &&& 0 <= r2 < SCALE
    &&& pn.vel_x == vel_formula(w, p0.vel_x as int, c1, r1, p0.best_x - p0.pos_x, c2, r2, gx
        - p0.pos_x)
    &&& pn.vel_y == vel_formula(w, p0.vel_y as int, c1, r1, p0.best_y - p0.pos_y, c2, r2, gy
        - p0.pos_y)
    &&& pn.pos_x == clamp_spec(p0.pos_x + pn.vel_x, -DOMAIN_FP as int, DOMAIN_FP as int)
    &&& pn.pos_y == clamp_spec(p0.pos_y + pn.vel_y, -DOMAIN_FP as int, DOMAIN_FP as int)
    &&& pn.best_x == p0.best_x
    &&& pn.best_y == p0.best_y
    &&& pn.best_val == p0.best_val
}

/// A whole generation's effect on one particle: personal best refreshed
/// against the target first, then the move with random pulls `r1` and `r2`
/// toward the refreshed best and the generation's global best.
pub open spec fn particle_moved(p0: Particle, pn: Particle, params: PsoParams, gx: int, gy: int,
    tx: int, ty: int, r1: int, r2: int) -> bool {
    &&& 0 <= r1 < SCALE
    &&& 0 <= r2 < SCALE
    &&& pn.vel_x == vel_formula(params.w as int, p0.vel_x as int, params.c1 as int, r1,
        new_best_x(p0, tx, ty) - p0.pos_x, params.c2 as int, r2, gx - p0.pos_x)
    &&& pn.vel_y == vel_formula(params.w as int, p0.vel_y as int, params.c1 as int, r1,
        new_best_y(p0, tx, ty) - p0.pos_y, params.c2 as int, r2, gy - p0.pos_y)
    &&& pn.pos_x == clamp_spec(p0.pos_x + pn.vel_x, -DOMAIN_FP as int, DOMAIN_FP as int)
    &&& pn.pos_y == clamp_spec(p0.pos_y + pn.vel_y, -DOMAIN_FP as int, DOMAIN_FP as int)
}

/// The least personal best depends only on the personal-best values.
proof fn lemma_min_best_congruence(a: Seq<Particle>, b: Seq<Particle>, k: int)
    requires
        forall|j: int| 0 <= j < k ==> a[j].best_val == b[j].best_val,
    ensures
        min_best(a, k) == min_best(b, k),
    decreases k,
{
    if k > 0 {
        lemma_min_best_congruence(a, b, k - 1);
    }
}

/// On a swarm whose particles have no best yet, the folded global-best
/// value equals the least refreshed personal-best value: every refreshed
/// best is exactly the current distance, and both folds take the minimum.
proof fn lemma_best_prefix_is_min_best(old_ps: Seq<Particle>, mid_ps: Seq<Particle>, tx: int,
    ty: int, k: int)
    requires
        forall|j: int| 0 <= j < k ==> old_ps[j].best_val == BEST_INF,
        forall|j: int|
            0 <= j < k ==> mid_ps[j].best_val == new_best_val(#[trigger] old_ps[j], tx, ty),
        forall|j: int|
            0 <= j < k ==> dist_fp((#[trigger] old_ps[j]).pos_x as int, old_ps[j].pos_y as int,
                tx, ty) < BEST_INF,
    ensures
        best_prefix(old_ps, tx, ty, k).0 == min_best(mid_ps, k),
    decreases k,
{
    if k > 0 {
        lemma_best_prefix_is_min_best(old_ps, mid_ps, tx, ty, k - 1);
    }
}

/// The folded global-best value never beats the least refreshed personal
/// best: each refreshed best is at most the current distance the fold
/// takes its minimum over.
proof fn lemma_best_prefix_ge_min_best(old_ps: Seq<Particle>, mid_ps: Seq<Particle>, tx: int,
    ty: int, k: int)
    requires
        forall|j: int|
            0 <= j < k ==> mid_ps[j].best_val == new_best_val(#[trigger] old_ps[j], tx, ty),
    ensures
        best_prefix(old_ps, tx, ty, k).0 >= min_best(mid_ps, k),
    decreases k,
{
    if k > 0 {
        lemma_best_prefix_ge_min_best(old_ps, mid_ps, tx, ty, k - 1);
    }
}

/// Refreshes a particle's personal best against the target; returns the
/// distance of its current position to the target.
fn update_best(p: &mut Particle, tx: i64, ty: i64) -> (d: i64)
    requires
        old(p).wf(),
        abs_i(tx as int) <= TARGET_LIMIT,
        abs_i(ty as int) <= TARGET_LIMIT,
    ensures
        final(p).wf(),
        d == dist_fp(old(p).pos_x as int, old(p).pos_y as int, tx as int, ty as int),
        0 <= d < DIST_MAX,
        final(p).pos_x == old(p).pos_x,
        final(p).pos_y == old(p).pos_y,
        final(p).vel_x == old(p).vel_x,
        final(p).vel_y == old(p).vel_y,
        final(p).best_val == new_best_val(*old(p), tx as int, ty as int),
        final(p).best_x == new_best_x(*old(p), tx as int, ty as int),
        final(p).best_y == new_best_y(*old(p), tx as int, ty as int),
        final(p).best_val <= old(p).best_val,
{
    let d = euclid_dist(p.pos_x, p.pos_y, tx, ty);
    if d < p.best_val {
        p.best_x = p.pos_x;
        p.best_y = p.pos_y;
        p.best_val = d;
    }
    d
}

/// Moves one particle by the velocity rule with two fresh uniform pulls,
/// returned as ghost values so callers can name them.
fn advance_particle(p: &mut Particle, w: i64, c1: i64, c2: i64, gx: i64, gy: i64,
    rng: &mut rand::rngs::StdRng) -> (rr: Ghost<(int, int)>)
    requires
        old(p).wf(),
        0 <= w <= W_MAX,
        0 <= c1 <= COEFF_MAX,
        0 <= c2 <= COEFF_MAX,
        in_domain(gx as int, gy as int),
    ensures
        final(p).wf(),
        moved_from(
            *old(p),
            *final(p),
            w as int,
            c1 as int,
            c2 as int,
            gx as int,
            gy as int,
            rr@.0,
            rr@.1,
        ),
{
    let r1 = sample_range(rng, 0, SCALE);
    let r2 = sample_range(rng, 0, SCALE);
    proof {
        lemma_abs_mul_bound(w as int, p.vel_x as int, W_MAX as int, V_CAP as int);
        lemma_abs_mul_bound(w as int, p.vel_y as int, W_MAX as int, V_CAP as int);
        lemma_abs_mul_bound(c1 as int, r1 as int, COEFF_MAX as int, SCALE as int);
        lemma_abs_mul_bound(c2 as int, r2 as int, COEFF_MAX as int, SCALE as int);
    }
    let c1r1 = c1 * r1;
    let c2r2 = c2 * r2;
    let dpx = p.best_x - p.pos_x;
    let dpy = p.best_y - p.pos_y;
    let dgx = gx - p.pos_x;
    let dgy = gy - p.pos_y;
    proof {
        lemma_abs_mul_bound(c1r1 as int, dpx as int, COEFF_MAX * SCALE as int, 2 * DOMAIN_FP as int);
        lemma_abs_mul_bound(c1r1 as int, dpy as int, COEFF_MAX * SCALE as int, 2 * DOMAIN_FP as int);
        lemma_abs_mul_bound(c2r2 as int, dgx as int, COEFF_MAX * SCALE as int, 2 * DOMAIN_FP as int);
        lemma_abs_mul_bound(c2r2 as int, dgy as int, COEFF_MAX * SCALE as int, 2 * DOMAIN_FP as int);
        lemma_tdiv_bounds(w * p.vel_x as int, SCALE as int);
        lemma_tdiv_bounds(w * p.vel_y as int, SCALE as int);
        lemma_tdiv_bounds(c1r1 * dpx as int, (SCALE * SCALE) as int);
        lemma_tdiv_bounds(c1r1 * dpy as int, (SCALE * SCALE) as int);
        lemma_tdiv_bounds(c2r2 * dgx as int, (SCALE * SCALE) as int);
        lemma_tdiv_bounds(c2r2 * dgy as int, (SCALE * SCALE) as int);
    }
    let t1x = div_trunc(w * p.vel_x, SCALE);
    let t2x = div_trunc(c1r1 * dpx, 1_000_000);
    let t3x = div_trunc(c2r2 * dgx, 1_000_000);
    let vx = clamp_i64(t1x + t2x + t3x, -V_CAP, V_CAP);
    let t1y = div_trunc(w * p.vel_y, SCALE);
    let t2y = div_trunc(c1r1 * dpy, 1_000_000);
    let t3y = div_trunc(c2r2 * dgy, 1_000_000);
    let vy = clamp_i64(t1y + t2y + t3y, -V_CAP, V_CAP);
    let px = clamp_i64(p.pos_x + vx, -DOMAIN_FP, DOMAIN_FP);
    let py = clamp_i64(p.pos_y + vy, -DOMAIN_FP, DOMAIN_FP);
    p.vel_x = vx;
    p.vel_y = vy;
    p.pos_x = px;
    p.pos_y = py;
    proof {
        assert(moved_from(
            *old(p),
            *p,
            w as int,
            c1 as int,
            c2 as int,
            gx as int,
            gy as int,
            r1 as int,
            r2 as int,
        ));
    }
    Ghost((r1 as int, r2 as int))
}

/// The whole swarm: particles, the global best seen this generation, the
/// generation counter, the optional target, and the converged flag.
pub struct SwarmState {
    pub params: PsoParams,
    pub particles: Vec<Particle>,
    pub gbest_x: i64,
    pub gbest_y: i64,
    pub gbest_val: i64,
    pub generation: usize,
    pub converged: bool,
    pub target: Option<(i64, i64)>,
}

impl SwarmState {
    pub open spec fn wf(self) -> bool {
        &&& self.params.wf()
        &&& forall|i: int| 0 <= i < self.particles@.len() ==> (#[trigger] self.particles@[i]).wf()
        &&& in_domain(self.gbest_x as int, self.gbest_y as int)
        &&& 0 <= self.gbest_val <= BEST_INF
        &&& self.target matches Some(t) ==> abs_i(t.0 as int) <= TARGET_LIMIT && abs_i(
            t.1 as int,
        ) <= TARGET_LIMIT
    }

    /// An idle swarm: no particles, no target, nothing converged.
    pub fn new(params: PsoParams) -> (s: SwarmState)
        requires
            params.wf(),
        ensures
            s.wf(),
            s.params == params,
            s.particles@.len() == 0,
            s.gbest_val == BEST_INF,
            s.generation == 0,
            !s.converged,
            s.target is None,
    {
        SwarmState {
            params,
            particles: Vec::new(),
            gbest_x: 0,
            gbest_y: 0,
            gbest_val: BEST_INF,
            generation: 0,
            converged: false,
            target: None,
        }
    }

    /// A swarm with the given particle positions and target, ready to step:
    /// fresh particles, generation zero, no best yet.
    pub fn with_positions(params: PsoParams, positions: &Vec<(i64, i64)>, tx: i64, ty: i64)
        -> (s: SwarmState)
        requires
            params.wf(),
            abs_i(tx as int) <= TARGET_LIMIT,
            abs_i(ty as int) <= TARGET_LIMIT,
            forall|i: int|
                0 <= i < positions@.len() ==> in_domain(
                    (#[trigger] positions@[i]).0 as int,
                    positions@[i].1 as int,
                ),
        ensures
            s.wf(),
            s.params == params,
            s.particles@.len() == positions@.len(),
            forall|i: int|
                0 <= i < positions@.len() ==> (#[trigger] s.particles@[i]).fresh_at(
                    positions@[i].0 as int,
                    positions@[i].1 as int,
                ),
            s.gbest_val == BEST_INF,
            s.generation == 0,
            !s.converged,
            s.target == Some((tx, ty)),
    {
        let mut v: Vec<Particle> = Vec::new();
        let n = positions.len();
        let mut k: usize = 0;
        while k < n
            invariant
                v@.len() == k,
                k <= n,
                n == positions@.len(),
                forall|i: int|
                    0 <= i < n ==> in_domain(
                        (#[trigger] positions@[i]).0 as int,
                        positions@[i].1 as int,
                    ),
                forall|i: int|
                    0 <= i < k ==> (#[trigger] v@[i]).wf() && v@[i].fresh_at(
                        positions@[i].0 as int,
                        positions@[i].1 as int,
                    ),
            decreases n - k,
        {
            let (x, y) = positions[k];
            v.push(Particle {
                pos_x: x,
                pos_y: y,
                vel_x: 0,
                vel_y: 0,
                best_x: x,
                best_y: y,
                best_val: BEST_INF,
            });
            k = k + 1;
        }
        SwarmState {
            params,
            particles: v,
            gbest_x: 0,
            gbest_y: 0,
            gbest_val: BEST_INF,
            generation: 0,
            converged: false,
            target: Some((tx, ty)),
        }
    }

    /// Sets a new optimization target: the only way to change it. All prior
    /// progress is discarded and the population is reinitialized at random.
    pub fn set_target(&mut self, tx: i64, ty: i64, rng: &mut rand::rngs::StdRng)
        requires
            old(self).wf(),
            abs_i(tx as int) <= TARGET_LIMIT,
            abs_i(ty as int) <= TARGET_LIMIT,
        ensures
            final(self).wf(),
            final(self).params == old(self).params,
            final(self).target == Some((tx, ty)),
            final(self).generation == 0,
            final(self).gbest_val == BEST_INF,
            !final(self).converged,
            final(self).particles@.len() == old(self).params.population,
            forall|i: int|
                0 <= i < final(self).particles@.len() ==> (#[trigger] final(self).particles@[i]).wf()
                    && final(self).particles@[i].fresh_at(
                    final(self).particles@[i].pos_x as int,
                    final(self).particles@[i].pos_y as int,
                ),
    {
        self.target = Some((tx, ty));
        self.converged = false;
        self.generation = 0;
        self.gbest_val = BEST_INF;
        match initialize_population(self.params.population, rng) {
            Some(v) => {
                self.particles = v;
            },
            None => {
                proof {
                    assert(false);
                }
            },
        }
    }

    /// Discards progress and draws a fresh population, keeping the target:
    /// generation and bests reset; without a target only the flags reset.
    pub fn reset(&mut self, rng: &mut rand::rngs::StdRng)
        requires
            old(self).wf(),
        ensures
            final(self).wf(),
            final(self).params == old(self).params,
            final(self).target == old(self).target,
            final(self).generation == 0,
            final(self).gbest_val == BEST_INF,
            !final(self).converged,
            old(self).target is None ==> final(self).particles == old(self).particles,
            old(self).target is Some ==> final(self).particles@.len()
                == old(self).params.population,
    {
        self.converged = false;
        self.generation = 0;
        self.gbest_val = BEST_INF;
        if self.target.is_some() {
            match initialize_population(self.params.population, rng) {
                Some(v) => {
                    self.particles = v;
                },
                None => {
                    proof {
                        assert(false);
                    }
                },
            }
        }
    }

    /// Sets the population size, clamped to at least 3. Takes effect at the
    /// next reinitialization.
    pub fn set_population(&mut self, n: usize)
        requires
            old(self).wf(),
        ensures
            final(self).wf(),
            final(self).params.population == if n >= 3 {
                n as int
            } else {
                3int
            },
            final(self).params.generations == old(self).params.generations,
            final(self).params.w == old(self).params.w,
            final(self).params.c1 == old(self).params.c1,
            final(self).params.c2 == old(self).params.c2,
            final(self).particles == old(self).particles,
            final(self).target == old(self).target,
            final(self).generation == old(self).generation,
            final(self).converged == old(self).converged,
            final(self).gbest_val == old(self).gbest_val,
    {
        self.params.population = if n >= 3 {
            n
        } else {
            3
        };
    }

    /// Sets the generation limit.
    pub fn set_generations(&mut self, n: usize)
        requires
            old(self).wf(),
        ensures
            final(self).wf(),
            final(self).params.generations == n,
            final(self).params.population == old(self).params.population,
            final(self).params.w == old(self).params.w,
            final(self).params.c1 == old(self).params.c1,
            final(self).params.c2 == old(self).params.c2,
            final(self).particles == old(self).particles,
            final(self).target == old(self).target,
            final(self).generation == old(self).generation,
            final(self).converged == old(self).converged,
            final(self).gbest_val == old(self).gbest_val,
    {
        self.params.generations = n;
    }

    /// Sets the inertia weight, clamped into `[0, 1.2]`.
    pub fn set_w(&mut self, v: i64)
        requires
            old(self).wf(),
        ensures
            final(self).wf(),
            final(self).params.w == clamp_spec(v as int, 0, W_MAX as int),
            final(self).params.population == old(self).params.population,
            final(self).params.generations == old(self).params.generations,
            final(self).params.c1 == old(self).params.c1,
            final(self).params.c2 == old(self).params.c2,
            final(self).particles == old(self).particles,
            final(self).target == old(self).target,
            final(self).generation == old(self).generation,
            final(self).converged == old(self).converged,
            final(self).gbest_val == old(self).gbest_val,
    {
        self.params.w = clamp_i64(v, 0, W_MAX);
    }

    /// Sets the cognitive coefficient, clamped to be non-negative and in
    /// machine range.
    pub fn set_c1(&mut self, v: i64)
        requires
            old(self).wf(),
        ensures
            final(self).wf(),
            final(self).params.c1 == clamp_spec(v as int, 0, COEFF_MAX as int),
            final(self).params.population == old(self).params.population,
            final(self).params.generations == old(self).params.generations,
            final(self).params.w == old(self).params.w,
            final(self).params.c2 == old(self).params.c2,
            final(self).particles == old(self).particles,
            final(self).target == old(self).target,
            final(self).generation == old(self).generation,
            final(self).converged == old(self).converged,
            final(self).gbest_val == old(self).gbest_val,
    {
        self.params.c1 = clamp_i64(v, 0, COEFF_MAX);
    }

    /// Sets the social coefficient, clamped to be non-negative and in
    /// machine range.
    pub fn set_c2(&mut self, v: i64)
        requires
            old(self).wf(),
        ensures
            final(self).wf(),
            final(self).params.c2 == clamp_spec(v as int, 0, COEFF_MAX as int),
            final(self).params.population == old(self).params.population,
            final(self).params.generations == old(self).params.generations,
            final(self).params.w == old(self).params.w,
            final(self).params.c1 == old(self).params.c1,
            final(self).particles == old(self).particles,
            final(self).target == old(self).target,
            final(self).generation == old(self).generation,
            final(self).converged == old(self).converged,
            final(self).gbest_val == old(self).gbest_val,
    {
        self.params.c2 = clamp_i64(v, 0, COEFF_MAX);
    }

    /// Advances the swarm one generation. Without a target, or once
    /// converged, the call changes nothing. Otherwise: every particle's
    /// personal best is refreshed first and the global best folded over the
    /// current distances, then every particle moves by the velocity rule
    /// with two fresh uniform pulls; the generation count rises and the
    /// swarm is converged exactly when the generation limit is reached or
    /// the global best is within the convergence threshold.
    ///
    /// After any step every personal-best value is at most its value before
    /// the step, and every position stays in the domain box. On a swarm
    /// whose particles had no best yet, the new global-best value is the
    /// least personal-best value.
    /// The returned ghost pair names, per particle, the two uniform pulls
    /// the move used.
    pub fn step(&mut self, rng: &mut rand::rngs::StdRng) -> (pulls: Ghost<(Seq<int>, Seq<int>)>)
        requires
            old(self).wf(),
        ensures
            final(self).wf(),
            final(self).params == old(self).params,
            final(self).target == old(self).target,
            old(self).target is None || old(self).converged ==> *final(self) == *old(self),
            old(self).target matches Some(t) ==> !old(self).converged ==> ({
                let tx = t.0 as int;
                let ty = t.1 as int;
                let ps0 = old(self).particles@;
                let psn = final(self).particles@;
                &&& psn.len() == ps0.len()
                &&& forall|i: int|
                    0 <= i < ps0.len() ==> (#[trigger] psn[i]).best_val == new_best_val(
                        ps0[i],
                        tx,
                        ty,
                    ) && psn[i].best_x == new_best_x(ps0[i], tx, ty) && psn[i].best_y
                        == new_best_y(ps0[i], tx, ty)
                &&& forall|i: int|
                    0 <= i < ps0.len() ==> (#[trigger] psn[i]).best_val <= ps0[i].best_val
                &&& forall|i: int|
                    0 <= i < ps0.len() ==> in_domain(
                        (#[trigger] psn[i]).pos_x as int,
                        psn[i].pos_y as int,
                    )
                &&& final(self).gbest_val == best_prefix(ps0, tx, ty, ps0.len() as int).0
                &&& final(self).gbest_x == best_prefix(ps0, tx, ty, ps0.len() as int).1
                &&& final(self).gbest_y == best_prefix(ps0, tx, ty, ps0.len() as int).2
                &&& pulls@.0.len() == ps0.len()
                &&& pulls@.1.len() == ps0.len()
                &&& forall|i: int|
                    0 <= i < ps0.len() ==> particle_moved(
                        ps0[i],
                        #[trigger] psn[i],
                        old(self).params,
                        final(self).gbest_x as int,
                        final(self).gbest_y as int,
                        tx,
                        ty,
                        pulls@.0[i],
                        pulls@.1[i],
                    )
                &&& final(self).generation == (if old(self).generation < usize::MAX {
                    old(self).generation + 1
                } else {
                    old(self).generation as int
                })
                &&& final(self).converged == (final(self).generation
                    >= old(self).params.generations || final(self).gbest_val < CONVERGENCE_FP)
                &&& final(self).gbest_val >= min_best(psn, psn.len() as int)
                &&& ((forall|i: int| 0 <= i < ps0.len() ==> (#[trigger] ps0[i]).best_val
                    == BEST_INF) ==> final(self).gbest_val == min_best(psn, psn.len() as int))
            }),
    {
        let t_opt = self.target;
        let t = match t_opt {
            None => {
                return Ghost((Seq::empty(), Seq::empty()));
            },
            Some(t) => t,
        };
        if self.converged {
            return Ghost((Seq::empty(), Seq::empty()));
        }
        let (tx, ty) = t;
        let ghost old_ps = self.particles@;
        let n = self.particles.len();
        let mut cand_val: i64 = BEST_INF;
        let mut cand_x: i64 = 0;
        let mut cand_y: i64 = 0;
        let mut i: usize = 0;
        while i < n
            invariant
                old(self).wf(),
                self.params == old(self).params,
                self.target == old(self).target,
                self.converged == old(self).converged,
                self.generation == old(self).generation,
                self.gbest_x == old(self).gbest_x,
                self.gbest_y == old(self).gbest_y,
                self.gbest_val == old(self).gbest_val,
                old(self).target == Some((tx, ty)),
                abs_i(tx as int) <= TARGET_LIMIT,
                abs_i(ty as int) <= TARGET_LIMIT,
                old_ps == old(self).particles@,
                n == self.particles@.len(),
                old_ps.len() == n,
                i <= n,
                forall|j: int| i <= j < n ==> self.particles@[j] == old_ps[j],
                forall|j: int| 0 <= j < i ==> (#[trigger] self.particles@[j]).wf(),
                forall|j: int|
                    0 <= j < i ==> (#[trigger] self.particles@[j]).pos_x == old_ps[j].pos_x
                        && self.particles@[j].pos_y == old_ps[j].pos_y && self.particles@[j].vel_x
                        == old_ps[j].vel_x && self.particles@[j].vel_y == old_ps[j].vel_y,
                forall|j: int|
                    0 <= j < i ==> (#[trigger] self.particles@[j]).best_val == new_best_val(
                        old_ps[j],
                        tx as int,
                        ty as int,
                    ) && self.particles@[j].best_x == new_best_x(old_ps[j], tx as int, ty as int)
                        && self.particles@[j].best_y == new_best_y(old_ps[j], tx as int,
                        ty as int) && self.particles@[j].best_val <= old_ps[j].best_val,
                forall|j: int|
                    0 <= j < i ==> dist_fp((#[trigger] old_ps[j]).pos_x as int,
                        old_ps[j].pos_y as int, tx as int, ty as int) < DIST_MAX,
                cand_val as int == best_prefix(old_ps, tx as int, ty as int, i as int).0,
                cand_x as int == best_prefix(old_ps, tx as int, ty as int, i as int).1,
                cand_y as int == best_prefix(old_ps, tx as int, ty as int, i as int).2,
                in_domain(cand_x as int, cand_y as int),
                0 <= cand_val <= BEST_INF,
            decreases n - i,
        {
            let mut p = self.particles[i];
            proof {
                assert(old(self).particles@[i as int].wf());
            }
            let d = update_best(&mut p, tx, ty);
            self.particles[i] = p;
            if d < cand_val {
                cand_val = d;
                cand_x = p.pos_x;
                cand_y = p.pos_y;
            }
            i = i + 1;
        }
        self.gbest_val = cand_val;
        self.gbest_x = cand_x;
        self.gbest_y = cand_y;
        let ghost mid_ps = self.particles@;
        let w = self.params.w;
        let c1 = self.params.c1;
        let c2 = self.params.c2;
        let gx = self.gbest_x;
        let gy = self.gbest_y;
        let ghost mut r1s: Seq<int> = Seq::empty();
        let ghost mut r2s: Seq<int> = Seq::empty();
        let mut i: usize = 0;
        while i < n
            invariant
                old(self).wf(),
                self.params == old(self).params,
                self.target == old(self).target,
                self.converged == old(self).converged,
                self.generation == old(self).generation,
                old(self).target == Some((tx, ty)),
                abs_i(tx as int) <= TARGET_LIMIT,
                abs_i(ty as int) <= TARGET_LIMIT,
                w == old(self).params.w,
                c1 == old(self).params.c1,
                c2 == old(self).params.c2,
                self.gbest_x == gx,
                self.gbest_y == gy,
                self.gbest_val == cand_val,
                in_domain(gx as int, gy as int),
                0 <= cand_val <= BEST_INF,
                cand_val as int == best_prefix(old_ps, tx as int, ty as int, n as int).0,
                gx as int == best_prefix(old_ps, tx as int, ty as int, n as int).1,
                gy as int == best_prefix(old_ps, tx as int, ty as int, n as int).2,
                old_ps == old(self).particles@,
                n == self.particles@.len(),
                old_ps.len() == n,
                mid_ps.len() == n,
                i <= n,
                forall|j: int| 0 <= j < n ==> (#[trigger] mid_ps[j]).wf(),
                forall|j: int|
                    0 <= j < n ==> (#[trigger] mid_ps[j]).pos_x == old_ps[j].pos_x
                        && mid_ps[j].pos_y == old_ps[j].pos_y && mid_ps[j].vel_x
                        == old_ps[j].vel_x && mid_ps[j].vel_y == old_ps[j].vel_y,
                forall|j: int|
                    0 <= j < n ==> (#[trigger] mid_ps[j]).best_val == new_best_val(
                        old_ps[j],
                        tx as int,
                        ty as int,
                    ) && mid_ps[j].best_x == new_best_x(old_ps[j], tx as int, ty as int)
                        && mid_ps[j].best_y == new_best_y(old_ps[j], tx as int, ty as int)
                        && mid_ps[j].best_val <= old_ps[j].best_val,
                forall|j: int|
                    0 <= j < n ==> dist_fp((#[trigger] old_ps[j]).pos_x as int,
                        old_ps[j].pos_y as int, tx as int, ty as int) < DIST_MAX,
                forall|j: int| i <= j < n ==> self.particles@[j] == mid_ps[j],
                forall|j: int| 0 <= j < i ==> (#[trigger] self.particles@[j]).wf(),
                forall|j: int|
                    0 <= j < i ==> (#[trigger] self.particles@[j]).best_x == mid_ps[j].best_x
                        && self.particles@[j].best_y == mid_ps[j].best_y
                        && self.particles@[j].best_val == mid_ps[j].best_val,
                r1s.len() == i,
                r2s.len() == i,
                forall|j: int|
                    0 <= j < i ==> moved_from(
                        mid_ps[j],
                        #[trigger] self.particles@[j],
                        w as int,
                        c1 as int,
                        c2 as int,
                        gx as int,
                        gy as int,
                        r1s[j],
                        r2s[j],
                    ),
            decreases n - i,
        {
            let mut p = self.particles[i];
            proof {
                assert(mid_ps[i as int].wf());
            }
            let rr = advance_particle(&mut p, w, c1, c2, gx, gy, rng);
            self.particles[i] = p;
            proof {
                assert(self.particles@[i as int] == p);
                r1s = r1s.push(rr@.0);
                r2s = r2s.push(rr@.1);
            }
            i = i + 1;
        }
        if self.generation < usize::MAX {
            self.generation = self.generation + 1;
        }
        let conv = self.generation >= self.params.generations || self.gbest_val < CONVERGENCE_FP;
        self.converged = conv;
        proof {
            assert forall|i: int| 0 <= i < old(self).particles@.len() implies particle_moved(
                old(self).particles@[i],
                #[trigger] self.particles@[i],
                old(self).params,
                self.gbest_x as int,
                self.gbest_y as int,
                t.0 as int,
                t.1 as int,
                r1s[i],
                r2s[i],
            ) by {
                assert(moved_from(mid_ps[i], self.particles@[i], w as int, c1 as int, c2 as int,
                    gx as int, gy as int, r1s[i], r2s[i]));
            }
            lemma_best_prefix_ge_min_best(old_ps, mid_ps, tx as int, ty as int, n as int);
            lemma_min_best_congruence(mid_ps, self.particles@, n as int);
            if forall|i: int| 0 <= i < n ==> (#[trigger] old_ps[i]).best_val == BEST_INF {
                lemma_best_prefix_is_min_best(old_ps, mid_ps, tx as int, ty as int, n as int);
            }
        }
        Ghost((r1s, r2s))
    }
}

} // verus!
