//! Steering behaviours for autonomous agents on a ground plane.
//!
//! Each behaviour is a pure function from an agent's kinematic state (and a
//! target's, where one applies) to a bounded steering force; forces are
//! summed into the velocity and a single integration pass clamps the speed
//! and moves the agent. A missing target contributes zero force.

use vstd::prelude::*;
use crate::fixed::{SCALE, tdiv, abs_i, is_sqrt_up, isqrt, sqrt_up, div_trunc, clamp_i64,
    clamp_spec, lemma_abs_mul_bound, lemma_tdiv_bounds, lemma_tdiv_times_divisor};
use crate::pso::{sqrt_i, lemma_sqrt_unique};
use crate::rng::sample_range;

verus! {

/// Largest coordinate magnitude the engine accepts; a machine limit far
/// outside any scene.
pub const COORD_LIMIT: i64 = 1_000_000_000;

/// Largest speed, force or velocity-component magnitude; a machine limit.
pub const SPEED_LIMIT: i64 = 1_000_000;

/// A plane vector in fixed point.
#[derive(Clone, Copy, PartialEq, Eq, Structural, Debug)]
pub struct Vec2 {
    pub x: i64,
    pub y: i64,
}

/// Squared norm.
pub open spec fn nsq(x: int, y: int) -> int {
    x * x + y * y
}

/// Both components within `m` in magnitude.
pub open spec fn bounded(v: Vec2, m: int) -> bool {
    abs_i(v.x as int) <= m && abs_i(v.y as int) <= m
}

/// The rounded-up integer square root as a function, pinned by its
/// characterization.
pub open spec fn csqrt_i(n: int) -> int {
    choose|r: int| is_sqrt_up(n, r)
}

/// `is_sqrt_up` has at most one witness, so `csqrt_i` equals any witness.
pub proof fn lemma_csqrt_unique(n: int, r: int)
    requires
        is_sqrt_up(n, r),
    ensures
        csqrt_i(n) == r,
{
    let r2 = choose|x: int| is_sqrt_up(n, x);
    assert(is_sqrt_up(n, r2));
    assert(r2 == r) by (nonlinear_arith)
        requires
            r >= 0,
            n <= r * r,
            r >= 1 ==> (r - 1) * (r - 1) < n,
            r2 >= 0,
            n <= r2 * r2,
            r2 >= 1 ==> (r2 - 1) * (r2 - 1) < n,
    ;
}

/// The direction of `v` scaled to magnitude at most `m`: each component is
/// `v * m` over the rounded-up norm; the zero vector stays zero.
pub open spec fn scale_dir_spec(vx: int, vy: int, m: int) -> (int, int) {
    if vx == 0 && vy == 0 {
        (0int, 0int)
    } else {
        let c = csqrt_i(nsq(vx, vy));
        (tdiv(vx * m, c), tdiv(vy * m, c))
    }
}

/// `v` unchanged if its norm is within `m`, else scaled down to magnitude
/// at most `m`.
pub open spec fn clamp_mag_spec(vx: int, vy: int, m: int) -> (int, int) {
    if nsq(vx, vy) <= m * m {
        (vx, vy)
    } else {
        let c = csqrt_i(nsq(vx, vy));
        (tdiv(vx * m, c), tdiv(vy * m, c))
    }
}

/// Scaling a vector by `m` over a bound of its norm keeps the squared norm
/// within `m * m`.
proof fn lemma_scale_keeps_norm(vx: int, vy: int, m: int, c: int)
    requires
        c >= 1,
        m >= 0,
        nsq(vx, vy) <= c * c,
    ensures
        nsq(tdiv(vx * m, c), tdiv(vy * m, c)) <= m * m,
{
    lemma_tdiv_times_divisor(vx * m, c);
    lemma_tdiv_times_divisor(vy * m, c);
    let qx = tdiv(vx * m, c);
    let qy = tdiv(vy * m, c);
    assert(m * m >= 0) by (nonlinear_arith)
        requires
            m >= 0,
    ;
    assert(qx * qx * (c * c) <= (vx * vx) * (m * m)) by (nonlinear_arith)
        requires
            c >= 1,
            abs_i(qx) * c <= abs_i(vx * m),
    ;
    assert(qy * qy * (c * c) <= (vy * vy) * (m * m)) by (nonlinear_arith)
        requires
            c >= 1,
            abs_i(qy) * c <= abs_i(vy * m),
    ;
    assert((vx * vx) * (m * m) + (vy * vy) * (m * m) <= (c * c) * (m * m)) by (nonlinear_arith)
        requires
            vx * vx + vy * vy <= c * c,
            m * m >= 0,
    ;
    assert(qx * qx + qy * qy <= m * m) by (nonlinear_arith)
        requires
            qx * qx * (c * c) + qy * qy * (c * c) <= (c * c) * (m * m),
            c >= 1,
    ;
}

/// A component of a scaled direction never exceeds the scale.
proof fn lemma_scale_component(v: int, m: int, c: int)
    requires
        c >= 1,
        m >= 0,
        v * v <= c * c,
    ensures
        abs_i(tdiv(v * m, c)) <= m,
{
    lemma_tdiv_times_divisor(v * m, c);
    let q = tdiv(v * m, c);
    assert(abs_i(v) <= c) by (nonlinear_arith)
        requires
            v * v <= c * c,
            c >= 0,
    ;
    assert(abs_i(v * m) == abs_i(v) * m) by (nonlinear_arith)
        requires
            m >= 0,
    ;
    assert(abs_i(v) * m <= c * m) by (nonlinear_arith)
        requires
            abs_i(v) <= c,
            m >= 0,
    ;
    assert(abs_i(q) <= m) by (nonlinear_arith)
        requires
            abs_i(q) * c <= c * m,
            c >= 1,
    ;
}

/// Squared norm of a vector with components within `COORD_LIMIT` doubled.
fn norm_sq_exec(vx: i64, vy: i64) -> (n: u64)
    requires
        abs_i(vx as int) <= 2 * COORD_LIMIT,
        abs_i(vy as int) <= 2 * COORD_LIMIT,
    ensures
        n == nsq(vx as int, vy as int),
{
    proof {
        lemma_abs_mul_bound(vx as int, vx as int, 2_000_000_000int, 2_000_000_000int);
        lemma_abs_mul_bound(vy as int, vy as int, 2_000_000_000int, 2_000_000_000int);
        assert(vx * vx >= 0) by (nonlinear_arith);
        assert(vy * vy >= 0) by (nonlinear_arith);
    }
    (vx * vx + vy * vy) as u64
}

/// The direction of `(vx, vy)` scaled to magnitude at most `m`.
fn scale_dir(vx: i64, vy: i64, m: i64) -> (r: Vec2)
    requires
        abs_i(vx as int) <= 2 * COORD_LIMIT,
        abs_i(vy as int) <= 2 * COORD_LIMIT,
        0 <= m <= 2 * SPEED_LIMIT,
    ensures
        (r.x as int, r.y as int) == scale_dir_spec(vx as int, vy as int, m as int),
        nsq(r.x as int, r.y as int) <= m * m,
        bounded(r, m as int),
{
    if vx == 0 && vy == 0 {
        return Vec2 { x: 0, y: 0 };
    }
    let n = norm_sq_exec(vx, vy);
    let c = sqrt_up(n);
    proof {
        lemma_csqrt_unique(n as int, c as int);
        assert(n >= 1) by (nonlinear_arith)
            requires
                n as int == (vx as int) * (vx as int) + (vy as int) * (vy as int),
                vx != 0 || vy != 0,
        ;
        assert(c >= 1) by (nonlinear_arith)
            requires
                n as int <= (c as int) * (c as int),
                n >= 1,
                c >= 0,
        ;
        lemma_abs_mul_bound(vx as int, m as int, 2_000_000_000int, 2_000_000int);
        lemma_abs_mul_bound(vy as int, m as int, 2_000_000_000int, 2_000_000int);
        assert((vx as int) * (vx as int) <= n as int && (vy as int) * (vy as int) <= n as int)
            by (nonlinear_arith)
            requires
                n as int == (vx as int) * (vx as int) + (vy as int) * (vy as int),
        ;
        lemma_scale_keeps_norm(vx as int, vy as int, m as int, c as int);
        lemma_scale_component(vx as int, m as int, c as int);
        lemma_scale_component(vy as int, m as int, c as int);
    }
    let rx = div_trunc(vx * m, c as i64);
    let ry = div_trunc(vy * m, c as i64);
    Vec2 { x: rx, y: ry }
}

/// `(vx, vy)` with its magnitude clamped to `m`.
fn clamp_mag(vx: i64, vy: i64, m: i64) -> (r: Vec2)
    requires
        abs_i(vx as int) <= 2 * COORD_LIMIT,
        abs_i(vy as int) <= 2 * COORD_LIMIT,
        0 <= m <= 2 * SPEED_LIMIT,
    ensures
        (r.x as int, r.y as int) == clamp_mag_spec(vx as int, vy as int, m as int),
        nsq(r.x as int, r.y as int) <= m * m,
        bounded(r, m as int) || (r.x == vx && r.y == vy),
{
    let n = norm_sq_exec(vx, vy);
    proof {
        lemma_abs_mul_bound(m as int, m as int, 2_000_000int, 2_000_000int);
        assert(m * m >= 0) by (nonlinear_arith)
            requires
                m >= 0,
        ;
    }
    if n <= (m * m) as u64 {
        return Vec2 { x: vx, y: vy };
    }
    let c = sqrt_up(n);
    proof {
        lemma_csqrt_unique(n as int, c as int);
        assert(c >= 1) by (nonlinear_arith)
            requires
                n as int <= (c as int) * (c as int),
                n >= 1,
                c >= 0,
        ;
        lemma_abs_mul_bound(vx as int, m as int, 2_000_000_000int, 2_000_000int);
        lemma_abs_mul_bound(vy as int, m as int, 2_000_000_000int, 2_000_000int);
        assert((vx as int) * (vx as int) <= n as int && (vy as int) * (vy as int) <= n as int)
            by (nonlinear_arith)
            requires
                n as int == (vx as int) * (vx as int) + (vy as int) * (vy as int),
        ;
        lemma_scale_keeps_norm(vx as int, vy as int, m as int, c as int);
        lemma_scale_component(vx as int, m as int, c as int);
        lemma_scale_component(vy as int, m as int, c as int);
    }
    let rx = div_trunc(vx * m, c as i64);
    let ry = div_trunc(vy * m, c as i64);
    Vec2 { x: rx, y: ry }
}

/// The seek rule: desired velocity straight at the target at full speed,
/// and the correction toward it clamped to `mf`.
pub open spec fn seek_spec(pos: Vec2, vel: Vec2, target: Vec2, ms: int, mf: int) -> (int, int) {
    let desired = scale_dir_spec(target.x - pos.x, target.y - pos.y, ms);
    clamp_mag_spec(desired.0 - vel.x, desired.1 - vel.y, mf)
}

/// The flee rule: seek with the direction reversed.
pub open spec fn flee_spec(pos: Vec2, vel: Vec2, target: Vec2, ms: int, mf: int) -> (int, int) {
    let desired = scale_dir_spec(pos.x - target.x, pos.y - target.y, ms);
    clamp_mag_spec(desired.0 - vel.x, desired.1 - vel.y, mf)
}

/// Steering force toward a target; zero without one. Its magnitude never
/// exceeds `mf`, whatever the positions and velocity are.
pub fn seek_force(pos: Vec2, vel: Vec2, target: Option<Vec2>, ms: i64, mf: i64) -> (f: Vec2)
    requires
        bounded(pos, COORD_LIMIT as int),
        bounded(vel, SPEED_LIMIT as int),
        target matches Some(t) ==> bounded(t, COORD_LIMIT as int),
        0 <= ms <= SPEED_LIMIT,
        0 <= mf <= SPEED_LIMIT,
    ensures
        target matches Some(t) ==> (f.x as int, f.y as int) == seek_spec(pos, vel, t, ms as int,
            mf as int),
        target is None ==> f == (Vec2 { x: 0, y: 0 }),
        nsq(f.x as int, f.y as int) <= mf * mf,
{
    let t = match target {
        None => {
            proof {
                assert(nsq(0, 0) <= mf * mf) by (nonlinear_arith)
                    requires
                        mf >= 0,
                ;
            }
            return Vec2 { x: 0, y: 0 };
        },
        Some(t) => t,
    };
    let desired = scale_dir(t.x - pos.x, t.y - pos.y, ms);
    clamp_mag(desired.x - vel.x, desired.y - vel.y, mf)
}

/// Steering force away from a target; zero without one. Its magnitude never
/// exceeds `mf`.
pub fn flee_force(pos: Vec2, vel: Vec2, target: Option<Vec2>, ms: i64, mf: i64) -> (f: Vec2)
    requires
        bounded(pos, COORD_LIMIT as int),
        bounded(vel, SPEED_LIMIT as int),
        target matches Some(t) ==> bounded(t, COORD_LIMIT as int),
        0 <= ms <= SPEED_LIMIT,
        0 <= mf <= SPEED_LIMIT,
    ensures
        target matches Some(t) ==> (f.x as int, f.y as int) == flee_spec(pos, vel, t, ms as int,
            mf as int),
        target is None ==> f == (Vec2 { x: 0, y: 0 }),
        nsq(f.x as int, f.y as int) <= mf * mf,
{
    let t = match target {
        None => {
            proof {
                assert(nsq(0, 0) <= mf * mf) by (nonlinear_arith)
                    requires
                        mf >= 0,
                ;
            }
            return Vec2 { x: 0, y: 0 };
        },
        Some(t) => t,
    };
    let desired = scale_dir(pos.x - t.x, pos.y - t.y, ms);
    clamp_mag(desired.x - vel.x, desired.y - vel.y, mf)
}

/// A degree angle folded into `[0, 360)`, for inputs within one turn of
/// that range.
pub open spec fn wrap_deg(a: int) -> int {
    if a < 0 {
        a + 360
    } else if a >= 360 {
        a - 360
    } else {
        a
    }
}

/// Rational approximation of the sine on `[0, 180]` degrees, scaled by
/// `SCALE`: `4 u SCALE / (40500 - u)` with `u = theta (180 - theta)`.
pub open spec fn half_sine(theta: int) -> int {
    let u = theta * (180 - theta);
    tdiv(4 * u * SCALE, 40500 - u)
}

/// Approximate sine of a degree angle in `[0, 360)`, scaled by `SCALE`.
pub open spec fn sin_deg_spec(d: int) -> int {
    if d <= 180 {
        half_sine(d)
    } else {
        -half_sine(d - 180)
    }
}

/// Approximate cosine of a degree angle in `[0, 360)`, scaled by `SCALE`.
pub open spec fn cos_deg_spec(d: int) -> int {
    if d + 90 >= 360 {
        sin_deg_spec(d - 270)
    } else {
        sin_deg_spec(d + 90)
    }
}

/// The positive half of the sine approximation, for angles in `[0, 180]`.
fn half_sine_exec(theta: i64) -> (r: i64)
    requires
        0 <= theta <= 180,
    ensures
        r == half_sine(theta as int),
        0 <= r <= SCALE,
{
    proof {
        assert(0 <= (theta as int) * (180 - theta as int) <= 8100) by (nonlinear_arith)
            requires
                0 <= theta <= 180,
        ;
    }
    let u = theta * (180 - theta);
    let num = 4 * u * SCALE;
    let den = 40500 - u;
    let r = div_trunc(num, den);
    proof {
        lemma_tdiv_bounds(num as int, den as int);
        lemma_tdiv_times_divisor(num as int, den as int);
        assert(r <= SCALE) by (nonlinear_arith)
            requires
                r >= 0,
                (r as int) * (den as int) >= abs_i(r as int) * (den as int) - 1,
                abs_i(r as int) * (den as int) <= num as int,
                num <= 32_400_000,
                den >= 32_400,
                r == abs_i(r as int),
        ;
    }
    r
}

/// Approximate sine of a degree angle, scaled by `SCALE`.
pub fn sin_deg(d: i64) -> (r: i64)
    requires
        0 <= d < 360,
    ensures
        r == sin_deg_spec(d as int),
        abs_i(r as int) <= SCALE,
{
    if d <= 180 {
        half_sine_exec(d)
    } else {
        -half_sine_exec(d - 180)
    }
}

/// Approximate cosine of a degree angle, scaled by `SCALE`.
pub fn cos_deg(d: i64) -> (r: i64)
    requires
        0 <= d < 360,
    ensures
        r == cos_deg_spec(d as int),
        abs_i(r as int) <= SCALE,
{
    if d + 90 >= 360 {
        sin_deg(d - 270)
    } else {
        sin_deg(d + 90)
    }
}

/// The wandering state an agent carries: the projected circle, the
/// persistent wander angle in degrees, and the bound on its per-tick
/// random change.
#[derive(Clone, Copy, PartialEq, Eq, Structural, Debug)]
pub struct WanderState {
    pub circle_distance: i64,
    pub circle_radius: i64,
    pub wander_angle: i64,
    pub angle_change: i64,
}

impl WanderState {
    pub open spec fn wf(self) -> bool {
        &&& 0 <= self.wander_angle < 360
        &&& 1 <= self.angle_change <= 360
        &&& 0 <= self.circle_distance <= SPEED_LIMIT
        &&& 0 <= self.circle_radius <= SPEED_LIMIT
    }
}

/// The wander rule: a circle projected ahead along the velocity, an offset
/// on it at the current wander angle, and the sum scaled to `mf`.
pub open spec fn wander_spec(vel: Vec2, w: WanderState, mf: int) -> (int, int) {
    let center = scale_dir_spec(vel.x as int, vel.y as int, w.circle_distance as int);
    let ox = tdiv(cos_deg_spec(w.wander_angle as int) * w.circle_radius, SCALE as int);
    let oy = tdiv(sin_deg_spec(w.wander_angle as int) * w.circle_radius, SCALE as int);
    scale_dir_spec(center.0 + ox, center.1 + oy, mf)
}

/// Wandering force from the current angle, which is then perturbed by a
/// uniform random amount within `angle_change`. The force magnitude never
/// exceeds `mf`.
pub fn wander_force(vel: Vec2, w: &mut WanderState, mf: i64, rng: &mut rand::rngs::StdRng)
    -> (f: Vec2)
    requires
        old(w).wf(),
        bounded(vel, SPEED_LIMIT as int),
        0 <= mf <= SPEED_LIMIT,
    ensures
        final(w).wf(),
        final(w).circle_distance == old(w).circle_distance,
        final(w).circle_radius == old(w).circle_radius,
        final(w).angle_change == old(w).angle_change,
        exists|d: int|
            -old(w).angle_change <= d < old(w).angle_change && final(w).wander_angle
                == #[trigger] wrap_deg(old(w).wander_angle + d),
        (f.x as int, f.y as int) == wander_spec(vel, *old(w), mf as int),
        nsq(f.x as int, f.y as int) <= mf * mf,
{
    let center = scale_dir(vel.x, vel.y, w.circle_distance);
    let c = cos_deg(w.wander_angle);
    let s = sin_deg(w.wander_angle);
    proof {
        lemma_abs_mul_bound(c as int, w.circle_radius as int, 1_000int, 1_000_000int);
        lemma_abs_mul_bound(s as int, w.circle_radius as int, 1_000int, 1_000_000int);
        lemma_tdiv_bounds(c * w.circle_radius as int, SCALE as int);
        lemma_tdiv_bounds(s * w.circle_radius as int, SCALE as int);
    }
    let ox = div_trunc(c * w.circle_radius, SCALE);
    let oy = div_trunc(s * w.circle_radius, SCALE);
    let delta = sample_range(rng, -w.angle_change, w.angle_change);
    let mut a = w.wander_angle + delta;
    if a < 0 {
        a = a + 360;
    } else if a >= 360 {
        a = a - 360;
    }
    proof {
        assert(a == wrap_deg(old(w).wander_angle + delta));
    }
    w.wander_angle = a;
    scale_dir(center.x + ox, center.y + oy, mf)
}

/// The arrive rule: full speed toward the target, scaled down linearly
/// inside the slowing radius, the correction clamped to `mf`.
pub open spec fn arrive_spec(pos: Vec2, vel: Vec2, target: Vec2, radius: int, ms: int,
    mf: int) -> (int, int) {
    let d = sqrt_i(nsq(target.x - pos.x, target.y - pos.y));
    let speed = if d < radius {
        tdiv(ms * d, radius)
    } else {
        ms
    };
    let desired = scale_dir_spec(target.x - pos.x, target.y - pos.y, speed);
    clamp_mag_spec(desired.0 - vel.x, desired.1 - vel.y, mf)
}

/// Steering force toward a target that slows on approach; zero without a
/// target. Its magnitude never exceeds `mf`.
pub fn arrive_force(pos: Vec2, vel: Vec2, target: Option<Vec2>, slowing_radius: i64, ms: i64,
    mf: i64) -> (f: Vec2)
    requires
        bounded(pos, COORD_LIMIT as int),
        bounded(vel, SPEED_LIMIT as int),
        target matches Some(t) ==> bounded(t, COORD_LIMIT as int),
        1 <= slowing_radius,
        0 <= ms <= SPEED_LIMIT,
        0 <= mf <= SPEED_LIMIT,
    ensures
        target matches Some(t) ==> (f.x as int, f.y as int) == arrive_spec(pos, vel, t,
            slowing_radius as int, ms as int, mf as int),
        target is None ==> f == (Vec2 { x: 0, y: 0 }),
        nsq(f.x as int, f.y as int) <= mf * mf,
{
    let t = match target {
        None => {
            proof {
                assert(nsq(0, 0) <= mf * mf) by (nonlinear_arith)
                    requires
                        mf >= 0,
                ;
            }
            return Vec2 { x: 0, y: 0 };
        },
        Some(t) => t,
    };
    let dx = t.x - pos.x;
    let dy = t.y - pos.y;
    let n = norm_sq_exec(dx, dy);
    let dist = isqrt(n);
    proof {
        lemma_sqrt_unique(n as int, dist as int);
    }
    let speed: i64 = if (dist as i64) < slowing_radius {
        proof {
            lemma_abs_mul_bound(ms as int, dist as int, 1_000_000int, 4_294_967_295int);
            lemma_tdiv_bounds(ms * dist as i64 as int, slowing_radius as int);
            lemma_tdiv_times_divisor(ms * dist as i64 as int, slowing_radius as int);
        }
        let q = div_trunc(ms * (dist as i64), slowing_radius);
        proof {
            assert(q <= ms) by (nonlinear_arith)
                requires
                    q >= 0,
                    ms >= 0,
                    slowing_radius >= 1,
                    abs_i(q as int) * slowing_radius <= abs_i(
                        (ms as int) * (dist as i64 as int),
                    ),
                    q == abs_i(q as int),
                    (dist as i64 as int) < slowing_radius,
                    abs_i((ms as int) * (dist as i64 as int)) == (ms as int) * (
                    dist as i64 as int),
            ;
        }
        q
    } else {
        ms
    };
    let desired = scale_dir(dx, dy, speed);
    clamp_mag(desired.x - vel.x, desired.y - vel.y, mf)
}

/// The pursuit rule: seek the target's position extrapolated by its
/// velocity over the time to reach it at full speed, the predicted point
/// held inside the coordinate range.
pub open spec fn pursuit_spec(pos: Vec2, vel: Vec2, tpos: Vec2, tvel: Vec2, ms: int,
    mf: int) -> (int, int) {
    let d = sqrt_i(nsq(tpos.x - pos.x, tpos.y - pos.y));
    let pt = tdiv(d * SCALE, ms);
    let fx = clamp_spec(tpos.x + tdiv(tvel.x * pt, SCALE as int), -COORD_LIMIT as int,
        COORD_LIMIT as int);
    let fy = clamp_spec(tpos.y + tdiv(tvel.y * pt, SCALE as int), -COORD_LIMIT as int,
        COORD_LIMIT as int);
    let desired = scale_dir_spec(fx - pos.x, fy - pos.y, ms);
    clamp_mag_spec(desired.0 - vel.x, desired.1 - vel.y, mf)
}

/// The evade rule: flee the same predicted point.
pub open spec fn evade_spec(pos: Vec2, vel: Vec2, tpos: Vec2, tvel: Vec2, ms: int, mf: int) -> (
    int,
    int,
) {
    let d = sqrt_i(nsq(tpos.x - pos.x, tpos.y - pos.y));
    let pt = tdiv(d * SCALE, ms);
    let fx = clamp_spec(tpos.x + tdiv(tvel.x * pt, SCALE as int), -COORD_LIMIT as int,
        COORD_LIMIT as int);
    let fy = clamp_spec(tpos.y + tdiv(tvel.y * pt, SCALE as int), -COORD_LIMIT as int,
        COORD_LIMIT as int);
    let desired = scale_dir_spec(pos.x - fx, pos.y - fy, ms);
    clamp_mag_spec(desired.0 - vel.x, desired.1 - vel.y, mf)
}

/// The predicted future position both pursuit and evade chase or avoid.
fn predict_point(pos: Vec2, tpos: Vec2, tvel: Vec2, ms: i64) -> (p: (i64, i64))
    requires
        bounded(pos, COORD_LIMIT as int),
        bounded(tpos, COORD_LIMIT as int),
        bounded(tvel, SPEED_LIMIT as int),
        1 <= ms <= SPEED_LIMIT,
    ensures
        ({
            let d = sqrt_i(nsq(tpos.x - pos.x, tpos.y - pos.y));
            let pt = tdiv(d * SCALE, ms as int);
            p.0 == clamp_spec(tpos.x + tdiv(tvel.x * pt, SCALE as int), -COORD_LIMIT as int,
                COORD_LIMIT as int) && p.1 == clamp_spec(
                tpos.y + tdiv(tvel.y * pt, SCALE as int),
                -COORD_LIMIT as int,
                COORD_LIMIT as int,
            )
        }),
        abs_i(p.0 as int) <= COORD_LIMIT,
        abs_i(p.1 as int) <= COORD_LIMIT,
{
    let dx = tpos.x - pos.x;
    let dy = tpos.y - pos.y;
    let n = norm_sq_exec(dx, dy);
    let dist = isqrt(n);
    proof {
        lemma_sqrt_unique(n as int, dist as int);
        lemma_tdiv_bounds((dist as i64 as int) * (SCALE as int), ms as int);
    }
    let pt = div_trunc((dist as i64) * SCALE, ms);
    proof {
        lemma_abs_mul_bound(tvel.x as int, pt as int, 1_000_000int, 4_294_967_296_000int);
        lemma_abs_mul_bound(tvel.y as int, pt as int, 1_000_000int, 4_294_967_296_000int);
        lemma_tdiv_bounds(tvel.x * pt, SCALE as int);
        lemma_tdiv_bounds(tvel.y * pt, SCALE as int);
    }
    let ox = div_trunc(tvel.x * pt, SCALE);
    let oy = div_trunc(tvel.y * pt, SCALE);
    let fx = clamp_i64(tpos.x + ox, -COORD_LIMIT, COORD_LIMIT);
    let fy = clamp_i64(tpos.y + oy, -COORD_LIMIT, COORD_LIMIT);
    (fx, fy)
}

/// Steering force toward a moving target's predicted position; zero
/// without a target. Its magnitude never exceeds `mf`.
pub fn pursuit_force(pos: Vec2, vel: Vec2, target: Option<(Vec2, Vec2)>, ms: i64, mf: i64)
    -> (f: Vec2)
    requires
        bounded(pos, COORD_LIMIT as int),
        bounded(vel, SPEED_LIMIT as int),
        target matches Some(t) ==> bounded(t.0, COORD_LIMIT as int) && bounded(
            t.1,
            SPEED_LIMIT as int,
        ),
        1 <= ms <= SPEED_LIMIT,
        0 <= mf <= SPEED_LIMIT,
    ensures
        target matches Some(t) ==> (f.x as int, f.y as int) == pursuit_spec(pos, vel, t.0, t.1,
            ms as int, mf as int),
        target is None ==> f == (Vec2 { x: 0, y: 0 }),
        nsq(f.x as int, f.y as int) <= mf * mf,
{
    let t = match target {
        None => {
            proof {
                assert(nsq(0, 0) <= mf * mf) by (nonlinear_arith)
                    requires
                        mf >= 0,
                ;
            }
            return Vec2 { x: 0, y: 0 };
        },
        Some(t) => t,
    };
    let (fx, fy) = predict_point(pos, t.0, t.1, ms);
    let desired = scale_dir(fx - pos.x, fy - pos.y, ms);
    clamp_mag(desired.x - vel.x, desired.y - vel.y, mf)
}

/// Steering force away from a moving target's predicted position; zero
/// without a target. Its magnitude never exceeds `mf`.
pub fn evade_force(pos: Vec2, vel: Vec2, target: Option<(Vec2, Vec2)>, ms: i64, mf: i64)
    -> (f: Vec2)
    requires
        bounded(pos, COORD_LIMIT as int),
        bounded(vel, SPEED_LIMIT as int),
        target matches Some(t) ==> bounded(t.0, COORD_LIMIT as int) && bounded(
            t.1,
            SPEED_LIMIT as int,
        ),
        1 <= ms <= SPEED_LIMIT,
        0 <= mf <= SPEED_LIMIT,
    ensures
        target matches Some(t) ==> (f.x as int, f.y as int) == evade_spec(pos, vel, t.0, t.1,
            ms as int, mf as int),
        target is None ==> f == (Vec2 { x: 0, y: 0 }),
        nsq(f.x as int, f.y as int) <= mf * mf,
{
    let t = match target {
        None => {
            proof {
                assert(nsq(0, 0) <= mf * mf) by (nonlinear_arith)
                    requires
                        mf >= 0,
                ;
            }
            return Vec2 { x: 0, y: 0 };
        },
        Some(t) => t,
    };
    let (fx, fy) = predict_point(pos, t.0, t.1, ms);
    let desired = scale_dir(pos.x - fx, pos.y - fy, ms);
    clamp_mag(desired.x - vel.x, desired.y - vel.y, mf)
}

/// The containment rule: outside the square boundary on an axis, the
/// desired velocity on that axis points back inside at full speed; the
/// correction gets twice the usual force budget so agents reliably turn
/// back.
pub open spec fn containment_spec(pos: Vec2, vel: Vec2, ms: int, mf: int, boundary: int) -> (
    int,
    int,
) {
    let dx: int = if pos.x > boundary {
        -ms
    } else if pos.x < -boundary {
        ms
    } else {
        0
    };
    let dy: int = if pos.y > boundary {
        -ms
    } else if pos.y < -boundary {
        ms
    } else {
        0
    };
    if dx == 0 && dy == 0 {
        (0int, 0int)
    } else {
        clamp_mag_spec(dx - vel.x, dy - vel.y, 2 * mf)
    }
}

/// Steering force that turns an agent back toward the interior of the
/// square boundary; zero while it is inside.
pub fn containment_force(pos: Vec2, vel: Vec2, ms: i64, mf: i64, boundary: i64) -> (f: Vec2)
    requires
        bounded(pos, COORD_LIMIT as int),
        bounded(vel, SPEED_LIMIT as int),
        0 <= ms <= SPEED_LIMIT,
        0 <= mf <= SPEED_LIMIT,
        0 <= boundary <= COORD_LIMIT,
    ensures
        (f.x as int, f.y as int) == containment_spec(pos, vel, ms as int, mf as int,
            boundary as int),
        nsq(f.x as int, f.y as int) <= (2 * mf) * (2 * mf),
{
    let dx: i64 = if pos.x > boundary {
        -ms
    } else if pos.x < -boundary {
        ms
    } else {
        0
    };
    let dy: i64 = if pos.y > boundary {
        -ms
    } else if pos.y < -boundary {
        ms
    } else {
        0
    };
    if dx == 0 && dy == 0 {
        proof {
            assert(nsq(0, 0) <= (2 * mf) * (2 * mf)) by (nonlinear_arith)
                requires
                    mf >= 0,
            ;
        }
        return Vec2 { x: 0, y: 0 };
    }
    clamp_mag(dx - vel.x, dy - vel.y, 2 * mf)
}

/// The distance between two points, rounded down.
pub open spec fn sep_d(ax: int, ay: int, bx: int, by: int) -> int {
    sqrt_i(nsq(ax - bx, ay - by))
}

/// The x component of the separation force on the agent at `(ax, ay)` from
/// the one at `(bx, by)`: repulsion inversely proportional to the distance,
/// scaled by the agent's own force budget, and zero at or beyond the
/// desired distance (the boundary is exclusive) or at distance zero.
pub open spec fn sep_fx(ax: int, ay: int, bx: int, by: int, mf: int, dd: int) -> int {
    let d = sep_d(ax, ay, bx, by);
    if 0 < d && d < dd {
        tdiv((ax - bx) * mf * SCALE, d * d)
    } else {
        0
    }
}

/// The y component of the separation force.
pub open spec fn sep_fy(ax: int, ay: int, bx: int, by: int, mf: int, dd: int) -> int {
    let d = sep_d(ax, ay, bx, by);
    if 0 < d && d < dd {
        tdiv((ay - by) * mf * SCALE, d * d)
    } else {
        0
    }
}

/// The two repulsion forces of one pair of agents closer than `dd`: equal
/// directions, opposite signs, each scaled by its own agent's force budget.
/// Exactly at `dd` apart, or overlapping exactly, both forces are zero.
pub fn separation_pair(apos: Vec2, bpos: Vec2, amf: i64, bmf: i64, dd: i64) -> (r: (Vec2, Vec2))
    requires
        bounded(apos, COORD_LIMIT as int),
        bounded(bpos, COORD_LIMIT as int),
        0 <= amf <= SPEED_LIMIT,
        0 <= bmf <= SPEED_LIMIT,
        0 <= dd <= COORD_LIMIT,
    ensures
        r.0.x == sep_fx(apos.x as int, apos.y as int, bpos.x as int, bpos.y as int, amf as int,
            dd as int),
        r.0.y == sep_fy(apos.x as int, apos.y as int, bpos.x as int, bpos.y as int, amf as int,
            dd as int),
        r.1.x == sep_fx(bpos.x as int, bpos.y as int, apos.x as int, apos.y as int, bmf as int,
            dd as int),
        r.1.y == sep_fy(bpos.x as int, bpos.y as int, apos.x as int, apos.y as int, bmf as int,
            dd as int),
        abs_i(r.0.x as int) <= 2_000_000_000_000_000_000,
        abs_i(r.0.y as int) <= 2_000_000_000_000_000_000,
        abs_i(r.1.x as int) <= 2_000_000_000_000_000_000,
        abs_i(r.1.y as int) <= 2_000_000_000_000_000_000,
        sep_d(apos.x as int, apos.y as int, bpos.x as int, bpos.y as int) >= dd ==> r.0 == (Vec2 {
            x: 0,
            y: 0,
        }, Vec2 { x: 0, y: 0 }).0 && r.1 == (Vec2 { x: 0, y: 0 }),
{
    let dx = apos.x - bpos.x;
    let dy = apos.y - bpos.y;
    let n = norm_sq_exec(dx, dy);
    let d = isqrt(n);
    proof {
        lemma_sqrt_unique(n as int, d as int);
        assert(nsq(bpos.x - apos.x, bpos.y - apos.y) == nsq(dx as int, dy as int))
            by (nonlinear_arith)
            requires
                bpos.x - apos.x == -(dx as int),
                bpos.y - apos.y == -(dy as int),
        ;
    }
    if 0 < d && (d as i64) < dd {
        proof {
            lemma_abs_mul_bound(dx as int, dx as int, 2_000_000_000int, 2_000_000_000int);
            lemma_abs_mul_bound(dy as int, dy as int, 2_000_000_000int, 2_000_000_000int);
            assert((d as int) * (d as int) <= n as int);
            assert((d as int) * (d as int) >= 1) by (nonlinear_arith)
                requires
                    d >= 1,
            ;
            lemma_abs_mul_bound(dx as int, amf as int, 2_000_000_000int, 1_000_000int);
            lemma_abs_mul_bound(dx * amf, SCALE as int, 2_000_000_000_000_000int, 1_000int);
            lemma_abs_mul_bound(dy as int, amf as int, 2_000_000_000int, 1_000_000int);
            lemma_abs_mul_bound(dy * amf, SCALE as int, 2_000_000_000_000_000int, 1_000int);
            lemma_abs_mul_bound(-(dx as int), bmf as int, 2_000_000_000int, 1_000_000int);
            lemma_abs_mul_bound(-(dx as int) * bmf, SCALE as int, 2_000_000_000_000_000int,
                1_000int);
            lemma_abs_mul_bound(-(dy as int), bmf as int, 2_000_000_000int, 1_000_000int);
            lemma_abs_mul_bound(-(dy as int) * bmf, SCALE as int, 2_000_000_000_000_000int,
                1_000int);
            lemma_tdiv_bounds(dx * amf * SCALE, (d as int) * (d as int));
            lemma_tdiv_bounds(dy * amf * SCALE, (d as int) * (d as int));
            lemma_tdiv_bounds(-(dx as int) * bmf * SCALE, (d as int) * (d as int));
            lemma_tdiv_bounds(-(dy as int) * bmf * SCALE, (d as int) * (d as int));
        }
        let dsq = (d as i64) * (d as i64);
        let fax = div_trunc(dx * amf * SCALE, dsq);
        let fay = div_trunc(dy * amf * SCALE, dsq);
        let fbx = div_trunc((-dx) * bmf * SCALE, dsq);
        let fby = div_trunc((-dy) * bmf * SCALE, dsq);
        (Vec2 { x: fax, y: fay }, Vec2 { x: fbx, y: fby })
    } else {
        (Vec2 { x: 0, y: 0 }, Vec2 { x: 0, y: 0 })
    }
}

/// An agent's kinematic state on the ground plane: position, velocity, the
/// facing direction derived from motion, and its speed and force budgets.
#[derive(Clone, Copy, PartialEq, Eq, Structural, Debug)]
pub struct KinematicAgent {
    pub pos: Vec2,
    pub vel: Vec2,
    pub heading: Vec2,
    pub max_speed: i64,
    pub max_force: i64,
}

impl KinematicAgent {
    pub open spec fn wf(self) -> bool {
        &&& bounded(self.pos, COORD_LIMIT as int)
        &&& bounded(self.vel, SPEED_LIMIT as int)
        &&& bounded(self.heading, SCALE as int)
        &&& 0 <= self.max_speed <= SPEED_LIMIT
        &&& 0 <= self.max_force <= SPEED_LIMIT
    }
}

/// A velocity component after a force contribution, saturated at the
/// machine speed range.
pub open spec fn add_sat_spec(v: int, d: int) -> int {
    clamp_spec(v + d, -SPEED_LIMIT as int, SPEED_LIMIT as int)
}

/// Adds a steering force into the agent's velocity, each axis saturated at
/// the machine speed range; nothing else changes.
pub fn apply_force(agent: &mut KinematicAgent, f: Vec2)
    requires
        old(agent).wf(),
        abs_i(f.x as int) <= 4_000_000_000_000_000_000,
        abs_i(f.y as int) <= 4_000_000_000_000_000_000,
    ensures
        final(agent).wf(),
        final(agent).vel.x == add_sat_spec(old(agent).vel.x as int, f.x as int),
        final(agent).vel.y == add_sat_spec(old(agent).vel.y as int, f.y as int),
        final(agent).pos == old(agent).pos,
        final(agent).heading == old(agent).heading,
        final(agent).max_speed == old(agent).max_speed,
        final(agent).max_force == old(agent).max_force,
{
    agent.vel.x = clamp_i64(agent.vel.x + f.x, -SPEED_LIMIT, SPEED_LIMIT);
    agent.vel.y = clamp_i64(agent.vel.y + f.y, -SPEED_LIMIT, SPEED_LIMIT);
}

/// One pair's separation applied to a sequence of agents: each of the two
/// velocities gets its own repulsion force, saturated.
pub open spec fn pair_applied(s: Seq<KinematicAgent>, dd: int, i: int, j: int) -> Seq<
    KinematicAgent,
> {
    let a = s[i];
    let b = s[j];
    let fax = sep_fx(a.pos.x as int, a.pos.y as int, b.pos.x as int, b.pos.y as int,
        a.max_force as int, dd);
    let fay = sep_fy(a.pos.x as int, a.pos.y as int, b.pos.x as int, b.pos.y as int,
        a.max_force as int, dd);
    let fbx = sep_fx(b.pos.x as int, b.pos.y as int, a.pos.x as int, a.pos.y as int,
        b.max_force as int, dd);
    let fby = sep_fy(b.pos.x as int, b.pos.y as int, a.pos.x as int, a.pos.y as int,
        b.max_force as int, dd);
    let a2 = KinematicAgent {
        vel: Vec2 {
            x: add_sat_spec(a.vel.x as int, fax) as i64,
            y: add_sat_spec(a.vel.y as int, fay) as i64,
        },
        ..a
    };
    let b2 = KinematicAgent {
        vel: Vec2 {
            x: add_sat_spec(b.vel.x as int, fbx) as i64,
            y: add_sat_spec(b.vel.y as int, fby) as i64,
        },
        ..b
    };
    s.update(i, a2).update(j, b2)
}

/// Separation of agent `i` against agents `i + 1` up to `j`, applied in
/// index order.
pub open spec fn row_applied(s: Seq<KinematicAgent>, dd: int, i: int, j: int) -> Seq<
    KinematicAgent,
>
    decreases j,
{
    if i < 0 || j <= i + 1 {
        s
    } else {
        pair_applied(row_applied(s, dd, i, j - 1), dd, i, j - 1)
    }
}

/// Separation of the first `k` agents, each against all later ones, in
/// index order: the pairwise pass the separation behaviour makes.
pub open spec fn rows_applied(s: Seq<KinematicAgent>, dd: int, k: int) -> Seq<KinematicAgent>
    decreases k,
{
    if k <= 0 {
        s
    } else {
        row_applied(rows_applied(s, dd, k - 1), dd, k - 1, s.len() as int)
    }
}

/// The separation pass: every pair of agents closer than `dd` pushes both
/// apart, pairs taken in index order. Positions, headings and budgets are
/// untouched; only velocities change.
pub fn separation_all(agents: &mut Vec<KinematicAgent>, dd: i64)
    requires
        forall|k: int| 0 <= k < old(agents)@.len() ==> (#[trigger] old(agents)@[k]).wf(),
        0 <= dd <= COORD_LIMIT,
    ensures
        final(agents)@.len() == old(agents)@.len(),
        forall|k: int|
            0 <= k < old(agents)@.len() ==> (#[trigger] final(agents)@[k]).wf()
                && final(agents)@[k].pos == old(agents)@[k].pos
                && final(agents)@[k].heading == old(agents)@[k].heading
                && final(agents)@[k].max_speed == old(agents)@[k].max_speed
                && final(agents)@[k].max_force == old(agents)@[k].max_force,
        final(agents)@ == rows_applied(old(agents)@, dd as int, old(agents)@.len() as int),
{
    let n = agents.len();
    let mut i: usize = 0;
    while i < n
        invariant
            n == agents@.len(),
            n == old(agents)@.len(),
            i <= n,
            0 <= dd <= COORD_LIMIT,
            forall|k: int|
                0 <= k < n ==> (#[trigger] agents@[k]).wf()
                    && agents@[k].pos == old(agents)@[k].pos
                    && agents@[k].heading == old(agents)@[k].heading
                    && agents@[k].max_speed == old(agents)@[k].max_speed
                    && agents@[k].max_force == old(agents)@[k].max_force,
            agents@ == rows_applied(old(agents)@, dd as int, i as int),
        decreases n - i,
    {
        let ghost row_base = agents@;
        let mut j: usize = i + 1;
        while j < n
            invariant
                n == agents@.len(),
                n == old(agents)@.len(),
                i < n,
                i + 1 <= j <= n,
                0 <= dd <= COORD_LIMIT,
                forall|k: int|
                    0 <= k < n ==> (#[trigger] agents@[k]).wf()
                        && agents@[k].pos == old(agents)@[k].pos
                        && agents@[k].heading == old(agents)@[k].heading
                        && agents@[k].max_speed == old(agents)@[k].max_speed
                        && agents@[k].max_force == old(agents)@[k].max_force,
                agents@ == row_applied(row_base, dd as int, i as int, j as int),
                row_base == rows_applied(old(agents)@, dd as int, i as int),
            decreases n - j,
        {
            let a = agents[i];
            let b = agents[j];
            let (fa, fb) = separation_pair(a.pos, b.pos, a.max_force, b.max_force, dd);
            let ghost pre = agents@;
            let mut a2 = a;
            apply_force(&mut a2, fa);
            let mut b2 = b;
            apply_force(&mut b2, fb);
            agents[i] = a2;
            agents[j] = b2;
            proof {
                assert(agents@ =~= pair_applied(pre, dd as int, i as int, j as int));
            }
            j = j + 1;
        }
        proof {
            assert(agents@ == rows_applied(old(agents)@, dd as int, i + 1));
        }
        i = i + 1;
    }
}

/// The final pass of a tick: the velocity clamped to the agent's top speed,
/// the position moved by it over `dt` and held in coordinate range, and the
/// heading turned to the motion when there is any. After it the speed never
/// exceeds `max_speed`, for any velocity the forces accumulated.
pub fn integrate(agent: &mut KinematicAgent, dt: i64)
    requires
        old(agent).wf(),
        0 <= dt <= 1_000_000,
    ensures
        final(agent).wf(),
        (final(agent).vel.x as int, final(agent).vel.y as int) == clamp_mag_spec(
            old(agent).vel.x as int,
            old(agent).vel.y as int,
            old(agent).max_speed as int,
        ),
        nsq(final(agent).vel.x as int, final(agent).vel.y as int) <= old(agent).max_speed * old(
            agent,
        ).max_speed,
        final(agent).pos.x == clamp_spec(
            old(agent).pos.x + tdiv(final(agent).vel.x * dt, SCALE as int),
            -COORD_LIMIT as int,
            COORD_LIMIT as int,
        ),
        final(agent).pos.y == clamp_spec(
            old(agent).pos.y + tdiv(final(agent).vel.y * dt, SCALE as int),
            -COORD_LIMIT as int,
            COORD_LIMIT as int,
        ),
        final(agent).vel.x != 0 || final(agent).vel.y != 0 ==> (final(agent).heading.x as int,
            final(agent).heading.y as int) == scale_dir_spec(
            final(agent).vel.x as int,
            final(agent).vel.y as int,
            SCALE as int,
        ),
        final(agent).vel.x == 0 && final(agent).vel.y == 0 ==> final(agent).heading == old(
            agent,
        ).heading,
        final(agent).max_speed == old(agent).max_speed,
        final(agent).max_force == old(agent).max_force,
{
    let v = clamp_mag(agent.vel.x, agent.vel.y, agent.max_speed);
    proof {
        lemma_abs_mul_bound(v.x as int, dt as int, 1_000_000int, 1_000_000int);
        lemma_abs_mul_bound(v.y as int, dt as int, 1_000_000int, 1_000_000int);
        lemma_tdiv_bounds(v.x * dt, SCALE as int);
        lemma_tdiv_bounds(v.y * dt, SCALE as int);
    }
    let sx = div_trunc(v.x * dt, SCALE);
    let sy = div_trunc(v.y * dt, SCALE);
    agent.vel = v;
    agent.pos.x = clamp_i64(agent.pos.x + sx, -COORD_LIMIT, COORD_LIMIT);
    agent.pos.y = clamp_i64(agent.pos.y + sy, -COORD_LIMIT, COORD_LIMIT);
    if v.x != 0 || v.y != 0 {
        agent.heading = scale_dir(v.x, v.y, SCALE);
    }
}

} // verus!
