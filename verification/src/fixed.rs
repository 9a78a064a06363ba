//! Fixed-point arithmetic shared by the three engines.
//!
//! A fixed-point number is an `i64` holding the real value times `SCALE`.
//! Division truncates toward zero, as the corresponding binary operation
//! on hardware does; `tdiv` is its mathematical description.

use vstd::prelude::*;

verus! {

/// One whole unit in fixed-point representation.
pub const SCALE: i64 = 1000;

/// Truncating division (rounds toward zero), defined for positive divisors.
pub open spec fn tdiv(a: int, b: int) -> int {
    if a >= 0 {
        a / b
    } else {
        -((-a) / b)
    }
}

/// Absolute value.
pub open spec fn abs_i(a: int) -> int {
    if a >= 0 {
        a
    } else {
        -a
    }
}

/// Smaller of two values.
pub open spec fn min2(a: int, b: int) -> int {
    if a <= b {
        a
    } else {
        b
    }
}

/// `r` is the integer square root of `n`: the largest `r` with `r * r <= n`.
pub open spec fn is_sqrt(n: int, r: int) -> bool {
    &&& 0 <= r
    &&& r * r <= n
    &&& n < (r + 1) * (r + 1)
}

/// `r` is the least integer whose square is at least `n`.
pub open spec fn is_sqrt_up(n: int, r: int) -> bool {
    &&& 0 <= r
    &&& n <= r * r
    &&& r >= 1 ==> (r - 1) * (r - 1) < n
}

proof fn lemma_div_le_num(a: int, b: int)
    by (nonlinear_arith)
    requires
        a >= 0,
        b >= 1,
    ensures
        0 <= a / b <= a,
{
}

/// Truncating division lies between zero and the exact quotient's numerator side:
/// it never grows the magnitude and keeps the sign of the numerator.
pub proof fn lemma_tdiv_bounds(a: int, b: int)
    requires
        b >= 1,
    ensures
        a >= 0 ==> 0 <= tdiv(a, b) <= a,
        a < 0 ==> a <= tdiv(a, b) <= 0,
        abs_i(tdiv(a, b)) <= abs_i(a),
{
    if a >= 0 {
        lemma_div_le_num(a, b);
    } else {
        lemma_div_le_num(-a, b);
    }
}

/// Multiplying by a fraction `c / b` with `0 <= c <= b` keeps the result
/// between zero and the value scaled.
pub proof fn lemma_scale_frac(c: int, x: int, b: int)
    by (nonlinear_arith)
    requires
        b >= 1,
        0 <= c <= b,
    ensures
        x >= 0 ==> 0 <= tdiv(c * x, b) <= x,
        x < 0 ==> x <= tdiv(c * x, b) <= 0,
{
}

/// The quotient scaled back by the divisor does not exceed the numerator in
/// magnitude; squaring preserves that order.
pub proof fn lemma_tdiv_times_divisor(a: int, b: int)
    by (nonlinear_arith)
    requires
        b >= 1,
    ensures
        abs_i(tdiv(a, b)) * b <= abs_i(a),
{
}

/// Bound on a product from bounds on its factors.
pub proof fn lemma_abs_mul_bound(a: int, b: int, x: int, y: int)
    by (nonlinear_arith)
    requires
        abs_i(a) <= x,
        abs_i(b) <= y,
    ensures
        abs_i(a * b) <= x * y,
{
}

/// Truncating division of an `i64` by a positive divisor.
pub fn div_trunc(a: i64, b: i64) -> (q: i64)
    requires
        b >= 1,
        a > i64::MIN,
    ensures
        q == tdiv(a as int, b as int),
{
    if a >= 0 {
        let q = (a as u64) / (b as u64);
        proof {
            lemma_div_le_num(a as int, b as int);
        }
        q as i64
    } else {
        let m = (-a) as u64;
        let q = m / (b as u64);
        proof {
            lemma_div_le_num(m as int, b as int);
        }
        -(q as i64)
    }
}

/// Clamp a value into the closed interval `[lo, hi]`.
pub fn clamp_i64(v: i64, lo: i64, hi: i64) -> (r: i64)
    requires
        lo <= hi,
    ensures
        r == clamp_spec(v as int, lo as int, hi as int),
{
    if v < lo {
        lo
    } else if v > hi {
        hi
    } else {
        v
    }
}

/// The value of `v` clamped into `[lo, hi]`.
pub open spec fn clamp_spec(v: int, lo: int, hi: int) -> int {
    if v < lo {
        lo
    } else if v > hi {
        hi
    } else {
        v
    }
}

/// Integer square root by bisection.
pub fn isqrt(n: u64) -> (r: u64)
    ensures
        is_sqrt(n as int, r as int),
        r <= 0xFFFF_FFFF,
{
    let mut lo: u64 = 0;
    let mut hi: u64 = 0xFFFF_FFFF;
    proof {
        assert((0xFFFF_FFFFu64 + 1) * (0xFFFF_FFFFu64 + 1) > n as int) by (nonlinear_arith);
    }
    while lo < hi
        invariant
            lo <= hi <= 0xFFFF_FFFF,
            lo * lo <= n as int,
            n < (hi + 1) * (hi + 1),
        decreases hi - lo,
    {
        let mid = lo + (hi - lo + 1) / 2;
        assert(lo < mid <= hi);
        assert(mid * mid <= 0xFFFF_FFFFu64 * 0xFFFF_FFFFu64) by (nonlinear_arith)
            requires
                mid <= 0xFFFF_FFFFu64,
        ;
        if mid * mid <= n {
            lo = mid;
        } else {
            hi = mid - 1;
        }
    }
    lo
}

/// Least integer whose square is at least `n`.
pub fn sqrt_up(n: u64) -> (r: u64)
    ensures
        is_sqrt_up(n as int, r as int),
        r <= 0x1_0000_0000,
{
    let r = isqrt(n);
    if r * r == n {
        proof {
            if r >= 1 {
                assert((r - 1) * (r - 1) < r * r) by (nonlinear_arith)
                    requires
                        r >= 1,
                ;
            }
        }
        r
    } else {
        assert((r + 1 - 1) * (r + 1 - 1) < n);
        r + 1
    }
}

} // verus!
