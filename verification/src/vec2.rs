//! Two-dimensional integer vectors and the exact numeric primitives the
//! simulation is built on: symmetric clamping, division truncated toward
//! zero, and the floor of an integer square root.

use vstd::prelude::*;

verus! {

/// A 2D vector in fixed-point world units.
#[derive(Clone, Copy, PartialEq, Eq, Structural, Debug)]
pub struct Vec2 {
    pub x: i64,
    pub y: i64,
}

impl Vec2 {
    pub fn new(x: i64, y: i64) -> (v: Vec2)
        ensures
            v == (Vec2 { x, y }),
    {
        Vec2 { x, y }
    }
}

/// Clamp an unbounded value into the symmetric interval `[-limit, limit]`.
pub open spec fn clamp_spec(v: int, limit: int) -> int {
    if v > limit {
        limit
    } else if v < -limit {
        -limit
    } else {
        v
    }
}

/// Division truncated toward zero (the quotient of the magnitudes, with the
/// sign of the dividend), for a positive divisor.
pub open spec fn div_tz(n: int, d: int) -> int
    recommends
        d >= 1,
{
    if n >= 0 {
        n / d
    } else {
        -((-n) / d)
    }
}

/// A quotient truncated toward zero is bounded by any bound on the
/// dividend's multiples: `|n| <= c * d` gives `|n / d| <= c`.
pub proof fn lemma_div_tz_bound(n: int, d: int, c: int)
    requires
        d >= 1,
        c >= 0,
        -(c * d) <= n <= c * d,
    ensures
        -c <= div_tz(n, d) <= c,
{
    if n >= 0 {
        vstd::arithmetic::div_mod::lemma_div_pos_is_pos(n, d);
        vstd::arithmetic::div_mod::lemma_div_is_ordered(n, c * d, d);
        vstd::arithmetic::div_mod::lemma_div_by_multiple(c, d);
    } else {
        vstd::arithmetic::div_mod::lemma_div_pos_is_pos(-n, d);
        vstd::arithmetic::div_mod::lemma_div_is_ordered(-n, c * d, d);
        vstd::arithmetic::div_mod::lemma_div_by_multiple(c, d);
    }
}

/// When the divisor divides the dividend exactly, truncating division
/// inverts the multiplication.
pub proof fn lemma_div_tz_of_multiple(n: int, d: int)
    requires
        d >= 1,
        n % d == 0,
    ensures
        n == d * div_tz(n, d),
{
    vstd::arithmetic::div_mod::lemma_fundamental_div_mod(n, d);
    if n >= 0 {
    } else {
        let q = n / d;
        assert(n == d * q);
        vstd::arithmetic::div_mod::lemma_div_pos_is_pos(-n, d);
        assert(-n == (-q) * d) by (nonlinear_arith)
            requires
                n == d * q,
        ;
        assert(q <= 0) by (nonlinear_arith)
            requires
                n == d * q && n < 0 && d >= 1,
        ;
        vstd::arithmetic::div_mod::lemma_div_by_multiple(-q, d);
    }
}

/// Truncating division of an exact multiple recovers the factor.
pub proof fn lemma_div_tz_exact(c: int, d: int)
    requires
        d >= 1,
    ensures
        div_tz(c * d, d) == c,
{
    if c >= 0 {
        vstd::arithmetic::div_mod::lemma_div_by_multiple(c, d);
    } else {
        vstd::arithmetic::div_mod::lemma_div_by_multiple(-c, d);
        assert(-(c * d) == (-c) * d) by (nonlinear_arith);
        assert(c * d < 0) by (nonlinear_arith)
            requires
                c < 0 && d >= 1,
        ;
    }
}

/// `r` is the floor of the square root of `x`.
pub open spec fn is_sqrt_floor(r: int, x: int) -> bool {
    0 <= r && r * r <= x && x < (r + 1) * (r + 1)
}

/// The floor of the square root of a non-negative integer.
pub open spec fn sqrt_floor(x: int) -> int {
    choose|r: int| is_sqrt_floor(r, x)
}

/// Every non-negative integer has a square-root floor.
pub proof fn lemma_sqrt_floor_exists(x: int)
    requires
        x >= 0,
    ensures
        is_sqrt_floor(sqrt_floor(x), x),
    decreases x,
{
    if x == 0 {
        assert(is_sqrt_floor(0, 0)) by (nonlinear_arith);
    } else {
        lemma_sqrt_floor_exists(x - 1);
        let r = sqrt_floor(x - 1);
        if (r + 1) * (r + 1) <= x {
            assert(x - 1 < (r + 1) * (r + 1));
            assert(is_sqrt_floor(r + 1, x)) by (nonlinear_arith)
                requires
                    r >= 0 && (r + 1) * (r + 1) <= x && x - 1 < (r + 1) * (r + 1),
            ;
        } else {
            assert(is_sqrt_floor(r, x));
        }
    }
    let w = choose|w: int| is_sqrt_floor(w, x);
    assert(is_sqrt_floor(w, x));
}

/// The square-root floor is unique, so any witness equals `sqrt_floor`.
pub proof fn lemma_sqrt_floor_is(r: int, x: int)
    requires
        is_sqrt_floor(r, x),
    ensures
        sqrt_floor(x) == r,
{
    lemma_sqrt_floor_exists(x);
    let s = sqrt_floor(x);
    assert(s == r) by (nonlinear_arith)
        requires
            is_sqrt_floor(r, x) && is_sqrt_floor(s, x),
    ;
}

/// Inputs to `isqrt` stay below this cap, so the binary search can start at
/// a root bound of `10^14`.
pub const ISQRT_INPUT_CAP: u128 = 10_000_000_000_000_000_000_000_000_000;

/// Floor of the integer square root, by binary search on the root.
pub fn isqrt(n: u128) -> (r: u64)
    requires
        n < ISQRT_INPUT_CAP,
    ensures
        is_sqrt_floor(r as int, n as int),
{
    let mut lo: u64 = 0;
    let mut hi: u64 = 100_000_000_000_000;
    assert((n as int) < (hi as int + 1) * (hi as int + 1)) by (nonlinear_arith)
        requires
            n < ISQRT_INPUT_CAP && hi == 100_000_000_000_000u64,
    ;
    while lo < hi
        invariant
            lo <= hi <= 100_000_000_000_000u64,
            (lo as int) * (lo as int) <= n as int,
            (n as int) < (hi as int + 1) * (hi as int + 1),
        decreases hi - lo,
    {
        let mid: u64 = lo + (hi - lo + 1) / 2;
        assert(lo < mid <= hi);
        assert((mid as int) * (mid as int) <= 100_000_000_000_000 * 100_000_000_000_000)
            by (nonlinear_arith)
            requires
                mid <= 100_000_000_000_000u64,
        ;
        let sq: u128 = (mid as u128) * (mid as u128);
        if sq <= n {
            lo = mid;
        } else {
            hi = mid - 1;
        }
    }
    lo
}

/// Clamp a wide value into `[-limit, limit]` and narrow it.
pub fn clamp_i128(v: i128, limit: i64) -> (r: i64)
    requires
        limit >= 1,
    ensures
        r as int == clamp_spec(v as int, limit as int),
{
    if v > limit as i128 {
        limit
    } else if v < -(limit as i128) {
        -limit
    } else {
        v as i64
    }
}

/// Division of wide integers truncated toward zero, matching `div_tz`.
pub fn div_tz_i128(n: i128, d: i128) -> (r: i128)
    requires
        d >= 1,
        n > i128::MIN,
    ensures
        r as int == div_tz(n as int, d as int),
        r == 0 || (n > 0 && r > 0) || (n < 0 && r < 0),
        n >= 0 ==> r <= n,
        n < 0 ==> n <= r,
{
    if n >= 0 {
        let q: u128 = (n as u128) / (d as u128);
        proof {
            vstd::arithmetic::div_mod::lemma_div_nonincreasing(n as int, d as int);
        }
        q as i128
    } else {
        let m: i128 = -n;
        let q: u128 = (m as u128) / (d as u128);
        proof {
            vstd::arithmetic::div_mod::lemma_div_nonincreasing(m as int, d as int);
        }
        -(q as i128)
    }
}

} // verus!
