//! Fixed-point scalar arithmetic.
//!
//! Every physical quantity (length, velocity, acceleration, mass, time, force
//! scale) is an integer count of `1 / SCALE` of its SI unit. Stored quantities
//! stay within `[-LIMIT, LIMIT]`; intermediate results are computed in `i128`
//! and saturate to that range when they are stored.
use vstd::prelude::*;

verus! {

/// Raw steps per unit.
pub const SCALE: i64 = 1_000_000;

/// Largest magnitude of a stored quantity (2^40 raw steps).
pub const LIMIT: i64 = 1_099_511_627_776;

/// A stored quantity is within the representable range.
pub open spec fn in_range(x: int) -> bool {
    -LIMIT <= x <= LIMIT
}

/// Saturate a value to the representable range.
pub open spec fn clamp_lim(x: int) -> int {
    if x > LIMIT {
        LIMIT as int
    } else if x < -LIMIT {
        -LIMIT
    } else {
        x
    }
}

/// Integer division rounding toward zero, for a positive divisor.
pub open spec fn tdiv(a: int, b: int) -> int {
    if a >= 0 {
        a / b
    } else {
        -((-a) / b)
    }
}

/// Fixed-point product of two quantities.
pub open spec fn fmul(a: int, b: int) -> int {
    tdiv(a * b, SCALE as int)
}

/// `r` is the integer square root of `n`, rounded down.
pub open spec fn is_sqrt_floor(n: int, r: int) -> bool {
    0 <= r && r * r <= n < (r + 1) * (r + 1)
}

/// The integer square root of a non-negative `n`, rounded down.
pub open spec fn sqrt_floor(n: int) -> int {
    choose|r: int| is_sqrt_floor(n, r)
}

pub proof fn lemma_sqrt_floor_unique(n: int, r: int, s: int)
    requires
        is_sqrt_floor(n, r),
        is_sqrt_floor(n, s),
    ensures
        r == s,
{
    if r < s {
        assert((r + 1) * (r + 1) <= s * s) by (nonlinear_arith)
            requires 0 <= r, r + 1 <= s;
    } else if s < r {
        assert((s + 1) * (s + 1) <= r * r) by (nonlinear_arith)
            requires 0 <= s, s + 1 <= r;
    }
}

pub proof fn lemma_sqrt_floor(n: int, r: int)
    requires
        is_sqrt_floor(n, r),
    ensures
        sqrt_floor(n) == r,
{
    let s = sqrt_floor(n);
    assert(is_sqrt_floor(n, s));
    lemma_sqrt_floor_unique(n, r, s);
}

/// Every non-negative integer has a square root rounded down.
pub proof fn lemma_sqrt_floor_exists(n: int)
    requires
        n >= 0,
    ensures
        is_sqrt_floor(n, sqrt_floor(n)),
    decreases n,
{
    if n == 0 {
        assert(is_sqrt_floor(0, 0));
    } else {
        lemma_sqrt_floor_exists(n - 1);
        let r = sqrt_floor(n - 1);
        if (r + 1) * (r + 1) <= n {
            assert((r + 2) * (r + 2) == (r + 1) * (r + 1) + 2 * r + 3) by (nonlinear_arith);
            assert(is_sqrt_floor(n, r + 1));
        } else {
            assert(is_sqrt_floor(n, r));
        }
    }
}

/// The root of a positive integer is positive.
pub proof fn lemma_sqrt_floor_pos(n: int, r: int)
    requires
        is_sqrt_floor(n, r),
        n >= 1,
    ensures
        r >= 1,
{
    if r == 0 {
        assert((r + 1) * (r + 1) == 1) by (nonlinear_arith)
            requires r == 0;
    }
}

/// Each coordinate is bounded by the rounded-down length of the vector.
pub proof fn lemma_coord_le_sqrt(dx: int, dy: int, r: int)
    requires
        is_sqrt_floor(dx * dx + dy * dy, r),
    ensures
        -r <= dx <= r,
        -r <= dy <= r,
{
    assert(dy * dy >= 0) by (nonlinear_arith);
    assert(dx * dx >= 0) by (nonlinear_arith);
    if dx > r {
        assert(dx * dx >= (r + 1) * (r + 1)) by (nonlinear_arith)
            requires dx >= r + 1, r >= 0;
    }
    if dx < -r {
        assert(dx * dx >= (r + 1) * (r + 1)) by (nonlinear_arith)
            requires -dx >= r + 1, r >= 0;
    }
    if dy > r {
        assert(dy * dy >= (r + 1) * (r + 1)) by (nonlinear_arith)
            requires dy >= r + 1, r >= 0;
    }
    if dy < -r {
        assert(dy * dy >= (r + 1) * (r + 1)) by (nonlinear_arith)
            requires -dy >= r + 1, r >= 0;
    }
}

pub proof fn lemma_tdiv_bound(a: int, b: int, m: int)
    requires
        b > 0,
        -m <= a <= m,
    ensures
        -m <= tdiv(a, b) <= m,
        a >= 0 ==> tdiv(a, b) >= 0,
        a <= 0 ==> tdiv(a, b) <= 0,
{
    if a >= 0 {
        assert(a / b <= a) by (nonlinear_arith)
            requires a >= 0, b > 0;
        assert(a / b >= 0) by (nonlinear_arith)
            requires a >= 0, b > 0;
    } else {
        assert((-a) / b <= -a) by (nonlinear_arith)
            requires -a >= 0, b > 0;
        assert((-a) / b >= 0) by (nonlinear_arith)
            requires -a >= 0, b > 0;
    }
}

pub proof fn lemma_tdiv_neg(a: int, b: int)
    requires
        b > 0,
    ensures
        tdiv(-a, b) == -tdiv(a, b),
{
    if a == 0 {
        assert(0int / b == 0);
    }
}

pub proof fn lemma_mul_bound(a: int, b: int, ma: int, mb: int)
    requires
        -ma <= a <= ma,
        -mb <= b <= mb,
    ensures
        -(ma * mb) <= a * b <= ma * mb,
{
    assert(-(ma * mb) <= a * b <= ma * mb) by (nonlinear_arith)
        requires -ma <= a <= ma, -mb <= b <= mb;
}

/// A quotient by `b` of a value at most `m * b` in magnitude is at most `m`.
pub proof fn lemma_tdiv_le(a: int, b: int, m: int)
    requires
        b > 0,
        m >= 0,
        -(m * b) <= a <= m * b,
    ensures
        -m <= tdiv(a, b) <= m,
{
    if a >= 0 {
        assert(a / b <= m) by (nonlinear_arith)
            requires a >= 0, b > 0, a <= m * b;
        assert(a / b >= 0) by (nonlinear_arith)
            requires a >= 0, b > 0;
    } else {
        assert((-a) / b <= m) by (nonlinear_arith)
            requires -a >= 0, b > 0, -a <= m * b;
        assert((-a) / b >= 0) by (nonlinear_arith)
            requires -a >= 0, b > 0;
    }
}

/// Saturates an intermediate result to the representable range.
pub fn clamp_to_limit(x: i128) -> (r: i64)
    ensures
        r == clamp_lim(x as int),
        in_range(r as int),
{
    if x > LIMIT as i128 {
        LIMIT
    } else if x < -(LIMIT as i128) {
        -LIMIT
    } else {
        x as i64
    }
}

/// Division rounding toward zero.
pub fn div_toward_zero(a: i128, b: i128) -> (r: i128)
    requires
        b > 0,
        a > i128::MIN,
    ensures
        r == tdiv(a as int, b as int),
{
    if a >= 0 {
        a / b
    } else {
        let q = (-a) / b;
        -q
    }
}

/// Integer square root, rounded down.
pub fn isqrt(n: u128) -> (r: u128)
    requires
        n < 0x1_0000_0000_0000_0000_0000_0000,
    ensures
        r == sqrt_floor(n as int),
        is_sqrt_floor(n as int, r as int),
        r <= 0x4_0000_0000_0000,
{
    let mut lo: u128 = 0;
    let mut hi: u128 = 0x4_0000_0000_0000;
    assert(hi * hi == 0x10_0000_0000_0000_0000_0000_0000);
    while hi - lo > 1
        invariant
            lo < hi <= 0x4_0000_0000_0000,
            lo * lo <= n,
            n < hi * hi,
        decreases hi - lo,
    {
        let mid = lo + (hi - lo) / 2;
        assert(mid * mid <= 0x10_0000_0000_0000_0000_0000_0000) by (nonlinear_arith)
            requires mid <= hi, hi <= 0x4_0000_0000_0000;
        if mid * mid <= n {
            lo = mid;
        } else {
            hi = mid;
        }
    }
    assert(is_sqrt_floor(n as int, lo as int));
    proof {
        lemma_sqrt_floor(n as int, lo as int);
    }
    lo
}

} // verus!
