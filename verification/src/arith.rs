//! Integer helpers shared by the fixed-point numerics: truncating and
//! Euclidean division, clamping, saturating addition and an integer
//! square root.

use vstd::prelude::*;

verus! {

/// Division that rounds toward zero, matching how a scaled and
/// truncated real quantity rounds.
pub open spec fn div_tz_spec(x: int, d: int) -> int
    recommends
        d > 0,
{
    if x >= 0 {
        x / d
    } else {
        -((-x) / d)
    }
}

/// Clamp `x` into `[lo, hi]`.
pub open spec fn clamp_spec(x: int, lo: int, hi: int) -> int
    recommends
        lo <= hi,
{
    if x < lo {
        lo
    } else if x > hi {
        hi
    } else {
        x
    }
}

/// Truncating division by a positive divisor.
pub fn div_tz(x: i64, d: i64) -> (r: i64)
    requires
        d > 0,
        x > i64::MIN,
    ensures
        r == div_tz_spec(x as int, d as int),
{
    if x >= 0 {
        ((x as u64) / (d as u64)) as i64
    } else {
        let m = (-x) as u64;
        let q = m / (d as u64);
        -(q as i64)
    }
}

/// Euclidean remainder by a positive modulus; the result is in `[0, m)`.
pub fn emod(x: i64, m: i64) -> (r: i64)
    requires
        m > 0,
    ensures
        r == x as int % m as int,
        0 <= r < m,
{
    if x >= 0 {
        ((x as u64) % (m as u64)) as i64
    } else {
        let y = (-(x + 1)) as u64;
        let rem = (y % (m as u64)) as i64;
        proof {
            let q = (-(x as int) - 1) / (m as int);
            vstd::arithmetic::div_mod::lemma_fundamental_div_mod(-(x as int) - 1, m as int);
            assert((x as int) == (-q - 1) * (m as int) + ((m as int) - 1 - rem)) by (nonlinear_arith)
                requires
                    -(x as int) - 1 == q * (m as int) + rem,
            ;
            vstd::arithmetic::div_mod::lemma_fundamental_div_mod_converse(
                x as int,
                m as int,
                -q - 1,
                m as int - 1 - rem,
            );
        }
        m - 1 - rem
    }
}

/// Flooring division by a positive divisor (the `int` division of the
/// specification language).
pub fn div_floor(x: i64, d: i64) -> (r: i64)
    requires
        0 < d <= 1_000_000_000,
        i64::MIN + d < x,
    ensures
        r == x as int / d as int,
{
    if x >= 0 {
        ((x as u64) / (d as u64)) as i64
    } else {
        let m = (-x) as u64;
        let q0 = (m + (d as u64) - 1) / (d as u64);
        proof {
            let mi = m as int;
            let di = d as int;
            let q = q0 as int;
            vstd::arithmetic::div_mod::lemma_fundamental_div_mod(mi + di - 1, di);
            let s = (mi + di - 1) % di;
            assert(di * q == q * di) by (nonlinear_arith);
            assert((-q) * di == -(q * di)) by (nonlinear_arith);
            assert(q * di == mi + di - 1 - s);
            vstd::arithmetic::div_mod::lemma_fundamental_div_mod_converse(
                -mi,
                di,
                -q,
                q * di - mi,
            );
        }
        -(q0 as i64)
    }
}

/// Ceiling division by a positive divisor.
pub open spec fn div_ceil_spec(x: int, d: int) -> int
    recommends
        d > 0,
{
    (x + d - 1) / d
}

/// Ceiling division by a positive divisor.
pub fn div_ceil(x: i64, d: i64) -> (r: i64)
    requires
        0 < d <= 1_000_000_000,
        i64::MIN + d < x,
        x + d - 1 <= i64::MAX,
    ensures
        r == div_ceil_spec(x as int, d as int),
{
    div_floor(x - 1 + d, d)
}

/// Clamp into an inclusive interval.
pub fn clamp_i64(x: i64, lo: i64, hi: i64) -> (r: i64)
    requires
        lo <= hi,
    ensures
        r == clamp_spec(x as int, lo as int, hi as int),
{
    if x < lo {
        lo
    } else if x > hi {
        hi
    } else {
        x
    }
}

/// Addition that saturates at the `i64` range ends.
pub fn sat_add(a: i64, b: i64) -> (r: i64)
    ensures
        r == clamp_spec(a + b, i64::MIN as int, i64::MAX as int),
{
    let s: i128 = (a as i128) + (b as i128);
    if s < (i64::MIN as i128) {
        i64::MIN
    } else if s > (i64::MAX as i128) {
        i64::MAX
    } else {
        s as i64
    }
}

/// Ceiling division exceeds flooring division by one exactly off
/// multiples of the divisor.
pub proof fn lemma_ceil_floor(x: int, d: int)
    requires
        d > 0,
    ensures
        div_ceil_spec(x, d) == x / d + (if x % d == 0 {
            0int
        } else {
            1int
        }),
{
    vstd::arithmetic::div_mod::lemma_fundamental_div_mod(x, d);
    let q = x / d;
    let r = x % d;
    assert(d * q == q * d) by (nonlinear_arith);
    if r == 0 {
        vstd::arithmetic::div_mod::lemma_fundamental_div_mod_converse(x + d - 1, d, q, d - 1);
    } else {
        assert(d * (q + 1) == d * q + d) by (nonlinear_arith);
        vstd::arithmetic::div_mod::lemma_fundamental_div_mod_converse(x + d - 1, d, q + 1, r - 1);
    }
}

/// A magnitude bound carries through truncating division.
pub proof fn lemma_div_tz_bound(x: int, d: int, m: int)
    requires
        d >= 1,
        m >= 0,
        -(m * d) <= x <= m * d,
    ensures
        -m <= div_tz_spec(x, d) <= m,
{
    if x >= 0 {
        vstd::arithmetic::div_mod::lemma_div_is_ordered(x, m * d, d);
        vstd::arithmetic::div_mod::lemma_div_by_multiple(m, d);
        vstd::arithmetic::div_mod::lemma_div_pos_is_pos(x, d);
    } else {
        vstd::arithmetic::div_mod::lemma_div_is_ordered(-x, m * d, d);
        vstd::arithmetic::div_mod::lemma_div_by_multiple(m, d);
        vstd::arithmetic::div_mod::lemma_div_pos_is_pos(-x, d);
    }
}

/// The integer square root: the greatest `r` with `r * r <= x`.
pub open spec fn is_isqrt(x: int, r: int) -> bool {
    &&& r >= 0
    &&& r * r <= x
    &&& x < (r + 1) * (r + 1)
}

fn isqrt_go(x: u64, lo: u64, hi: u64) -> (r: u64)
    requires
        lo < hi,
        (lo * lo) as int <= x as int,
        (x as int) < (hi * hi) as int,
        hi <= 3_000_000_000,
    ensures
        is_isqrt(x as int, r as int),
    decreases hi - lo,
{
    if hi - lo == 1 {
        proof {
            assert((lo + 1) * (lo + 1) == hi * hi);
        }
        lo
    } else {
        let mid = lo + (hi - lo) / 2;
        proof {
            assert(mid as int * mid as int <= 9_000_000_000_000_000_000) by (nonlinear_arith)
                requires
                    0 <= mid as int <= 3_000_000_000,
            ;
        }
        if mid * mid <= x {
            isqrt_go(x, mid, hi)
        } else {
            isqrt_go(x, lo, mid)
        }
    }
}

/// The integer square root as a value: the unique `r` that `is_isqrt`
/// admits.
pub open spec fn sqrt_floor_spec(x: int) -> int {
    choose|r: int| is_isqrt(x, r)
}

/// The integer square root is unique, so any witness is the value.
pub proof fn lemma_sqrt_floor(x: int, r: int)
    requires
        is_isqrt(x, r),
    ensures
        sqrt_floor_spec(x) == r,
{
    assert(exists|r2: int| is_isqrt(x, r2)) by {
        assert(is_isqrt(x, r));
    }
    let r2 = choose|r2: int| is_isqrt(x, r2);
    if r2 < r {
        assert((r2 + 1) * (r2 + 1) <= r * r) by (nonlinear_arith)
            requires
                0 <= r2 + 1 <= r,
        ;
        assert(false);
    }
    if r < r2 {
        assert((r + 1) * (r + 1) <= r2 * r2) by (nonlinear_arith)
            requires
                0 <= r + 1 <= r2,
        ;
        assert(false);
    }
}

/// Integer square root of a bounded quantity.
pub fn isqrt(x: u64) -> (r: u64)
    requires
        x <= 4_000_000_000_000_000_000,
    ensures
        is_isqrt(x as int, r as int),
        r as int == sqrt_floor_spec(x as int),
        r <= 2_000_000_000,
{
    let r = isqrt_go(x, 0, 2_000_000_001);
    proof {
        lemma_sqrt_floor(x as int, r as int);
    }
    proof {
        assert(r as int * r as int <= x as int);
        assert(r <= 2_000_000_000) by (nonlinear_arith)
            requires
                r as int * r as int <= 4_000_000_000_000_000_000,
                r >= 0,
        ;
    }
    r
}

} // verus!
