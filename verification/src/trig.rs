//! Fixed-point trigonometry in microdegrees.
//!
//! The sine is the classical rational approximation
//! `sin d = 4 d (180 - d) / (40500 - d (180 - d))` for `d` in degrees
//! in `[0, 180]`, evaluated in millidegrees and scaled to parts per
//! million; it is exact at 0, 30, 90, 150 and 180 degrees.  The cosine
//! folds into that, and the arcsine inverts it by bisection to one
//! microdegree.

use vstd::prelude::*;

use crate::arith::emod;

verus! {

/// One million: the scale of angles per degree and of ratios.
pub const PPM: i64 = 1_000_000;

/// Sine of an angle in `[0, 180]` degrees (microdegrees in, ppm out).
pub open spec fn sin_ppm_spec(a: int) -> int
    recommends
        0 <= a <= 180_000_000,
{
    let d = a / 1000;
    let q = d * (180_000 - d);
    4 * q * 1_000_000 / (40_500_000_000 - q)
}

/// Cosine of an angle in `[0, 180]` degrees (microdegrees in, ppm out).
pub open spec fn cos_ppm_spec(a: int) -> int
    recommends
        0 <= a <= 180_000_000,
{
    if a <= 90_000_000 {
        sin_ppm_spec(a + 90_000_000)
    } else {
        -sin_ppm_spec(a - 90_000_000)
    }
}

/// Cosine of an arbitrary angle, folded by periodicity and evenness.
pub open spec fn cos_fold_spec(a: int) -> int {
    let m = a % 360_000_000;
    if m > 180_000_000 {
        cos_ppm_spec(360_000_000 - m)
    } else {
        cos_ppm_spec(m)
    }
}

proof fn lemma_sin_ppm_bounds(a: int)
    requires
        0 <= a <= 180_000_000,
    ensures
        0 <= sin_ppm_spec(a) <= 1_000_000,
{
    let d = a / 1000;
    assert(0 <= d <= 180_000);
    let q = d * (180_000 - d);
    assert(0 <= q <= 8_100_000_000) by (nonlinear_arith)
        requires
            0 <= d <= 180_000,
            q == d * (180_000 - d),
    ;
    let den = 40_500_000_000 - q;
    assert(den >= 32_400_000_000);
    assert(4 * q * 1_000_000 <= 1_000_000 * den) by (nonlinear_arith)
        requires
            0 <= q <= 8_100_000_000,
            den == 40_500_000_000 - q,
    ;
    vstd::arithmetic::div_mod::lemma_div_is_ordered(4 * q * 1_000_000, 1_000_000 * den, den);
    vstd::arithmetic::div_mod::lemma_div_by_multiple(1_000_000, den);
    vstd::arithmetic::div_mod::lemma_div_pos_is_pos(4 * q * 1_000_000, den);
}

/// Executable sine over `[0, 180]` degrees.
pub fn sin_ppm(a: i64) -> (r: i64)
    requires
        0 <= a <= 180_000_000,
    ensures
        r == sin_ppm_spec(a as int),
        0 <= r <= 1_000_000,
{
    let d: u64 = (a as u64) / 1000;
    proof {
        assert(d * (180_000 - d) <= 8_100_000_000) by (nonlinear_arith)
            requires
                0 <= d <= 180_000,
        ;
        lemma_sin_ppm_bounds(a as int);
    }
    let q: u64 = d * (180_000 - d);
    let num: u64 = 4 * q * 1_000_000;
    let den: u64 = 40_500_000_000 - q;
    (num / den) as i64
}

/// Executable cosine over `[0, 180]` degrees.
pub fn cos_ppm(a: i64) -> (r: i64)
    requires
        0 <= a <= 180_000_000,
    ensures
        r == cos_ppm_spec(a as int),
        -1_000_000 <= r <= 1_000_000,
{
    proof {
        if a <= 90_000_000 {
            lemma_sin_ppm_bounds(a + 90_000_000);
        } else {
            lemma_sin_ppm_bounds(a - 90_000_000);
        }
    }
    if a <= 90_000_000 {
        sin_ppm(a + 90_000_000)
    } else {
        -sin_ppm(a - 90_000_000)
    }
}

/// Executable cosine of an arbitrary angle.
pub fn cos_fold(a: i64) -> (r: i64)
    ensures
        r == cos_fold_spec(a as int),
        -1_000_000 <= r <= 1_000_000,
{
    let m = emod(a, 360_000_000);
    if m > 180_000_000 {
        cos_ppm(360_000_000 - m)
    } else {
        cos_ppm(m)
    }
}

pub proof fn lemma_sin_end_points()
    ensures
        sin_ppm_spec(0) == 0,
        sin_ppm_spec(90_000_000) == 1_000_000,
{
    vstd::arithmetic::div_mod::lemma_div_by_multiple(0, 40_500_000_000);
    let d0 = 0 as int / 1000;
    assert(d0 == 0);
    assert(d0 * (180_000 - d0) == 0) by (nonlinear_arith)
        requires
            d0 == 0,
    ;
    assert(0 * 40_500_000_000 == 0) by (nonlinear_arith);
    assert(sin_ppm_spec(0) == 0);
    let d = 90_000_000 as int / 1000;
    assert(d == 90_000);
    let q = d * (180_000 - d);
    assert(q == 8_100_000_000) by (nonlinear_arith)
        requires
            d == 90_000,
            q == d * (180_000 - d),
    ;
    assert(4 * q * 1_000_000 == 1_000_000 * 32_400_000_000) by (nonlinear_arith)
        requires
            q == 8_100_000_000,
    ;
    vstd::arithmetic::div_mod::lemma_div_by_multiple(1_000_000, 32_400_000_000);
    assert(sin_ppm_spec(90_000_000) == 1_000_000);
}

/// The bisection for the arcsine, as a total function: halve the
/// bracket toward the given sine until it is one microdegree wide.
pub open spec fn asin_bisect_spec(t: int, lo: int, hi: int, fuel: nat) -> int
    decreases fuel,
{
    if fuel == 0 || hi - lo <= 1 {
        lo
    } else {
        let mid = lo + (hi - lo) / 2;
        if sin_ppm_spec(mid) <= t {
            asin_bisect_spec(t, mid, hi, (fuel - 1) as nat)
        } else {
            asin_bisect_spec(t, lo, mid, (fuel - 1) as nat)
        }
    }
}

/// The arcsine of a sine given in ppm, in microdegrees: zero for zero,
/// otherwise the bisection over a quarter turn.
pub open spec fn asin_ppm_spec(t: int) -> int {
    if t <= 0 {
        0
    } else {
        asin_bisect_spec(t, 0, 90_000_000, 27)
    }
}

fn asin_go(t: i64, lo: i64, hi: i64, fuel: u32) -> (r: i64)
    requires
        0 <= lo < hi <= 90_000_000,
        sin_ppm_spec(lo as int) <= t,
        t <= sin_ppm_spec(hi as int),
        hi - lo <= vstd::arithmetic::power2::pow2(fuel as nat),
    ensures
        r == asin_bisect_spec(t as int, lo as int, hi as int, fuel as nat),
        lo <= r < hi,
        sin_ppm_spec(r as int) <= t,
        t <= sin_ppm_spec(r + 1),
    decreases fuel,
{
    if fuel == 0 || hi - lo == 1 {
        proof {
            vstd::arithmetic::power2::lemma2_to64();
        }
        lo
    } else {
        let mid = lo + (hi - lo) / 2;
        proof {
            vstd::arithmetic::power2::lemma_pow2_unfold(fuel as nat);
        }
        if sin_ppm(mid) <= t {
            asin_go(t, mid, hi, fuel - 1)
        } else {
            asin_go(t, lo, mid, fuel - 1)
        }
    }
}

/// Arcsine by bisection: the angle whose rational sine brackets the
/// given value, zero exactly for zero.
pub fn asin_ppm(t: i64) -> (r: i64)
    requires
        0 <= t <= 1_000_000,
    ensures
        r == asin_ppm_spec(t as int),
        0 <= r < 90_000_000,
        sin_ppm_spec(r as int) <= t,
        t <= sin_ppm_spec(r + 1),
{
    if t == 0 {
        proof {
            lemma_sin_end_points();
            assert(sin_ppm_spec(1) == 0) by {
                assert(1int / 1000 == 0);
            }
        }
        return 0;
    }
    proof {
        vstd::arithmetic::power2::lemma2_to64();
        assert(vstd::arithmetic::power2::pow2(27) == 0x8000000);
        lemma_sin_end_points();
    }
    asin_go(t, 0, 90_000_000, 27)
}

} // verus!
