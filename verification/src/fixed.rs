//! Saturating fixed-point scalars: i64 tick counts scaled by `SCALE`.
//!
//! A scalar value v is stored as the integer closest below v * SCALE, so
//! one geometric unit is `SCALE` ticks.  Every operation has an exact
//! integer specification: multiplication and division round toward
//! negative infinity and clamp into the i64 range, and the square root
//! is the exact integer square root of the rescaled operand.

use vstd::arithmetic::div_mod::{lemma_fundamental_div_mod, lemma_fundamental_div_mod_converse};
use vstd::prelude::*;

verus! {

/// Number of ticks in one geometric unit.
pub const SCALE: i64 = 1_000_000;

/// Clamp a mathematical integer into the i64 range.
pub open spec fn sat64(x: int) -> int {
    if x < i64::MIN as int {
        i64::MIN as int
    } else if x > i64::MAX as int {
        i64::MAX as int
    } else {
        x
    }
}

/// Saturating fixed-point addition.
pub open spec fn add_fx(a: int, b: int) -> int {
    sat64(a + b)
}

/// Saturating fixed-point subtraction.
pub open spec fn sub_fx(a: int, b: int) -> int {
    sat64(a - b)
}

/// Saturating fixed-point multiplication: floor((a * b) / SCALE).
pub open spec fn mul_fx(a: int, b: int) -> int {
    sat64((a * b) / (SCALE as int))
}

/// Saturating fixed-point division: floor((a * SCALE) / b), for b > 0.
pub open spec fn div_fx(a: int, b: int) -> int {
    sat64((a * (SCALE as int)) / b)
}

/// r is the integer square root of n.
pub open spec fn is_isqrt(n: int, r: int) -> bool {
    0 <= r && r * r <= n && n < (r + 1) * (r + 1)
}

/// The integer square root, as a value (unique by `lemma_isqrt_unique`).
pub open spec fn isqrt_s(n: int) -> int {
    choose|r: int| is_isqrt(n, r)
}

/// Fixed-point square root: the value sqrt(x / SCALE) in ticks, rounded down.
pub open spec fn sqrt_fx_s(x: int) -> int {
    isqrt_s(x * (SCALE as int))
}

/// Two integer square roots of the same number are equal, so `isqrt_s`
/// names the witness of any `is_isqrt` fact.
pub proof fn lemma_isqrt_unique(n: int, r: int)
    requires
        is_isqrt(n, r),
    ensures
        isqrt_s(n) == r,
{
    assert(is_isqrt(n, isqrt_s(n)));
    let r2 = isqrt_s(n);
    if r2 < r {
        assert((r2 + 1) * (r2 + 1) <= r * r) by (nonlinear_arith)
            requires
                0 <= r2,
                r2 + 1 <= r,
        ;
        assert(false);
    }
    if r < r2 {
        assert((r + 1) * (r + 1) <= r2 * r2) by (nonlinear_arith)
            requires
                0 <= r,
                r + 1 <= r2,
        ;
        assert(false);
    }
}

/// Every non-negative integer has an integer square root, so `isqrt_s`
/// is a genuine value there.
pub proof fn lemma_isqrt_exists(n: int)
    requires
        n >= 0,
    ensures
        is_isqrt(n, isqrt_s(n)),
    decreases n,
{
    if n == 0 {
        assert(is_isqrt(0, 0));
        lemma_isqrt_unique(0, 0);
    } else {
        lemma_isqrt_exists(n - 1);
        let r = isqrt_s(n - 1);
        if (r + 1) * (r + 1) <= n {
            assert(n == (r + 1) * (r + 1));
            assert((r + 2) * (r + 2) > n) by (nonlinear_arith)
                requires
                    n == (r + 1) * (r + 1),
                    r >= 0,
            ;
            assert(is_isqrt(n, r + 1));
            lemma_isqrt_unique(n, r + 1);
        } else {
            assert(is_isqrt(n, r));
            lemma_isqrt_unique(n, r);
        }
    }
}

/// Division by a positive divisor distributes over addition up to one:
/// the floor of a sum's quotient sits between the sum of the floors and
/// one more.
pub proof fn lemma_div_add(x: int, y: int, d: int)
    requires
        d > 0,
    ensures
        x / d + y / d <= (x + y) / d <= x / d + y / d + 1,
{
    let qx = x / d;
    let rx = x % d;
    let qy = y / d;
    let ry = y % d;
    lemma_fundamental_div_mod(x, d);
    lemma_fundamental_div_mod(y, d);
    vstd::arithmetic::div_mod::lemma_mod_bound(x, d);
    vstd::arithmetic::div_mod::lemma_mod_bound(y, d);
    if rx + ry < d {
        assert(x + y == d * (qx + qy) + (rx + ry)) by (nonlinear_arith)
            requires
                x == d * qx + rx,
                y == d * qy + ry,
        ;
        lemma_fundamental_div_mod_converse(x + y, d, qx + qy, rx + ry);
    } else {
        assert(x + y == d * (qx + qy + 1) + (rx + ry - d)) by (nonlinear_arith)
            requires
                x == d * qx + rx,
                y == d * qy + ry,
        ;
        lemma_fundamental_div_mod_converse(x + y, d, qx + qy + 1, rx + ry - d);
    }
}

/// Clamp an i128 into the i64 range.
fn sat_to_i64(q: i128) -> (r: i64)
    ensures
        r == sat64(q as int),
{
    if q > i64::MAX as i128 {
        i64::MAX
    } else if q < i64::MIN as i128 {
        i64::MIN
    } else {
        q as i64
    }
}

/// Division of p by d > 0, rounding toward negative infinity, which is
/// what `/` means on `int` for a positive divisor.
fn floor_div_i128(p: i128, d: i128) -> (q: i128)
    requires
        0 < d <= 0x8_0000_0000_0000_0000_0000,
        -0x4000_0000_0000_0000_0000_0000_0000_0000 <= p
            <= 0x4000_0000_0000_0000_0000_0000_0000_0000,
    ensures
        q == p as int / d as int,
{
    if p >= 0 {
        let qu: u128 = (p as u128) / (d as u128);
        proof {
            lemma_fundamental_div_mod(p as int, d as int);
            assert(p as int / d as int <= p as int) by (nonlinear_arith)
                requires
                    0 <= p as int,
                    1 <= d as int,
                    p as int == d as int * (p as int / d as int) + p as int % d as int,
                    0 <= p as int % d as int,
            ;
        }
        qu as i128
    } else {
        let n: u128 = (-p) as u128;
        let dd: u128 = d as u128;
        let qu: u128 = (n + (dd - 1)) / dd;
        proof {
            let pi = p as int;
            let di = d as int;
            let q0 = pi / di;
            let r0 = pi % di;
            lemma_fundamental_div_mod(pi, di);
            assert((n + (dd - 1)) as int == di * (-q0) + (di - 1 - r0)) by (nonlinear_arith)
                requires
                    n as int == -pi,
                    dd == di,
                    pi == di * q0 + r0,
            ;
            lemma_fundamental_div_mod_converse((n + (dd - 1)) as int, di, -q0, di - 1 - r0);
            assert(qu as int == -q0);
            assert(-q0 <= n as int) by (nonlinear_arith)
                requires
                    pi == di * q0 + r0,
                    0 <= r0 < di,
                    1 <= di,
                    pi < 0,
                    n as int == -pi,
            ;
        }
        -(qu as i128)
    }
}

/// Fixed-point addition, saturating at the i64 range.
pub fn fx_add(a: i64, b: i64) -> (r: i64)
    ensures
        r == add_fx(a as int, b as int),
{
    sat_to_i64(a as i128 + b as i128)
}

/// Fixed-point subtraction, saturating at the i64 range.
pub fn fx_sub(a: i64, b: i64) -> (r: i64)
    ensures
        r == sub_fx(a as int, b as int),
{
    sat_to_i64(a as i128 - b as i128)
}

/// Fixed-point multiplication: floor((a * b) / SCALE), saturating.
pub fn fx_mul(a: i64, b: i64) -> (r: i64)
    ensures
        r == mul_fx(a as int, b as int),
{
    proof {
        assert(-0x4000_0000_0000_0000_0000_0000_0000_0000 <= a as int * b as int
            <= 0x4000_0000_0000_0000_0000_0000_0000_0000) by (nonlinear_arith)
            requires
                -0x8000_0000_0000_0000 <= a as int <= 0x8000_0000_0000_0000,
                -0x8000_0000_0000_0000 <= b as int <= 0x8000_0000_0000_0000,
        ;
    }
    let p: i128 = (a as i128) * (b as i128);
    let q = floor_div_i128(p, SCALE as i128);
    sat_to_i64(q)
}

/// Fixed-point division: floor((a * SCALE) / b), saturating; b must be positive.
pub fn fx_div(a: i64, b: i64) -> (r: i64)
    requires
        b > 0,
    ensures
        r == div_fx(a as int, b as int),
{
    proof {
        assert(-0x4000_0000_0000_0000_0000_0000_0000_0000 <= a as int * SCALE as int
            <= 0x4000_0000_0000_0000_0000_0000_0000_0000) by (nonlinear_arith)
            requires
                -0x8000_0000_0000_0000 <= a as int <= 0x8000_0000_0000_0000,
        ;
    }
    let p: i128 = (a as i128) * (SCALE as i128);
    let q = floor_div_i128(p, b as i128);
    sat_to_i64(q)
}

/// Integer square root of a 128-bit number.
fn isqrt(n: u128) -> (r: u64)
    ensures
        is_isqrt(n as int, r as int),
{
    let mut lo: u128 = 0;
    let mut hi: u128 = 0x1_0000_0000_0000_0000;
    while lo + 1 < hi
        invariant
            0 <= lo < hi <= 0x1_0000_0000_0000_0000,
            (lo as int) * (lo as int) <= n as int,
            (hi as int) * (hi as int) > n as int,
        decreases hi - lo,
    {
        let mid: u128 = lo + (hi - lo) / 2;
        proof {
            assert(lo < mid < hi);
            assert((mid as int) * (mid as int) < u128::MAX as int) by (nonlinear_arith)
                requires
                    0 <= mid as int <= 0xffff_ffff_ffff_ffff,
            ;
        }
        if mid * mid <= n {
            lo = mid;
        } else {
            hi = mid;
        }
    }
    proof {
        assert(hi == lo + 1);
        assert(lo as int <= 0xffff_ffff_ffff_ffff);
    }
    lo as u64
}

/// Fixed-point square root of a non-negative scalar.
pub fn fx_sqrt(x: i64) -> (r: i64)
    requires
        x >= 0,
    ensures
        r == sqrt_fx_s(x as int),
        r >= 0,
        is_isqrt((x as int) * (SCALE as int), r as int),
{
    proof {
        assert((x as int) * (SCALE as int) <= 0x8000_0000_0000_0000 * 0x10_0000)
            by (nonlinear_arith)
            requires
                0 <= x as int <= 0x8000_0000_0000_0000,
                SCALE as int == 0x10_0000 - 48_576,
        ;
    }
    let n: u128 = (x as u128) * (SCALE as u128);
    let r = isqrt(n);
    proof {
        assert(n as int == (x as int) * (SCALE as int));
        lemma_isqrt_unique(n as int, r as int);
        assert(n as int <= 0x8000_0000_0000_0000 * 0x10_0000);
        assert((r as int) < 0x400_0000_0000) by (nonlinear_arith)
            requires
                0 <= r as int,
                (r as int) * (r as int) <= n as int,
                n as int <= 0x8000_0000_0000_0000 * 0x10_0000,
        ;
    }
    r as i64
}

} // verus!
