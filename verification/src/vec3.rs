//! Three-component fixed-point vectors and their exact arithmetic.

use crate::fixed::{
    add_fx, div_fx, fx_add, fx_div, fx_mul, fx_sqrt, fx_sub, is_isqrt, isqrt_s,
    lemma_isqrt_exists, mul_fx, sqrt_fx_s, sub_fx, SCALE,
};
use vstd::arithmetic::div_mod::{lemma_div_is_ordered, lemma_div_pos_is_pos, lemma_fundamental_div_mod, lemma_mod_bound};
use vstd::prelude::*;

verus! {

/// A vector of three fixed-point scalars (ticks of 1 / SCALE).
#[derive(Clone, Copy, PartialEq, Eq, Structural, Debug)]
pub struct Vec3 {
    pub x: i64,
    pub y: i64,
    pub z: i64,
}

/// Build a vector from tick values that lie in the i64 range.
pub open spec fn v3(x: int, y: int, z: int) -> Vec3 {
    Vec3 { x: x as i64, y: y as i64, z: z as i64 }
}

/// Componentwise saturating sum.
pub open spec fn add3_s(a: Vec3, b: Vec3) -> Vec3 {
    v3(
        add_fx(a.x as int, b.x as int),
        add_fx(a.y as int, b.y as int),
        add_fx(a.z as int, b.z as int),
    )
}

/// Componentwise saturating difference.
pub open spec fn sub3_s(a: Vec3, b: Vec3) -> Vec3 {
    v3(
        sub_fx(a.x as int, b.x as int),
        sub_fx(a.y as int, b.y as int),
        sub_fx(a.z as int, b.z as int),
    )
}

/// Componentwise negation.
pub open spec fn neg3_s(a: Vec3) -> Vec3 {
    v3(sub_fx(0, a.x as int), sub_fx(0, a.y as int), sub_fx(0, a.z as int))
}

/// Scalar times vector, componentwise.
pub open spec fn scale3_s(k: int, a: Vec3) -> Vec3 {
    v3(mul_fx(k, a.x as int), mul_fx(k, a.y as int), mul_fx(k, a.z as int))
}

/// Componentwise product (RGB attenuation).
pub open spec fn mul3_s(a: Vec3, b: Vec3) -> Vec3 {
    v3(
        mul_fx(a.x as int, b.x as int),
        mul_fx(a.y as int, b.y as int),
        mul_fx(a.z as int, b.z as int),
    )
}

/// Fixed-point dot product.
pub open spec fn dot_s(a: Vec3, b: Vec3) -> int {
    add_fx(
        add_fx(mul_fx(a.x as int, b.x as int), mul_fx(a.y as int, b.y as int)),
        mul_fx(a.z as int, b.z as int),
    )
}

/// Fixed-point cross product.
pub open spec fn cross3_s(a: Vec3, b: Vec3) -> Vec3 {
    v3(
        sub_fx(mul_fx(a.y as int, b.z as int), mul_fx(a.z as int, b.y as int)),
        sub_fx(mul_fx(a.z as int, b.x as int), mul_fx(a.x as int, b.z as int)),
        sub_fx(mul_fx(a.x as int, b.y as int), mul_fx(a.y as int, b.x as int)),
    )
}

/// The normalized direction of v: each component divided by the
/// fixed-point length of v.  Meaningful when `dot_s(v, v) >= 1`.
pub open spec fn unit3_s(v: Vec3) -> Vec3 {
    let l = sqrt_fx_s(dot_s(v, v));
    v3(div_fx(v.x as int, l), div_fx(v.y as int, l), div_fx(v.z as int, l))
}

/// For moderate operands the fixed-point product is the plain floored
/// product, far from saturation.
pub proof fn lemma_mul_fx_plain(a: int, b: int)
    requires
        -4_000_000 <= a <= 4_000_000,
        -4_000_000 <= b <= 4_000_000,
    ensures
        mul_fx(a, b) == (a * b) / (SCALE as int),
        -16_000_000 <= mul_fx(a, b) <= 16_000_000,
{
    assert(-16_000_000_000_000 <= a * b <= 16_000_000_000_000) by (nonlinear_arith)
        requires
            -4_000_000 <= a <= 4_000_000,
            -4_000_000 <= b <= 4_000_000,
    ;
    lemma_div_is_ordered(-16_000_000_000_000, a * b, SCALE as int);
    lemma_div_is_ordered(a * b, 16_000_000_000_000, SCALE as int);
}

/// One coordinate of the normalization error argument: the floored
/// quotient r = (si * SCALE) / l squares to the exact rescaled square
/// within one quotient step each way.
proof fn lemma_unit_component(si: int, l: int)
    requires
        -3_000_000 <= si <= 3_000_000,
        1_000_000 <= l <= 6_000_000,
    ensures
        ({
            let r = (si * (SCALE as int)) / l;
            &&& -3_000_001 <= r <= 3_000_000
            &&& l * l * (r * r) <= si * si * 1_000_000_000_000 + 6_000_000_000_000 * l + l * l
            &&& l * l * (r * r) >= si * si * 1_000_000_000_000 - 6_000_000_000_000 * l
        }),
{
    let a = si * (SCALE as int);
    lemma_fundamental_div_mod(a, l);
    lemma_mod_bound(a, l);
    let r = a / l;
    let rho = a % l;
    assert(-3_000_000_000_000 <= a <= 3_000_000_000_000);
    assert(-3_000_001 <= r <= 3_000_000) by (nonlinear_arith)
        requires
            a == l * r + rho,
            0 <= rho < l,
            1_000_000 <= l,
            -3_000_000_000_000 <= a <= 3_000_000_000_000,
    ;
    assert(l * l * (r * r) <= a * a + 2 * 3_000_000_000_000 * l + l * l && l * l * (r * r) >= a
        * a - 2 * 3_000_000_000_000 * l) by (nonlinear_arith)
        requires
            a == l * r + rho,
            0 <= rho < l,
            1 <= l,
            -3_000_000_000_000 <= a <= 3_000_000_000_000,
    ;
    assert(a * a == si * si * 1_000_000_000_000) by (nonlinear_arith)
        requires
            a == si * 1_000_000,
    ;
}

/// Normalizing a vector of between one and three units of length gives
/// a result whose squared length is within a small rounding band of
/// exactly one.
pub proof fn lemma_unit3_length(s: Vec3)
    requires
        -3_000_000 <= s.x <= 3_000_000,
        -3_000_000 <= s.y <= 3_000_000,
        -3_000_000 <= s.z <= 3_000_000,
        dot_s(s, s) >= SCALE as int,
    ensures
        SCALE as int - 128 <= dot_s(unit3_s(s), unit3_s(s)) <= SCALE as int + 128,
{
    let sc = SCALE as int;
    let q = dot_s(s, s);
    let sx = s.x as int;
    let sy = s.y as int;
    let sz = s.z as int;
    lemma_mul_fx_plain(sx, sx);
    lemma_mul_fx_plain(sy, sy);
    lemma_mul_fx_plain(sz, sz);
    assert(sx * sx >= 0 && sy * sy >= 0 && sz * sz >= 0) by (nonlinear_arith);
    lemma_div_pos_is_pos(sx * sx, sc);
    lemma_div_pos_is_pos(sy * sy, sc);
    lemma_div_pos_is_pos(sz * sz, sc);
    assert(sx * sx <= 9_000_000_000_000 && sy * sy <= 9_000_000_000_000 && sz * sz
        <= 9_000_000_000_000) by (nonlinear_arith)
        requires
            -3_000_000 <= sx <= 3_000_000,
            -3_000_000 <= sy <= 3_000_000,
            -3_000_000 <= sz <= 3_000_000,
    ;
    lemma_div_is_ordered(sx * sx, 9_000_000_000_000, sc);
    lemma_div_is_ordered(sy * sy, 9_000_000_000_000, sc);
    lemma_div_is_ordered(sz * sz, 9_000_000_000_000, sc);
    assert(q == (sx * sx) / sc + (sy * sy) / sc + (sz * sz) / sc);
    assert(sc <= q <= 27_000_000);
    let sum_s2 = sx * sx + sy * sy + sz * sz;
    lemma_fundamental_div_mod(sx * sx, sc);
    lemma_fundamental_div_mod(sy * sy, sc);
    lemma_fundamental_div_mod(sz * sz, sc);
    lemma_mod_bound(sx * sx, sc);
    lemma_mod_bound(sy * sy, sc);
    lemma_mod_bound(sz * sz, sc);
    assert(sc * q <= sum_s2 < sc * q + 3 * sc) by (nonlinear_arith)
        requires
            sx * sx == sc * ((sx * sx) / sc) + (sx * sx) % sc,
            sy * sy == sc * ((sy * sy) / sc) + (sy * sy) % sc,
            sz * sz == sc * ((sz * sz) / sc) + (sz * sz) % sc,
            0 <= (sx * sx) % sc < sc,
            0 <= (sy * sy) % sc < sc,
            0 <= (sz * sz) % sc < sc,
            q == (sx * sx) / sc + (sy * sy) / sc + (sz * sz) / sc,
            sum_s2 == sx * sx + sy * sy + sz * sz,
    ;
    lemma_isqrt_exists(q * sc);
    let l = isqrt_s(q * sc);
    assert(is_isqrt(q * sc, l));
    assert(l >= sc) by (nonlinear_arith)
        requires
            (l + 1) * (l + 1) > q * sc,
            q >= sc,
            sc == 1_000_000,
            l >= 0,
    ;
    assert(l <= 6_000_000) by (nonlinear_arith)
        requires
            l * l <= q * sc,
            q <= 27_000_000,
            sc == 1_000_000,
            l >= 0,
    ;
    lemma_unit_component(sx, l);
    lemma_unit_component(sy, l);
    lemma_unit_component(sz, l);
    let rx = (sx * sc) / l;
    let ry = (sy * sc) / l;
    let rz = (sz * sc) / l;
    let u = unit3_s(s);
    assert(u.x as int == rx && u.y as int == ry && u.z as int == rz);
    lemma_mul_fx_plain(rx, rx);
    lemma_mul_fx_plain(ry, ry);
    lemma_mul_fx_plain(rz, rz);
    assert(rx * rx >= 0 && ry * ry >= 0 && rz * rz >= 0) by (nonlinear_arith);
    lemma_div_pos_is_pos(rx * rx, sc);
    lemma_div_pos_is_pos(ry * ry, sc);
    lemma_div_pos_is_pos(rz * rz, sc);
    let t = dot_s(u, u);
    assert(t == (rx * rx) / sc + (ry * ry) / sc + (rz * rz) / sc);
    assert(t >= 0);
    let sum_r2 = rx * rx + ry * ry + rz * rz;
    lemma_fundamental_div_mod(rx * rx, sc);
    lemma_fundamental_div_mod(ry * ry, sc);
    lemma_fundamental_div_mod(rz * rz, sc);
    lemma_mod_bound(rx * rx, sc);
    lemma_mod_bound(ry * ry, sc);
    lemma_mod_bound(rz * rz, sc);
    assert(sc * t <= sum_r2 < sc * t + 3 * sc) by (nonlinear_arith)
        requires
            rx * rx == sc * ((rx * rx) / sc) + (rx * rx) % sc,
            ry * ry == sc * ((ry * ry) / sc) + (ry * ry) % sc,
            rz * rz == sc * ((rz * rz) / sc) + (rz * rz) % sc,
            0 <= (rx * rx) % sc < sc,
            0 <= (ry * ry) % sc < sc,
            0 <= (rz * rz) % sc < sc,
            t == (rx * rx) / sc + (ry * ry) / sc + (rz * rz) / sc,
            sum_r2 == rx * rx + ry * ry + rz * rz,
    ;
    assert(l * l * sum_r2 <= sum_s2 * 1_000_000_000_000 + 18_000_000_000_000 * l + 3 * (l * l)
        && l * l * sum_r2 >= sum_s2 * 1_000_000_000_000 - 18_000_000_000_000 * l)
        by (nonlinear_arith)
        requires
            sum_r2 == rx * rx + ry * ry + rz * rz,
            sum_s2 == sx * sx + sy * sy + sz * sz,
            l * l * (rx * rx) <= sx * sx * 1_000_000_000_000 + 6_000_000_000_000 * l + l * l,
            l * l * (ry * ry) <= sy * sy * 1_000_000_000_000 + 6_000_000_000_000 * l + l * l,
            l * l * (rz * rz) <= sz * sz * 1_000_000_000_000 + 6_000_000_000_000 * l + l * l,
            l * l * (rx * rx) >= sx * sx * 1_000_000_000_000 - 6_000_000_000_000 * l,
            l * l * (ry * ry) >= sy * sy * 1_000_000_000_000 - 6_000_000_000_000 * l,
            l * l * (rz * rz) >= sz * sz * 1_000_000_000_000 - 6_000_000_000_000 * l,
    ;
    assert(l * l > q * sc - 2 * l - 1) by (nonlinear_arith)
        requires
            (l + 1) * (l + 1) > q * sc,
    ;
    assert(t * (q - 13) <= sc * (q + 112)) by (nonlinear_arith)
        requires
            sc == 1_000_000,
            sc * t <= sum_r2,
            l * l * sum_r2 <= sum_s2 * 1_000_000_000_000 + 18_000_000_000_000 * l + 3 * (l * l),
            sum_s2 < sc * q + 3 * sc,
            l * l > q * sc - 2 * l - 1,
            (l + 1) * (l + 1) > q * sc,
            sc <= l <= 6_000_000,
            sc <= q <= 27_000_000,
            t >= 0,
            sum_r2 >= 0,
    ;
    assert(t <= sc + 126) by (nonlinear_arith)
        requires
            t * (q - 13) <= sc * (q + 112),
            q >= sc,
            sc == 1_000_000,
            t >= 0,
    ;
    assert((t + 3) * q >= sc * (q - 108)) by (nonlinear_arith)
        requires
            sc == 1_000_000,
            sum_r2 < sc * t + 3 * sc,
            l * l * sum_r2 >= sum_s2 * 1_000_000_000_000 - 18_000_000_000_000 * l,
            sum_s2 >= sc * q,
            l * l <= q * sc,
            sc <= l <= 6_000_000,
            sc <= q <= 27_000_000,
            t >= 0,
            sum_r2 >= 0,
    ;
    assert(t >= sc - 111) by (nonlinear_arith)
        requires
            (t + 3) * q >= sc * (q - 108),
            q >= sc,
            sc == 1_000_000,
            t >= 0,
    ;
}

/// The square of a scalar is never negative, so neither is a dot
/// product of a vector with itself.
pub proof fn lemma_dot_self_nonneg(v: Vec3)
    ensures
        dot_s(v, v) >= 0,
        mul_fx(v.x as int, v.x as int) >= 0,
        mul_fx(v.y as int, v.y as int) >= 0,
        mul_fx(v.z as int, v.z as int) >= 0,
{
    lemma_square_div_scale_nonneg(v.x as int);
    lemma_square_div_scale_nonneg(v.y as int);
    lemma_square_div_scale_nonneg(v.z as int);
}

proof fn lemma_square_div_scale_nonneg(a: int)
    ensures
        mul_fx(a, a) >= 0,
{
    assert(a * a >= 0) by (nonlinear_arith);
    lemma_div_pos_is_pos(a * a, SCALE as int);
}

pub fn v_new(x: i64, y: i64, z: i64) -> (r: Vec3)
    ensures
        r == (Vec3 { x, y, z }),
{
    Vec3 { x, y, z }
}

pub fn v_add(a: Vec3, b: Vec3) -> (r: Vec3)
    ensures
        r == add3_s(a, b),
{
    Vec3 { x: fx_add(a.x, b.x), y: fx_add(a.y, b.y), z: fx_add(a.z, b.z) }
}

pub fn v_sub(a: Vec3, b: Vec3) -> (r: Vec3)
    ensures
        r == sub3_s(a, b),
{
    Vec3 { x: fx_sub(a.x, b.x), y: fx_sub(a.y, b.y), z: fx_sub(a.z, b.z) }
}

pub fn v_neg(a: Vec3) -> (r: Vec3)
    ensures
        r == neg3_s(a),
{
    Vec3 { x: fx_sub(0, a.x), y: fx_sub(0, a.y), z: fx_sub(0, a.z) }
}

pub fn v_scale(k: i64, a: Vec3) -> (r: Vec3)
    ensures
        r == scale3_s(k as int, a),
{
    Vec3 { x: fx_mul(k, a.x), y: fx_mul(k, a.y), z: fx_mul(k, a.z) }
}

pub fn v_mul(a: Vec3, b: Vec3) -> (r: Vec3)
    ensures
        r == mul3_s(a, b),
{
    Vec3 { x: fx_mul(a.x, b.x), y: fx_mul(a.y, b.y), z: fx_mul(a.z, b.z) }
}

pub fn v_dot(a: Vec3, b: Vec3) -> (r: i64)
    ensures
        r == dot_s(a, b),
{
    fx_add(fx_add(fx_mul(a.x, b.x), fx_mul(a.y, b.y)), fx_mul(a.z, b.z))
}

pub fn v_cross(a: Vec3, b: Vec3) -> (r: Vec3)
    ensures
        r == cross3_s(a, b),
{
    Vec3 {
        x: fx_sub(fx_mul(a.y, b.z), fx_mul(a.z, b.y)),
        y: fx_sub(fx_mul(a.z, b.x), fx_mul(a.x, b.z)),
        z: fx_sub(fx_mul(a.x, b.y), fx_mul(a.y, b.x)),
    }
}

/// Normalize a vector whose squared length is at least one tick.
/// A vector below that resolution has no usable direction, which is the
/// fixed-point rendering of the "never normalize a zero vector" rule.
pub fn unit_vector(v: Vec3) -> (r: Vec3)
    requires
        dot_s(v, v) >= 1,
    ensures
        r == unit3_s(v),
{
    let len2 = v_dot(v, v);
    let l = fx_sqrt(len2);
    proof {
        if l == 0 {
            assert((l as int + 1) * (l as int + 1) == 1);
            assert(false);
        }
    }
    Vec3 { x: fx_div(v.x, l), y: fx_div(v.y, l), z: fx_div(v.z, l) }
}

} // verus!
