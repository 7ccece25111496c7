//! The three scattering models: Lambertian diffuse, metal with fuzz,
//! and dielectric refraction with Schlick reflectance.

use crate::fixed::{
    add_fx, div_fx, fx_add, fx_div, fx_mul, fx_sqrt, fx_sub, lemma_isqrt_unique, mul_fx,
    sqrt_fx_s, sub_fx, SCALE,
};
use crate::random::{next_symmetric, next_unit};
use crate::vec3::{
    lemma_mul_fx_plain,
    add3_s, dot_s, neg3_s, scale3_s, sub3_s, unit3_s, v_add, v_dot, v_scale, v_sub,
    unit_vector, Vec3,
};
use rand::rngs::StdRng;
use vstd::prelude::*;

verus! {

/// Rejection samplers redraw at most this many times; the chance of
/// exhausting it is below 2^-5000000, and the fallback is the ideal
/// center sample.
pub const SAMPLE_TRIES: u32 = 10_000_000;

/// Every component was drawn from [-SCALE, SCALE).
pub open spec fn in_unit_cube(u: Vec3) -> bool {
    &&& -(SCALE as int) <= (u.x as int) < SCALE as int
    &&& -(SCALE as int) <= (u.y as int) < SCALE as int
    &&& -(SCALE as int) <= (u.z as int) < SCALE as int
}

/// A cube draw whose squared length does not exceed one.
pub open spec fn in_unit_ball(v: Vec3) -> bool {
    in_unit_cube(v) && dot_s(v, v) <= SCALE as int
}

/// A planar draw from [-SCALE, SCALE)^2 inside the unit circle.
pub open spec fn in_unit_disk(a: int, b: int) -> bool {
    &&& -(SCALE as int) <= a < SCALE as int
    &&& -(SCALE as int) <= b < SCALE as int
    &&& add_fx(mul_fx(a, a), mul_fx(b, b)) <= SCALE as int
}

/// Mirror reflection: d - 2 (d . n) n.
pub open spec fn reflect_s(d: Vec3, n: Vec3) -> Vec3 {
    sub3_s(d, scale3_s(mul_fx(2 * SCALE as int, dot_s(d, n)), n))
}

/// The diffuse direction built from an accepted ball sample v:
/// the unit-normalized sum v + n.
pub open spec fn lambert_dir_s(v: Vec3, n: Vec3) -> Vec3 {
    unit3_s(add3_s(v, n))
}

/// An accepted diffuse draw: inside the unit ball, and the sum with the
/// normal is long enough to normalize at fixed-point resolution.
pub open spec fn lambert_sample_ok(v: Vec3, n: Vec3) -> bool {
    in_unit_ball(v) && dot_s(add3_s(v, n), add3_s(v, n)) >= 1
}

/// r is a diffuse scatter of the normal n for some accepted sample.
pub open spec fn lambert_scatter_ok(n: Vec3, r: Vec3) -> bool {
    exists|v: Vec3| lambert_sample_ok(v, n) && r == lambert_dir_s(v, n)
}

/// Metal scatter: the mirror reflection plus fuzz times a cube draw u.
pub open spec fn metal_s(d: Vec3, n: Vec3, fuzz: int, u: Vec3) -> Vec3 {
    add3_s(reflect_s(d, n), scale3_s(fuzz, u))
}

/// r is a metal scatter of d about n for some cube draw.
pub open spec fn metal_scatter_ok(d: Vec3, n: Vec3, fuzz: int, r: Vec3) -> bool {
    exists|u: Vec3| in_unit_cube(u) && r == #[trigger] metal_s(d, n, fuzz, u)
}

/// Schlick's reflectance approximation at angle cosine `cos` for a
/// relative refractive ratio: r0 + (1 - r0) (1 - cos)^5 with
/// r0 = ((1 - ratio) / (1 + ratio))^2.
pub open spec fn reflectance_s(cos: int, ratio: int) -> int {
    let r0 = div_fx(sub_fx(SCALE as int, ratio), add_fx(SCALE as int, ratio));
    let r0sq = mul_fx(r0, r0);
    let p = sub_fx(SCALE as int, cos);
    let p5 = mul_fx(p, mul_fx(p, mul_fx(p, mul_fx(p, p))));
    add_fx(r0sq, mul_fx(sub_fx(SCALE as int, r0sq), p5))
}

/// The clamped angle cosine the dielectric works with: min(-d . n, 1).
pub open spec fn cos_theta_s(d: Vec3, n: Vec3) -> int {
    let c = dot_s(neg3_s(d), n);
    if c > SCALE as int {
        SCALE as int
    } else {
        c
    }
}

/// Total internal reflection: ratio * sin(theta) exceeds one.  When the
/// squared sine comes out negative (inputs longer than unit vectors),
/// the test is false, as it is for the NaN comparison it models.
pub open spec fn tir_s(cos: int, ratio: int) -> bool {
    let s2 = sub_fx(SCALE as int, mul_fx(cos, cos));
    s2 >= 0 && mul_fx(ratio, sqrt_fx_s(s2)) > SCALE as int
}

/// The dielectric outcome for a reflectance draw q in [0, SCALE):
/// mirror reflection on total internal reflection or a Schlick win,
/// otherwise Snell refraction composed from the perpendicular and
/// parallel parts.
pub open spec fn dielectric_s(d: Vec3, n: Vec3, ratio: int, q: int) -> Vec3 {
    let cos = cos_theta_s(d, n);
    if tir_s(cos, ratio) || reflectance_s(cos, ratio) > q {
        reflect_s(d, n)
    } else {
        let perp = scale3_s(ratio, add3_s(d, scale3_s(cos, n)));
        let pl = sub_fx(SCALE as int, dot_s(perp, perp));
        let pl_abs = if pl < 0 {
            sub_fx(0, pl)
        } else {
            pl
        };
        let apar = sub_fx(0, sqrt_fx_s(pl_abs));
        add3_s(perp, scale3_s(apar, n))
    }
}

/// r is a dielectric scatter outcome for some reflectance draw.
pub open spec fn dielectric_scatter_ok(d: Vec3, n: Vec3, ratio: int, r: Vec3) -> bool {
    exists|q: int| 0 <= q < SCALE as int && r == #[trigger] dielectric_s(d, n, ratio, q)
}

/// The diffuse hemisphere law, before normalization: for a ball sample
/// v added to a normal n of roughly unit size, the sum cannot point
/// more than a few rounding ticks below the surface plane.  It follows
/// from the square of the sum being non-negative, expanded in exact
/// fixed-point arithmetic.
pub proof fn lemma_diffuse_hemisphere(v: Vec3, n: Vec3)
    requires
        in_unit_ball(v),
        -2_000_000 <= n.x <= 2_000_000,
        -2_000_000 <= n.y <= 2_000_000,
        -2_000_000 <= n.z <= 2_000_000,
    ensures
        2 * dot_s(add3_s(v, n), n) >= dot_s(n, n) - dot_s(v, v) - 15,
        2 * dot_s(add3_s(v, n), n) >= dot_s(n, n) - SCALE as int - 15,
{
    lemma_diffuse_hemisphere_axis(v.x as int, n.x as int);
    lemma_diffuse_hemisphere_axis(v.y as int, n.y as int);
    lemma_diffuse_hemisphere_axis(v.z as int, n.z as int);
    crate::vec3::lemma_dot_self_nonneg(add3_s(v, n));
}

/// One coordinate of the hemisphere argument: the exact expansion of
/// (v + n)^2 and (v + n) n in floored fixed-point products.
proof fn lemma_diffuse_hemisphere_axis(a: int, b: int)
    requires
        -1_000_000 <= a <= 1_000_000,
        -2_000_000 <= b <= 2_000_000,
    ensures
        mul_fx(add_fx(a, b), b) >= mul_fx(a, b) + mul_fx(b, b),
        mul_fx(add_fx(a, b), add_fx(a, b)) <= mul_fx(a, a) + 2 * mul_fx(a, b) + mul_fx(b, b)
            + 3,
        -16_000_000 <= mul_fx(a, b) <= 16_000_000,
        -16_000_000 <= mul_fx(a, a) <= 16_000_000,
        -16_000_000 <= mul_fx(b, b) <= 16_000_000,
        -16_000_000 <= mul_fx(add_fx(a, b), b) <= 16_000_000,
        -16_000_000 <= mul_fx(add_fx(a, b), add_fx(a, b)) <= 16_000_000,
{
    let d = SCALE as int;
    let s = a + b;
    assert(add_fx(a, b) == s);
    lemma_mul_fx_plain(a, b);
    lemma_mul_fx_plain(a, a);
    lemma_mul_fx_plain(b, b);
    lemma_mul_fx_plain(s, b);
    lemma_mul_fx_plain(s, s);
    assert(s * b == a * b + b * b) by (nonlinear_arith)
        requires
            s == a + b,
    ;
    crate::fixed::lemma_div_add(a * b, b * b, d);
    assert(s * s == a * a + (2 * (a * b) + b * b)) by (nonlinear_arith)
        requires
            s == a + b,
    ;
    crate::fixed::lemma_div_add(a * a, 2 * (a * b) + b * b, d);
    crate::fixed::lemma_div_add(2 * (a * b), b * b, d);
    crate::fixed::lemma_div_add(a * b, a * b, d);
}

/// One coordinate of the post-normalization hemisphere argument: the
/// floored quotient r = a / l, multiplied by a bounded factor, loses at
/// most one divisor step against the exact quotient.
proof fn lemma_scaled_component_dot(a: int, l: int, ni: int)
    requires
        -3_000_000_000_000 <= a <= 3_000_000_000_000,
        1_000_000 <= l <= 6_000_000,
        -2_000_000 <= ni <= 2_000_000,
    ensures
        l * ((a / l) * ni) >= a * ni - 2_000_000 * l,
{
    vstd::arithmetic::div_mod::lemma_fundamental_div_mod(a, l);
    vstd::arithmetic::div_mod::lemma_mod_bound(a, l);
    let r = a / l;
    let rho = a % l;
    assert(l * (r * ni) >= a * ni - 2_000_000 * l) by (nonlinear_arith)
        requires
            a == l * r + rho,
            0 <= rho < l,
            1 <= l,
            -2_000_000 <= ni <= 2_000_000,
    ;
}

/// The diffuse hemisphere law after normalization: an accepted ball
/// sample added to a near-unit normal, normalized, has near-unit length
/// and points at most a few dozen rounding ticks below the surface
/// plane.  The sum must itself be at least unit length: shorter sums
/// (a draw nearly cancelling the normal) have unbounded relative
/// rounding and are left out.
pub proof fn lemma_lambert_unit_hemisphere(v: Vec3, n: Vec3)
    requires
        in_unit_ball(v),
        -2_000_000 <= n.x <= 2_000_000,
        -2_000_000 <= n.y <= 2_000_000,
        -2_000_000 <= n.z <= 2_000_000,
        SCALE as int - 128 <= dot_s(n, n) <= SCALE as int + 128,
        dot_s(add3_s(v, n), add3_s(v, n)) >= SCALE as int,
    ensures
        dot_s(lambert_dir_s(v, n), n) >= -80,
        SCALE as int - 128 <= dot_s(lambert_dir_s(v, n), lambert_dir_s(v, n)) <= SCALE as int
            + 128,
{
    let sc = SCALE as int;
    let s = add3_s(v, n);
    let sx = s.x as int;
    let sy = s.y as int;
    let sz = s.z as int;
    let nx = n.x as int;
    let ny = n.y as int;
    let nz = n.z as int;
    assert(sx == v.x + n.x && sy == v.y + n.y && sz == v.z + n.z);
    crate::vec3::lemma_unit3_length(s);
    lemma_diffuse_hemisphere(v, n);
    let dd = dot_s(s, n);
    assert(dd >= -71);
    // the sum's squared length and its square root, as in the length lemma
    let q = dot_s(s, s);
    lemma_mul_fx_plain(sx, sx);
    lemma_mul_fx_plain(sy, sy);
    lemma_mul_fx_plain(sz, sz);
    assert(sx * sx <= 9_000_000_000_000 && sy * sy <= 9_000_000_000_000 && sz * sz
        <= 9_000_000_000_000 && sx * sx >= 0 && sy * sy >= 0 && sz * sz >= 0)
        by (nonlinear_arith)
        requires
            -3_000_000 <= sx <= 3_000_000,
            -3_000_000 <= sy <= 3_000_000,
            -3_000_000 <= sz <= 3_000_000,
    ;
    vstd::arithmetic::div_mod::lemma_div_pos_is_pos(sx * sx, sc);
    vstd::arithmetic::div_mod::lemma_div_pos_is_pos(sy * sy, sc);
    vstd::arithmetic::div_mod::lemma_div_pos_is_pos(sz * sz, sc);
    vstd::arithmetic::div_mod::lemma_div_is_ordered(sx * sx, 9_000_000_000_000, sc);
    vstd::arithmetic::div_mod::lemma_div_is_ordered(sy * sy, 9_000_000_000_000, sc);
    vstd::arithmetic::div_mod::lemma_div_is_ordered(sz * sz, 9_000_000_000_000, sc);
    assert(sc <= q <= 27_000_000);
    crate::fixed::lemma_isqrt_exists(q * sc);
    let l = crate::fixed::isqrt_s(q * sc);
    assert(l >= sc) by (nonlinear_arith)
        requires
            (l + 1) * (l + 1) > q * sc,
            q >= sc,
            sc == 1_000_000,
            l >= 0,
    ;
    assert(l <= 6_000_000) by (nonlinear_arith)
        requires
            l * l <= q * sc,
            q <= 27_000_000,
            sc == 1_000_000,
            l >= 0,
    ;
    // the normalized components are the floored quotients
    let rx = (sx * sc) / l;
    let ry = (sy * sc) / l;
    let rz = (sz * sc) / l;
    let u = lambert_dir_s(v, n);
    assert(-3_000_001 <= rx <= 3_000_000 && -3_000_001 <= ry <= 3_000_000 && -3_000_001 <= rz
        <= 3_000_000) by {
        vstd::arithmetic::div_mod::lemma_fundamental_div_mod(sx * sc, l);
        vstd::arithmetic::div_mod::lemma_mod_bound(sx * sc, l);
        vstd::arithmetic::div_mod::lemma_fundamental_div_mod(sy * sc, l);
        vstd::arithmetic::div_mod::lemma_mod_bound(sy * sc, l);
        vstd::arithmetic::div_mod::lemma_fundamental_div_mod(sz * sc, l);
        vstd::arithmetic::div_mod::lemma_mod_bound(sz * sc, l);
        assert(-3_000_001 <= (sx * sc) / l <= 3_000_000 && -3_000_001 <= (sy * sc) / l
            <= 3_000_000 && -3_000_001 <= (sz * sc) / l <= 3_000_000) by (nonlinear_arith)
            requires
                sx * sc == l * ((sx * sc) / l) + (sx * sc) % l,
                sy * sc == l * ((sy * sc) / l) + (sy * sc) % l,
                sz * sc == l * ((sz * sc) / l) + (sz * sc) % l,
                0 <= (sx * sc) % l < l,
                0 <= (sy * sc) % l < l,
                0 <= (sz * sc) % l < l,
                1_000_000 <= l,
                sc == 1_000_000,
                -3_000_000 <= sx <= 3_000_000,
                -3_000_000 <= sy <= 3_000_000,
                -3_000_000 <= sz <= 3_000_000,
        ;
    }
    assert(u.x as int == rx && u.y as int == ry && u.z as int == rz);
    // the two dot products as plain floored sums
    lemma_mul_fx_plain(sx, nx);
    lemma_mul_fx_plain(sy, ny);
    lemma_mul_fx_plain(sz, nz);
    lemma_mul_fx_plain(rx, nx);
    lemma_mul_fx_plain(ry, ny);
    lemma_mul_fx_plain(rz, nz);
    assert(dd == (sx * nx) / sc + (sy * ny) / sc + (sz * nz) / sc);
    let tn = dot_s(u, n);
    assert(tn == (rx * nx) / sc + (ry * ny) / sc + (rz * nz) / sc);
    // the raw sums against their floored quotients
    let p = rx * nx + ry * ny + rz * nz;
    crate::fixed::lemma_div_add(rx * nx, ry * ny, sc);
    crate::fixed::lemma_div_add(rx * nx + ry * ny, rz * nz, sc);
    assert(tn >= p / sc - 2);
    vstd::arithmetic::div_mod::lemma_fundamental_div_mod(sx * nx, sc);
    vstd::arithmetic::div_mod::lemma_mod_bound(sx * nx, sc);
    vstd::arithmetic::div_mod::lemma_fundamental_div_mod(sy * ny, sc);
    vstd::arithmetic::div_mod::lemma_mod_bound(sy * ny, sc);
    vstd::arithmetic::div_mod::lemma_fundamental_div_mod(sz * nz, sc);
    vstd::arithmetic::div_mod::lemma_mod_bound(sz * nz, sc);
    assert(sx * nx + sy * ny + sz * nz >= sc * dd);
    // each scaled component loses at most one divisor step
    lemma_scaled_component_dot(sx * sc, l, nx);
    lemma_scaled_component_dot(sy * sc, l, ny);
    lemma_scaled_component_dot(sz * sc, l, nz);
    assert(l * p >= sc * (sc * dd) - 6_000_000 * l) by (nonlinear_arith)
        requires
            p == rx * nx + ry * ny + rz * nz,
            l * (rx * nx) >= (sx * sc) * nx - 2_000_000 * l,
            l * (ry * ny) >= (sy * sc) * ny - 2_000_000 * l,
            l * (rz * nz) >= (sz * sc) * nz - 2_000_000 * l,
            sx * nx + sy * ny + sz * nz >= sc * dd,
            sc == 1_000_000,
    ;
    // fold the bound through the division by l, by sign of the dot
    vstd::arithmetic::div_mod::lemma_fundamental_div_mod(p, sc);
    vstd::arithmetic::div_mod::lemma_mod_bound(p, sc);
    if dd >= 0 {
        assert(p >= -6_000_000) by (nonlinear_arith)
            requires
                l * p >= sc * (sc * dd) - 6_000_000 * l,
                dd >= 0,
                sc == 1_000_000,
                1_000_000 <= l <= 6_000_000,
        ;
        assert(p / sc >= -6) by (nonlinear_arith)
            requires
                p == sc * (p / sc) + p % sc,
                0 <= p % sc < sc,
                p >= -6_000_000,
                sc == 1_000_000,
        ;
    } else {
        assert(p >= sc * dd - 6_000_000) by (nonlinear_arith)
            requires
                l * p >= sc * (sc * dd) - 6_000_000 * l,
                dd < 0,
                sc == 1_000_000,
                1_000_000 <= l <= 6_000_000,
        ;
        assert(p / sc >= dd - 6) by (nonlinear_arith)
            requires
                p == sc * (p / sc) + p % sc,
                0 <= p % sc < sc,
                p >= sc * dd - 6_000_000,
                sc == 1_000_000,
        ;
    }
    assert(tn >= -80);
}

/// At normal incidence (cosine exactly one) the sine is zero, so no
/// ratio whatsoever triggers total internal reflection.
pub proof fn lemma_normal_incidence_no_tir(ratio: int)
    ensures
        !tir_s(SCALE as int, ratio),
{
    assert(mul_fx(SCALE as int, SCALE as int) == SCALE as int);
    assert(sub_fx(SCALE as int, SCALE as int) == 0);
    lemma_isqrt_unique(0, 0);
    assert(mul_fx(ratio, 0) == 0) by {
        assert(ratio * 0 == 0);
    }
}

/// Lambertian scatter: draw cube samples until one lands in the unit
/// ball and the sum with the normal is normalizable, then return that
/// normalized sum.  If every retry is rejected (probability under
/// 2^-5000000) the normal itself — the ideal center sample — comes back.
pub fn lambertian_reflection(n: Vec3, rng: &mut StdRng) -> (r: Vec3)
    ensures
        lambert_scatter_ok(n, r) || r == n,
{
    let mut tries: u32 = 0;
    while tries < SAMPLE_TRIES
        decreases SAMPLE_TRIES - tries,
    {
        let v = Vec3 { x: next_symmetric(rng), y: next_symmetric(rng), z: next_symmetric(rng) };
        if v_dot(v, v) <= SCALE {
            let s = v_add(v, n);
            if v_dot(s, s) >= 1 {
                let r = unit_vector(s);
                proof {
                    assert(lambert_sample_ok(v, n) && r == lambert_dir_s(v, n));
                }
                return r;
            }
        }
        tries = tries + 1;
    }
    n
}

/// A point on the unit disk by the same rejection scheme, as the pair
/// of its coordinates; the fallback after exhausted retries is the
/// disk center.
pub fn defocus_disk_sample(rng: &mut StdRng) -> (r: (i64, i64))
    ensures
        in_unit_disk(r.0 as int, r.1 as int),
{
    let mut tries: u32 = 0;
    while tries < SAMPLE_TRIES
        decreases SAMPLE_TRIES - tries,
    {
        let a = next_symmetric(rng);
        let b = next_symmetric(rng);
        if fx_add(fx_mul(a, a), fx_mul(b, b)) <= SCALE {
            return (a, b);
        }
        tries = tries + 1;
    }
    (0, 0)
}

/// Mirror reflection of d about n.
pub fn reflect(d: Vec3, n: Vec3) -> (r: Vec3)
    ensures
        r == reflect_s(d, n),
{
    let k = fx_mul(2 * SCALE, v_dot(d, n));
    v_sub(d, v_scale(k, n))
}

/// Metal scatter: the mirror reflection of d, perturbed by fuzz times a
/// fresh cube draw.  With fuzz zero the result is exactly the mirror
/// reflection, whatever the generator produces.
pub fn metalic_reflection(d: Vec3, n: Vec3, fuzz: i64, rng: &mut StdRng) -> (r: Vec3)
    ensures
        metal_scatter_ok(d, n, fuzz as int, r),
        fuzz == 0 ==> r == reflect_s(d, n),
{
    let m = reflect(d, n);
    let u = Vec3 { x: next_symmetric(rng), y: next_symmetric(rng), z: next_symmetric(rng) };
    let r = v_add(m, v_scale(fuzz, u));
    proof {
        assert(in_unit_cube(u) && r == metal_s(d, n, fuzz as int, u));
        if fuzz == 0 {
            assert(0 * u.x as int == 0);
            assert(0 * u.y as int == 0);
            assert(0 * u.z as int == 0);
            assert(r == reflect_s(d, n));
        }
    }
    r
}

/// Schlick reflectance; the ratio must not be negative so that the
/// divisor 1 + ratio stays positive.
pub fn reflectance(cos: i64, ratio: i64) -> (r: i64)
    requires
        ratio >= 0,
    ensures
        r == reflectance_s(cos as int, ratio as int),
{
    let r0 = fx_div(fx_sub(SCALE, ratio), fx_add(SCALE, ratio));
    let r0sq = fx_mul(r0, r0);
    let p = fx_sub(SCALE, cos);
    let p5 = fx_mul(p, fx_mul(p, fx_mul(p, fx_mul(p, p))));
    fx_add(r0sq, fx_mul(fx_sub(SCALE, r0sq), p5))
}

/// Dielectric scatter at relative ratio (entering index over leaving
/// index, with n already flipped for rays leaving the body): reflect on
/// total internal reflection or a Schlick draw, refract otherwise.
pub fn dielectric_scatter(d: Vec3, n: Vec3, ratio: i64, rng: &mut StdRng) -> (r: Vec3)
    requires
        ratio >= 0,
    ensures
        dielectric_scatter_ok(d, n, ratio as int, r),
{
    let cd = v_dot(crate::vec3::v_neg(d), n);
    let cos = if cd > SCALE {
        SCALE
    } else {
        cd
    };
    let s2 = fx_sub(SCALE, fx_mul(cos, cos));
    let tir = if s2 >= 0 {
        fx_mul(ratio, fx_sqrt(s2)) > SCALE
    } else {
        false
    };
    if tir {
        let r = reflect(d, n);
        proof {
            assert(0 <= 0 < SCALE as int && r == dielectric_s(d, n, ratio as int, 0));
            assert(dielectric_scatter_ok(d, n, ratio as int, r));
        }
        r
    } else {
        let q = next_unit(rng);
        if reflectance(cos, ratio) > q {
            let r = reflect(d, n);
            proof {
                assert(r == dielectric_s(d, n, ratio as int, q as int));
                assert(dielectric_scatter_ok(d, n, ratio as int, r));
            }
            r
        } else {
            let perp = v_scale(ratio, v_add(d, v_scale(cos, n)));
            let pl = fx_sub(SCALE, v_dot(perp, perp));
            let pl_abs = if pl < 0 {
                fx_sub(0, pl)
            } else {
                pl
            };
            let apar = fx_sub(0, fx_sqrt(pl_abs));
            let r = v_add(perp, v_scale(apar, n));
            proof {
                assert(r == dielectric_s(d, n, ratio as int, q as int));
                assert(dielectric_scatter_ok(d, n, ratio as int, r));
            }
            r
        }
    }
}

} // verus!
