//! Rays, spheres, materials, and the ray-sphere intersection test.

use crate::fixed::{add_fx, div_fx, fx_add, fx_div, fx_mul, fx_sqrt, fx_sub, mul_fx, sqrt_fx_s, sub_fx, SCALE};
use crate::vec3::{dot_s, sub3_s, v_dot, v_sub, Vec3};
use vstd::prelude::*;

verus! {

/// Hits closer than this many ticks along the ray are discarded, so a
/// scattered ray does not re-intersect the surface it starts on.
pub const EPS: i64 = 1_000;

/// A half-line: origin plus direction (not necessarily unit length).
#[derive(Clone, Copy, PartialEq, Eq, Structural, Debug)]
pub struct Ray {
    pub origin: Vec3,
    pub direction: Vec3,
}

/// How a surface scatters light: Lambertian, mirror with a fuzz radius
/// in [0, SCALE], or refractive with a positive index in ticks.
#[derive(Clone, Copy, PartialEq, Eq, Structural, Debug)]
pub enum Material {
    Diffuse,
    Metal(i64),
    Dielectric(i64),
}

/// A sphere with an RGB reflectance color (each channel in [0, SCALE]).
#[derive(Clone, Copy, PartialEq, Eq, Structural, Debug)]
pub struct Sphere {
    pub radius: i64,
    pub center: Vec3,
    pub color: Vec3,
    pub material: Material,
}

/// The distance along `ray` of the nearest valid intersection with `s`:
/// the quadratic |O + tD - C|^2 = r^2 is solved in fixed point, roots
/// below EPS are discarded, and the smaller remaining root wins.  A
/// degenerate direction (squared length rounding to zero) hits nothing.
pub open spec fn hit_s(ray: Ray, s: Sphere) -> Option<int> {
    let oc = sub3_s(ray.origin, s.center);
    let a = dot_s(ray.direction, ray.direction);
    let b = mul_fx(2 * SCALE as int, dot_s(ray.direction, oc));
    let c = sub_fx(dot_s(oc, oc), mul_fx(s.radius as int, s.radius as int));
    let disc = sub_fx(mul_fx(b, b), mul_fx(4 * SCALE as int, mul_fx(a, c)));
    if a <= 0 || disc < 0 {
        None
    } else {
        let sq = sqrt_fx_s(disc);
        let two_a = mul_fx(2 * SCALE as int, a);
        let t1 = div_fx(add_fx(sub_fx(0, b), sq), two_a);
        let t2 = div_fx(sub_fx(sub_fx(0, b), sq), two_a);
        if t1 >= EPS as int && t2 >= EPS as int {
            if t1 <= t2 {
                Some(t1)
            } else {
                Some(t2)
            }
        } else if t1 >= EPS as int {
            Some(t1)
        } else if t2 >= EPS as int {
            Some(t2)
        } else {
            None
        }
    }
}

/// View an executable optional distance as its mathematical value.
pub open spec fn opt_ticks(o: Option<i64>) -> Option<int> {
    match o {
        None => None,
        Some(t) => Some(t as int),
    }
}

/// A returned hit distance is never closer than EPS: a ray that starts
/// exactly on a surface cannot re-hit it at (or in front of) its origin.
pub proof fn lemma_hit_beyond_eps(ray: Ray, s: Sphere)
    ensures
        hit_s(ray, s) is Some ==> hit_s(ray, s)->Some_0 >= EPS as int,
{
}

/// Which root the intersection test selects, spelled out over the two
/// quadratic roots t1 (far, plus) and t2 (near, minus): both valid
/// picks the smaller, one valid picks that one, none valid is a miss,
/// and a negative discriminant or a degenerate direction is a miss.
pub proof fn lemma_hit_root_selection(ray: Ray, s: Sphere)
    ensures
        ({
            let oc = sub3_s(ray.origin, s.center);
            let a = dot_s(ray.direction, ray.direction);
            let b = mul_fx(2 * SCALE as int, dot_s(ray.direction, oc));
            let c = sub_fx(dot_s(oc, oc), mul_fx(s.radius as int, s.radius as int));
            let disc = sub_fx(mul_fx(b, b), mul_fx(4 * SCALE as int, mul_fx(a, c)));
            let sq = sqrt_fx_s(disc);
            let two_a = mul_fx(2 * SCALE as int, a);
            let t1 = div_fx(add_fx(sub_fx(0, b), sq), two_a);
            let t2 = div_fx(sub_fx(sub_fx(0, b), sq), two_a);
            a > 0 && disc >= 0 ==> {
                &&& (t1 >= EPS as int && t2 >= EPS as int ==> hit_s(ray, s) == Some(
                    if t1 <= t2 {
                        t1
                    } else {
                        t2
                    },
                ))
                &&& (t1 >= EPS as int && t2 < EPS as int ==> hit_s(ray, s) == Some(t1))
                &&& (t1 < EPS as int && t2 >= EPS as int ==> hit_s(ray, s) == Some(t2))
                &&& (t1 < EPS as int && t2 < EPS as int ==> hit_s(ray, s) is None)
            }
        }),
        (dot_s(ray.direction, ray.direction) <= 0) ==> hit_s(ray, s) is None,
{
}

/// The intersection test of one sphere.
pub fn nearest_hit(ray: Ray, s: &Sphere) -> (r: Option<i64>)
    ensures
        opt_ticks(r) == hit_s(ray, *s),
{
    let oc = v_sub(ray.origin, s.center);
    let a = v_dot(ray.direction, ray.direction);
    let b = fx_mul(2 * SCALE, v_dot(ray.direction, oc));
    let c = fx_sub(v_dot(oc, oc), fx_mul(s.radius, s.radius));
    let disc = fx_sub(fx_mul(b, b), fx_mul(4 * SCALE, fx_mul(a, c)));
    if a <= 0 || disc < 0 {
        None
    } else {
        let sq = fx_sqrt(disc);
        let two_a = fx_mul(2 * SCALE, a);
        proof {
            if two_a <= 0 {
                crate::vec3::lemma_dot_self_nonneg(ray.direction);
                vstd::arithmetic::div_mod::lemma_div_pos_is_pos(
                    2 * SCALE as int * a as int,
                    SCALE as int,
                );
                assert(2 * SCALE as int * a as int >= 2 * SCALE as int) by (nonlinear_arith)
                    requires
                        a as int >= 1,
                ;
                vstd::arithmetic::div_mod::lemma_div_is_ordered(
                    2 * SCALE as int,
                    2 * SCALE as int * a as int,
                    SCALE as int,
                );
                assert(false);
            }
        }
        let t1 = fx_div(fx_add(fx_sub(0, b), sq), two_a);
        let t2 = fx_div(fx_sub(fx_sub(0, b), sq), two_a);
        if t1 >= EPS && t2 >= EPS {
            if t1 <= t2 {
                Some(t1)
            } else {
                Some(t2)
            }
        } else if t1 >= EPS {
            Some(t1)
        } else if t2 >= EPS {
            Some(t2)
        } else {
            None
        }
    }
}

/// The nearest valid hit among the first n spheres, as (distance, index);
/// an equally near later sphere does not displace an earlier one.
pub open spec fn scene_hit_upto(ray: Ray, spheres: Seq<Sphere>, n: nat) -> Option<(int, int)>
    decreases n,
{
    if n == 0 {
        None
    } else {
        let prev = scene_hit_upto(ray, spheres, (n - 1) as nat);
        let cur = hit_s(ray, spheres[n - 1]);
        match (prev, cur) {
            (None, None) => None,
            (None, Some(t)) => Some((t, n - 1)),
            (Some(p), None) => Some(p),
            (Some(p), Some(t)) => if t < p.0 {
                Some((t, n - 1))
            } else {
                Some(p)
            },
        }
    }
}

/// The nearest valid hit in the whole scene.
pub open spec fn scene_hit_s(ray: Ray, spheres: Seq<Sphere>) -> Option<(int, int)> {
    scene_hit_upto(ray, spheres, spheres.len())
}

/// View an executable optional (distance, index) pair mathematically.
pub open spec fn opt_hit_ticks(o: Option<(i64, usize)>) -> Option<(int, int)> {
    match o {
        None => None,
        Some(p) => Some((p.0 as int, p.1 as int)),
    }
}

/// Scan every sphere and keep the nearest valid hit; on equal distances
/// the sphere that comes first in the scene wins.
pub fn scene_hit(ray: Ray, spheres: &Vec<Sphere>) -> (r: Option<(i64, usize)>)
    ensures
        opt_hit_ticks(r) == scene_hit_s(ray, spheres@),
        r is Some ==> r->Some_0.1 < spheres@.len(),
{
    let mut best: Option<(i64, usize)> = None;
    let mut k: usize = 0;
    while k < spheres.len()
        invariant
            k <= spheres@.len(),
            opt_hit_ticks(best) == scene_hit_upto(ray, spheres@, k as nat),
            best is Some ==> best->Some_0.1 < k,
        decreases spheres@.len() - k,
    {
        let cur = nearest_hit(ray, &spheres[k]);
        match cur {
            None => {},
            Some(t) => {
                match best {
                    None => {
                        best = Some((t, k));
                    },
                    Some((bt, _)) => {
                        if t < bt {
                            best = Some((t, k));
                        }
                    },
                }
            },
        }
        k = k + 1;
    }
    best
}

/// What the scene-level search decides, spelled out: when it reports a
/// hit, that hit is valid, no sphere is hit strictly nearer, and no
/// earlier sphere is hit at the same distance; when it reports none,
/// no sphere in the scene has a valid hit.
pub proof fn lemma_scene_hit_nearest(ray: Ray, spheres: Seq<Sphere>)
    ensures
        (forall|j: int| 0 <= j < spheres.len() ==> hit_s(ray, spheres[j]) is None) ==> scene_hit_s(
            ray,
            spheres,
        ) is None,
        match scene_hit_s(ray, spheres) {
            None => forall|j: int| 0 <= j < spheres.len() ==> hit_s(ray, spheres[j]) is None,
            Some(p) => 0 <= p.1 < spheres.len() && hit_s(ray, spheres[p.1]) == Some(p.0)
                && (forall|j: int|
                0 <= j < spheres.len() && hit_s(ray, spheres[j]) is Some ==> p.0 <= hit_s(
                    ray,
                    spheres[j],
                )->Some_0) && (forall|j: int|
                0 <= j < p.1 ==> !(hit_s(ray, spheres[j]) == Some(p.0))),
        },
{
    lemma_scene_hit_upto_nearest(ray, spheres, spheres.len());
}

proof fn lemma_scene_hit_upto_nearest(ray: Ray, spheres: Seq<Sphere>, n: nat)
    requires
        n <= spheres.len(),
    ensures
        match scene_hit_upto(ray, spheres, n) {
            None => forall|j: int| 0 <= j < n ==> hit_s(ray, spheres[j]) is None,
            Some(p) => 0 <= p.1 < n && hit_s(ray, spheres[p.1]) == Some(p.0) && (forall|j: int|
                0 <= j < n && hit_s(ray, spheres[j]) is Some ==> p.0 <= hit_s(
                    ray,
                    spheres[j],
                )->Some_0) && (forall|j: int| 0 <= j < p.1 ==> !(hit_s(ray, spheres[j]) == Some(
                p.0,
            ))),
        },
    decreases n,
{
    if n > 0 {
        lemma_scene_hit_upto_nearest(ray, spheres, (n - 1) as nat);
    }
}

} // verus!
