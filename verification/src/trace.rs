//! The recursive color integrator: nearest hit, material scatter,
//! attenuated recursion, sky gradient on a miss, black at the
//! recursion floor.

use crate::fixed::{add_fx, div_fx, fx_add, fx_div, fx_mul, fx_sub, mul_fx, sub_fx, SCALE};
use crate::geometry::{scene_hit, scene_hit_s, Material, Ray, Sphere};
use crate::material::{
    dielectric_scatter, dielectric_scatter_ok, lambert_scatter_ok, lambertian_reflection,
    metal_scatter_ok, metalic_reflection,
};
use crate::vec3::{
    add3_s, dot_s, mul3_s, neg3_s, scale3_s, sub3_s, unit3_s, v3, v_add, v_dot, v_mul, v_neg,
    v_scale, v_sub, unit_vector, Vec3,
};
use rand::rngs::StdRng;
use vstd::prelude::*;

verus! {

/// Fraction of energy kept at every bounce.
pub const LOSS: i64 = 900_000;

/// Black: the color of a ray that exhausts the recursion allowance.
pub open spec fn black_s() -> Vec3 {
    Vec3 { x: 0, y: 0, z: 0 }
}

/// The sky color of the top of the gradient.
pub open spec fn sky_top_s() -> Vec3 {
    Vec3 { x: 400_000, y: 500_000, z: 1_000_000 }
}

/// The sky color of the bottom of the gradient.
pub open spec fn sky_bottom_s() -> Vec3 {
    Vec3 { x: 1_000_000, y: 1_000_000, z: 1_000_000 }
}

/// The direction the background gradient reads: the ray direction
/// unit-normalized, kept raw when it is below fixed-point resolution.
pub open spec fn gradient_dir_s(dir: Vec3) -> Vec3 {
    if dot_s(dir, dir) >= 1 {
        unit3_s(dir)
    } else {
        dir
    }
}

/// The background: a vertical blend of the two sky colors with factor
/// a = (y + 1) / 2 taken from the normalized direction's vertical
/// component; it depends on the direction alone.
pub open spec fn sky_s(dir: Vec3) -> Vec3 {
    let a = div_fx(add_fx(gradient_dir_s(dir).y as int, SCALE as int), 2 * SCALE as int);
    let na = sub_fx(SCALE as int, a);
    v3(
        add_fx(mul_fx(na, sky_bottom_s().x as int), mul_fx(a, sky_top_s().x as int)),
        add_fx(mul_fx(na, sky_bottom_s().y as int), mul_fx(a, sky_top_s().y as int)),
        add_fx(mul_fx(na, sky_bottom_s().z as int), mul_fx(a, sky_top_s().z as int)),
    )
}

/// One bounce keeps LOSS of the incoming color, filtered by the
/// surface color, componentwise.
pub open spec fn attenuate_s(color: Vec3, incoming: Vec3) -> Vec3 {
    mul3_s(scale3_s(LOSS as int, incoming), color)
}

/// Where the ray meets the surface: origin + t * direction.
pub open spec fn hit_point_s(ray: Ray, t: int) -> Vec3 {
    add3_s(ray.origin, scale3_s(t, ray.direction))
}

/// The outward surface direction at a hit point: the normalized offset
/// from the center, or the raw offset when it is too short to
/// normalize at fixed-point resolution.
pub open spec fn surface_normal_s(hp: Vec3, center: Vec3) -> Vec3 {
    let delta = sub3_s(hp, center);
    if dot_s(delta, delta) >= 1 {
        unit3_s(delta)
    } else {
        delta
    }
}

/// A sphere the tracer can work with: positive radius, channels in
/// [0, 1], fuzz in [0, 1], refractive index at least one tick.
pub open spec fn wf_sphere(s: Sphere) -> bool {
    &&& s.radius >= 1
    &&& 0 <= s.color.x <= SCALE
    &&& 0 <= s.color.y <= SCALE
    &&& 0 <= s.color.z <= SCALE
    &&& match s.material {
        Material::Diffuse => true,
        Material::Metal(fuzz) => 0 <= fuzz <= SCALE,
        Material::Dielectric(index) => index >= 1,
    }
}

/// Every sphere of the scene is well formed.
pub open spec fn wf_scene(scene: Seq<Sphere>) -> bool {
    forall|j: int| 0 <= j < scene.len() ==> wf_sphere(#[trigger] scene[j])
}

/// d2 is a direction the material can scatter an incoming direction
/// into at a surface with the given outward normal, for some outcome of
/// the randomness: the dielectric also folds in the inside/outside
/// normal flip and ratio adjustment.
pub open spec fn valid_scatter(m: Material, dir: Vec3, normal: Vec3, d2: Vec3) -> bool {
    match m {
        Material::Diffuse => lambert_scatter_ok(normal, d2) || d2 == normal,
        Material::Metal(fuzz) => metal_scatter_ok(dir, normal, fuzz as int, d2),
        Material::Dielectric(index) => {
            let inside = dot_s(dir, normal) >= 0;
            let ratio = if inside {
                div_fx(index as int, SCALE as int)
            } else {
                div_fx(SCALE as int, index as int)
            };
            let n2 = if inside {
                neg3_s(normal)
            } else {
                normal
            };
            dielectric_scatter_ok(dir, n2, ratio, d2)
        },
    }
}

/// c is a color the integrator can return for this ray with the given
/// recursion allowance, for some outcome of the randomness: black when
/// the allowance is spent, the sky on a miss, and otherwise some valid
/// scatter of the nearest hit, recursively integrated and attenuated by
/// the sphere color and the loss factor.
pub open spec fn possible_color(ray: Ray, scene: Seq<Sphere>, remaining: nat, c: Vec3) -> bool
    decreases remaining,
{
    if remaining == 0 {
        c == black_s()
    } else {
        match scene_hit_s(ray, scene) {
            None => c == sky_s(ray.direction),
            Some(p) => exists|d2: Vec3, c2: Vec3|
                {
                    &&& #[trigger] valid_scatter(
                        scene[p.1].material,
                        ray.direction,
                        surface_normal_s(hit_point_s(ray, p.0), scene[p.1].center),
                        d2,
                    )
                    &&& possible_color(
                        (Ray { origin: hit_point_s(ray, p.0), direction: d2 }),
                        scene,
                        (remaining - 1) as nat,
                        c2,
                    )
                    &&& #[trigger] attenuate_s(scene[p.1].color, c2) == c
                },
        }
    }
}

/// The recursion allowance left at `depth`: tracing stops at the cap,
/// so depth max_depth and beyond have none.
pub open spec fn remaining_of(depth: int, max_depth: int) -> nat {
    if depth >= max_depth {
        0nat
    } else {
        (max_depth - depth) as nat
    }
}

/// Folding one bounce: a valid scatter whose scattered ray already has
/// a possible color yields a possible color for the incoming ray.
#[verifier::rlimit(100)]
pub proof fn lemma_possible_color_hit(
    ray: Ray,
    scene: Seq<Sphere>,
    remaining: nat,
    t: int,
    i: int,
    d2: Vec3,
    c2: Vec3,
    c: Vec3,
)
    requires
        remaining > 0,
        scene_hit_s(ray, scene) == Some((t, i)),
        valid_scatter(
            scene[i].material,
            ray.direction,
            surface_normal_s(hit_point_s(ray, t), scene[i].center),
            d2,
        ),
        possible_color(
            (Ray { origin: hit_point_s(ray, t), direction: d2 }),
            scene,
            (remaining - 1) as nat,
            c2,
        ),
        c == attenuate_s(scene[i].color, c2),
    ensures
        possible_color(ray, scene, remaining, c),
{
    let p = (t, i);
    assert(p.0 == t && p.1 == i);
    assert(exists|d2x: Vec3, c2x: Vec3|
        {
            &&& #[trigger] valid_scatter(
                scene[p.1].material,
                ray.direction,
                surface_normal_s(hit_point_s(ray, p.0), scene[p.1].center),
                d2x,
            )
            &&& possible_color(
                (Ray { origin: hit_point_s(ray, p.0), direction: d2x }),
                scene,
                (remaining - 1) as nat,
                c2x,
            )
            &&& #[trigger] attenuate_s(scene[p.1].color, c2x) == c
        });
}

/// In an empty scene every traced ray (with allowance left) is sky.
pub proof fn lemma_empty_scene_sky(ray: Ray, remaining: nat, c: Vec3)
    requires
        remaining > 0,
        possible_color(ray, Seq::<Sphere>::empty(), remaining, c),
    ensures
        c == sky_s(ray.direction),
{
    assert(scene_hit_s(ray, Seq::<Sphere>::empty()) is None);
}

/// The background gradient for a direction.
pub fn sky_color(dir: Vec3) -> (c: Vec3)
    ensures
        c == sky_s(dir),
{
    let g = if v_dot(dir, dir) >= 1 {
        unit_vector(dir)
    } else {
        dir
    };
    let a = fx_div(fx_add(g.y, SCALE), 2 * SCALE);
    let na = fx_sub(SCALE, a);
    let top = Vec3 { x: 400_000, y: 500_000, z: 1_000_000 };
    let bottom = Vec3 { x: 1_000_000, y: 1_000_000, z: 1_000_000 };
    Vec3 {
        x: fx_add(fx_mul(na, bottom.x), fx_mul(a, top.x)),
        y: fx_add(fx_mul(na, bottom.y), fx_mul(a, top.y)),
        z: fx_add(fx_mul(na, bottom.z), fx_mul(a, top.z)),
    }
}

/// Shade the nearest hit (t, i) of the ray: scatter off sphere i's
/// material at the hit point, integrate the scattered ray one level
/// deeper, and attenuate by the sphere color and the loss factor.
#[verifier::rlimit(100)]
fn shade_hit(
    ray: Ray,
    scene: &Vec<Sphere>,
    rng: &mut StdRng,
    t: i64,
    i: usize,
    depth: u32,
    max_depth: u32,
) -> (c: Vec3)
    requires
        wf_scene(scene@),
        depth < max_depth,
        i < scene@.len(),
        scene_hit_s(ray, scene@) == Some((t as int, i as int)),
    ensures
        possible_color(ray, scene@, remaining_of(depth as int, max_depth as int), c),
    decreases max_depth - depth, 0int,
{
    let s = scene[i];
    let hp = v_add(ray.origin, v_scale(t, ray.direction));
    let delta = v_sub(hp, s.center);
    let normal = if v_dot(delta, delta) >= 1 {
        unit_vector(delta)
    } else {
        delta
    };
    let d2 = match s.material {
        Material::Diffuse => lambertian_reflection(normal, rng),
        Material::Metal(fuzz) => metalic_reflection(ray.direction, normal, fuzz, rng),
        Material::Dielectric(index) => {
            proof {
                assert(wf_sphere(scene@[i as int]));
                vstd::arithmetic::div_mod::lemma_div_pos_is_pos(
                    index as int * SCALE as int,
                    SCALE as int,
                );
                vstd::arithmetic::div_mod::lemma_div_pos_is_pos(
                    SCALE as int * SCALE as int,
                    index as int,
                );
                assert(index as int * SCALE as int >= 0) by (nonlinear_arith)
                    requires
                        index as int >= 1,
                ;
            }
            if v_dot(ray.direction, normal) >= 0 {
                dielectric_scatter(ray.direction, v_neg(normal), fx_div(index, SCALE), rng)
            } else {
                dielectric_scatter(ray.direction, normal, fx_div(SCALE, index), rng)
            }
        },
    };
    proof {
        let p = scene_hit_s(ray, scene@)->Some_0;
        assert(p.0 == t as int && p.1 == i as int);
        assert(hp == hit_point_s(ray, p.0));
        assert(normal == surface_normal_s(hit_point_s(ray, p.0), scene@[p.1].center));
        assert(valid_scatter(s.material, ray.direction, normal, d2));
    }
    let sub = compute_color(Ray { origin: hp, direction: d2 }, scene, rng, depth + 1, max_depth);
    let c = v_mul(v_scale(LOSS, sub), s.color);
    proof {
        let rem = remaining_of(depth as int, max_depth as int);
        assert(remaining_of(depth + 1 as int, max_depth as int) == (rem - 1) as nat);
        assert(possible_color(
            (Ray { origin: hit_point_s(ray, t as int), direction: d2 }),
            scene@,
            (rem - 1) as nat,
            sub,
        ));
        assert(c == attenuate_s(scene@[i as int].color, sub));
        lemma_possible_color_hit(ray, scene@, rem, t as int, i as int, d2, sub, c);
    }
    c
}

/// Trace one ray: returns exactly black once `depth` reaches
/// `max_depth` (the cap itself is black, whatever the ray, scene and
/// generator are); below the cap, the sky color when no sphere is hit,
/// else the recursive color of the scattered ray, attenuated by the
/// sphere color and the loss factor.  The result is a possible
/// integrator color for every outcome of the generator, and the miss
/// and floor cases do not depend on it at all.
pub fn compute_color(
    ray: Ray,
    scene: &Vec<Sphere>,
    rng: &mut StdRng,
    depth: u32,
    max_depth: u32,
) -> (c: Vec3)
    requires
        wf_scene(scene@),
    ensures
        possible_color(ray, scene@, remaining_of(depth as int, max_depth as int), c),
        depth >= max_depth ==> c == black_s(),
        depth < max_depth && scene_hit_s(ray, scene@) is None ==> c == sky_s(ray.direction),
    decreases max_depth - depth, 1int,
{
    if depth >= max_depth {
        return Vec3 { x: 0, y: 0, z: 0 };
    }
    match scene_hit(ray, scene) {
        None => sky_color(ray.direction),
        Some((t, i)) => shade_hit(ray, scene, rng, t, i, depth, max_depth),
    }
}

} // verus!
