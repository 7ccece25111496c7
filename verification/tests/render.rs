//! End-to-end checks of the fixed-point renderer.

use rand::rngs::StdRng;
use rand::SeedableRng;
use raytrace::camera::{camera_frame, generate_ray, render, render_pixel, PIXEL_GAIN};
use raytrace::fixed::{fx_add, fx_div, fx_mul, fx_sqrt, fx_sub, SCALE};
use raytrace::geometry::{nearest_hit, scene_hit, Material, Ray, Sphere};
use raytrace::material::{
    defocus_disk_sample, dielectric_scatter, lambertian_reflection, metalic_reflection, reflect,
    reflectance,
};
use raytrace::trace::{compute_color, sky_color};
use raytrace::vec3::{v_add, v_dot, v_new, Vec3};

fn v(x: i64, y: i64, z: i64) -> Vec3 {
    v_new(x, y, z)
}

fn ray(origin: Vec3, direction: Vec3) -> Ray {
    Ray { origin, direction }
}

fn white_sphere_at(center: Vec3, radius: i64, material: Material) -> Sphere {
    Sphere { radius, center, color: v(SCALE, SCALE, SCALE), material }
}

#[test]
fn fx_mul_rounds_toward_negative_infinity() {
    assert_eq!(fx_mul(1_500_000, 2_000_000), 3_000_000);
    assert_eq!(fx_mul(500_000, 500_000), 250_000);
    assert_eq!(fx_mul(-1, 1), -1);
    assert_eq!(fx_mul(0, 123_456), 0);
}

#[test]
fn fx_div_and_sqrt_exact_values() {
    assert_eq!(fx_div(1_000_000, 3_000_000), 333_333);
    assert_eq!(fx_div(-1_000_000, 3_000_000), -333_334);
    assert_eq!(fx_sqrt(4_000_000), 2_000_000);
    assert_eq!(fx_sqrt(2_000_000), 1_414_213);
    assert_eq!(fx_sqrt(0), 0);
}

#[test]
fn fx_add_saturates() {
    assert_eq!(fx_add(i64::MAX, 1), i64::MAX);
    assert_eq!(fx_sub(i64::MIN, 1), i64::MIN);
    assert_eq!(fx_add(2, 3), 5);
}

#[test]
fn hit_returns_nearer_root() {
    // Unit-direction ray toward a unit sphere three units away: roots at
    // t = 2 and t = 4, both valid, so the nearer one comes back.
    let s = white_sphere_at(v(0, 0, -3 * SCALE), SCALE, Material::Diffuse);
    let r = ray(v(0, 0, 0), v(0, 0, -SCALE));
    assert_eq!(nearest_hit(r, &s), Some(2_000_000));
}

#[test]
fn hit_from_inside_returns_far_root() {
    // Origin inside the sphere: roots at t = -0.5 and t = 1.5; only the
    // far root is beyond the epsilon, so it is returned.
    let s = white_sphere_at(v(0, 0, -500_000), SCALE, Material::Diffuse);
    let r = ray(v(0, 0, 0), v(0, 0, -SCALE));
    assert_eq!(nearest_hit(r, &s), Some(1_500_000));
}

#[test]
fn no_self_intersection_at_surface() {
    // Origin exactly on the sphere surface, pointing away: roots at
    // t = 0 and t = -2, both under the epsilon, so there is no hit.
    let s = white_sphere_at(v(0, 0, -SCALE), SCALE, Material::Diffuse);
    let r = ray(v(0, 0, 0), v(0, 0, SCALE));
    assert_eq!(nearest_hit(r, &s), None);
}

#[test]
fn miss_on_negative_discriminant() {
    let s = white_sphere_at(v(0, 0, -3 * SCALE), SCALE, Material::Diffuse);
    let r = ray(v(0, 0, 0), v(0, SCALE, 0));
    assert_eq!(nearest_hit(r, &s), None);
}

#[test]
fn scene_hit_picks_nearest_and_first_on_tie() {
    let far = white_sphere_at(v(0, 0, -5 * SCALE), SCALE, Material::Diffuse);
    let near = white_sphere_at(v(0, 0, -3 * SCALE), SCALE, Material::Diffuse);
    let scene = vec![far, near];
    let r = ray(v(0, 0, 0), v(0, 0, -SCALE));
    assert_eq!(scene_hit(r, &scene), Some((2_000_000, 1)));

    let twin = vec![near, near];
    assert_eq!(scene_hit(r, &twin), Some((2_000_000, 0)));
}

#[test]
fn miss_returns_exact_sky_gradient() {
    // A ray aimed away from every sphere returns the background blend for
    // its direction, whatever materials the scene holds.
    let up = ray(v(0, 10 * SCALE, 0), v(0, SCALE, 0));
    let mut scenes = Vec::new();
    scenes.push(vec![white_sphere_at(v(0, 0, -3 * SCALE), SCALE, Material::Diffuse)]);
    scenes.push(vec![white_sphere_at(v(0, 0, -3 * SCALE), SCALE, Material::Metal(250_000))]);
    scenes.push(vec![white_sphere_at(v(0, 0, -3 * SCALE), SCALE, Material::Dielectric(1_500_000))]);
    let expected = sky_color(up.direction);
    // Straight up the blend factor is exactly one: the top sky color.
    assert_eq!(expected, v(400_000, 500_000, 1_000_000));
    for scene in scenes {
        let mut rng = StdRng::seed_from_u64(7);
        assert_eq!(compute_color(up, &scene, &mut rng, 0, 4), expected);
    }
}

#[test]
fn diffuse_scatter_is_unit_hemisphere() {
    // Accepted diffuse samples normalize to (close to) unit length and do
    // not point into the surface.
    let n = v(0, SCALE, 0);
    for seed in 0..32u64 {
        let mut rng = StdRng::seed_from_u64(seed);
        let d = lambertian_reflection(n, &mut rng);
        let len2 = v_dot(d, d);
        assert!((len2 - SCALE).abs() <= 5_000, "len2 {} off unit", len2);
        assert!(v_dot(d, n) >= -5_000, "points into surface");
    }
}

#[test]
fn metal_with_zero_fuzz_is_exact_mirror() {
    let n = v(0, SCALE, 0);
    let d = v(700_000, -700_000, 100_000);
    for seed in 0..16u64 {
        let mut rng = StdRng::seed_from_u64(seed);
        let out = metalic_reflection(d, n, 0, &mut rng);
        assert_eq!(out, reflect(d, n));
    }
}

#[test]
fn metal_fuzz_perturbs_within_bound() {
    let n = v(0, SCALE, 0);
    let d = v(0, -SCALE, 0);
    let mirror = reflect(d, n);
    let mut rng = StdRng::seed_from_u64(3);
    let out = metalic_reflection(d, n, 200_000, &mut rng);
    assert!((out.x - mirror.x).abs() <= 200_000);
    assert!((out.y - mirror.y).abs() <= 200_000);
    assert!((out.z - mirror.z).abs() <= 200_000);
}

#[test]
fn dielectric_normal_incidence_never_total_internal_reflection() {
    // Head-on onto glass from outside: ratio * sin(theta) is exactly zero,
    // so the outcome is refraction straight through or a Schlick mirror
    // bounce, never the total-internal-reflection branch.
    let n = v(0, 0, SCALE);
    let d = v(0, 0, -SCALE);
    let ratio = fx_div(SCALE, 1_500_000);
    let straight_through = v(0, 0, -SCALE);
    let mirrored = reflect(d, n);
    for seed in 0..32u64 {
        let mut rng = StdRng::seed_from_u64(seed);
        let out = dielectric_scatter(d, n, ratio, &mut rng);
        assert!(out == straight_through || out == mirrored, "unexpected {:?}", out);
    }
}

#[test]
fn dielectric_grazing_exit_totally_reflects() {
    // Leaving the dense medium at a grazing angle: ratio * sin(theta)
    // exceeds one, so the ray reflects no matter what is drawn.
    let n = v(0, 0, SCALE);
    let d = v(979_795, 0, -200_000);
    let ratio = 1_500_000;
    for seed in 0..8u64 {
        let mut rng = StdRng::seed_from_u64(seed);
        let out = dielectric_scatter(d, n, ratio, &mut rng);
        assert_eq!(out, reflect(d, n));
    }
}

#[test]
fn schlick_reflectance_at_normal_incidence() {
    // r0 = ((1 - 2/3) / (1 + 2/3))^2 = 0.04, and the angle term vanishes.
    assert_eq!(reflectance(SCALE, 666_666), 40_000);
}

#[test]
fn recursion_floor_is_exactly_black() {
    // At the cap itself, and anywhere beyond it, the color is exactly
    // black for any ray, scene and generator state.
    let scene = vec![white_sphere_at(v(0, 0, -3 * SCALE), SCALE, Material::Diffuse)];
    let r = ray(v(0, 0, 0), v(0, 0, -SCALE));
    for (depth, max_depth) in [(4u32, 4u32), (5, 4), (0, 0), (1, 1), (100, 42)] {
        let mut rng = StdRng::seed_from_u64(11);
        assert_eq!(compute_color(r, &scene, &mut rng, depth, max_depth), v(0, 0, 0));
    }
}

#[test]
fn defocus_sample_stays_in_unit_disk() {
    let mut rng = StdRng::seed_from_u64(5);
    for _ in 0..64 {
        let (a, b) = defocus_disk_sample(&mut rng);
        assert!(fx_add(fx_mul(a, a), fx_mul(b, b)) <= SCALE);
        assert!(-SCALE <= a && a < SCALE);
        assert!(-SCALE <= b && b < SCALE);
    }
}

fn axis_camera() -> raytrace::camera::CameraFrame {
    // Looking down the negative z axis from (0, 0, 2) with a 3x3 image,
    // tan(fov/2) = 0.5, focus distance 2, and no defocus blur.
    camera_frame(
        v(0, 0, 2 * SCALE),
        v(0, 0, 0),
        v(0, SCALE, 0),
        500_000,
        0,
        2 * SCALE,
        3,
        3,
    )
}

#[test]
fn single_diffuse_sphere_center_pixel_is_dim_but_lit() {
    // One white diffuse sphere dead ahead: with one bounce allowed (the
    // primary hit plus the scattered ray, traced at depths 0 and 1) the
    // center pixel is the sky seen through one 0.9-attenuated scatter,
    // so it is strictly between black and full white.
    let cam = axis_camera();
    let scene = vec![white_sphere_at(v(0, 0, 0), SCALE, Material::Diffuse)];
    let p = render_pixel(&cam, &scene, 1, 1, 1, 2, 41);
    assert!(p.0 > 0 && p.1 > 0 && p.2 > 0, "black pixel {:?}", p);
    assert!(p.0 < 255 && p.1 < 255 && p.2 < 255, "unattenuated pixel {:?}", p);
}

fn tone(channel: i64) -> u8 {
    let clamped = channel.clamp(0, SCALE);
    (fx_mul(PIXEL_GAIN, fx_sqrt(clamped)) / SCALE) as u8
}

#[test]
fn empty_scene_renders_pure_background() {
    // With no spheres, one sample per pixel and no defocus blur, every
    // pixel is exactly the tone-mapped sky of its own ray direction.
    let cam = axis_camera();
    let scene: Vec<Sphere> = Vec::new();
    let out = render(&cam, &scene, 3, 3, 1, 4, 123);
    assert_eq!(out.len(), 9);
    for y in 0..3u32 {
        for x in 0..3u32 {
            let mut rng = StdRng::seed_from_u64(999);
            let r = generate_ray(&cam, x, y, 0, 0, 1, &mut rng);
            let sky = sky_color(r.direction);
            let expected = (tone(sky.x), tone(sky.y), tone(sky.z));
            assert_eq!(out[(y * 3 + x) as usize], expected, "pixel {} {}", x, y);
        }
    }
}

#[test]
fn render_is_reproducible_per_seed() {
    let cam = axis_camera();
    let scene = vec![
        white_sphere_at(v(0, 0, 0), SCALE, Material::Diffuse),
        white_sphere_at(v(0, -10_001 * SCALE, 0), 10_000 * SCALE, Material::Diffuse),
    ];
    let a = render(&cam, &scene, 3, 3, 2, 4, 41);
    let b = render(&cam, &scene, 3, 3, 2, 4, 41);
    assert_eq!(a, b);
    assert_eq!(a.len(), 9);
}

#[test]
fn sum_ray_helpers_compose() {
    // v_add mirrors componentwise saturating addition.
    let a = v(1, 2, 3);
    let b = v(10, 20, 30);
    assert_eq!(v_add(a, b), v(11, 22, 33));
}

#[test]
fn p3_encoding_matches_text_format() {
    let pixels = vec![(0u8, 128u8, 255u8), (12u8, 3u8, 4u8)];
    let bytes = raytrace::image::encode_p3(2, 1, &pixels);
    assert_eq!(bytes, b"P3\n2 1\n255\n0 128 255\n12 3 4\n".to_vec());
}
