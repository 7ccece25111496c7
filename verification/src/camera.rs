//! Camera frame derivation, per-sample ray generation, and the
//! per-pixel driver: stratified sampling, averaging, gamma-2 tone
//! mapping and 8-bit quantization.

use crate::fixed::{add_fx, div_fx, fx_add, fx_div, fx_mul, fx_sqrt, mul_fx, sqrt_fx_s, SCALE};
use crate::geometry::{Ray, Sphere};
use crate::material::{defocus_disk_sample, in_unit_disk};
use crate::random::rng_from_seed;
use crate::trace::{black_s, compute_color, possible_color, remaining_of, wf_scene};
use crate::vec3::{
    add3_s, cross3_s, dot_s, scale3_s, sub3_s, unit3_s, v_add, v_cross, v_dot, v_scale, v_sub,
    unit_vector, Vec3,
};
use rand::rngs::StdRng;
use vstd::prelude::*;

verus! {

/// One half, in ticks.
pub const HALF: i64 = 500_000;

/// 255.999 in ticks: the gain that maps a tone-mapped channel in
/// [0, 1] onto the 8-bit range.
pub const PIXEL_GAIN: i64 = 255_999_000;

/// The precomputed view of the world: position, the two in-plane basis
/// directions, the upper-left viewport corner, the pixel extents, and
/// the defocus disk radius.
#[derive(Clone, Copy, PartialEq, Eq, Structural, Debug)]
pub struct CameraFrame {
    pub origin: Vec3,
    pub basis_u: Vec3,
    pub basis_v: Vec3,
    pub viewport_ul: Vec3,
    pub pixel_width: i64,
    pub pixel_height: i64,
    pub defocus_radius: i64,
}

/// The frame derived from look-from/look-at/up, the tangents of the
/// half field-of-view and half defocus angles, the focus distance, and
/// the image resolution.
pub open spec fn camera_frame_s(
    look_from: Vec3,
    look_at: Vec3,
    vup: Vec3,
    tan_half_fov: int,
    tan_half_defocus: int,
    focus_distance: int,
    width: int,
    height: int,
) -> CameraFrame {
    let w = unit3_s(sub3_s(look_from, look_at));
    let u = unit3_s(cross3_s(vup, w));
    let v = cross3_s(w, u);
    let vh = mul_fx(mul_fx(2 * SCALE as int, tan_half_fov), focus_distance);
    let vw = div_fx(mul_fx(vh, width * SCALE as int), height * SCALE as int);
    let ul = add3_s(
        sub3_s(
            sub3_s(look_from, scale3_s(focus_distance, w)),
            scale3_s(mul_fx(HALF as int, vw), u),
        ),
        scale3_s(mul_fx(HALF as int, vh), v),
    );
    CameraFrame {
        origin: look_from,
        basis_u: u,
        basis_v: v,
        viewport_ul: ul,
        pixel_width: div_fx(vw, width * SCALE as int) as i64,
        pixel_height: div_fx(vh, height * SCALE as int) as i64,
        defocus_radius: mul_fx(focus_distance, tan_half_defocus) as i64,
    }
}

/// Derive the camera frame.  The look direction and the cross of the
/// up vector with it must be resolvable (nonzero at fixed-point
/// resolution), and the resolution must be positive.
pub fn camera_frame(
    look_from: Vec3,
    look_at: Vec3,
    vup: Vec3,
    tan_half_fov: i64,
    tan_half_defocus: i64,
    focus_distance: i64,
    width: u32,
    height: u32,
) -> (cam: CameraFrame)
    requires
        dot_s(sub3_s(look_from, look_at), sub3_s(look_from, look_at)) >= 1,
        dot_s(
            cross3_s(vup, unit3_s(sub3_s(look_from, look_at))),
            cross3_s(vup, unit3_s(sub3_s(look_from, look_at))),
        ) >= 1,
        1 <= width,
        1 <= height,
    ensures
        cam == camera_frame_s(
            look_from,
            look_at,
            vup,
            tan_half_fov as int,
            tan_half_defocus as int,
            focus_distance as int,
            width as int,
            height as int,
        ),
{
    let w = unit_vector(v_sub(look_from, look_at));
    let u = unit_vector(v_cross(vup, w));
    let v = v_cross(w, u);
    let vh = fx_mul(fx_mul(2 * SCALE, tan_half_fov), focus_distance);
    let width_fx: i64 = (width as i64) * SCALE;
    let height_fx: i64 = (height as i64) * SCALE;
    let vw = fx_div(fx_mul(vh, width_fx), height_fx);
    let ul = v_add(
        v_sub(v_sub(look_from, v_scale(focus_distance, w)), v_scale(fx_mul(HALF, vw), u)),
        v_scale(fx_mul(HALF, vh), v),
    );
    CameraFrame {
        origin: look_from,
        basis_u: u,
        basis_v: v,
        viewport_ul: ul,
        pixel_width: fx_div(vw, width_fx),
        pixel_height: fx_div(vh, height_fx),
        defocus_radius: fx_mul(focus_distance, tan_half_defocus),
    }
}

/// The ray of sub-sample (i, j) of pixel (x, y) for a defocus draw
/// (a, b): from a point on the defocus disk toward the jittered
/// viewport point of the sub-pixel cell, direction normalized when it
/// is long enough to normalize.
pub open spec fn camera_ray_s(
    cam: CameraFrame,
    x: int,
    y: int,
    i: int,
    j: int,
    aa: int,
    a: int,
    b: int,
) -> Ray {
    let sx = add_fx(
        x * SCALE as int,
        div_fx(add_fx(HALF as int, i * SCALE as int), aa * SCALE as int),
    );
    let sy = add_fx(
        y * SCALE as int,
        div_fx(add_fx(HALF as int, j * SCALE as int), aa * SCALE as int),
    );
    let pixel_pos = sub3_s(
        add3_s(cam.viewport_ul, scale3_s(mul_fx(sx, cam.pixel_width as int), cam.basis_u)),
        scale3_s(mul_fx(sy, cam.pixel_height as int), cam.basis_v),
    );
    let origin = add3_s(
        add3_s(cam.origin, scale3_s(mul_fx(a, cam.defocus_radius as int), cam.basis_u)),
        scale3_s(mul_fx(b, cam.defocus_radius as int), cam.basis_v),
    );
    let delta = sub3_s(pixel_pos, origin);
    let dir = if dot_s(delta, delta) >= 1 {
        unit3_s(delta)
    } else {
        delta
    };
    Ray { origin, direction: dir }
}

/// r is the sample ray of (x, y, i, j) for some defocus disk draw.
pub open spec fn camera_ray_ok(
    cam: CameraFrame,
    x: int,
    y: int,
    i: int,
    j: int,
    aa: int,
    r: Ray,
) -> bool {
    exists|a: int, b: int| in_unit_disk(a, b) && r == #[trigger] camera_ray_s(cam, x, y, i, j, aa, a, b)
}

/// Generate the world-space ray of one antialiasing sub-sample.
pub fn generate_ray(
    cam: &CameraFrame,
    x: u32,
    y: u32,
    i: u32,
    j: u32,
    aa: u32,
    rng: &mut StdRng,
) -> (r: Ray)
    requires
        1 <= aa,
    ensures
        camera_ray_ok(*cam, x as int, y as int, i as int, j as int, aa as int, r),
{
    let aa_fx: i64 = (aa as i64) * SCALE;
    let sx = fx_add((x as i64) * SCALE, fx_div(fx_add(HALF, (i as i64) * SCALE), aa_fx));
    let sy = fx_add((y as i64) * SCALE, fx_div(fx_add(HALF, (j as i64) * SCALE), aa_fx));
    let pixel_pos = v_sub(
        v_add(cam.viewport_ul, v_scale(fx_mul(sx, cam.pixel_width), cam.basis_u)),
        v_scale(fx_mul(sy, cam.pixel_height), cam.basis_v),
    );
    let (a, b) = defocus_disk_sample(rng);
    let origin = v_add(
        v_add(cam.origin, v_scale(fx_mul(a, cam.defocus_radius), cam.basis_u)),
        v_scale(fx_mul(b, cam.defocus_radius), cam.basis_v),
    );
    let delta = v_sub(pixel_pos, origin);
    let dir = if v_dot(delta, delta) >= 1 {
        unit_vector(delta)
    } else {
        delta
    };
    let r = Ray { origin, direction: dir };
    proof {
        assert(r == camera_ray_s(
            *cam,
            x as int,
            y as int,
            i as int,
            j as int,
            aa as int,
            a as int,
            b as int,
        ));
    }
    r
}

/// c is a color the integrator can produce for sub-sample (i, j) of
/// pixel (x, y), over the choices of the defocus draw and of every
/// scatter along the path.
pub open spec fn possible_sample(
    cam: CameraFrame,
    scene: Seq<Sphere>,
    x: int,
    y: int,
    i: int,
    j: int,
    aa: int,
    max_depth: int,
    c: Vec3,
) -> bool {
    exists|r: Ray|
        #[trigger] camera_ray_ok(cam, x, y, i, j, aa, r) && possible_color(
            r,
            scene,
            remaining_of(0, max_depth),
            c,
        )
}

/// s is a sum the sample accumulator can reach after the first n of
/// the aa*aa stratified sub-samples of pixel (x, y), taken in row-major
/// sub-sample order (j = k / aa, i = k % aa for the k-th sample).
pub open spec fn possible_sum(
    cam: CameraFrame,
    scene: Seq<Sphere>,
    x: int,
    y: int,
    aa: int,
    max_depth: int,
    n: nat,
    s: Vec3,
) -> bool
    decreases n,
{
    if n == 0 {
        s == black_s()
    } else {
        exists|c: Vec3, s0: Vec3|
            {
                &&& #[trigger] possible_sample(
                    cam,
                    scene,
                    x,
                    y,
                    (n - 1) as int % aa,
                    (n - 1) as int / aa,
                    aa,
                    max_depth,
                    c,
                )
                &&& possible_sum(cam, scene, x, y, aa, max_depth, (n - 1) as nat, s0)
                &&& s == #[trigger] add3_s(s0, c)
            }
    }
}

/// Average a channel sum over aa*aa samples, clamp into [0, 1], apply
/// the square-root tone curve, and scale to the 8-bit range.
pub open spec fn tone_channel_s(sum: int, aa: int) -> int {
    let factor = div_fx(SCALE as int, aa * aa * SCALE as int);
    let avg = mul_fx(factor, sum);
    let clamped = if avg < 0 {
        0
    } else if avg > SCALE as int {
        SCALE as int
    } else {
        avg
    };
    mul_fx(PIXEL_GAIN as int, sqrt_fx_s(clamped)) / (SCALE as int)
}

/// The 8-bit pixel of an accumulated sample sum.
pub open spec fn pixel_s(s: Vec3, aa: int) -> (u8, u8, u8) {
    (
        tone_channel_s(s.x as int, aa) as u8,
        tone_channel_s(s.y as int, aa) as u8,
        tone_channel_s(s.z as int, aa) as u8,
    )
}

/// p is a pixel the driver can produce at (x, y): the tone-mapped
/// average of a reachable sample sum.
pub open spec fn possible_pixel(
    cam: CameraFrame,
    scene: Seq<Sphere>,
    x: int,
    y: int,
    aa: int,
    max_depth: int,
    p: (u8, u8, u8),
) -> bool {
    exists|s: Vec3|
        #[trigger] possible_sum(cam, scene, x, y, aa, max_depth, (aa * aa) as nat, s) && p
            == pixel_s(s, aa)
}

/// Tone-map one accumulated channel to its 8-bit value.
fn tone_channel(sum: i64, aa: u32) -> (r: u8)
    requires
        1 <= aa <= 65535,
    ensures
        r == tone_channel_s(sum as int, aa as int),
{
    proof {
        assert((aa as int) * (aa as int) * (SCALE as int) <= 65535 * 65535 * 1_000_000)
            by (nonlinear_arith)
            requires
                1 <= aa as int <= 65535,
        ;
        assert((aa as int) * (aa as int) * (SCALE as int) >= 1_000_000) by (nonlinear_arith)
            requires
                1 <= aa as int,
        ;
    }
    let aa2_fx: i64 = (aa as i64) * (aa as i64) * SCALE;
    let factor = fx_div(SCALE, aa2_fx);
    let avg = fx_mul(factor, sum);
    let clamped = if avg < 0 {
        0
    } else if avg > SCALE {
        SCALE
    } else {
        avg
    };
    let root = fx_sqrt(clamped);
    proof {
        assert(root as int <= SCALE as int) by (nonlinear_arith)
            requires
                0 <= root as int,
                (root as int) * (root as int) <= (clamped as int) * (SCALE as int),
                0 <= clamped as int <= SCALE as int,
                SCALE as int == 1_000_000,
        ;
        assert((PIXEL_GAIN as int) * (root as int) <= (PIXEL_GAIN as int) * (SCALE as int))
            by (nonlinear_arith)
            requires
                0 <= root as int <= SCALE as int,
                PIXEL_GAIN as int > 0,
        ;
        assert((PIXEL_GAIN as int) * (root as int) >= 0) by (nonlinear_arith)
            requires
                0 <= root as int,
                PIXEL_GAIN as int > 0,
        ;
        vstd::arithmetic::div_mod::lemma_div_is_ordered(
            (PIXEL_GAIN as int) * (root as int),
            (PIXEL_GAIN as int) * (SCALE as int),
            SCALE as int,
        );
        vstd::arithmetic::div_mod::lemma_div_pos_is_pos(
            (PIXEL_GAIN as int) * (root as int),
            SCALE as int,
        );
    }
    let gained = fx_mul(PIXEL_GAIN, root);
    let byte = (gained as u64) / (SCALE as u64);
    byte as u8
}

/// Render one pixel: reseed the generator, accumulate aa*aa stratified
/// sample colors, and tone-map the sum.  The result is a possible
/// driver pixel for every outcome of the sampling.
pub fn render_pixel(
    cam: &CameraFrame,
    scene: &Vec<Sphere>,
    x: u32,
    y: u32,
    aa: u32,
    max_depth: u32,
    seed: u64,
) -> (p: (u8, u8, u8))
    requires
        wf_scene(scene@),
        1 <= aa <= 65535,
    ensures
        possible_pixel(*cam, scene@, x as int, y as int, aa as int, max_depth as int, p),
{
    proof {
        assert(aa * aa <= 65535 * 65535) by (nonlinear_arith)
            requires
                1 <= aa <= 65535,
        ;
    }
    let mut rng = rng_from_seed(seed);
    let mut sum = Vec3 { x: 0, y: 0, z: 0 };
    let total: u32 = aa * aa;
    let mut k: u32 = 0;
    while k < total
        invariant
            wf_scene(scene@),
            1 <= aa <= 65535,
            total == aa * aa,
            k <= total,
            possible_sum(*cam, scene@, x as int, y as int, aa as int, max_depth as int, k as nat, sum),
        decreases total - k,
    {
        let j = k / aa;
        let i = k % aa;
        let ray = generate_ray(cam, x, y, i, j, aa, &mut rng);
        let c = compute_color(ray, scene, &mut rng, 0, max_depth);
        let next = v_add(sum, c);
        proof {
            assert(possible_sample(
                *cam,
                scene@,
                x as int,
                y as int,
                i as int,
                j as int,
                aa as int,
                max_depth as int,
                c,
            ));
            assert(i as int == (k + 1 - 1) as int % aa as int);
            assert(j as int == (k + 1 - 1) as int / aa as int);
            assert(next == add3_s(sum, c));
            assert(possible_sum(
                *cam,
                scene@,
                x as int,
                y as int,
                aa as int,
                max_depth as int,
                (k + 1) as nat,
                next,
            ));
        }
        sum = next;
        k = k + 1;
    }
    let p = (tone_channel(sum.x, aa), tone_channel(sum.y, aa), tone_channel(sum.z, aa));
    proof {
        assert(p == pixel_s(sum, aa as int));
        assert(possible_sum(
            *cam,
            scene@,
            x as int,
            y as int,
            aa as int,
            max_depth as int,
            ((aa as int) * (aa as int)) as nat,
            sum,
        ));
        assert(exists|s: Vec3|
            #[trigger] possible_sum(
                *cam,
                scene@,
                x as int,
                y as int,
                aa as int,
                max_depth as int,
                ((aa as int) * (aa as int)) as nat,
                s,
            ) && p == pixel_s(s, aa as int));
        assert(possible_pixel(*cam, scene@, x as int, y as int, aa as int, max_depth as int, p));
    }
    p
}

/// Render the whole image, row-major, top row first: each slot holds a
/// possible pixel for its coordinates, and every pixel reseeds its own
/// generator from the same seed, so the image does not depend on the
/// order the pixels are computed in.
pub fn render(
    cam: &CameraFrame,
    scene: &Vec<Sphere>,
    width: u32,
    height: u32,
    aa: u32,
    max_depth: u32,
    seed: u64,
) -> (out: Vec<(u8, u8, u8)>)
    requires
        wf_scene(scene@),
        1 <= aa <= 65535,
        width * height <= usize::MAX,
    ensures
        out@.len() == width * height,
        forall|yy: int, xx: int|
            0 <= yy < height && 0 <= xx < width ==> possible_pixel(
                *cam,
                scene@,
                xx,
                yy,
                aa as int,
                max_depth as int,
                #[trigger] out@[yy * width + xx],
            ),
{
    let mut out: Vec<(u8, u8, u8)> = Vec::new();
    let mut y: u32 = 0;
    while y < height
        invariant
            wf_scene(scene@),
            1 <= aa <= 65535,
            width * height <= usize::MAX,
            y <= height,
            out@.len() == y * width,
            forall|yy: int, xx: int|
                0 <= yy < y && 0 <= xx < width ==> possible_pixel(
                    *cam,
                    scene@,
                    xx,
                    yy,
                    aa as int,
                    max_depth as int,
                    #[trigger] out@[yy * width + xx],
                ),
        decreases height - y,
    {
        let mut x: u32 = 0;
        while x < width
            invariant
                wf_scene(scene@),
                1 <= aa <= 65535,
                width * height <= usize::MAX,
                y < height,
                x <= width,
                out@.len() == y * width + x,
                forall|yy: int, xx: int|
                    0 <= yy < y && 0 <= xx < width ==> possible_pixel(
                        *cam,
                        scene@,
                        xx,
                        yy,
                        aa as int,
                        max_depth as int,
                        #[trigger] out@[yy * width + xx],
                    ),
                forall|xx: int|
                    0 <= xx < x ==> possible_pixel(
                        *cam,
                        scene@,
                        xx,
                        y as int,
                        aa as int,
                        max_depth as int,
                        #[trigger] out@[y * width + xx],
                    ),
            decreases width - x,
        {
            proof {
                assert((y as int) * (width as int) + width <= (width as int) * (height as int))
                    by (nonlinear_arith)
                    requires
                        0 <= (y as int) < height as int,
                        0 <= width as int,
                ;
            }
            let p = render_pixel(cam, scene, x, y, aa, max_depth, seed);
            let ghost old_out = out@;
            out.push(p);
            proof {
                assert forall|yy: int, xx: int|
                    0 <= yy < y && 0 <= xx < width implies possible_pixel(
                    *cam,
                    scene@,
                    xx,
                    yy,
                    aa as int,
                    max_depth as int,
                    #[trigger] out@[yy * width + xx],
                ) by {
                    assert(0 <= yy * width && yy * width + xx < (y as int) * width)
                        by (nonlinear_arith)
                        requires
                            0 <= yy,
                            0 <= xx < width as int,
                            yy < y as int,
                    ;
                    assert(out@[yy * width + xx] == old_out[yy * width + xx]);
                }
                assert forall|xx: int| 0 <= xx < x + 1 implies possible_pixel(
                    *cam,
                    scene@,
                    xx,
                    y as int,
                    aa as int,
                    max_depth as int,
                    #[trigger] out@[y * width + xx],
                ) by {
                    assert(0 <= (y as int) * width) by (nonlinear_arith)
                        requires
                            0 <= y as int,
                            0 <= width as int,
                    ;
                    if xx < x {
                        assert(out@[y * width + xx] == old_out[y * width + xx]);
                    } else {
                        assert(out@[y * width + xx] == p);
                    }
                }
            }
            x = x + 1;
        }
        proof {
            assert(((y + 1) as int) * (width as int) == (y as int) * (width as int) + width)
                by (nonlinear_arith)
            ;
            assert forall|yy: int, xx: int|
                0 <= yy < y + 1 && 0 <= xx < width implies possible_pixel(
                *cam,
                scene@,
                xx,
                yy,
                aa as int,
                max_depth as int,
                #[trigger] out@[yy * width + xx],
            ) by {
                if yy < y {
                    assert(possible_pixel(
                        *cam,
                        scene@,
                        xx,
                        yy,
                        aa as int,
                        max_depth as int,
                        out@[yy * width + xx],
                    ));
                } else {
                    assert(yy == y as int);
                    assert(possible_pixel(
                        *cam,
                        scene@,
                        xx,
                        y as int,
                        aa as int,
                        max_depth as int,
                        out@[y * width + xx],
                    ));
                }
            }
        }
        y = y + 1;
    }
    proof {
        assert((height as int) * (width as int) == (width as int) * (height as int))
            by (nonlinear_arith)
        ;
    }
    out
}

} // verus!
