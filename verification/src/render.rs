//! The light-transport integrator and the resumable, restart-safe
//! pixel scheduler over a shared image buffer.

use vstd::prelude::*;
use crate::vec3::{Vec3, bounded, sq_len_raw, mix_rgb, spec_mix_channel, spec_mix1};
use crate::fx::{SCALE, tdiv, fxmul, lemma_mul_bound, lemma_tdiv_bound};
use crate::ray::{Ray, Hit, T_MAX, WORLD, STEP, EPSILON};
use crate::object::BaseObject;
use crate::scene::Scene;
use crate::camera::RayCtx;

verus! {

/// The recursion limit of the integrator.
pub const DEPTH_MAX: u32 = 8;

/// Normals beyond this magnitude are outside every reachable scene
/// and end the bounce recursion instead of overflowing.
pub const N_GUARD: i64 = 0x7c00;

/* the image buffer, behind trusted wrappers */

/// The render target: a four-channel image buffer of the image crate,
/// held opaquely; everything the scheduler knows about it goes
/// through the two names below and the wrappers beside them.
#[verifier::external_body]
pub struct PixBuf {
    inner: image::ImageBuffer<image::Rgba<u8>, Vec<u8>>,
}

/// What the buffer holds, pixel by pixel.
pub uninterp spec fn rgba_pixels(b: PixBuf) -> Map<(u32, u32), (u8, u8, u8, u8)>;

/// The width and height the buffer was made with.
pub uninterp spec fn rgba_dims(b: PixBuf) -> (u32, u32);

/// Relies on ImageBuffer::new: a buffer of the given size with every
/// sample zeroed.
#[verifier::external_body]
pub fn image_new(w: u32, h: u32) -> (b: PixBuf)
    requires
        1 <= w <= 0x10000,
        1 <= h <= 0x10000,
    ensures
        rgba_dims(b) == (w, h),
        forall|x: u32, y: u32| x < w && y < h
            ==> #[trigger] rgba_pixels(b)[(x, y)] == (0u8, 0u8, 0u8, 0u8),
{
    PixBuf { inner: image::ImageBuffer::new(w, h) }
}

/// Relies on ImageBuffer::width.
#[verifier::external_body]
pub fn image_width(b: &PixBuf) -> (w: u32)
    ensures
        w == rgba_dims(*b).0,
{
    b.inner.width()
}

/// Relies on ImageBuffer::height.
#[verifier::external_body]
pub fn image_height(b: &PixBuf) -> (h: u32)
    ensures
        h == rgba_dims(*b).1,
{
    b.inner.height()
}

/// Relies on ImageBuffer::get_pixel, which panics out of bounds.
#[verifier::external_body]
pub fn image_get(b: &PixBuf, x: u32, y: u32) -> (p: (u8, u8, u8, u8))
    requires
        x < rgba_dims(*b).0,
        y < rgba_dims(*b).1,
    ensures
        p == rgba_pixels(*b)[(x, y)],
{
    let q = b.inner.get_pixel(x, y);
    (q.0[0], q.0[1], q.0[2], q.0[3])
}

/// Relies on ImageBuffer::put_pixel, which panics out of bounds.
#[verifier::external_body]
pub fn image_put(b: &mut PixBuf, x: u32, y: u32, p: (u8, u8, u8, u8))
    requires
        x < rgba_dims(*old(b)).0,
        y < rgba_dims(*old(b)).1,
    ensures
        rgba_dims(*final(b)) == rgba_dims(*old(b)),
        rgba_pixels(*final(b)) == rgba_pixels(*old(b)).insert((x, y), p),
{
    b.inner.put_pixel(x, y, image::Rgba([p.0, p.1, p.2, p.3]));
}

/// Relies on ImageBuffer::from_raw: the bytes are taken row major,
/// four samples per pixel; the vector must hold exactly the pixels,
/// so the container that comes back out is exactly sized too.
#[verifier::external_body]
pub fn image_from_bytes(w: u32, h: u32, bytes: Vec<u8>) -> (r: Option<PixBuf>)
    requires
        1 <= w <= 0x10000,
        1 <= h <= 0x10000,
        bytes@.len() == 4 * w * h,
    ensures
        r is Some,
        r matches Some(b) ==> {
            &&& rgba_dims(b) == (w, h)
            &&& forall|x: u32, y: u32| x < w && y < h
                ==> #[trigger] rgba_pixels(b)[(x, y)] == (
                    bytes@[4 * (y * w + x)],
                    bytes@[4 * (y * w + x) + 1],
                    bytes@[4 * (y * w + x) + 2],
                    bytes@[4 * (y * w + x) + 3],
                )
        },
{
    match image::ImageBuffer::from_raw(w, h, bytes) {
        Some(inner) => Some(PixBuf { inner }),
        None => None,
    }
}

/// Relies on ImageBuffer::into_raw, which returns the whole backing
/// container: at least the pixel samples, row major.  Every
/// constructor of the opaque buffer fills the container exactly, so
/// in this crate the length is in fact exact, but only the lower
/// bound is taken on trust.
#[verifier::external_body]
pub fn image_into_bytes(b: PixBuf) -> (bytes: Vec<u8>)
    ensures
        bytes@.len() >= 4 * rgba_dims(b).0 * rgba_dims(b).1,
        forall|x: u32, y: u32| x < rgba_dims(b).0 && y < rgba_dims(b).1
            ==> #[trigger] rgba_pixels(b)[(x, y)] == (
                bytes@[4 * (y * rgba_dims(b).0 + x)],
                bytes@[4 * (y * rgba_dims(b).0 + x) + 1],
                bytes@[4 * (y * rgba_dims(b).0 + x) + 2],
                bytes@[4 * (y * rgba_dims(b).0 + x) + 3],
            ),
{
    b.inner.into_raw()
}

/// A three-channel source photo, held opaquely like the render target.
#[verifier::external_body]
pub struct PhotoBuf {
    inner: image::ImageBuffer<image::Rgb<u8>, Vec<u8>>,
}

/// What the photo holds, pixel by pixel.
pub uninterp spec fn rgb_pixels(b: PhotoBuf) -> Map<(u32, u32), (u8, u8, u8)>;

/// The width and height of the photo.
pub uninterp spec fn rgb_dims(b: PhotoBuf) -> (u32, u32);

/// Relies on ImageBuffer::from_raw: three samples per pixel, row
/// major, rejected when too few.
#[verifier::external_body]
pub fn photo_from_bytes(w: u32, h: u32, bytes: Vec<u8>) -> (r: Option<PhotoBuf>)
    requires
        1 <= w <= 0x10000,
        1 <= h <= 0x10000,
    ensures
        r is Some <==> bytes@.len() >= 3 * w * h,
        r matches Some(b) ==> {
            &&& rgb_dims(b) == (w, h)
            &&& forall|x: u32, y: u32| x < w && y < h
                ==> #[trigger] rgb_pixels(b)[(x, y)] == (
                    bytes@[3 * (y * w + x)],
                    bytes@[3 * (y * w + x) + 1],
                    bytes@[3 * (y * w + x) + 2],
                )
        },
{
    match image::ImageBuffer::from_raw(w, h, bytes) {
        Some(inner) => Some(PhotoBuf { inner }),
        None => None,
    }
}

/// Relies on ImageBuffer::width.
#[verifier::external_body]
pub fn photo_width(b: &PhotoBuf) -> (w: u32)
    ensures
        w == rgb_dims(*b).0,
{
    b.inner.width()
}

/// Relies on ImageBuffer::height.
#[verifier::external_body]
pub fn photo_height(b: &PhotoBuf) -> (h: u32)
    ensures
        h == rgb_dims(*b).1,
{
    b.inner.height()
}

/// Relies on ImageBuffer::get_pixel, which panics out of bounds.
#[verifier::external_body]
pub fn photo_get(b: &PhotoBuf, x: u32, y: u32) -> (p: (u8, u8, u8))
    requires
        x < rgb_dims(*b).0,
        y < rgb_dims(*b).1,
    ensures
        p == rgb_pixels(*b)[(x, y)],
{
    let q = b.inner.get_pixel(x, y);
    (q.0[0], q.0[1], q.0[2])
}

/// The reserved "not yet rendered" pixel: transparent magenta, a
/// value no finished pixel can take since finished pixels are opaque.
pub open spec fn spec_undone() -> (u8, u8, u8, u8) {
    (255u8, 0u8, 255u8, 0u8)
}

pub fn undone_color() -> (p: (u8, u8, u8, u8))
    ensures
        p == spec_undone(),
{
    (255, 0, 255, 0)
}

/* the integrator */

/// The nearest hit across the first `n` scene objects; distance
/// `T_MAX` stands for "the sky".
pub open spec fn spec_scene_hit(objs: Seq<BaseObject>, r: Ray, n: int) -> Hit
    decreases n,
{
    if n <= 0 {
        Hit {
            color: Vec3 { x: 0i64, y: 0i64, z: 0i64 },
            normal: Vec3 { x: 0i64, y: 0i64, z: 0i64 },
            p: Vec3 { x: 0i64, y: 0i64, z: 0i64 },
            t: T_MAX,
        }
    } else {
        let prev = spec_scene_hit(objs, r, n - 1);
        match objs[n - 1].spec_hit(r, 0, prev.t as int) {
            Option::Some(h) => if h.t < prev.t {
                h
            } else {
                prev
            },
            Option::None => prev,
        }
    }
}

/// The two-stop sky gradient, blended by the vertical component of
/// the unit ray direction: horizon to zenith.
pub open spec fn spec_sky(d: Vec3) -> Vec3 {
    let ud = d.spec_normalized();
    let t = if ud.y >= 0 { ud.y as int } else { -ud.y as int };
    Vec3::spec_from_rgb(
        spec_mix_channel(77, 255, t),
        spec_mix_channel(143, 255, t),
        spec_mix_channel(170, 255, t),
    )
}

/// The hit data the integrator can shade without leaving the
/// fixed-point range: point within one more step of the ray, a
/// unit-sized normal, a color with channels in `[0, 1]`.
pub open spec fn spec_hit_in_range(h: Hit, depth: int) -> bool {
    let plim = WORLD as int + (depth + 1) * (STEP as int);
    &&& -plim <= h.p.x <= plim
    &&& -plim <= h.p.y <= plim
    &&& -plim <= h.p.z <= plim
    &&& -(N_GUARD as int) <= h.normal.x <= N_GUARD as int
    &&& -(N_GUARD as int) <= h.normal.y <= N_GUARD as int
    &&& -(N_GUARD as int) <= h.normal.z <= N_GUARD as int
    &&& 0 <= h.color.x <= SCALE as int
    &&& 0 <= h.color.y <= SCALE as int
    &&& 0 <= h.color.z <= SCALE as int
}

/// The directional shadow pass applied to a shaded color `c0`: a
/// shadow ray from just above the hit point toward the sun; clear sky
/// blends the color toward the sun's by one minus the softness, an
/// occluder scales it by the softness.  Without a sun, or with
/// shadows off, the color passes through.
pub open spec fn spec_shadowed(scene: Scene, h: Hit, c0: Vec3, with_shadows: bool) -> Vec3 {
    if with_shadows {
        match scene.sun {
            Option::Some((sun, sun_color, softness)) => {
                let start = Vec3 {
                    x: (h.p.x + fxmul(EPSILON as int, h.normal.x as int)) as i64,
                    y: (h.p.y + fxmul(EPSILON as int, h.normal.y as int)) as i64,
                    z: (h.p.z + fxmul(EPSILON as int, h.normal.z as int)) as i64,
                };
                let sray = Ray { origin: start, direction: sun, is_light: true };
                if spec_scene_hit(scene.objects@, sray, scene.objects@.len() as int).t == T_MAX {
                    Vec3 {
                        x: spec_mix1(c0.x as int, sun_color.x as int, SCALE as int - softness) as i64,
                        y: spec_mix1(c0.y as int, sun_color.y as int, SCALE as int - softness) as i64,
                        z: spec_mix1(c0.z as int, sun_color.z as int, SCALE as int - softness) as i64,
                    }
                } else {
                    Vec3 {
                        x: fxmul(c0.x as int, softness as int) as i64,
                        y: fxmul(c0.y as int, softness as int) as i64,
                        z: fxmul(c0.z as int, softness as int) as i64,
                    }
                }
            },
            Option::None => c0,
        }
    } else {
        c0
    }
}

/// Everything the integrator promises of one returned sample `c` for
/// the ray `r`: channels in `[0, 1]`; the sky blend on a miss; black
/// past the guards or the depth limit; the deterministic shadow pass
/// over the hit color with diffuse off; and with diffuse on, some
/// surface-attenuated color through the shadow pass.
pub open spec fn spec_color_admissible(scene: Scene, r: Ray, with_lambertian: bool,
    with_shadows: bool, depth: int, c: Vec3) -> bool {
    let h = spec_scene_hit(scene.objects@, r, scene.objects@.len() as int);
    &&& 0 <= c.x <= SCALE && 0 <= c.y <= SCALE && 0 <= c.z <= SCALE
    &&& (h.t == T_MAX ==> c == spec_sky(r.direction))
    &&& (h.t != T_MAX && !spec_hit_in_range(h, depth)
        ==> c == (Vec3 { x: 0i64, y: 0i64, z: 0i64 }))
    &&& (h.t != T_MAX && spec_hit_in_range(h, depth) && with_lambertian
        && depth > DEPTH_MAX ==> c == (Vec3 { x: 0i64, y: 0i64, z: 0i64 }))
    &&& (h.t != T_MAX && spec_hit_in_range(h, depth) && !with_lambertian
        ==> c == spec_shadowed(scene, h, h.color, with_shadows))
    &&& (h.t != T_MAX && spec_hit_in_range(h, depth) && with_lambertian
        && depth <= DEPTH_MAX ==> exists|sub: Vec3|
            0 <= sub.x <= SCALE && 0 <= sub.y <= SCALE && 0 <= sub.z <= SCALE
            && c == spec_shadowed(scene, h,
                crate::vec3::spec_multv(sub, h.color), with_shadows))
}

impl Ray {
    /// The nearest hit of this ray across the whole scene.
    pub fn hits(&self, scene: &Scene) -> (r: Hit)
        requires
            scene.wf(),
            self.wf(),
            bounded(self.origin, 0x1000_0000_0000),
        ensures
            r == spec_scene_hit(scene.objects@, *self, scene.objects@.len() as int),
            0 <= r.t <= T_MAX,
    {
        let mut hit_min = Hit::new();
        let n = scene.objects.len();
        let mut i: usize = 0;
        proof {
            assert(hit_min == spec_scene_hit(scene.objects@, *self, 0));
        }
        while i < n
            invariant
                0 <= i <= n,
                n == scene.objects@.len(),
                scene.wf(),
                self.wf(),
                bounded(self.origin, 0x1000_0000_0000),
                hit_min == spec_scene_hit(scene.objects@, *self, i as int),
                0 <= hit_min.t <= T_MAX,
            decreases n - i,
        {
            let o = &scene.objects[i];
            if let Some(hit) = o.hits(self, 0, hit_min.t) {
                if hit.t < hit_min.t {
                    hit_min = hit;
                }
            }
            i = i + 1;
        }
        hit_min
    }

    /// One light-transport sample: nearest hit, sky fallback, one
    /// random diffuse bounce, and the directional shadow blend.
    /// Returns a color with every channel in `[0, 1]`; every
    /// deterministic branch is pinned below, and the random bounce is
    /// pinned up to the drawn sample: some attenuated color goes
    /// through the shadow pass.
    pub fn color(&self, scene: &Scene, with_lambertian: bool, with_shadows: bool, depth: u32)
        -> (c: Vec3)
        requires
            scene.wf(),
            self.wf(),
            depth <= DEPTH_MAX + 1,
            bounded(self.origin, WORLD as int + depth as int * (STEP as int)),
        ensures
            spec_color_admissible(*scene, *self, with_lambertian, with_shadows, depth as int, c),
        decreases DEPTH_MAX + 2 - depth,
    {
        proof {
            assert(WORLD as int + depth as int * (STEP as int)
                <= WORLD as int + 10 * (STEP as int)) by (nonlinear_arith)
                requires depth as int <= 10, STEP as int > 0;
        }
        let hit_min = self.hits(scene);
        if hit_min.t == T_MAX {
            // the ray hit the sky: blend from horizon to zenith
            let ud = self.direction.to_normalized();
            let uy: i64 = if ud.y >= 0 { ud.y } else { -ud.y };
            let c2: (u8, u8, u8) = (77, 143, 170);
            let c1: (u8, u8, u8) = (255, 255, 255);
            let m = mix_rgb(c2, c1, uy);
            return Vec3::from_rgb(m.0, m.1, m.2);
        }
        // beyond these guards the fixed-point ranges end the bounce
        let plim: i64 = WORLD + ((depth as i64) + 1) * STEP;
        let in_range = -plim <= hit_min.p.x && hit_min.p.x <= plim
            && -plim <= hit_min.p.y && hit_min.p.y <= plim
            && -plim <= hit_min.p.z && hit_min.p.z <= plim
            && -N_GUARD <= hit_min.normal.x && hit_min.normal.x <= N_GUARD
            && -N_GUARD <= hit_min.normal.y && hit_min.normal.y <= N_GUARD
            && -N_GUARD <= hit_min.normal.z && hit_min.normal.z <= N_GUARD
            && 0 <= hit_min.color.x && hit_min.color.x <= SCALE
            && 0 <= hit_min.color.y && hit_min.color.y <= SCALE
            && 0 <= hit_min.color.z && hit_min.color.z <= SCALE;
        proof {
            assert(in_range == spec_hit_in_range(hit_min, depth as int));
        }
        if !in_range {
            return Vec3::origin();
        }
        let mut c: Vec3;
        let ghost mut pre_sub: Vec3 = Vec3 { x: SCALE, y: SCALE, z: SCALE };
        if with_lambertian {
            if depth > DEPTH_MAX {
                return Vec3::origin();
            }
            let u = Vec3::random_in_unit_sphere();
            let dir = u.addv(&hit_min.normal);
            if (dir.x != 0 || dir.y != 0 || dir.z != 0) && depth < DEPTH_MAX + 1 {
                proof {
                    assert(sq_len_raw(dir) > 0) by (nonlinear_arith)
                        requires
                            sq_len_raw(dir) == dir.x * dir.x + dir.y * dir.y + dir.z * dir.z,
                            dir.x != 0 || dir.y != 0 || dir.z != 0;
                    assert(WORLD as int + (depth + 1) as int * (STEP as int)
                        == WORLD as int + depth as int * (STEP as int) + STEP as int)
                        by (nonlinear_arith);
                }
                let lambertian = Ray { origin: hit_min.p, direction: dir, is_light: false };
                let sub = lambertian.color(scene, with_lambertian, with_shadows, depth + 1);
                proof {
                    lemma_color_product(sub.x as int, hit_min.color.x as int);
                    lemma_color_product(sub.y as int, hit_min.color.y as int);
                    lemma_color_product(sub.z as int, hit_min.color.z as int);
                }
                c = sub.multv(&hit_min.color);
                proof {
                    pre_sub = sub;
                    assert(c == crate::vec3::spec_multv(sub, hit_min.color));
                }
            } else {
                c = hit_min.color;
                proof {
                    lemma_unit_attenuation(hit_min.color);
                    assert(c == crate::vec3::spec_multv(pre_sub, hit_min.color));
                }
            }
        } else {
            c = hit_min.color;
        }
        let ghost pre = c;
        if with_shadows {
            if let Some((sun, sun_color, softness)) = scene.sun {
                let start = hit_min.normal.at(&hit_min.p, EPSILON);
                let sun_ray = Ray { origin: start, direction: sun, is_light: true };
                let sun_hit = sun_ray.hits(scene);
                if sun_hit.t == T_MAX {
                    proof {
                        crate::camera::lemma_mix_bound(c.x as int, sun_color.x as int,
                            SCALE as int - softness, SCALE as int);
                        crate::camera::lemma_mix_bound(c.y as int, sun_color.y as int,
                            SCALE as int - softness, SCALE as int);
                        crate::camera::lemma_mix_bound(c.z as int, sun_color.z as int,
                            SCALE as int - softness, SCALE as int);
                        lemma_mix_nonneg(c.x as int, sun_color.x as int, SCALE as int - softness);
                        lemma_mix_nonneg(c.y as int, sun_color.y as int, SCALE as int - softness);
                        lemma_mix_nonneg(c.z as int, sun_color.z as int, SCALE as int - softness);
                    }
                    c.mixed(&sun_color, SCALE - softness);
                } else {
                    proof {
                        lemma_color_product(c.x as int, softness as int);
                        lemma_color_product(c.y as int, softness as int);
                        lemma_color_product(c.z as int, softness as int);
                    }
                    c.mult(softness);
                }
            }
        }
        proof {
            assert(c == spec_shadowed(*scene, hit_min, pre, with_shadows));
        }
        c
    }
}

/// A full-scale factor leaves a color channel unchanged, so the plain
/// hit color is itself an attenuated color.
proof fn lemma_unit_attenuation(col: Vec3)
    ensures
        crate::vec3::spec_multv(Vec3 { x: SCALE, y: SCALE, z: SCALE }, col) == col,
{
    lemma_fxmul_full(col.x as int);
    lemma_fxmul_full(col.y as int);
    lemma_fxmul_full(col.z as int);
}

/// Multiplying by the unit fixed-point factor is the identity.
proof fn lemma_fxmul_full(a: int)
    requires
        i64::MIN <= a <= i64::MAX,
    ensures
        fxmul(SCALE as int, a) == a,
{
    let s = SCALE as int;
    if a >= 0 {
        assert(s * a >= 0) by (nonlinear_arith)
            requires s >= 0, a >= 0;
        vstd::arithmetic::div_mod::lemma_div_multiples_vanish(a, s);
    } else {
        assert(-(s * a) == s * (-a)) by (nonlinear_arith);
        assert(s * (-a) >= 0) by (nonlinear_arith)
            requires s >= 0, a <= 0;
        vstd::arithmetic::div_mod::lemma_div_multiples_vanish(-a, s);
    }
}

/// The product of two color channels in `[0, 1]` stays in `[0, 1]`.
proof fn lemma_color_product(a: int, b: int)
    requires
        0 <= a <= SCALE as int,
        0 <= b <= SCALE as int,
    ensures
        0 <= fxmul(a, b) <= SCALE as int,
{
    let s = SCALE as int;
    assert(0 <= a * b <= s * s) by (nonlinear_arith)
        requires 0 <= a <= s, 0 <= b <= s;
    vstd::arithmetic::div_mod::lemma_div_pos_is_pos(a * b, s);
    lemma_tdiv_bound(a * b, s, s * s);
    assert((s * s) / s == s) by (nonlinear_arith)
        requires s >= 1;
}

/// A blend of two nonnegative channels is nonnegative.
proof fn lemma_mix_nonneg(a: int, b: int, t: int)
    requires
        0 <= a,
        0 <= b,
        0 <= t <= SCALE as int,
    ensures
        0 <= spec_mix1(a, b, t),
{
    let s = SCALE as int;
    assert(0 <= a * (s - t) + b * t) by (nonlinear_arith)
        requires 0 <= a, 0 <= b, 0 <= t <= s;
    vstd::arithmetic::div_mod::lemma_div_pos_is_pos(a * (s - t) + b * t, s);
}

/* the resumable scheduler */

/// Every pixel of the buffer inside the given size is finished.
pub open spec fn spec_complete(img: PixBuf) -> bool {
    forall|x: u32, y: u32| x < rgba_dims(img).0 && y < rgba_dims(img).1
        ==> #[trigger] rgba_pixels(img)[(x, y)] != spec_undone()
}

/// A fresh buffer with every pixel set to the "not rendered" value.
pub fn fresh_buffer(w: u32, h: u32) -> (img: PixBuf)
    requires
        1 <= w <= 0x10000,
        1 <= h <= 0x10000,
    ensures
        rgba_dims(img) == (w, h),
        forall|x: u32, y: u32| x < w && y < h
            ==> #[trigger] rgba_pixels(img)[(x, y)] == spec_undone(),
{
    let mut img = image_new(w, h);
    let mut y: u32 = 0;
    while y < h
        invariant
            0 <= y <= h,
            rgba_dims(img) == (w, h),
            1 <= w <= 0x10000,
            1 <= h <= 0x10000,
            forall|a: u32, b: u32| a < w && b < y
                ==> #[trigger] rgba_pixels(img)[(a, b)] == spec_undone(),
        decreases h - y,
    {
        let mut x: u32 = 0;
        while x < w
            invariant
                0 <= x <= w,
                0 <= y < h,
                rgba_dims(img) == (w, h),
                1 <= w <= 0x10000,
                1 <= h <= 0x10000,
                forall|a: u32, b: u32| a < w && b < y
                    ==> #[trigger] rgba_pixels(img)[(a, b)] == spec_undone(),
                forall|a: u32| a < x ==> #[trigger] rgba_pixels(img)[(a, y)] == spec_undone(),
            decreases w - x,
        {
            image_put(&mut img, x, y, undone_color());
            x = x + 1;
        }
        y = y + 1;
    }
    img
}

/// Whether the buffer has the size the render expects.
pub fn buffer_matches(img: &PixBuf, w: u32, h: u32)
    -> (r: bool)
    ensures
        r <==> rgba_dims(*img) == (w, h),
{
    let bw = image_width(img);
    let bh = image_height(img);
    bw == w && bh == h
}

/// What one pixel sample can be: an integrator sample at depth zero
/// for a camera ray jittered within the pixel's sub-square.
pub open spec fn spec_sample_ok(ctx: RayCtx, scene: Scene, x: int, y: int, v: Vec3) -> bool {
    exists|i: int, j: int| {
        &&& tdiv(x * (SCALE as int), ctx.screen.width as int) <= i
            <= tdiv((x + 1) * (SCALE as int), ctx.screen.width as int)
        &&& tdiv(y * (SCALE as int), ctx.screen.height as int) <= j
            <= tdiv((y + 1) * (SCALE as int), ctx.screen.height as int)
        &&& #[trigger] spec_color_admissible(scene,
            ctx.spec_ray_new(i, SCALE as int - j, false),
            ctx.with_lambertian, ctx.with_shadows, 0, v)
    }
}

/// The channel sums of a sample sequence.
pub open spec fn spec_sample_sums(s: Seq<Vec3>) -> (int, int, int)
    decreases s.len(),
{
    if s.len() == 0 {
        (0, 0, 0)
    } else {
        let p = spec_sample_sums(s.drop_last());
        (p.0 + s.last().x, p.1 + s.last().y, p.2 + s.last().z)
    }
}

/// A pixel color is admissible when it is the truncated componentwise
/// average of admissible jittered samples.
pub open spec fn spec_pixel_admissible(ctx: RayCtx, scene: Scene, x: int, y: int,
    nsamples: int, c: Vec3) -> bool {
    exists|samples: Seq<Vec3>| {
        &&& samples.len() == nsamples
        &&& (forall|k: int| 0 <= k < samples.len()
            ==> spec_sample_ok(ctx, scene, x, y, #[trigger] samples[k]))
        &&& c.x == tdiv(spec_sample_sums(samples).0, nsamples)
        &&& c.y == tdiv(spec_sample_sums(samples).1, nsamples)
        &&& c.z == tdiv(spec_sample_sums(samples).2, nsamples)
    }
}

impl RayCtx {
    /// Renders one pixel if it still holds the sentinel: draws
    /// `nsamples` jittered rays, averages them, and writes an opaque
    /// pixel; an already finished pixel is left untouched.  Returns
    /// whether work was done.
    pub fn process_pixel(&self, scene: &Scene, buf: &mut PixBuf,
        x: u32, y: u32, nsamples: u64) -> (worked: bool)
        requires
            self.wf(),
            scene.wf(),
            x < rgba_dims(*old(buf)).0,
            y < rgba_dims(*old(buf)).1,
            rgba_dims(*old(buf)).0 == self.screen.width,
            rgba_dims(*old(buf)).1 == self.screen.height,
            1 <= nsamples <= 0x10_0000,
        ensures
            rgba_dims(*final(buf)) == rgba_dims(*old(buf)),
            worked <==> rgba_pixels(*old(buf))[(x, y)] == spec_undone(),
            !worked ==> rgba_pixels(*final(buf)) == rgba_pixels(*old(buf)),
            worked ==> exists|p: (u8, u8, u8, u8)| p.3 == 255u8
                && rgba_pixels(*final(buf)) == rgba_pixels(*old(buf)).insert((x, y), p),
            worked ==> exists|avg: Vec3|
                #[trigger] spec_pixel_admissible(*self, *scene, x as int, y as int,
                    nsamples as int, avg)
                && rgba_pixels(*final(buf)) == rgba_pixels(*old(buf)).insert((x, y), (
                    crate::vec3::spec_channel_byte(avg.x as int) as u8,
                    crate::vec3::spec_channel_byte(avg.y as int) as u8,
                    crate::vec3::spec_channel_byte(avg.z as int) as u8,
                    255u8,
                )),
    {
        let cur = image_get(buf, x, y);
        let undone = undone_color();
        if !(cur.0 == undone.0 && cur.1 == undone.1 && cur.2 == undone.2 && cur.3 == undone.3) {
            return false;
        }
        let avg = self.pixel_color(scene, x, y, nsamples);
        let (pr, pg, pb) = avg.to_rgb();
        image_put(buf, x, y, (pr, pg, pb, 255));
        proof {
            let p = (pr, pg, pb, 255u8);
            assert(p.3 == 255u8
                && rgba_pixels(*buf) == rgba_pixels(*old(buf)).insert((x, y), p));
            assert(spec_pixel_admissible(*self, *scene, x as int, y as int, nsamples as int,
                avg) && rgba_pixels(*buf) == rgba_pixels(*old(buf)).insert((x, y), (
                crate::vec3::spec_channel_byte(avg.x as int) as u8,
                crate::vec3::spec_channel_byte(avg.y as int) as u8,
                crate::vec3::spec_channel_byte(avg.z as int) as u8,
                255u8,
            )));
        }
        true
    }

    /// The averaged color of `nsamples` jittered samples of a pixel.
    pub fn pixel_color(&self, scene: &Scene, x: u32, y: u32, nsamples: u64) -> (c: Vec3)
        requires
            self.wf(),
            scene.wf(),
            x < self.screen.width,
            y < self.screen.height,
            1 <= nsamples <= 0x10_0000,
        ensures
            0 <= c.x <= SCALE && 0 <= c.y <= SCALE && 0 <= c.z <= SCALE,
            spec_pixel_admissible(*self, *scene, x as int, y as int, nsamples as int, c),
    {
        let mut rs: i64 = 0;
        let mut gs: i64 = 0;
        let mut bs: i64 = 0;
        let mut s: u64 = 0;
        let ghost mut samples: Seq<Vec3> = Seq::empty();
        let i_min = sub_coord(x, self.screen.width);
        let i_max = sub_coord(x + 1, self.screen.width);
        let j_min = sub_coord(y, self.screen.height);
        let j_max = sub_coord(y + 1, self.screen.height);
        proof {
            lemma_sub_coord_mono(x as int, self.screen.width as int);
            lemma_sub_coord_mono(y as int, self.screen.height as int);
        }
        let i_step = i_max - i_min;
        let j_step = j_max - j_min;
        while s < nsamples
            invariant
                0 <= s <= nsamples,
                nsamples <= 0x10_0000,
                0 <= rs <= s * (SCALE as int),
                0 <= gs <= s * (SCALE as int),
                0 <= bs <= s * (SCALE as int),
                self.wf(),
                scene.wf(),
                x < self.screen.width,
                y < self.screen.height,
                0 <= i_min <= i_max <= SCALE,
                0 <= j_min <= j_max <= SCALE,
                i_step == i_max - i_min,
                j_step == j_max - j_min,
                i_min == tdiv(x as int * (SCALE as int), self.screen.width as int),
                i_max == tdiv((x as int + 1) * (SCALE as int), self.screen.width as int),
                j_min == tdiv(y as int * (SCALE as int), self.screen.height as int),
                j_max == tdiv((y as int + 1) * (SCALE as int), self.screen.height as int),
                samples.len() == s,
                forall|k: int| 0 <= k < samples.len()
                    ==> spec_sample_ok(*self, *scene, x as int, y as int, #[trigger] samples[k]),
                rs == spec_sample_sums(samples).0,
                gs == spec_sample_sums(samples).1,
                bs == spec_sample_sums(samples).2,
            decreases nsamples - s,
        {
            let ri = crate::rng::random_below(SCALE as u64 + 1) as i64;
            let rj = crate::rng::random_below(SCALE as u64 + 1) as i64;
            proof {
                lemma_jitter(i_min as int, i_max as int, ri as int);
                lemma_jitter(j_min as int, j_max as int, rj as int);
            }
            let i = i_min + crate::fx::mul_fx(ri, i_step);
            let j = j_min + crate::fx::mul_fx(rj, j_step);
            let ray = self.ray_new(i, SCALE - j, false);
            let p = ray.color(scene, self.with_lambertian, self.with_shadows, 0);
            proof {
                assert((s + 1) * (SCALE as int) == s * (SCALE as int) + SCALE as int)
                    by (nonlinear_arith);
                assert(s * (SCALE as int) <= 0x10_0000 * (SCALE as int)) by (nonlinear_arith)
                    requires 0 <= s <= 0x10_0000, SCALE as int > 0;
                assert(spec_sample_ok(*self, *scene, x as int, y as int, p)) by {
                    assert(spec_color_admissible(*scene,
                        self.spec_ray_new(i as int, SCALE as int - j as int, false),
                        self.with_lambertian, self.with_shadows, 0, p));
                }
                let ghost pushed = samples.push(p);
                assert(pushed.drop_last() =~= samples);
                assert(pushed.last() == p);
                samples = pushed;
            }
            rs = rs + p.x;
            gs = gs + p.y;
            bs = bs + p.z;
            s = s + 1;
        }
        proof {
            lemma_sample_avg(rs as int, nsamples as int);
            lemma_sample_avg(gs as int, nsamples as int);
            lemma_sample_avg(bs as int, nsamples as int);
        }
        let c = Vec3::new(rs / (nsamples as i64), gs / (nsamples as i64), bs / (nsamples as i64));
        proof {
            assert(spec_pixel_admissible(*self, *scene, x as int, y as int, nsamples as int, c));
        }
        c
    }

    /// Renders every unfinished pixel of the buffer, row by row, and
    /// reports how many pixels were freshly computed.  A finished
    /// pixel is never touched, so a complete buffer is returned
    /// byte-identical with zero work.
    pub fn render_scene(&self, scene: &Scene,
        buf: &mut PixBuf, nsamples: u64) -> (worked: u64)
        requires
            self.wf(),
            scene.wf(),
            rgba_dims(*old(buf)).0 == self.screen.width,
            rgba_dims(*old(buf)).1 == self.screen.height,
            1 <= nsamples <= 0x10_0000,
        ensures
            rgba_dims(*final(buf)) == rgba_dims(*old(buf)),
            spec_complete(*final(buf)),
            forall|a: u32, b: u32| a < rgba_dims(*old(buf)).0 && b < rgba_dims(*old(buf)).1
                && #[trigger] rgba_pixels(*old(buf))[(a, b)] != spec_undone()
                ==> rgba_pixels(*final(buf))[(a, b)] == rgba_pixels(*old(buf))[(a, b)],
            spec_complete(*old(buf)) ==> worked == 0
                && rgba_pixels(*final(buf)) == rgba_pixels(*old(buf)),
            worked == 0 ==> spec_complete(*old(buf)),
            worked <= rgba_dims(*old(buf)).0 * rgba_dims(*old(buf)).1,
            forall|a: u32, b: u32| a < rgba_dims(*old(buf)).0 && b < rgba_dims(*old(buf)).1
                && #[trigger] rgba_pixels(*old(buf))[(a, b)] == spec_undone()
                ==> exists|avg: Vec3|
                    #[trigger] spec_pixel_admissible(*self, *scene, a as int, b as int,
                        nsamples as int, avg)
                    && rgba_pixels(*final(buf))[(a, b)] == (
                        crate::vec3::spec_channel_byte(avg.x as int) as u8,
                        crate::vec3::spec_channel_byte(avg.y as int) as u8,
                        crate::vec3::spec_channel_byte(avg.z as int) as u8,
                        255u8,
                    ),
    {
        let w = image_width(buf);
        let h = image_height(buf);
        let mut worked: u64 = 0;
        let mut y: u32 = 0;
        while y < h
            invariant
                0 <= y <= h,
                (w, h) == rgba_dims(*buf),
                rgba_dims(*buf) == rgba_dims(*old(buf)),
                w == self.screen.width && h == self.screen.height,
                self.wf(),
                scene.wf(),
                1 <= nsamples <= 0x10_0000,
                worked <= y * w,
                forall|a: u32, b: u32| a < w && b < h
                    && #[trigger] rgba_pixels(*old(buf))[(a, b)] != spec_undone()
                    ==> rgba_pixels(*buf)[(a, b)] == rgba_pixels(*old(buf))[(a, b)],
                forall|a: u32, b: u32| a < w && b < y
                    ==> #[trigger] rgba_pixels(*buf)[(a, b)] != spec_undone(),
                forall|a: u32, b: u32| a < w && y <= b && b < h
                    ==> #[trigger] rgba_pixels(*buf)[(a, b)]
                        == rgba_pixels(*old(buf))[(a, b)],
                worked == 0 ==> forall|a: u32, b: u32| a < w && b < y
                    ==> #[trigger] rgba_pixels(*old(buf))[(a, b)] != spec_undone(),
                spec_complete(*old(buf)) ==> worked == 0
                    && rgba_pixels(*buf) == rgba_pixels(*old(buf)),
                forall|a: u32, b: u32| a < w && b < y
                    && #[trigger] rgba_pixels(*old(buf))[(a, b)] == spec_undone()
                    ==> exists|avg: Vec3|
                        #[trigger] spec_pixel_admissible(*self, *scene, a as int, b as int,
                            nsamples as int, avg)
                        && rgba_pixels(*buf)[(a, b)] == (
                            crate::vec3::spec_channel_byte(avg.x as int) as u8,
                            crate::vec3::spec_channel_byte(avg.y as int) as u8,
                            crate::vec3::spec_channel_byte(avg.z as int) as u8,
                            255u8,
                        ),
            decreases h - y,
        {
            let mut x: u32 = 0;
            while x < w
                invariant
                    0 <= x <= w,
                    0 <= y < h,
                    (w, h) == rgba_dims(*buf),
                    rgba_dims(*buf) == rgba_dims(*old(buf)),
                    w == self.screen.width && h == self.screen.height,
                    self.wf(),
                    scene.wf(),
                    1 <= nsamples <= 0x10_0000,
                    worked <= y * w + x,
                    forall|a: u32, b: u32| a < w && b < h
                        && #[trigger] rgba_pixels(*old(buf))[(a, b)] != spec_undone()
                        ==> rgba_pixels(*buf)[(a, b)] == rgba_pixels(*old(buf))[(a, b)],
                    forall|a: u32, b: u32| a < w && b < y
                        ==> #[trigger] rgba_pixels(*buf)[(a, b)] != spec_undone(),
                    forall|a: u32| a < x ==> #[trigger] rgba_pixels(*buf)[(a, y)] != spec_undone(),
                    forall|a: u32, b: u32| a < w && b < h && (b > y || (b == y && a >= x))
                        ==> #[trigger] rgba_pixels(*buf)[(a, b)]
                            == rgba_pixels(*old(buf))[(a, b)],
                    worked == 0 ==> forall|a: u32, b: u32| a < w && (b < y || (b == y && a < x))
                        ==> #[trigger] rgba_pixels(*old(buf))[(a, b)] != spec_undone(),
                    spec_complete(*old(buf)) ==> worked == 0
                        && rgba_pixels(*buf) == rgba_pixels(*old(buf)),
                    forall|a: u32, b: u32| a < w && (b < y || (b == y && a < x))
                        && #[trigger] rgba_pixels(*old(buf))[(a, b)] == spec_undone()
                        ==> exists|avg: Vec3|
                            #[trigger] spec_pixel_admissible(*self, *scene, a as int, b as int,
                                nsamples as int, avg)
                            && rgba_pixels(*buf)[(a, b)] == (
                                crate::vec3::spec_channel_byte(avg.x as int) as u8,
                                crate::vec3::spec_channel_byte(avg.y as int) as u8,
                                crate::vec3::spec_channel_byte(avg.z as int) as u8,
                                255u8,
                            ),
                decreases w - x,
            {
                proof {
                    assert(y * w + x <= 0x10000 * 0x10000int + 0x10000) by (nonlinear_arith)
                        requires 0 <= y as int <= 0x10000, 1 <= w as int <= 0x10000,
                            0 <= x as int <= 0x10000;
                }
                let ghost pre = *buf;
                let did = self.process_pixel(scene, buf, x, y, nsamples);
                if did {
                    worked = worked + 1;
                }
                proof {
                    assert(rgba_pixels(*buf)[(x, y)] != spec_undone());
                    if !did {
                        assert(rgba_pixels(pre)[(x, y)] == rgba_pixels(*old(buf))[(x, y)]);
                    } else {
                        assert(rgba_pixels(pre)[(x, y)] == rgba_pixels(*old(buf))[(x, y)]);
                        assert(rgba_pixels(*old(buf))[(x, y)] == spec_undone());
                    }
                }
                x = x + 1;
            }
            proof {
                assert(y as int * w as int + w as int == (y + 1) as int * w as int)
                    by (nonlinear_arith);
            }
            y = y + 1;
        }
        proof {
            assert(h as int * w as int == w as int * h as int) by (nonlinear_arith);
        }
        worked
    }
}

/// Consecutive sub-pixel coordinates do not decrease.
proof fn lemma_sub_coord_mono(x: int, w: int)
    requires
        1 <= w,
        0 <= x < w,
    ensures
        tdiv(x * (SCALE as int), w) <= tdiv((x + 1) * (SCALE as int), w),
{
    let s = SCALE as int;
    assert(0 <= x * s <= (x + 1) * s) by (nonlinear_arith)
        requires 0 <= x, s > 0;
    vstd::arithmetic::div_mod::lemma_div_is_ordered(x * s, (x + 1) * s, w);
    vstd::arithmetic::div_mod::lemma_div_pos_is_pos(x * s, w);
}

/// The sub-pixel coordinate `x / w` of the image, in fixed point.
fn sub_coord(x: u32, w: u32) -> (r: i64)
    requires
        1 <= w,
        x <= w,
    ensures
        r == tdiv(x as int * (SCALE as int), w as int),
        0 <= r <= SCALE,
{
    proof {
        let xi = x as int;
        let wi = w as int;
        let s = SCALE as int;
        assert(0 <= xi * s <= wi * s) by (nonlinear_arith)
            requires 0 <= xi <= wi, s > 0;
        vstd::arithmetic::div_mod::lemma_div_pos_is_pos(xi * s, wi);
        vstd::arithmetic::div_mod::lemma_div_is_ordered(xi * s, wi * s, wi);
        vstd::arithmetic::div_mod::lemma_div_multiples_vanish(s, wi);
        assert(wi * s == s * wi) by (nonlinear_arith);
    }
    ((x as i64) * SCALE) / (w as i64)
}

/// A jittered coordinate stays inside its pixel.
proof fn lemma_jitter(lo: int, hi: int, r: int)
    requires
        0 <= lo <= hi <= SCALE as int,
        0 <= r <= SCALE as int,
    ensures
        0 <= fxmul(r, hi - lo) <= hi - lo,
        lo <= lo + fxmul(r, hi - lo) <= SCALE as int,
{
    let s = SCALE as int;
    assert(0 <= r * (hi - lo) <= s * (hi - lo)) by (nonlinear_arith)
        requires 0 <= r <= s, 0 <= hi - lo;
    vstd::arithmetic::div_mod::lemma_div_pos_is_pos(r * (hi - lo), s);
    vstd::arithmetic::div_mod::lemma_div_is_ordered(r * (hi - lo), s * (hi - lo), s);
    vstd::arithmetic::div_mod::lemma_div_multiples_vanish(hi - lo, s);
}

/// An average of bounded samples is a bounded channel.
proof fn lemma_sample_avg(sum: int, n: int)
    requires
        1 <= n,
        0 <= sum <= n * (SCALE as int),
    ensures
        0 <= tdiv(sum, n) <= SCALE as int,
{
    vstd::arithmetic::div_mod::lemma_div_pos_is_pos(sum, n);
    vstd::arithmetic::div_mod::lemma_div_is_ordered(sum, n * (SCALE as int), n);
    vstd::arithmetic::div_mod::lemma_div_multiples_vanish(SCALE as int, n);
    assert(n * (SCALE as int) == (SCALE as int) * n) by (nonlinear_arith);
}

/// The live estimate of the finish time: elapsed time scaled by the
/// pixels still to attempt over the pixels freshly computed.
pub open spec fn spec_eta_ms(elapsed_ms: int, seen: int, worked: int, total: int) -> int {
    let skipped: int = if worked > 0 && seen > worked {
        seen - worked
    } else {
        0
    };
    if worked > 0 {
        tdiv(elapsed_ms * (total - skipped), worked)
    } else {
        elapsed_ms * (total - skipped)
    }
}

/// Extrapolates the remaining render time linearly.
pub fn eta_ms(elapsed_ms: i64, seen: u64, worked: u64, total: u64) -> (r: i64)
    requires
        0 <= elapsed_ms <= 0x4000_0000,
        worked <= seen <= total <= 0x1_0000_0000,
    ensures
        r == spec_eta_ms(elapsed_ms as int, seen as int, worked as int, total as int),
        r >= 0,
{
    let skipped: u64 = if worked > 0 && seen > worked {
        seen - worked
    } else {
        0
    };
    proof {
        lemma_mul_bound(elapsed_ms as int, (total - skipped) as int,
            0x4000_0000, 0x1_0000_0000int);
        assert(elapsed_ms as int * ((total - skipped) as int) >= 0) by (nonlinear_arith)
            requires elapsed_ms >= 0, (total - skipped) as int >= 0;
        if worked > 0 {
            vstd::arithmetic::div_mod::lemma_div_pos_is_pos(
                elapsed_ms as int * ((total - skipped) as int), worked as int);
            crate::fx::lemma_tdiv_shrinks(
                elapsed_ms as int * ((total - skipped) as int), worked as int);
        }
    }
    let work: i128 = (elapsed_ms as i128) * ((total - skipped) as i128);
    if worked > 0 {
        (work / (worked as i128)) as i64
    } else {
        work as i64
    }
}

} // verus!
