//! The camera: eye, screen, the angular image-plane mapping, and the
//! ground footprint it spans.

use vstd::prelude::*;
use crate::vec3::{Vec3, bounded, sq_len_raw, spec_mix1};
use crate::fx::{SCALE, tdiv, fxmul, fxdiv, sqrt_floor, isqrt, mul_fx, div_fx,
    lemma_mul_bound, lemma_tdiv_bound, lemma_tdiv_shrinks};
use crate::ray::{Ray, T_MAX, ORIGIN_LIMIT, WORLD, STEP};
use crate::object::Plan;

verus! {

/// Half pi, in fixed-point radians.
pub const HALF_PI: i64 = 1608;

/// Largest angle the series approximations accept.
pub const ANGLE_LIMIT: i64 = 0x10000;

/// The truncated Maclaurin series for the sine, in fixed point.
pub open spec fn spec_sin(a: int) -> int {
    a - tdiv(a * a * a, 6291456) + tdiv(a * a * a * a * a, 131941395333120)
}

/// The truncated Maclaurin series for the cosine, in fixed point.
pub open spec fn spec_cos(a: int) -> int {
    SCALE as int - tdiv(a * a, 2048) + tdiv(a * a * a * a, 25769803776)
}

/// The sine of a fixed-point angle, by a truncated series.
pub fn sin_fx(a: i64) -> (r: i64)
    requires
        -ANGLE_LIMIT <= a <= ANGLE_LIMIT,
    ensures
        r == spec_sin(a as int),
        -0x8_0000_0000 <= r <= 0x8_0000_0000,
{
    proof {
        lemma_mul_bound(a as int, a as int, 0x10000, 0x10000int);
        lemma_mul_bound(a as int * a as int, a as int, 0x10000int * 0x10000, 0x10000int);
        lemma_mul_bound(a as int * a as int * a as int, a as int,
            0x10000int * 0x10000 * 0x10000, 0x10000int);
        lemma_mul_bound(a as int * a as int * a as int * a as int, a as int,
            0x10000int * (0x10000 * 0x10000 * 0x10000), 0x10000int);
        lemma_tdiv_bound(a as int * a as int * a as int, 6291456,
            0x10000int * 0x10000 * 0x10000);
        lemma_tdiv_bound(a as int * a as int * a as int * a as int * a as int,
            131941395333120, 0x10000int * (0x10000 * (0x10000 * 0x10000 * 0x10000)));
    }
    let a128 = a as i128;
    let t3: i128 = (a128 * a128 * a128) / 6291456;
    let t5: i128 = (a128 * a128 * a128 * a128 * a128) / 131941395333120;
    (a128 - t3 + t5) as i64
}

/// The cosine of a fixed-point angle, by a truncated series.
pub fn cos_fx(a: i64) -> (r: i64)
    requires
        -ANGLE_LIMIT <= a <= ANGLE_LIMIT,
    ensures
        r == spec_cos(a as int),
        -0x8_0000_0000 <= r <= 0x8_0000_0000,
{
    proof {
        lemma_mul_bound(a as int, a as int, 0x10000, 0x10000int);
        lemma_mul_bound(a as int * a as int, a as int, 0x10000int * 0x10000, 0x10000int);
        lemma_mul_bound(a as int * a as int * a as int, a as int,
            0x10000int * 0x10000 * 0x10000, 0x10000int);
        lemma_tdiv_bound(a as int * a as int, 2048, 0x10000int * 0x10000);
        lemma_tdiv_bound(a as int * a as int * a as int * a as int,
            25769803776, 0x10000int * (0x10000 * 0x10000 * 0x10000));
    }
    let a128 = a as i128;
    let t2: i128 = (a128 * a128) / 2048;
    let t4: i128 = (a128 * a128 * a128 * a128) / 25769803776;
    ((SCALE as i128) - t2 + t4) as i64
}

/// A vector normalized when it has a length, else a fixed fallback.
pub open spec fn spec_safe_norm(v: Vec3, fallback: Vec3) -> Vec3 {
    if sq_len_raw(v) > 0 {
        v.spec_normalized()
    } else {
        fallback
    }
}

/// Normalizes `v`, falling back when the vector has no direction.
fn safe_normalized(v: Vec3, fallback: Vec3) -> (r: Vec3)
    requires
        bounded(v, crate::vec3::COMP_LIMIT as int),
        bounded(fallback, SCALE as int),
    ensures
        r == spec_safe_norm(v, fallback),
        bounded(r, SCALE as int),
{
    let sq = v.length_sq_raw();
    if sq > 0 {
        v.to_normalized()
    } else {
        fallback
    }
}

#[derive(Clone, Copy, Debug)]
pub struct Eye {
    pub origin: Vec3,
    pub direction: Vec3,
}

#[derive(Clone, Copy, Debug)]
pub struct Screen {
    pub width: u32,
    pub height: u32,
}

/// Largest eye-direction component accepted by the camera.
pub const EYE_DIR_LIMIT: i64 = 0x4000;

#[derive(Clone, Debug)]
pub struct RayCtx {
    pub aspect_ratio: i64,
    pub eye: Eye,
    pub screen: Screen,
    pub w: Vec3,
    pub b: Vec3,
    pub v: Vec3,
    pub c: Vec3,
    pub width: i64,
    pub height: i64,
    pub with_lambertian: bool,
    pub with_shadows: bool,
}

/// The image-plane basis of an eye: the world up, the right-hand
/// vector, and the up vector, each normalized with a fallback.
pub open spec fn spec_basis(eye: Eye) -> (Vec3, Vec3, Vec3) {
    let w = Vec3 { x: 0i64, y: SCALE, z: 0i64 };
    let cb = Vec3 {
        x: tdiv(w.y * eye.direction.z - w.z * eye.direction.y, SCALE as int) as i64,
        y: tdiv(w.z * eye.direction.x - w.x * eye.direction.z, SCALE as int) as i64,
        z: tdiv(w.x * eye.direction.y - w.y * eye.direction.x, SCALE as int) as i64,
    };
    let b = spec_safe_norm(cb, Vec3 { x: SCALE, y: 0i64, z: 0i64 });
    let cv = Vec3 {
        x: tdiv(eye.direction.y * b.z - eye.direction.z * b.y, SCALE as int) as i64,
        y: tdiv(eye.direction.z * b.x - eye.direction.x * b.z, SCALE as int) as i64,
        z: tdiv(eye.direction.x * b.y - eye.direction.y * b.x, SCALE as int) as i64,
    };
    let v = spec_safe_norm(cv, Vec3 { x: 0i64, y: SCALE, z: 0i64 });
    (w, b, v)
}

impl RayCtx {
    /// What every camera guarantees after construction.
    pub open spec fn wf(self) -> bool {
        &&& bounded(self.eye.origin, WORLD as int)
        &&& bounded(self.eye.direction, EYE_DIR_LIMIT as int)
        &&& sq_len_raw(self.eye.direction) > 0
        &&& bounded(self.w, SCALE as int)
        &&& bounded(self.b, SCALE as int)
        &&& bounded(self.v, SCALE as int)
        &&& bounded(self.c, WORLD as int + EYE_DIR_LIMIT as int)
        &&& SCALE / 16 <= self.aspect_ratio <= 16 * SCALE
        &&& 1 <= self.width <= 0x10000
        &&& 1 <= self.height <= 0x10000
        &&& self.width == self.screen.width
        &&& self.height == self.screen.height
    }

    /// Derives the camera frame: two normalized basis vectors from
    /// the world up and the eye direction, and the aspect ratio.
    pub fn new(eye: &Eye, screen: &Screen, with_lambertian: bool, with_shadows: bool) -> (r: RayCtx)
        requires
            bounded(eye.origin, WORLD as int),
            bounded(eye.direction, EYE_DIR_LIMIT as int),
            sq_len_raw(eye.direction) > 0,
            1 <= screen.width <= 0x10000,
            1 <= screen.height <= 0x10000,
            screen.height <= 16 * screen.width,
            screen.width <= 16 * screen.height,
        ensures
            r.wf(),
            r.eye == *eye,
            r.screen == *screen,
            (r.w, r.b, r.v) == spec_basis(*eye),
            r.c.x == eye.origin.x + fxmul(eye.direction.x as int, SCALE as int),
            r.c.y == eye.origin.y + fxmul(eye.direction.y as int, SCALE as int),
            r.c.z == eye.origin.z + fxmul(eye.direction.z as int, SCALE as int),
            r.aspect_ratio == fxdiv(screen.width as int, screen.height as int),
            r.with_lambertian == with_lambertian,
            r.with_shadows == with_shadows,
    {
        let w = Vec3::new(0, SCALE, 0);
        proof {
            let el = EYE_DIR_LIMIT as int;
            lemma_mul_bound(w.y as int, eye.direction.z as int, SCALE as int, el);
            lemma_mul_bound(w.z as int, eye.direction.y as int, SCALE as int, el);
            lemma_mul_bound(w.z as int, eye.direction.x as int, SCALE as int, el);
            lemma_mul_bound(w.x as int, eye.direction.z as int, SCALE as int, el);
            lemma_mul_bound(w.x as int, eye.direction.y as int, SCALE as int, el);
            lemma_mul_bound(w.y as int, eye.direction.x as int, SCALE as int, el);
            lemma_tdiv_shrinks(w.y * eye.direction.z - w.z * eye.direction.y, SCALE as int);
            lemma_tdiv_shrinks(w.z * eye.direction.x - w.x * eye.direction.z, SCALE as int);
            lemma_tdiv_shrinks(w.x * eye.direction.y - w.y * eye.direction.x, SCALE as int);
        }
        let cb = w.cross_product(&eye.direction);
        let b = safe_normalized(cb, Vec3::new(SCALE, 0, 0));
        proof {
            let el = EYE_DIR_LIMIT as int;
            lemma_mul_bound(eye.direction.y as int, b.z as int, el, SCALE as int);
            lemma_mul_bound(eye.direction.z as int, b.y as int, el, SCALE as int);
            lemma_mul_bound(eye.direction.z as int, b.x as int, el, SCALE as int);
            lemma_mul_bound(eye.direction.x as int, b.z as int, el, SCALE as int);
            lemma_mul_bound(eye.direction.x as int, b.y as int, el, SCALE as int);
            lemma_mul_bound(eye.direction.y as int, b.x as int, el, SCALE as int);
            lemma_tdiv_shrinks(eye.direction.y * b.z - eye.direction.z * b.y, SCALE as int);
            lemma_tdiv_shrinks(eye.direction.z * b.x - eye.direction.x * b.z, SCALE as int);
            lemma_tdiv_shrinks(eye.direction.x * b.y - eye.direction.y * b.x, SCALE as int);
        }
        let cv = eye.direction.cross_product(&b);
        let v = safe_normalized(cv, Vec3::new(0, SCALE, 0));
        let c = eye.origin.translate(&eye.direction, SCALE);
        let width = screen.width as i64;
        let height = screen.height as i64;
        proof {
            lemma_aspect_range(width as int, height as int);
        }
        let aspect_ratio = div_fx(width, height);
        RayCtx {
            aspect_ratio,
            eye: *eye,
            screen: *screen,
            w,
            b,
            v,
            c,
            width,
            height,
            with_lambertian,
            with_shadows,
        }
    }

    /// The angular contribution of one image axis: a sine-weighted
    /// basis vector plus a cosine-weighted forward direction,
    /// normalized.
    pub open spec fn spec_swing(self, axis: Vec3, angle: int) -> Vec3 {
        let si = spec_sin(angle);
        let co = spec_cos(angle);
        let raw = Vec3 {
            x: (fxmul(si, axis.x as int) + fxmul(co, self.eye.direction.x as int)) as i64,
            y: (fxmul(si, axis.y as int) + fxmul(co, self.eye.direction.y as int)) as i64,
            z: (fxmul(si, axis.z as int) + fxmul(co, self.eye.direction.z as int)) as i64,
        };
        spec_safe_norm(raw, Vec3 { x: 0i64, y: SCALE, z: 0i64 })
    }

    fn swing(&self, axis: &Vec3, angle: i64) -> (r: Vec3)
        requires
            self.wf(),
            bounded(*axis, SCALE as int),
            -ANGLE_LIMIT <= angle <= ANGLE_LIMIT,
        ensures
            r == self.spec_swing(*axis, angle as int),
            bounded(r, SCALE as int),
    {
        let si = sin_fx(angle);
        let co = cos_fx(angle);
        proof {
            lemma_swing_bounds(si as int, axis.x as int, co as int, self.eye.direction.x as int);
            lemma_swing_bounds(si as int, axis.y as int, co as int, self.eye.direction.y as int);
            lemma_swing_bounds(si as int, axis.z as int, co as int, self.eye.direction.z as int);
        }
        let raw = Vec3::new(
            mul_fx(si, axis.x) + mul_fx(co, self.eye.direction.x),
            mul_fx(si, axis.y) + mul_fx(co, self.eye.direction.y),
            mul_fx(si, axis.z) + mul_fx(co, self.eye.direction.z),
        );
        safe_normalized(raw, Vec3::new(0, SCALE, 0))
    }

    /// The vertical angle of image coordinate `j`, compensated by the
    /// aspect ratio, and the horizontal angle of `i`: a quarter turn
    /// of field of view per axis.
    pub open spec fn spec_vangle(self, j: int) -> int {
        fxdiv(fxmul(HALF_PI as int, j - SCALE as int / 2), self.aspect_ratio as int)
    }

    pub open spec fn spec_hangle(i: int) -> int {
        fxmul(HALF_PI as int, i - SCALE as int / 2)
    }

    /// The world point on the image plane for the normalized image
    /// coordinate `(i, j)`.
    pub open spec fn spec_ij_to_screen(self, i: int, j: int) -> Vec3 {
        let v = self.spec_swing(self.v, self.spec_vangle(j));
        let h = self.spec_swing(self.b, Self::spec_hangle(i));
        Vec3 {
            x: (self.eye.origin.x + (v.x + h.x - self.eye.direction.x)) as i64,
            y: (self.eye.origin.y + (v.y + h.y - self.eye.direction.y)) as i64,
            z: (self.eye.origin.z + (v.z + h.z - self.eye.direction.z)) as i64,
        }
    }

    /// Maps a normalized image coordinate (fixed-point, `0..SCALE`
    /// inside the image) to the world point it looks at.
    pub fn ij_to_screen(&self, i: i64, j: i64) -> (r: Vec3)
        requires
            self.wf(),
            -SCALE <= i <= 2 * SCALE,
            -SCALE <= j <= 2 * SCALE,
        ensures
            r == self.spec_ij_to_screen(i as int, j as int),
            bounded(r, WORLD as int + 3 * (EYE_DIR_LIMIT as int)),
    {
        let ic = i - SCALE / 2;
        let jc = j - SCALE / 2;
        proof {
            lemma_angles(jc as int, self.aspect_ratio as int);
            lemma_angles_h(ic as int);
        }
        let vangle = div_fx(mul_fx(HALF_PI, jc), self.aspect_ratio);
        let hangle = mul_fx(HALF_PI, ic);
        let v = self.swing(&self.v, vangle);
        let h = self.swing(&self.b, hangle);
        let dir = Vec3::new(
            v.x + h.x - self.eye.direction.x,
            v.y + h.y - self.eye.direction.y,
            v.z + h.z - self.eye.direction.z,
        );
        Vec3::new(
            self.eye.origin.x + dir.x,
            self.eye.origin.y + dir.y,
            self.eye.origin.z + dir.z,
        )
    }
}

/// A swing component stays within a small multiple of the scale.
proof fn lemma_swing_bounds(si: int, ax: int, co: int, d: int)
    requires
        -0x8_0000_0000 <= si <= 0x8_0000_0000,
        -(SCALE as int) <= ax <= SCALE as int,
        -0x8_0000_0000 <= co <= 0x8_0000_0000,
        -(EYE_DIR_LIMIT as int) <= d <= EYE_DIR_LIMIT as int,
    ensures
        -0x8_0000_0000 <= fxmul(si, ax) <= 0x8_0000_0000,
        -0x80_0000_0000 <= fxmul(co, d) <= 0x80_0000_0000,
{
    lemma_mul_bound(si, ax, 0x8_0000_0000int, SCALE as int);
    lemma_tdiv_bound(si * ax, SCALE as int, 0x8_0000_0000int * (SCALE as int));
    assert((0x8_0000_0000int * (SCALE as int)) / (SCALE as int) == 0x8_0000_0000)
        by (nonlinear_arith)
        requires SCALE as int >= 1;
    lemma_mul_bound(co, d, 0x8_0000_0000int, EYE_DIR_LIMIT as int);
    lemma_tdiv_bound(co * d, SCALE as int, 0x8_0000_0000int * (EYE_DIR_LIMIT as int));
    assert((0x8_0000_0000int * (EYE_DIR_LIMIT as int)) / (SCALE as int) == 0x80_0000_0000)
        by (nonlinear_arith)
        requires SCALE as int == 1024, EYE_DIR_LIMIT as int == 0x4000;
}

/// The vertical angle stays within the series domain for any aspect
/// ratio of at least one half.
proof fn lemma_angles(jc: int, aspect: int)
    requires
        -0x600 <= jc <= 0x600,
        SCALE as int / 16 <= aspect <= 16 * (SCALE as int),
    ensures
        -ANGLE_LIMIT as int <= fxdiv(fxmul(HALF_PI as int, jc), aspect) <= ANGLE_LIMIT as int,
{
    lemma_mul_bound(HALF_PI as int, jc, 1608, 0x600int);
    lemma_tdiv_bound(HALF_PI as int * jc, SCALE as int, 1608int * 0x600);
    assert((1608int * 0x600) / (SCALE as int) == 2412) by (nonlinear_arith)
        requires SCALE as int == 1024;
    let m = fxmul(HALF_PI as int, jc);
    assert(-2412 <= m <= 2412);
    lemma_mul_bound(m, SCALE as int, 2412int, SCALE as int);
    let prod = m * (SCALE as int);
    assert(-(2412int * 1024) <= prod <= 2412int * 1024);
    if prod >= 0 {
        vstd::arithmetic::div_mod::lemma_div_pos_is_pos(prod, aspect);
        vstd::arithmetic::div_mod::lemma_div_is_ordered_by_denominator(prod, 64, aspect);
        vstd::arithmetic::div_mod::lemma_div_is_ordered(prod, 2412int * 1024, 64);
        assert((2412int * 1024) / 64 == 38592) by (nonlinear_arith);
    } else {
        vstd::arithmetic::div_mod::lemma_div_pos_is_pos(-prod, aspect);
        vstd::arithmetic::div_mod::lemma_div_is_ordered_by_denominator(-prod, 64, aspect);
        vstd::arithmetic::div_mod::lemma_div_is_ordered(-prod, 2412int * 1024, 64);
        assert((2412int * 1024) / 64 == 38592) by (nonlinear_arith);
    }
}

/// The horizontal angle stays within the series domain.
proof fn lemma_angles_h(ic: int)
    requires
        -0x600 <= ic <= 0x600,
    ensures
        -ANGLE_LIMIT as int <= fxmul(HALF_PI as int, ic) <= ANGLE_LIMIT as int,
{
    lemma_mul_bound(HALF_PI as int, ic, 1608, 0x600int);
    lemma_tdiv_bound(HALF_PI as int * ic, SCALE as int, 1608int * 0x600);
    assert((1608int * 0x600) / (SCALE as int) == 2412) by (nonlinear_arith)
        requires SCALE as int == 1024;
}

/// An aspect ratio between one sixteenth and sixteen, in fixed point.
proof fn lemma_aspect_range(w: int, h: int)
    requires
        1 <= w <= 0x10000,
        1 <= h <= 0x10000,
        h <= 16 * w,
        w <= 16 * h,
    ensures
        SCALE as int / 16 <= fxdiv(w, h) <= 16 * (SCALE as int),
{
    let s = SCALE as int;
    assert(w * s >= 0) by (nonlinear_arith)
        requires w >= 0, s >= 0;
    assert(16 * (w * s) >= h * s) by (nonlinear_arith)
        requires h <= 16 * w, s >= 0;
    assert(w * s <= h * (16 * s)) by (nonlinear_arith)
        requires w <= 16 * h, s >= 0;
    assert(h * (s / 16) * 16 <= h * s) by (nonlinear_arith)
        requires s == 1024, h >= 0;
    assert(w * s >= h * (s / 16)) by (nonlinear_arith)
        requires 16 * (w * s) >= h * s, h * (s / 16) * 16 <= h * s;
    vstd::arithmetic::div_mod::lemma_div_is_ordered(h * (s / 16), w * s, h);
    vstd::arithmetic::div_mod::lemma_div_multiples_vanish(s / 16, h);
    assert(h * (s / 16) == (s / 16) * h) by (nonlinear_arith);
    vstd::arithmetic::div_mod::lemma_div_is_ordered(w * s, h * (16 * s), h);
    vstd::arithmetic::div_mod::lemma_div_multiples_vanish(16 * s, h);
    assert(h * (16 * s) == (16 * s) * h) by (nonlinear_arith);
}

/* Footprint */

#[derive(Clone, Copy, Debug)]
pub struct Footprint {
    pub ne: Vec3,
    pub nw: Vec3,
    pub se: Vec3,
    pub sw: Vec3,
}

/// A componentwise fixed-point interpolation of two vectors.
pub open spec fn spec_mix_v(a: Vec3, b: Vec3, c: int) -> Vec3 {
    Vec3 {
        x: spec_mix1(a.x as int, b.x as int, c) as i64,
        y: spec_mix1(a.y as int, b.y as int, c) as i64,
        z: spec_mix1(a.z as int, b.z as int, c) as i64,
    }
}

/// An interpolation of bounded values stays bounded.
pub proof fn lemma_mix_bound(a: int, b: int, c: int, m: int)
    requires
        0 <= c <= SCALE as int,
        0 <= m,
        -m <= a <= m,
        -m <= b <= m,
    ensures
        -m <= spec_mix1(a, b, c) <= m,
{
    let s = SCALE as int;
    assert(-(m * s) <= a * (s - c) + b * c <= m * s) by (nonlinear_arith)
        requires 0 <= c <= s, -m <= a <= m, -m <= b <= m, s >= 1, 0 <= m;
    lemma_tdiv_bound(a * (s - c) + b * c, s, m * s);
    assert((m * s) / s == m) by (nonlinear_arith)
        requires s >= 1, m >= 0;
}

impl Footprint {
    /// Every corner of the footprint lies within reach of a ray.
    pub open spec fn wf(self) -> bool {
        &&& bounded(self.ne, ORIGIN_LIMIT as int + STEP as int)
        &&& bounded(self.nw, ORIGIN_LIMIT as int + STEP as int)
        &&& bounded(self.se, ORIGIN_LIMIT as int + STEP as int)
        &&& bounded(self.sw, ORIGIN_LIMIT as int + STEP as int)
    }

    /// A footprint small enough for exact surface arithmetic.
    pub open spec fn modest(self) -> bool {
        &&& bounded(self.ne, 0x4000_0000)
        &&& bounded(self.nw, 0x4000_0000)
        &&& bounded(self.se, 0x4000_0000)
        &&& bounded(self.sw, 0x4000_0000)
    }

    /// The world position at the bilinear coordinate `(i, j)` of the
    /// footprint quadrilateral.
    pub open spec fn spec_real_position(self, i: int, j: int) -> Vec3 {
        let e = spec_mix_v(self.se, self.ne, j);
        let w = spec_mix_v(self.sw, self.nw, j);
        spec_mix_v(w, e, i)
    }

    pub fn get_real_position(&self, i: i64, j: i64) -> (r: Vec3)
        requires
            self.wf(),
            0 <= i <= SCALE,
            0 <= j <= SCALE,
        ensures
            r == self.spec_real_position(i as int, j as int),
            bounded(r, ORIGIN_LIMIT as int + STEP as int),
    {
        proof {
            let m = ORIGIN_LIMIT as int + STEP as int;
            lemma_mix_bound(self.se.x as int, self.ne.x as int, j as int, m);
            lemma_mix_bound(self.se.y as int, self.ne.y as int, j as int, m);
            lemma_mix_bound(self.se.z as int, self.ne.z as int, j as int, m);
            lemma_mix_bound(self.sw.x as int, self.nw.x as int, j as int, m);
            lemma_mix_bound(self.sw.y as int, self.nw.y as int, j as int, m);
            lemma_mix_bound(self.sw.z as int, self.nw.z as int, j as int, m);
        }
        let e = self.se.mix(&self.ne, j);
        let w = self.sw.mix(&self.nw, j);
        proof {
            let m = ORIGIN_LIMIT as int + STEP as int;
            lemma_mix_bound(w.x as int, e.x as int, i as int, m);
            lemma_mix_bound(w.y as int, e.y as int, i as int, m);
            lemma_mix_bound(w.z as int, e.z as int, i as int, m);
        }
        w.mix(&e, i)
    }

    /// The distance between two footprint points, in fixed point.
    pub open spec fn spec_dist(a: Vec3, b: Vec3) -> int {
        sqrt_floor(
            (a.x - b.x) * (a.x - b.x) + (a.y - b.y) * (a.y - b.y) + (a.z - b.z) * (a.z - b.z),
        )
    }

    /// The footprint's surface, as a trapezoid: the height between
    /// the edge midpoints times the mean of the south and north edge
    /// lengths.
    pub open spec fn spec_surface(self) -> int {
        let south = Self::spec_dist(self.sw, self.se);
        let north = Self::spec_dist(self.nw, self.ne);
        let avg_south = Vec3 {
            x: tdiv(self.se.x + self.sw.x, 2) as i64,
            y: tdiv(self.se.y + self.sw.y, 2) as i64,
            z: tdiv(self.se.z + self.sw.z, 2) as i64,
        };
        let avg_north = Vec3 {
            x: tdiv(self.ne.x + self.nw.x, 2) as i64,
            y: tdiv(self.ne.y + self.nw.y, 2) as i64,
            z: tdiv(self.ne.z + self.nw.z, 2) as i64,
        };
        let h = Self::spec_dist(avg_south, avg_north);
        fxmul(h, south + tdiv(north - south, 2))
    }

    pub fn get_surface(&self) -> (r: i64)
        requires
            self.modest(),
        ensures
            r == self.spec_surface(),
            0 <= r <= 27021597764222976,
    {
        let south = dist_fx(&self.sw, &self.se);
        let north = dist_fx(&self.nw, &self.ne);
        let avg_south = self.se.avg(&self.sw);
        let avg_north = self.ne.avg(&self.nw);
        proof {
            lemma_avg_bounded(self.se.x as int, self.sw.x as int);
            lemma_avg_bounded(self.se.y as int, self.sw.y as int);
            lemma_avg_bounded(self.se.z as int, self.sw.z as int);
            lemma_avg_bounded(self.ne.x as int, self.nw.x as int);
            lemma_avg_bounded(self.ne.y as int, self.nw.y as int);
            lemma_avg_bounded(self.ne.z as int, self.nw.z as int);
        }
        let h = dist_fx(&avg_south, &avg_north);
        proof {
            lemma_mid_edge(south as int, north as int);
            lemma_mul_bound(h as int, south as int + tdiv(north as int - south as int, 2),
                0x1_0000_0000int, 0x1_8000_0000int);
            lemma_tdiv_bound(
                h as int * (south as int + tdiv(north as int - south as int, 2)), SCALE as int,
                0x1_0000_0000int * 0x1_8000_0000);
            assert((0x1_0000_0000int * 0x1_8000_0000) / 1024 == 27021597764222976)
                by (nonlinear_arith);
            vstd::arithmetic::div_mod::lemma_div_pos_is_pos(
                h as int * (south as int + tdiv(north as int - south as int, 2)), SCALE as int);
            assert(h as int * (south as int + tdiv(north as int - south as int, 2)) >= 0)
                by (nonlinear_arith)
                requires h as int >= 0, south as int + tdiv(north as int - south as int, 2) >= 0;
        }
        mul_fx(h, south + (north - south) / 2)
    }
}

/// The mean of two nonnegative edge lengths, written as the south
/// length plus half the difference, stays between zero and one and a
/// half times the edge bound.
proof fn lemma_mid_edge(south: int, north: int)
    requires
        0 <= south <= 0x1_0000_0000,
        0 <= north <= 0x1_0000_0000,
    ensures
        0 <= south + tdiv(north - south, 2) <= 0x1_8000_0000,
{
    if north >= south {
        lemma_tdiv_bound(north - south, 2, 0x1_0000_0000);
        vstd::arithmetic::div_mod::lemma_div_pos_is_pos(north - south, 2);
    } else {
        crate::fx::lemma_tdiv_shrinks(north - south, 2);
    }
}

/// The midpoint of two bounded coordinates stays bounded.
proof fn lemma_avg_bounded(a: int, b: int)
    requires
        -0x4000_0000 <= a <= 0x4000_0000,
        -0x4000_0000 <= b <= 0x4000_0000,
    ensures
        -0x4000_0000 <= tdiv(a + b, 2) <= 0x4000_0000,
{
    lemma_tdiv_bound(a + b, 2, 0x8000_0000);
    assert(0x8000_0000int / 2 == 0x4000_0000);
}

/// The distance between two bounded points: the root of the raw
/// squared distance.
pub fn dist_fx(a: &Vec3, b: &Vec3) -> (r: i64)
    requires
        bounded(*a, 0x4000_0000),
        bounded(*b, 0x4000_0000),
    ensures
        r == Footprint::spec_dist(*a, *b),
        0 <= r <= 0x1_0000_0000,
{
    let dx: i128 = (a.x as i128) - (b.x as i128);
    let dy: i128 = (a.y as i128) - (b.y as i128);
    let dz: i128 = (a.z as i128) - (b.z as i128);
    proof {
        lemma_mul_bound(dx as int, dx as int, 0x8000_0000int, 0x8000_0000int);
        lemma_mul_bound(dy as int, dy as int, 0x8000_0000int, 0x8000_0000int);
        lemma_mul_bound(dz as int, dz as int, 0x8000_0000int, 0x8000_0000int);
        assert(dx * dx >= 0 && dy * dy >= 0 && dz * dz >= 0) by (nonlinear_arith);
    }
    let sq: i128 = dx * dx + dy * dy + dz * dz;
    let root = isqrt(sq as u128);
    proof {
        let r = root as int;
        assert(r * r <= sq as int);
        assert(r <= 0x1_0000_0000) by (nonlinear_arith)
            requires
                r * r <= sq as int,
                sq as int <= 3 * (0x8000_0000int * 0x8000_0000),
                r >= 0;
    }
    root as i64
}

impl RayCtx {
    /// The corner coordinates used to over-cover the image when the
    /// footprint is cast: a tenth of the image outside each border.
    pub open spec fn spec_footprint_corner(self, floor: Plan, i: int, j: int) -> Vec3 {
        let r = self.spec_ray_new(i, j, false);
        match floor.spec_hit(r, 0, T_MAX as int) {
            Option::Some(h) => h.p,
            Option::None => Vec3 { x: i64::MAX, y: i64::MAX, z: i64::MAX },
        }
    }

    /// The ray through image coordinate `(i, j)`: from the eye toward
    /// the mapped screen point, normalized.
    pub open spec fn spec_ray_new(self, i: int, j: int, is_light: bool) -> Ray {
        let sp = self.spec_ij_to_screen(i, j);
        let d = Vec3 {
            x: (sp.x - self.eye.origin.x) as i64,
            y: (sp.y - self.eye.origin.y) as i64,
            z: (sp.z - self.eye.origin.z) as i64,
        };
        let d0 = spec_safe_norm(d, Vec3 { x: 0i64, y: SCALE, z: 0i64 });
        let dir = if d0.x == 0 && d0.y == 0 && d0.z == 0 {
            Vec3 { x: 0i64, y: SCALE, z: 0i64 }
        } else {
            d0
        };
        Ray { origin: self.eye.origin, direction: dir, is_light }
    }

    /// Casts the four over-covering corner rays against the floor and
    /// records where they land; a missed corner is infinitely far.
    pub fn get_footprint(&self, floor: &Plan) -> (r: Footprint)
        requires
            self.wf(),
            floor.wf(),
        ensures
            r.ne == self.spec_footprint_corner(*floor, 1126, 1126),
            r.nw == self.spec_footprint_corner(*floor, -102, 1126),
            r.se == self.spec_footprint_corner(*floor, 1126, -102),
            r.sw == self.spec_footprint_corner(*floor, -102, -102),
    {
        Footprint {
            ne: self.footprint_corner(floor, 1126, 1126),
            nw: self.footprint_corner(floor, -102, 1126),
            se: self.footprint_corner(floor, 1126, -102),
            sw: self.footprint_corner(floor, -102, -102),
        }
    }

    fn footprint_corner(&self, floor: &Plan, i: i64, j: i64) -> (r: Vec3)
        requires
            self.wf(),
            floor.wf(),
            -SCALE <= i <= 2 * SCALE,
            -SCALE <= j <= 2 * SCALE,
        ensures
            r == self.spec_footprint_corner(*floor, i as int, j as int),
    {
        let ray = self.ray_new(i, j, false);
        let h = floor.hits(&ray, 0, T_MAX);
        if let Some(hit) = h {
            hit.p
        } else {
            Vec3::infinity()
        }
    }

    /// Builds the ray through image coordinate `(i, j)`.
    pub(crate) fn ray_new(&self, i: i64, j: i64, is_light: bool) -> (r: Ray)
        requires
            self.wf(),
            -SCALE <= i <= 2 * SCALE,
            -SCALE <= j <= 2 * SCALE,
        ensures
            r == self.spec_ray_new(i as int, j as int, is_light),
            r.wf(),
            bounded(r.origin, WORLD as int),
    {
        let sp = self.ij_to_screen(i, j);
        let d = self.eye.origin.to(&sp);
        let dn0 = safe_normalized(d, Vec3::new(0, SCALE, 0));
        let dn = if dn0.x == 0 && dn0.y == 0 && dn0.z == 0 {
            Vec3::new(0, SCALE, 0)
        } else {
            dn0
        };
        proof {
            assert(sq_len_raw(dn) > 0) by (nonlinear_arith)
                requires
                    sq_len_raw(dn) == dn.x * dn.x + dn.y * dn.y + dn.z * dn.z,
                    dn.x != 0 || dn.y != 0 || dn.z != 0;
        }
        Ray { origin: self.eye.origin, direction: dn, is_light }
    }
}

impl Ray {
    /// The camera ray through image coordinate `(i, j)`, with `(0, 0)`
    /// at the bottom left and `SCALE` one image extent.
    pub fn new(ctx: &RayCtx, i: i64, j: i64, is_light: bool) -> (r: Ray)
        requires
            ctx.wf(),
            -SCALE <= i <= 2 * SCALE,
            -SCALE <= j <= 2 * SCALE,
        ensures
            r == ctx.spec_ray_new(i as int, j as int, is_light),
            r.wf(),
            bounded(r.origin, WORLD as int),
    {
        ctx.ray_new(i, j, is_light)
    }
}

} // verus!
