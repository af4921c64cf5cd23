//! Three-component vectors over fixed-point scalars, used as points,
//! directions and RGB colors, plus the color/pixel conversions.

use vstd::prelude::*;
use crate::fx::{SCALE, tdiv, fxmul, fxdiv, sqrt_floor, is_isqrt, isqrt, mul_fx, div_fx,
    lemma_tdiv_bound};

verus! {

/// Component magnitude below which squared lengths and dot products
/// are free of 128-bit overflow.
pub const COMP_LIMIT: i64 = 0x4000_0000_0000_0000;

#[derive(Clone, Copy, Debug, PartialEq, Eq, Structural)]
pub struct Vec3 {
    pub x: i64,
    pub y: i64,
    pub z: i64,
}

/// `a` fits in an `i64`.
pub open spec fn in64(a: int) -> bool {
    i64::MIN <= a <= i64::MAX
}

/// Every component of `v` has magnitude at most `m`.
pub open spec fn bounded(v: Vec3, m: int) -> bool {
    -m <= v.x <= m && -m <= v.y <= m && -m <= v.z <= m
}

/// The squared length of `v`, before rescaling (units of `SCALE^2`).
pub open spec fn sq_len_raw(v: Vec3) -> int {
    v.x * v.x + v.y * v.y + v.z * v.z
}

/// The fixed-point dot product of `a` and `b`.
pub open spec fn spec_dot(a: Vec3, b: Vec3) -> int {
    tdiv(a.x * b.x + a.y * b.y + a.z * b.z, SCALE as int)
}

/// The fixed-point squared distance between `a` and `p`.
pub open spec fn spec_len_sq_to(a: Vec3, p: Vec3) -> int {
    tdiv(
        (a.x - p.x) * (a.x - p.x) + (a.y - p.y) * (a.y - p.y) + (a.z - p.z) * (a.z - p.z),
        SCALE as int,
    )
}

/// The fixed-point linear interpolation `a*(1-c) + b*c`, one component.
pub open spec fn spec_mix1(a: int, b: int, c: int) -> int {
    tdiv(a * (SCALE as int - c) + b * c, SCALE as int)
}

/// The componentwise fixed-point product of two vectors.
pub open spec fn spec_multv(a: Vec3, b: Vec3) -> Vec3 {
    Vec3 {
        x: fxmul(a.x as int, b.x as int) as i64,
        y: fxmul(a.y as int, b.y as int) as i64,
        z: fxmul(a.z as int, b.z as int) as i64,
    }
}

impl Vec3 {
    pub fn new(x: i64, y: i64, z: i64) -> (r: Vec3)
        ensures
            r == (Vec3 { x, y, z }),
    {
        Vec3 { x, y, z }
    }

    pub fn origin() -> (r: Vec3)
        ensures
            r == (Vec3 { x: 0i64, y: 0i64, z: 0i64 }),
    {
        Vec3 { x: 0, y: 0, z: 0 }
    }

    /// The sentinel point "further than everything".
    pub fn infinity() -> (r: Vec3)
        ensures
            r == (Vec3 { x: i64::MAX, y: i64::MAX, z: i64::MAX }),
    {
        Vec3 { x: i64::MAX, y: i64::MAX, z: i64::MAX }
    }

    /// Snaps components of magnitude at most `eps` to exactly zero.
    pub fn new_clean(&self, eps: i64) -> (r: Vec3)
        requires
            eps >= 0,
        ensures
            r.x == if -eps <= self.x <= eps { 0int } else { self.x as int },
            r.y == if -eps <= self.y <= eps { 0int } else { self.y as int },
            r.z == if -eps <= self.z <= eps { 0int } else { self.z as int },
    {
        let cx: i64 = if -eps <= self.x && self.x <= eps { 0 } else { self.x };
        let cy: i64 = if -eps <= self.y && self.y <= eps { 0 } else { self.y };
        let cz: i64 = if -eps <= self.z && self.z <= eps { 0 } else { self.z };
        Vec3 { x: cx, y: cy, z: cz }
    }

    /// The raw squared length (units of `SCALE^2`), exact in 128 bits.
    fn sq_len_raw_i128(&self) -> (r: i128)
        requires
            bounded(*self, COMP_LIMIT as int),
        ensures
            r == sq_len_raw(*self),
            r >= 0,
    {
        proof {
            let cl = COMP_LIMIT as int;
            assert(0 <= (self.x as int) * (self.x as int) <= cl * cl) by (nonlinear_arith)
                requires -cl <= self.x as int <= cl;
            assert(0 <= (self.y as int) * (self.y as int) <= cl * cl) by (nonlinear_arith)
                requires -cl <= self.y as int <= cl;
            assert(0 <= (self.z as int) * (self.z as int) <= cl * cl) by (nonlinear_arith)
                requires -cl <= self.z as int <= cl;
        }
        let xx: i128 = (self.x as i128) * (self.x as i128);
        let yy: i128 = (self.y as i128) * (self.y as i128);
        let zz: i128 = (self.z as i128) * (self.z as i128);
        xx + yy + zz
    }

    /// The raw squared length, exposed for geometric predicates.
    pub fn length_sq_raw(&self) -> (r: i128)
        requires
            bounded(*self, COMP_LIMIT as int),
        ensures
            r == sq_len_raw(*self),
            r >= 0,
    {
        self.sq_len_raw_i128()
    }

    /// Scales `self` to length one (`SCALE` units), rounding toward zero.
    pub fn normalize(&mut self)
        requires
            bounded(*old(self), COMP_LIMIT as int),
            sq_len_raw(*old(self)) > 0,
        ensures
            *final(self) == old(self).spec_normalized(),
            bounded(*final(self), SCALE as int),
    {
        let r = self.to_normalized();
        *self = r;
    }

    /// The normalized form of `v`: each component is `c * SCALE / |v|`
    /// with `|v|` the integer square root of the raw squared length.
    pub open spec fn spec_normalized(self) -> Vec3 {
        let n = sqrt_floor(sq_len_raw(self));
        Vec3 {
            x: tdiv(self.x * (SCALE as int), n) as i64,
            y: tdiv(self.y * (SCALE as int), n) as i64,
            z: tdiv(self.z * (SCALE as int), n) as i64,
        }
    }

    /// A vector built from components and normalized at once.
    pub fn new_normalized(x: i64, y: i64, z: i64) -> (r: Vec3)
        requires
            bounded(Vec3 { x, y, z }, COMP_LIMIT as int),
            sq_len_raw(Vec3 { x, y, z }) > 0,
        ensures
            r == (Vec3 { x, y, z }).spec_normalized(),
            bounded(r, SCALE as int),
    {
        let v = Vec3 { x, y, z };
        v.to_normalized()
    }

    pub fn to_normalized(&self) -> (r: Vec3)
        requires
            bounded(*self, COMP_LIMIT as int),
            sq_len_raw(*self) > 0,
        ensures
            r == self.spec_normalized(),
            bounded(r, SCALE as int),
    {
        let sq: i128 = self.sq_len_raw_i128();
        let squ: u128 = sq as u128;
        let n: u128 = isqrt(squ);
        proof {
            let ni = n as int;
            let cl = COMP_LIMIT as int;
            assert(squ as int == sq as int);
            assert(is_isqrt(sq as int, ni));
            assert(ni >= 1) by {
                if ni == 0 {
                    assert((ni + 1) * (ni + 1) == 1) by (nonlinear_arith)
                        requires ni == 0;
                    assert((sq as int) < 1);
                    assert(false);
                }
            }
            assert(0 <= (self.x as int) * (self.x as int) <= cl * cl) by (nonlinear_arith)
                requires -cl <= self.x as int <= cl;
            assert(0 <= (self.y as int) * (self.y as int) <= cl * cl) by (nonlinear_arith)
                requires -cl <= self.y as int <= cl;
            assert(0 <= (self.z as int) * (self.z as int) <= cl * cl) by (nonlinear_arith)
                requires -cl <= self.z as int <= cl;
            lemma_comp_le_sqrt(self.x as int, sq_len_raw(*self), ni);
            lemma_comp_le_sqrt(self.y as int, sq_len_raw(*self), ni);
            lemma_comp_le_sqrt(self.z as int, sq_len_raw(*self), ni);
            // the root itself fits in an i64
            assert(sq as int <= 3 * (cl * cl));
            assert(ni < 0x8000_0000_0000_0000) by (nonlinear_arith)
                requires ni * ni <= sq as int, sq as int <= 3 * ((COMP_LIMIT as int) * (COMP_LIMIT as int)), ni >= 0;
        }
        let nn: i64 = n as i64;
        let rx = div_fx(self.x, nn);
        let ry = div_fx(self.y, nn);
        let rz = div_fx(self.z, nn);
        Vec3 { x: rx, y: ry, z: rz }
    }

    /// The fixed-point cross product of `self` and `v`.
    pub fn cross_product(&self, v: &Vec3) -> (r: Vec3)
        requires
            bounded(*self, COMP_LIMIT as int),
            bounded(*v, COMP_LIMIT as int),
            in64(tdiv(self.y * v.z - self.z * v.y, SCALE as int)),
            in64(tdiv(self.z * v.x - self.x * v.z, SCALE as int)),
            in64(tdiv(self.x * v.y - self.y * v.x, SCALE as int)),
        ensures
            r.x == tdiv(self.y * v.z - self.z * v.y, SCALE as int),
            r.y == tdiv(self.z * v.x - self.x * v.z, SCALE as int),
            r.z == tdiv(self.x * v.y - self.y * v.x, SCALE as int),
    {
        proof {
            lemma_prod_bound(self.y as int, v.z as int, COMP_LIMIT as int);
            lemma_prod_bound(self.z as int, v.y as int, COMP_LIMIT as int);
            lemma_prod_bound(self.z as int, v.x as int, COMP_LIMIT as int);
            lemma_prod_bound(self.x as int, v.z as int, COMP_LIMIT as int);
            lemma_prod_bound(self.x as int, v.y as int, COMP_LIMIT as int);
            lemma_prod_bound(self.y as int, v.x as int, COMP_LIMIT as int);
        }
        let cx: i128 = (self.y as i128) * (v.z as i128) - (self.z as i128) * (v.y as i128);
        let cy: i128 = (self.z as i128) * (v.x as i128) - (self.x as i128) * (v.z as i128);
        let cz: i128 = (self.x as i128) * (v.y as i128) - (self.y as i128) * (v.x as i128);
        Vec3 {
            x: (cx / (SCALE as i128)) as i64,
            y: (cy / (SCALE as i128)) as i64,
            z: (cz / (SCALE as i128)) as i64,
        }
    }

    /// The fixed-point dot product of `self` and `v`.
    pub fn dot_product(&self, v: &Vec3) -> (r: i64)
        requires
            bounded(*self, COMP_LIMIT as int),
            bounded(*v, COMP_LIMIT as int),
            in64(spec_dot(*self, *v)),
        ensures
            r == spec_dot(*self, *v),
    {
        proof {
            lemma_prod_bound(self.x as int, v.x as int, COMP_LIMIT as int);
            lemma_prod_bound(self.y as int, v.y as int, COMP_LIMIT as int);
            lemma_prod_bound(self.z as int, v.z as int, COMP_LIMIT as int);
        }
        let s: i128 = (self.x as i128) * (v.x as i128) + (self.y as i128) * (v.y as i128)
            + (self.z as i128) * (v.z as i128);
        (s / (SCALE as i128)) as i64
    }

    /// `self + v * d`, with the product rounded once.
    pub fn translate(&self, v: &Vec3, d: i64) -> (r: Vec3)
        requires
            in64(fxmul(v.x as int, d as int)),
            in64(fxmul(v.y as int, d as int)),
            in64(fxmul(v.z as int, d as int)),
            in64(self.x + fxmul(v.x as int, d as int)),
            in64(self.y + fxmul(v.y as int, d as int)),
            in64(self.z + fxmul(v.z as int, d as int)),
        ensures
            r.x == self.x + fxmul(v.x as int, d as int),
            r.y == self.y + fxmul(v.y as int, d as int),
            r.z == self.z + fxmul(v.z as int, d as int),
    {
        Vec3 {
            x: self.x + mul_fx(v.x, d),
            y: self.y + mul_fx(v.y, d),
            z: self.z + mul_fx(v.z, d),
        }
    }

    /// The fixed-point squared length of `self`.
    pub fn length_sq(&self) -> (r: i64)
        requires
            bounded(*self, COMP_LIMIT as int),
            in64(tdiv(sq_len_raw(*self), SCALE as int)),
        ensures
            r == tdiv(sq_len_raw(*self), SCALE as int),
            r >= 0,
    {
        let s = self.sq_len_raw_i128();
        proof {
            vstd::arithmetic::div_mod::lemma_div_pos_is_pos(s as int, SCALE as int);
        }
        (s / (SCALE as i128)) as i64
    }

    /// The fixed-point squared distance from `self` to `p`.
    pub fn length_sq_to(&self, p: &Vec3) -> (r: i64)
        requires
            bounded(*self, COMP_LIMIT as int),
            bounded(*p, COMP_LIMIT as int),
            in64(spec_len_sq_to(*self, *p)),
        ensures
            r == spec_len_sq_to(*self, *p),
            r >= 0,
    {
        let dx: i128 = (self.x as i128) - (p.x as i128);
        let dy: i128 = (self.y as i128) - (p.y as i128);
        let dz: i128 = (self.z as i128) - (p.z as i128);
        proof {
            let l2 = 2 * (COMP_LIMIT as int);
            assert(dx * dx >= 0 && dx * dx <= l2 * l2) by (nonlinear_arith)
                requires -l2 <= dx <= l2;
            assert(dy * dy >= 0 && dy * dy <= l2 * l2) by (nonlinear_arith)
                requires -l2 <= dy <= l2;
            assert(dz * dz >= 0 && dz * dz <= l2 * l2) by (nonlinear_arith)
                requires -l2 <= dz <= l2;
            vstd::arithmetic::div_mod::lemma_div_pos_is_pos(
                dx * dx + dy * dy + dz * dz, SCALE as int);
        }
        let s: i128 = dx * dx + dy * dy + dz * dz;
        (s / (SCALE as i128)) as i64
    }

    /// The vector from `self` to `dest`.
    pub fn to(&self, dest: &Vec3) -> (r: Vec3)
        requires
            in64(dest.x - self.x),
            in64(dest.y - self.y),
            in64(dest.z - self.z),
        ensures
            r.x == dest.x - self.x,
            r.y == dest.y - self.y,
            r.z == dest.z - self.z,
    {
        Vec3 {
            x: dest.x - self.x,
            y: dest.y - self.y,
            z: dest.z - self.z,
        }
    }

    /// The midpoint of `self` and `with`, rounded toward zero.
    pub fn avg(&self, with: &Vec3) -> (r: Vec3)
        requires
            in64(with.x + self.x),
            in64(with.y + self.y),
            in64(with.z + self.z),
        ensures
            r.x == tdiv(with.x + self.x, 2),
            r.y == tdiv(with.y + self.y, 2),
            r.z == tdiv(with.z + self.z, 2),
    {
        let sx: i128 = (with.x as i128) + (self.x as i128);
        let sy: i128 = (with.y as i128) + (self.y as i128);
        let sz: i128 = (with.z as i128) + (self.z as i128);
        Vec3 {
            x: (sx / 2) as i64,
            y: (sy / 2) as i64,
            z: (sz / 2) as i64,
        }
    }

    /// The point at parameter `t` along direction `self` from `from`.
    pub fn at(&self, from: &Vec3, t: i64) -> (r: Vec3)
        requires
            in64(fxmul(t as int, self.x as int)),
            in64(fxmul(t as int, self.y as int)),
            in64(fxmul(t as int, self.z as int)),
            in64(from.x + fxmul(t as int, self.x as int)),
            in64(from.y + fxmul(t as int, self.y as int)),
            in64(from.z + fxmul(t as int, self.z as int)),
        ensures
            r.x == from.x + fxmul(t as int, self.x as int),
            r.y == from.y + fxmul(t as int, self.y as int),
            r.z == from.z + fxmul(t as int, self.z as int),
    {
        Vec3 {
            x: from.x + mul_fx(t, self.x),
            y: from.y + mul_fx(t, self.y),
            z: from.z + mul_fx(t, self.z),
        }
    }

    pub fn addv(&self, b: &Vec3) -> (r: Vec3)
        requires
            in64(self.x + b.x),
            in64(self.y + b.y),
            in64(self.z + b.z),
        ensures
            r.x == self.x + b.x,
            r.y == self.y + b.y,
            r.z == self.z + b.z,
    {
        Vec3 {
            x: self.x + b.x,
            y: self.y + b.y,
            z: self.z + b.z,
        }
    }

    pub fn subv(&self, b: &Vec3) -> (r: Vec3)
        requires
            in64(self.x - b.x),
            in64(self.y - b.y),
            in64(self.z - b.z),
        ensures
            r.x == self.x - b.x,
            r.y == self.y - b.y,
            r.z == self.z - b.z,
    {
        Vec3 {
            x: self.x - b.x,
            y: self.y - b.y,
            z: self.z - b.z,
        }
    }

    /// The componentwise fixed-point product of `self` and `b`.
    pub fn multv(&self, b: &Vec3) -> (r: Vec3)
        requires
            in64(fxmul(self.x as int, b.x as int)),
            in64(fxmul(self.y as int, b.y as int)),
            in64(fxmul(self.z as int, b.z as int)),
        ensures
            r.x == fxmul(self.x as int, b.x as int),
            r.y == fxmul(self.y as int, b.y as int),
            r.z == fxmul(self.z as int, b.z as int),
    {
        Vec3 {
            x: mul_fx(self.x, b.x),
            y: mul_fx(self.y, b.y),
            z: mul_fx(self.z, b.z),
        }
    }

    /// Scales `self` by the fixed-point factor `d`.
    pub fn mult(&mut self, d: i64)
        requires
            in64(fxmul(old(self).x as int, d as int)),
            in64(fxmul(old(self).y as int, d as int)),
            in64(fxmul(old(self).z as int, d as int)),
        ensures
            final(self).x == fxmul(old(self).x as int, d as int),
            final(self).y == fxmul(old(self).y as int, d as int),
            final(self).z == fxmul(old(self).z as int, d as int),
    {
        self.x = mul_fx(self.x, d);
        self.y = mul_fx(self.y, d);
        self.z = mul_fx(self.z, d);
    }

    /// Divides `self` by the fixed-point factor `d`.
    pub fn div(&mut self, d: i64)
        requires
            d != 0,
            in64(fxdiv(old(self).x as int, d as int)),
            in64(fxdiv(old(self).y as int, d as int)),
            in64(fxdiv(old(self).z as int, d as int)),
        ensures
            final(self).x == fxdiv(old(self).x as int, d as int),
            final(self).y == fxdiv(old(self).y as int, d as int),
            final(self).z == fxdiv(old(self).z as int, d as int),
    {
        self.x = div_fx(self.x, d);
        self.y = div_fx(self.y, d);
        self.z = div_fx(self.z, d);
    }

    pub fn invert(&mut self)
        requires
            old(self).x > i64::MIN,
            old(self).y > i64::MIN,
            old(self).z > i64::MIN,
        ensures
            final(self).x == -old(self).x,
            final(self).y == -old(self).y,
            final(self).z == -old(self).z,
    {
        self.x = -self.x;
        self.y = -self.y;
        self.z = -self.z;
    }

    /// Blends `self` toward `v` by the fixed-point fraction `c`.
    pub fn mixed(&mut self, v: &Vec3, c: i64)
        requires
            0 <= c <= SCALE,
            in64(spec_mix1(old(self).x as int, v.x as int, c as int)),
            in64(spec_mix1(old(self).y as int, v.y as int, c as int)),
            in64(spec_mix1(old(self).z as int, v.z as int, c as int)),
        ensures
            final(self).x == spec_mix1(old(self).x as int, v.x as int, c as int),
            final(self).y == spec_mix1(old(self).y as int, v.y as int, c as int),
            final(self).z == spec_mix1(old(self).z as int, v.z as int, c as int),
    {
        let r = self.mix(v, c);
        *self = r;
    }

    /// The blend of `self` toward `v` by the fixed-point fraction `c`.
    pub fn mix(&self, v: &Vec3, c: i64) -> (r: Vec3)
        requires
            0 <= c <= SCALE,
            in64(spec_mix1(self.x as int, v.x as int, c as int)),
            in64(spec_mix1(self.y as int, v.y as int, c as int)),
            in64(spec_mix1(self.z as int, v.z as int, c as int)),
        ensures
            r.x == spec_mix1(self.x as int, v.x as int, c as int),
            r.y == spec_mix1(self.y as int, v.y as int, c as int),
            r.z == spec_mix1(self.z as int, v.z as int, c as int),
    {
        proof {
            lemma_mix_fits(self.x as int, v.x as int, c as int);
            lemma_mix_fits(self.y as int, v.y as int, c as int);
            lemma_mix_fits(self.z as int, v.z as int, c as int);
        }
        let mx: i128 = (self.x as i128) * ((SCALE - c) as i128) + (v.x as i128) * (c as i128);
        let my: i128 = (self.y as i128) * ((SCALE - c) as i128) + (v.y as i128) * (c as i128);
        let mz: i128 = (self.z as i128) * ((SCALE - c) as i128) + (v.z as i128) * (c as i128);
        Vec3 {
            x: (mx / (SCALE as i128)) as i64,
            y: (my / (SCALE as i128)) as i64,
            z: (mz / (SCALE as i128)) as i64,
        }
    }
}

/// `a * (SCALE - c) + b * c` stays within 128 bits for `0 <= c <= SCALE`.
proof fn lemma_mix_fits(a: int, b: int, c: int)
    requires
        0 <= c <= SCALE as int,
        i64::MIN <= a <= i64::MAX,
        i64::MIN <= b <= i64::MAX,
    ensures
        -(0x8000_0000_0000_0000 * 1024) <= a * (SCALE as int - c) <= 0x8000_0000_0000_0000 * 1024,
        -(0x8000_0000_0000_0000 * 1024) <= b * c <= 0x8000_0000_0000_0000 * 1024,
        i128::MIN <= a * (SCALE as int - c) + b * c <= i128::MAX,
{
    let s = SCALE as int;
    assert(-(0x8000_0000_0000_0000 * 1024) <= a * (s - c) <= 0x8000_0000_0000_0000 * 1024) by (nonlinear_arith)
        requires 0 <= s - c <= 1024, -0x8000_0000_0000_0000 <= a < 0x8000_0000_0000_0000;
    assert(-(0x8000_0000_0000_0000 * 1024) <= b * c <= 0x8000_0000_0000_0000 * 1024) by (nonlinear_arith)
        requires 0 <= c <= 1024, -0x8000_0000_0000_0000 <= b < 0x8000_0000_0000_0000;
}

/// The product of two values bounded by `m` is bounded by `m * m`.
proof fn lemma_prod_bound(a: int, b: int, m: int)
    requires
        0 <= m,
        -m <= a <= m,
        -m <= b <= m,
    ensures
        -(m * m) <= a * b <= m * m,
{
    assert(-(m * m) <= a * b <= m * m) by (nonlinear_arith)
        requires 0 <= m, -m <= a <= m, -m <= b <= m;
}

/// Every component of a vector is at most the integer square root of
/// the vector's raw squared length.
proof fn lemma_comp_le_sqrt(c: int, sq: int, n: int)
    requires
        c * c <= sq,
        is_isqrt(sq, n),
        n >= 1,
    ensures
        -n <= c <= n,
        -(n * (SCALE as int)) <= c * (SCALE as int) <= n * (SCALE as int),
        -(SCALE as int) <= tdiv(c * (SCALE as int), n) <= SCALE as int,
{
    assert(-n <= c <= n) by (nonlinear_arith)
        requires c * c <= sq, sq < (n + 1) * (n + 1), n >= 0;
    assert(-(n * (SCALE as int)) <= c * (SCALE as int) <= n * (SCALE as int)) by (nonlinear_arith)
        requires -n <= c <= n, (SCALE as int) > 0;
    lemma_tdiv_bound(c * (SCALE as int), n, n * (SCALE as int));
    vstd::arithmetic::div_mod::lemma_div_multiples_vanish(SCALE as int, n);
}

impl Vec3 {
    /// A random point inside the unit sphere, by rejection sampling
    /// with a bounded number of draws; the spare draw budget runs out
    /// only with astronomically small probability, and then a fixed
    /// unit point is returned.
    pub fn random_in_unit_sphere() -> (r: Vec3)
        ensures
            bounded(r, SCALE as int),
            sq_len_raw(r) <= (SCALE as int) * (SCALE as int),
    {
        let mut k: u8 = 0;
        while k < 64
            invariant
                0 <= k <= 64,
            decreases 64 - k,
        {
            let x = crate::rng::random_below(2 * (SCALE as u64) + 1) as i64 - SCALE;
            let y = crate::rng::random_below(2 * (SCALE as u64) + 1) as i64 - SCALE;
            let z = crate::rng::random_below(2 * (SCALE as u64) + 1) as i64 - SCALE;
            let v = Vec3 { x, y, z };
            let sq = v.sq_len_raw_i128();
            if 0 < sq && sq <= (SCALE as i128) * (SCALE as i128) {
                return v;
            }
            k = k + 1;
        }
        let r = Vec3 { x: SCALE, y: 0, z: 0 };
        proof {
            assert(sq_len_raw(r) == (SCALE as int) * (SCALE as int)) by (nonlinear_arith)
                requires
                    sq_len_raw(r) == r.x * r.x + r.y * r.y + r.z * r.z,
                    r.x == SCALE as int && r.y == 0 && r.z == 0;
        }
        r
    }
}

/// One color channel as a displayable byte: values at most 0 saturate
/// to 0, values at least 1.0 saturate to 255, the rest truncate.
pub open spec fn spec_channel_byte(v: int) -> int {
    if v <= 0 {
        0
    } else if v >= SCALE as int {
        255
    } else {
        tdiv(v * 256, SCALE as int)
    }
}

/// A byte channel back as a fixed-point value in [0, 1).
pub open spec fn spec_channel_fx(b: int) -> int {
    tdiv(b * (SCALE as int), 256)
}

impl Vec3 {
    /// This color as a displayable pixel, channel by channel.
    pub fn to_rgb(&self) -> (r: (u8, u8, u8))
        ensures
            r.0 == spec_channel_byte(self.x as int),
            r.1 == spec_channel_byte(self.y as int),
            r.2 == spec_channel_byte(self.z as int),
    {
        (channel_byte(self.x), channel_byte(self.y), channel_byte(self.z))
    }

    /// The color a pixel encodes, as a vector.
    pub open spec fn spec_from_rgb(r: int, g: int, b: int) -> Vec3 {
        Vec3 {
            x: spec_channel_fx(r) as i64,
            y: spec_channel_fx(g) as i64,
            z: spec_channel_fx(b) as i64,
        }
    }

    /// The color encoded by a pixel.
    pub fn from_rgb(r: u8, g: u8, b: u8) -> (v: Vec3)
        ensures
            v == Vec3::spec_from_rgb(r as int, g as int, b as int),
            v.x == spec_channel_fx(r as int),
            v.y == spec_channel_fx(g as int),
            v.z == spec_channel_fx(b as int),
            0 <= v.x <= SCALE && 0 <= v.y <= SCALE && 0 <= v.z <= SCALE,
    {
        proof {
            lemma_channel_fx_range(r as int);
            lemma_channel_fx_range(g as int);
            lemma_channel_fx_range(b as int);
        }
        Vec3 {
            x: ((r as i64) * SCALE) / 256,
            y: ((g as i64) * SCALE) / 256,
            z: ((b as i64) * SCALE) / 256,
        }
    }
}

fn channel_byte(v: i64) -> (r: u8)
    ensures
        r == spec_channel_byte(v as int),
{
    if v <= 0 {
        0
    } else if v >= SCALE {
        255
    } else {
        proof {
            lemma_tdiv_bound(v as int * 256, SCALE as int, (SCALE as int) * 256);
            assert((SCALE as int) * 256 / (SCALE as int) == 256) by (nonlinear_arith);
            assert(tdiv(v as int * 256, SCALE as int) < 256) by {
                assert(v * 256 < SCALE as int * 256) by (nonlinear_arith)
                    requires v < SCALE as int;
                vstd::arithmetic::div_mod::lemma_div_by_multiple_is_strongly_ordered(
                    v as int * 256, (SCALE as int) * 256, 256, SCALE as int);
                vstd::arithmetic::div_mod::lemma_div_multiples_vanish(256, SCALE as int);
            }
        }
        (((v as i128) * 256) / (SCALE as i128)) as u8
    }
}

proof fn lemma_channel_fx_range(b: int)
    requires
        0 <= b <= 255,
    ensures
        0 <= spec_channel_fx(b) <= SCALE as int,
{
    lemma_tdiv_bound(b * (SCALE as int), 256, 255 * (SCALE as int));
    assert(0 <= b * (SCALE as int) <= 255 * (SCALE as int)) by (nonlinear_arith)
        requires 0 <= b <= 255, (SCALE as int) > 0;
    assert(255 * (SCALE as int) / 256 <= SCALE as int) by (nonlinear_arith);
}

/// One channel of a linear blend between two byte colors: `a` moved
/// toward `b` by the fixed-point fraction `t`.
pub open spec fn spec_mix_channel(a: int, b: int, t: int) -> int {
    a + tdiv((b - a) * t, SCALE as int)
}

/// Blends the byte color `c1` toward `c2` by the fraction `t`,
/// channel by channel.
pub fn mix_rgb(c1: (u8, u8, u8), c2: (u8, u8, u8), t: i64) -> (r: (u8, u8, u8))
    requires
        0 <= t <= SCALE,
    ensures
        r.0 == spec_mix_channel(c1.0 as int, c2.0 as int, t as int),
        r.1 == spec_mix_channel(c1.1 as int, c2.1 as int, t as int),
        r.2 == spec_mix_channel(c1.2 as int, c2.2 as int, t as int),
{
    (mix_channel(c1.0, c2.0, t), mix_channel(c1.1, c2.1, t), mix_channel(c1.2, c2.2, t))
}

fn mix_channel(a: u8, b: u8, t: i64) -> (r: u8)
    requires
        0 <= t <= SCALE,
    ensures
        r == spec_mix_channel(a as int, b as int, t as int),
{
    let d: i64 = (b as i64) - (a as i64);
    proof {
        let s = SCALE as int;
        assert(-(255 * s) <= d * t <= 255 * s) by (nonlinear_arith)
            requires -255 <= d <= 255, 0 <= t <= s, s >= 1;
        lemma_tdiv_bound(d * t, s, 255 * s);
        assert((255 * s) / s == 255) by (nonlinear_arith)
            requires s >= 1;
    }
    let m: i64 = (d * t) / SCALE;
    proof {
        let s = SCALE as int;
        if d >= 0 {
            assert(d * t >= 0) by (nonlinear_arith)
                requires d >= 0, t >= 0;
            vstd::arithmetic::div_mod::lemma_div_pos_is_pos(d * t, s);
            assert(d * t <= d * s) by (nonlinear_arith)
                requires 0 <= d, 0 <= t <= s;
            vstd::arithmetic::div_mod::lemma_div_is_ordered(d * t, d * s, s);
            assert((d * s) / s == d) by (nonlinear_arith)
                requires s >= 1;
            assert(0 <= m <= d);
        } else {
            assert(-(d * t) == (-d) * t) by (nonlinear_arith);
            assert((-d) * t >= 0) by (nonlinear_arith)
                requires d < 0, t >= 0;
            vstd::arithmetic::div_mod::lemma_div_pos_is_pos((-d) * t, s);
            assert((-d) * t <= (-d) * s) by (nonlinear_arith)
                requires d < 0, 0 <= t <= s;
            vstd::arithmetic::div_mod::lemma_div_is_ordered((-d) * t, (-d) * s, s);
            assert(((-d) * s) / s == -d) by (nonlinear_arith)
                requires s >= 1;
            assert(d <= m <= 0);
        }
    }
    (a as i64 + m) as u8
}

/// Converting a byte channel to a color value and back returns the
/// same byte, and converting a color value in [0, 1] to a byte and
/// back loses at most one quantization step (`SCALE / 256` units);
/// out-of-range values saturate to the boundary bytes.
pub proof fn lemma_rgb_round_trip(b: int, v: int)
    requires
        0 <= b <= 255,
        0 <= v <= SCALE as int,
    ensures
        spec_channel_byte(spec_channel_fx(b)) == b,
        0 <= v - spec_channel_fx(spec_channel_byte(v)) <= SCALE as int / 256,
{
    let s = SCALE as int;
    // byte -> value -> byte: the value is exactly b * (S / 256).
    assert(s == 256 * (s / 256));
    assert(b * s == (b * (s / 256)) * 256) by (nonlinear_arith)
        requires s == 256 * (s / 256);
    vstd::arithmetic::div_mod::lemma_div_multiples_vanish(b * (s / 256), 256);
    assert(spec_channel_fx(b) == b * (s / 256));
    lemma_channel_fx_range(b);
    if b == 0 {
        assert(spec_channel_byte(spec_channel_fx(b)) == b);
    } else {
        assert(b * (s / 256) > 0) by (nonlinear_arith)
            requires b >= 1, s / 256 >= 1;
        if b * (s / 256) >= s {
            // only b == 255 could come close, and 255 * (s/256) < s
            assert(255 * (s / 256) < s) by (nonlinear_arith)
                requires s == 256 * (s / 256), s / 256 >= 1;
            assert(b * (s / 256) <= 255 * (s / 256)) by (nonlinear_arith)
                requires b <= 255, s / 256 >= 0;
            assert(false);
        }
        assert((b * (s / 256)) * 256 == (b * 256) * (s / 256)) by (nonlinear_arith);
        assert(tdiv(b * (s / 256) * 256, s) == b) by {
            assert(b * (s / 256) * 256 == b * s) by (nonlinear_arith)
                requires s == 256 * (s / 256);
            vstd::arithmetic::div_mod::lemma_div_multiples_vanish(b, s);
        }
    }
    // value -> byte -> value: within one step.
    let q = spec_channel_byte(v);
    if v == 0 {
        assert(q == 0 && spec_channel_fx(0) == 0);
    } else if v >= s {
        assert(q == 255);
        assert(spec_channel_fx(255) == 255 * (s / 256));
        assert(v - 255 * (s / 256) == s - 255 * (s / 256));
        assert(s - 255 * (s / 256) == s / 256) by (nonlinear_arith)
            requires s == 256 * (s / 256);
    } else {
        // 0 < v < s: q == (v * 256) / s, and back is q * (s / 256).
        assert(q == tdiv(v * 256, s));
        assert(v * 256 >= 0);
        let qq = (v * 256) / s;
        assert(q == qq);
        vstd::arithmetic::div_mod::lemma_fundamental_div_mod(v * 256, s);
        let rem = (v * 256) % s;
        assert(0 <= rem < s);
        assert(v * 256 == s * qq + rem);
        // back = qq * (s / 256); 256 * back = qq * s
        assert(spec_channel_fx(q) == qq * (s / 256)) by {
            assert(0 <= qq * (s / 256)) by (nonlinear_arith)
                requires qq >= 0, s / 256 >= 0;
            assert(qq * s == (qq * (s / 256)) * 256) by (nonlinear_arith)
                requires s == 256 * (s / 256);
            vstd::arithmetic::div_mod::lemma_div_multiples_vanish(qq * (s / 256), 256);
        }
        let back = qq * (s / 256);
        assert(back * 256 == qq * s) by (nonlinear_arith)
            requires back == qq * (s / 256), s == 256 * (s / 256);
        assert((v - back) * 256 == rem) by (nonlinear_arith)
            requires v * 256 == s * qq + rem, back * 256 == qq * s;
        assert(0 <= v - back) by (nonlinear_arith)
            requires (v - back) * 256 == rem, rem >= 0;
        assert(v - back <= s / 256) by (nonlinear_arith)
            requires (v - back) * 256 == rem, rem < s, s == 256 * (s / 256);
    }
}

} // verus!
