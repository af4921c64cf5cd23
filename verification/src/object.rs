//! The scene primitives and their ray-intersection tests.

use vstd::prelude::*;
use crate::vec3::{Vec3, bounded, sq_len_raw, spec_dot};
use vstd::assert_seqs_equal;
use crate::fx::{SCALE, tdiv, fxmul, fxdiv, sqrt_floor, isqrt, lemma_mul_bound, lemma_tdiv_bound};
use crate::ray::{Ray, Hit, spec_at, T_MAX, DIR_LIMIT, ORIGIN_LIMIT, WORLD, STEP, EPSILON};
use crate::solver::{solve_3variable_system, spec_solution, spec_solvable, spec_row_x, spec_row_y, spec_row_z, QVec3, SOLVER_LIMIT};

verus! {

/// Largest plane-normal component: normals are unit-sized directions.
pub const NORMAL_LIMIT: i64 = 0x4000;

/// The fixed-point dot product of two vectors given by components.
pub open spec fn dot3(ax: int, ay: int, az: int, bx: int, by: int, bz: int) -> int {
    tdiv(ax * bx + ay * by + az * bz, SCALE as int)
}

/* Plan */

#[derive(Clone, Copy, Debug)]
pub struct Plan {
    pub p: Vec3,
    pub normal: Vec3,
    pub color: Vec3,
}

impl Plan {
    pub open spec fn wf(self) -> bool {
        &&& bounded(self.p, WORLD as int)
        &&& bounded(self.normal, NORMAL_LIMIT as int)
    }

    pub fn new(p: Vec3, normal: Vec3, color: (u8, u8, u8)) -> (r: Plan)
        requires
            bounded(p, WORLD as int),
            bounded(normal, NORMAL_LIMIT as int),
        ensures
            r.p == p,
            r.normal == normal,
            r.color == Vec3::spec_from_rgb(color.0 as int, color.1 as int, color.2 as int),
            r.wf(),
    {
        Plan { p, normal, color: Vec3::from_rgb(color.0, color.1, color.2) }
    }

    /// The ray parameter at which `r` meets the plane (before any
    /// facing or range test).  Written over the negated divisor: the
    /// facing test admits only negative `dn`, and truncating division
    /// satisfies `a / b == -(a / -b)`.
    pub open spec fn spec_t(self, r: Ray) -> int {
        let dn = dot3(
            r.direction.x as int, r.direction.y as int, r.direction.z as int,
            self.normal.x as int, self.normal.y as int, self.normal.z as int,
        );
        let num = dot3(
            self.p.x - r.origin.x, self.p.y - r.origin.y, self.p.z - r.origin.z,
            self.normal.x as int, self.normal.y as int, self.normal.z as int,
        );
        -tdiv(num * (SCALE as int), -dn)
    }

    /// The facing test: the ray must run against the normal.
    pub open spec fn spec_facing(self, r: Ray) -> bool {
        let dn = dot3(
            r.direction.x as int, r.direction.y as int, r.direction.z as int,
            self.normal.x as int, self.normal.y as int, self.normal.z as int,
        );
        dn < EPSILON && dn != 0
    }

    pub open spec fn spec_hits(self, r: Ray, tmin: int, tmax: int) -> Option<int> {
        if self.spec_facing(r) && tmin < self.spec_t(r) < tmax {
            Some(self.spec_t(r))
        } else {
            None
        }
    }

    /// The full hit record the intersection produces, if any.
    pub open spec fn spec_hit(self, r: Ray, tmin: int, tmax: int) -> Option<Hit> {
        match self.spec_hits(r, tmin, tmax) {
            Option::None => Option::None,
            Option::Some(t) => Option::Some(
                Hit { color: self.color, normal: self.normal, p: spec_at(r, t), t: t as i64 },
            ),
        }
    }

    /// Intersects `ray` with the plane: rejects back-facing and nearly
    /// parallel rays, then solves the linear ray-plane equation.
    pub fn hits(&self, ray: &Ray, tmin: i64, tmax: i64) -> (r: Option<Hit>)
        requires
            self.wf(),
            ray.wf(),
            0 <= tmin,
            tmax <= T_MAX,
        ensures
            r == self.spec_hit(*ray, tmin as int, tmax as int),
            r is Some <==> self.spec_hits(*ray, tmin as int, tmax as int) is Some,
            r matches Some(h) ==> {
                &&& h.t == self.spec_t(*ray)
                &&& tmin < h.t < tmax
                &&& h.p.x == ray.origin.x + fxmul(h.t as int, ray.direction.x as int)
                &&& h.p.y == ray.origin.y + fxmul(h.t as int, ray.direction.y as int)
                &&& h.p.z == ray.origin.z + fxmul(h.t as int, ray.direction.z as int)
                &&& h.normal == self.normal
                &&& h.color == self.color
                &&& bounded(h.p, ORIGIN_LIMIT as int + STEP as int)
            },
    {
        proof {
            lemma_mul_bound(ray.direction.x as int, self.normal.x as int, 0x8000, 0x4000);
            lemma_mul_bound(ray.direction.y as int, self.normal.y as int, 0x8000, 0x4000);
            lemma_mul_bound(ray.direction.z as int, self.normal.z as int, 0x8000, 0x4000);
        }
        let dn128: i128 = (ray.direction.x as i128) * (self.normal.x as i128)
            + (ray.direction.y as i128) * (self.normal.y as i128)
            + (ray.direction.z as i128) * (self.normal.z as i128);
        let dn: i128 = dn128 / (SCALE as i128);
        proof {
            crate::fx::lemma_tdiv_shrinks(dn128 as int, SCALE as int);
            assert(dn == dot3(
                ray.direction.x as int, ray.direction.y as int, ray.direction.z as int,
                self.normal.x as int, self.normal.y as int, self.normal.z as int,
            ));
        }
        if dn >= EPSILON as i128 || dn == 0 {
            return None;
        }
        proof {
            let ob = ORIGIN_LIMIT as int + WORLD as int;
            lemma_mul_bound(self.p.x - ray.origin.x, self.normal.x as int, ob, 0x4000);
            lemma_mul_bound(self.p.y - ray.origin.y, self.normal.y as int, ob, 0x4000);
            lemma_mul_bound(self.p.z - ray.origin.z, self.normal.z as int, ob, 0x4000);
        }
        let nx: i128 = (self.p.x as i128) - (ray.origin.x as i128);
        let ny: i128 = (self.p.y as i128) - (ray.origin.y as i128);
        let nz: i128 = (self.p.z as i128) - (ray.origin.z as i128);
        let num128: i128 = nx * (self.normal.x as i128) + ny * (self.normal.y as i128)
            + nz * (self.normal.z as i128);
        let num: i128 = num128 / (SCALE as i128);
        proof {
            crate::fx::lemma_tdiv_shrinks(num128 as int, SCALE as int);
            assert(num == dot3(
                self.p.x - ray.origin.x, self.p.y - ray.origin.y, self.p.z - ray.origin.z,
                self.normal.x as int, self.normal.y as int, self.normal.z as int,
            ));
        }
        let t: i128 = -((num * (SCALE as i128)) / (-dn));
        proof {
            crate::fx::lemma_tdiv_shrinks((num * (SCALE as int)) as int, (-dn) as int);
            assert(t == self.spec_t(*ray));
        }
        if t <= tmin as i128 || t >= tmax as i128 {
            return None;
        }
        let t64: i64 = t as i64;
        let p = ray.at(t64);
        Some(Hit { color: self.color, normal: self.normal, p, t: t64 })
    }
}

/* Sphere */

#[derive(Clone, Copy, Debug)]
pub struct Sphere {
    pub center: Vec3,
    pub radius: i64,
    pub color: Vec3,
}

impl Sphere {
    pub open spec fn wf(self) -> bool {
        &&& bounded(self.center, WORLD as int)
        &&& 0 < self.radius <= WORLD
    }

    pub fn new(center: Vec3, radius: i64, color: (u8, u8, u8)) -> (r: Sphere)
        requires
            bounded(center, WORLD as int),
            0 < radius <= WORLD,
        ensures
            r.center == center,
            r.radius == radius,
            r.color == Vec3::spec_from_rgb(color.0 as int, color.1 as int, color.2 as int),
            r.wf(),
    {
        Sphere { center, radius, color: Vec3::from_rgb(color.0, color.1, color.2) }
    }

    /// The quadratic `a*t^2 + 2b*t + c = 0` of the ray-sphere equation,
    /// in raw units.
    pub open spec fn spec_abc(self, r: Ray) -> (int, int, int) {
        let ox = r.origin.x - self.center.x;
        let oy = r.origin.y - self.center.y;
        let oz = r.origin.z - self.center.z;
        (
            sq_len_raw(r.direction),
            ox * r.direction.x + oy * r.direction.y + oz * r.direction.z,
            ox * ox + oy * oy + oz * oz - self.radius * self.radius,
        )
    }

    /// The nearest in-range root of the quadratic, if any: a positive
    /// discriminant, preferring the smaller root.
    pub open spec fn spec_hit_t(self, r: Ray, tmin: int, tmax: int) -> Option<int> {
        let (a, b, c) = self.spec_abc(r);
        let disc = b * b - a * c;
        if disc <= 0 {
            None
        } else {
            let sq = sqrt_floor(disc);
            let t1 = tdiv((-b - sq) * (SCALE as int), a);
            let t2 = tdiv((-b + sq) * (SCALE as int), a);
            if tmin < t1 < tmax {
                Some(t1)
            } else if tmin < t2 < tmax {
                Some(t2)
            } else {
                None
            }
        }
    }

    /// The full hit record the intersection produces, if any.
    pub open spec fn spec_hit(self, r: Ray, tmin: int, tmax: int) -> Option<Hit> {
        match self.spec_hit_t(r, tmin, tmax) {
            Option::None => Option::None,
            Option::Some(t) => {
                let p = spec_at(r, t);
                Option::Some(Hit {
                    color: self.color,
                    normal: Vec3 {
                        x: fxdiv(p.x - self.center.x, self.radius as int) as i64,
                        y: fxdiv(p.y - self.center.y, self.radius as int) as i64,
                        z: fxdiv(p.z - self.center.z, self.radius as int) as i64,
                    },
                    p,
                    t: t as i64,
                })
            },
        }
    }

    /// Intersects `ray` with the sphere by solving the quadratic; the
    /// normal is the hit point minus the center, over the radius.
    pub fn hits(&self, ray: &Ray, tmin: i64, tmax: i64) -> (r: Option<Hit>)
        requires
            self.wf(),
            ray.wf(),
            0 <= tmin,
            tmax <= T_MAX,
        ensures
            r == self.spec_hit(*ray, tmin as int, tmax as int),
            r is Some <==> self.spec_hit_t(*ray, tmin as int, tmax as int) is Some,
            r matches Some(h) ==> {
                &&& Some(h.t as int) == self.spec_hit_t(*ray, tmin as int, tmax as int)
                &&& tmin < h.t < tmax
                &&& h.p.x == ray.origin.x + fxmul(h.t as int, ray.direction.x as int)
                &&& h.p.y == ray.origin.y + fxmul(h.t as int, ray.direction.y as int)
                &&& h.p.z == ray.origin.z + fxmul(h.t as int, ray.direction.z as int)
                &&& h.normal.x == fxdiv(h.p.x - self.center.x, self.radius as int)
                &&& h.normal.y == fxdiv(h.p.y - self.center.y, self.radius as int)
                &&& h.normal.z == fxdiv(h.p.z - self.center.z, self.radius as int)
                &&& h.color == self.color
                &&& bounded(h.p, ORIGIN_LIMIT as int + STEP as int)
            },
    {
        let ox: i128 = (ray.origin.x as i128) - (self.center.x as i128);
        let oy: i128 = (ray.origin.y as i128) - (self.center.y as i128);
        let oz: i128 = (ray.origin.z as i128) - (self.center.z as i128);
        proof {
            let ob = 0x4000_0000_0000int;
            assert(-ob <= ox <= ob && -ob <= oy <= ob && -ob <= oz <= ob);
            lemma_mul_bound(ox as int, ray.direction.x as int, ob, 0x8000);
            lemma_mul_bound(oy as int, ray.direction.y as int, ob, 0x8000);
            lemma_mul_bound(oz as int, ray.direction.z as int, ob, 0x8000);
            lemma_mul_bound(ox as int, ox as int, ob, ob);
            lemma_mul_bound(oy as int, oy as int, ob, ob);
            lemma_mul_bound(oz as int, oz as int, ob, ob);
            lemma_mul_bound(ray.direction.x as int, ray.direction.x as int, 0x8000, 0x8000);
            lemma_mul_bound(ray.direction.y as int, ray.direction.y as int, 0x8000, 0x8000);
            lemma_mul_bound(ray.direction.z as int, ray.direction.z as int, 0x8000, 0x8000);
            lemma_mul_bound(self.radius as int, self.radius as int, 0x8000_0000, 0x8000_0000);
        }
        let a: i128 = (ray.direction.x as i128) * (ray.direction.x as i128)
            + (ray.direction.y as i128) * (ray.direction.y as i128)
            + (ray.direction.z as i128) * (ray.direction.z as i128);
        let b: i128 = ox * (ray.direction.x as i128) + oy * (ray.direction.y as i128)
            + oz * (ray.direction.z as i128);
        let c: i128 = ox * ox + oy * oy + oz * oz
            - (self.radius as i128) * (self.radius as i128);
        proof {
            let bb = 3 * (0x4000_0000_0000 * 0x8000int);
            let cb = 4 * (0x4000_0000_0000 * 0x4000_0000_0000int);
            assert(-bb <= b <= bb);
            assert(-cb <= c <= cb);
            assert(0 < a <= 3 * (0x8000 * 0x8000int));
            lemma_mul_bound(b as int, b as int, bb, bb);
            lemma_mul_bound(a as int, c as int, 3 * (0x8000 * 0x8000int), cb);
        }
        let disc: i128 = b * b - a * c;
        if disc <= 0 {
            return None;
        }
        let sq128: u128 = isqrt(disc as u128);
        proof {
            let d = disc as int;
            assert(sq128 as int * (sq128 as int) <= d);
            assert((sq128 as int) < 0x1_0000_0000_0000_0000) by (nonlinear_arith)
                requires
                    sq128 as int * (sq128 as int) <= d,
                    d < 0x1_0000_0000_0000_0000 * 0x1_0000_0000_0000_0000int,
                    sq128 as int >= 0;
        }
        let sq: i128 = sq128 as i128;
        let t1: i128 = ((-b - sq) * (SCALE as i128)) / a;
        let t2: i128 = ((-b + sq) * (SCALE as i128)) / a;
        proof {
            assert(t1 == tdiv((-(b as int) - sq as int) * (SCALE as int), a as int));
            assert(t2 == tdiv((-(b as int) + sq as int) * (SCALE as int), a as int));
        }
        if (tmin as i128) < t1 && t1 < (tmax as i128) {
            Some(self.make_hit(ray, t1 as i64))
        } else if (tmin as i128) < t2 && t2 < (tmax as i128) {
            Some(self.make_hit(ray, t2 as i64))
        } else {
            None
        }
    }

    /// Builds the hit record at parameter `t` on the sphere.
    fn make_hit(&self, ray: &Ray, t: i64) -> (h: Hit)
        requires
            self.wf(),
            ray.wf(),
            0 < t <= T_MAX,
        ensures
            h.t == t,
            h.p.x == ray.origin.x + fxmul(t as int, ray.direction.x as int),
            h.p.y == ray.origin.y + fxmul(t as int, ray.direction.y as int),
            h.p.z == ray.origin.z + fxmul(t as int, ray.direction.z as int),
            h.normal.x == fxdiv(h.p.x - self.center.x, self.radius as int),
            h.normal.y == fxdiv(h.p.y - self.center.y, self.radius as int),
            h.normal.z == fxdiv(h.p.z - self.center.z, self.radius as int),
            h.color == self.color,
            bounded(h.p, ORIGIN_LIMIT as int + STEP as int),
    {
        let p = ray.at(t);
        let mut n = self.center.to(&p);
        proof {
            let nb = ORIGIN_LIMIT as int + STEP as int + WORLD as int;
            lemma_mul_bound(n.x as int, SCALE as int, nb, SCALE as int);
            lemma_mul_bound(n.y as int, SCALE as int, nb, SCALE as int);
            lemma_mul_bound(n.z as int, SCALE as int, nb, SCALE as int);
            crate::fx::lemma_tdiv_shrinks(n.x * (SCALE as int), self.radius as int);
            crate::fx::lemma_tdiv_shrinks(n.y * (SCALE as int), self.radius as int);
            crate::fx::lemma_tdiv_shrinks(n.z * (SCALE as int), self.radius as int);
        }
        n.div(self.radius);
        Hit { color: self.color, normal: n, p, t }
    }
}


/* Triangle */

#[derive(Clone, Copy, Debug)]
pub struct Triangle {
    pub a: Vec3,
    pub b: Vec3,
    pub c: Vec3,
    pub normal: Vec3,
    pub color: Vec3,
}

/// A vector with each component snapped to zero when within `eps`.
pub open spec fn spec_clean(v: Vec3, eps: int) -> Vec3 {
    Vec3 {
        x: if -eps <= v.x <= eps { 0i64 } else { v.x },
        y: if -eps <= v.y <= eps { 0i64 } else { v.y },
        z: if -eps <= v.z <= eps { 0i64 } else { v.z },
    }
}

/// The cross product of the edges `a - b` and `c - b`, in fixed point.
pub open spec fn tri_cross(a: Vec3, b: Vec3, c: Vec3) -> Vec3 {
    let ux = a.x - b.x;
    let uy = a.y - b.y;
    let uz = a.z - b.z;
    let vx = c.x - b.x;
    let vy = c.y - b.y;
    let vz = c.z - b.z;
    Vec3 {
        x: tdiv(uy * vz - uz * vy, SCALE as int) as i64,
        y: tdiv(uz * vx - ux * vz, SCALE as int) as i64,
        z: tdiv(ux * vy - uy * vx, SCALE as int) as i64,
    }
}

/// The triangle a constructor builds: cleaned vertices, and the
/// normalized edge cross product as the normal; a degenerate cross
/// falls back to the vertical unit so the value stays well formed.
pub open spec fn spec_make_tri(a: Vec3, b: Vec3, c: Vec3, color: Vec3) -> Triangle {
    let ca = spec_clean(a, EPSILON as int);
    let cb = spec_clean(b, EPSILON as int);
    let cc = spec_clean(c, EPSILON as int);
    let cross = tri_cross(ca, cb, cc);
    let normal = if sq_len_raw(cross) > 0 {
        cross.spec_normalized()
    } else {
        Vec3 { x: 0i64, y: SCALE, z: 0i64 }
    };
    Triangle { a: ca, b: cb, c: cc, normal, color }
}

impl Triangle {
    pub open spec fn wf(self) -> bool {
        &&& bounded(self.a, SOLVER_LIMIT as int)
        &&& bounded(self.b, SOLVER_LIMIT as int)
        &&& bounded(self.c, SOLVER_LIMIT as int)
        &&& bounded(self.normal, NORMAL_LIMIT as int)
    }

    pub fn new_ref(a: &Vec3, b: &Vec3, c: &Vec3, color: &(u8, u8, u8)) -> (r: Triangle)
        requires
            bounded(*a, SOLVER_LIMIT as int),
            bounded(*b, SOLVER_LIMIT as int),
            bounded(*c, SOLVER_LIMIT as int),
        ensures
            r == spec_make_tri(*a, *b, *c,
                Vec3::spec_from_rgb(color.0 as int, color.1 as int, color.2 as int)),
            r.wf(),
    {
        Triangle::make(a, b, c, Vec3::from_rgb(color.0, color.1, color.2))
    }

    /// Builds a triangle from vertices and an already converted color.
    fn make(a: &Vec3, b: &Vec3, c: &Vec3, color: Vec3) -> (r: Triangle)
        requires
            bounded(*a, SOLVER_LIMIT as int),
            bounded(*b, SOLVER_LIMIT as int),
            bounded(*c, SOLVER_LIMIT as int),
        ensures
            r == spec_make_tri(*a, *b, *c, color),
            r.wf(),
    {
        let ca = a.new_clean(EPSILON);
        let cb = b.new_clean(EPSILON);
        let cc = c.new_clean(EPSILON);
        let ba = cb.to(&ca);
        let bc = cb.to(&cc);
        proof {
            let sl = 2 * (SOLVER_LIMIT as int);
            lemma_mul_bound(ba.y as int, bc.z as int, sl, sl);
            lemma_mul_bound(ba.z as int, bc.y as int, sl, sl);
            lemma_mul_bound(ba.z as int, bc.x as int, sl, sl);
            lemma_mul_bound(ba.x as int, bc.z as int, sl, sl);
            lemma_mul_bound(ba.x as int, bc.y as int, sl, sl);
            lemma_mul_bound(ba.y as int, bc.x as int, sl, sl);
            crate::fx::lemma_tdiv_shrinks(ba.y * bc.z - ba.z * bc.y, SCALE as int);
            crate::fx::lemma_tdiv_shrinks(ba.z * bc.x - ba.x * bc.z, SCALE as int);
            crate::fx::lemma_tdiv_shrinks(ba.x * bc.y - ba.y * bc.x, SCALE as int);
        }
        let cross = ba.cross_product(&bc);
        let sq = cross.length_sq_raw();
        let normal = if sq > 0 {
            cross.to_normalized()
        } else {
            Vec3::new(0, SCALE, 0)
        };
        Triangle { a: ca, b: cb, c: cc, normal, color }
    }

    /// The plane parameter of the triangle's own plane, through vertex
    /// `a`; see `Plan::spec_t` for the sign convention.
    pub open spec fn spec_t(self, r: Ray) -> int {
        let dn = dot3(
            r.direction.x as int, r.direction.y as int, r.direction.z as int,
            self.normal.x as int, self.normal.y as int, self.normal.z as int,
        );
        let num = dot3(
            self.a.x - r.origin.x, self.a.y - r.origin.y, self.a.z - r.origin.z,
            self.normal.x as int, self.normal.y as int, self.normal.z as int,
        );
        -tdiv(num * (SCALE as int), -dn)
    }

    /// The exact rational weights expressing `p` over the vertices.
    pub open spec fn spec_weights(self, p: Vec3) -> QVec3 {
        spec_solution(
            spec_row_x(self.a, self.b, self.c, p),
            spec_row_y(self.a, self.b, self.c, p),
            spec_row_z(self.a, self.b, self.c, p),
        )
    }

    /// Whether the linear system for `p` over the vertices is solvable.
    pub open spec fn spec_weighable(self, p: Vec3) -> bool {
        spec_solvable(
            spec_row_x(self.a, self.b, self.c, p),
            spec_row_y(self.a, self.b, self.c, p),
            spec_row_z(self.a, self.b, self.c, p),
        )
    }

    /// The full hit record: the plane hit, kept only when the hit
    /// point lies within the solver's range, the system is solvable,
    /// and all three weights are nonnegative.
    pub open spec fn spec_hit(self, r: Ray, tmin: int, tmax: int) -> Option<Hit> {
        let dn = dot3(
            r.direction.x as int, r.direction.y as int, r.direction.z as int,
            self.normal.x as int, self.normal.y as int, self.normal.z as int,
        );
        if dn >= 0 {
            Option::None
        } else {
            let t = self.spec_t(r);
            if !(tmin < t < tmax) {
                Option::None
            } else {
                let p = spec_at(r, t);
                if !bounded(p, SOLVER_LIMIT as int) {
                    Option::None
                } else if !self.spec_weighable(p) {
                    Option::None
                } else {
                    let w = self.spec_weights(p);
                    if w.x.num < 0 || w.y.num < 0 || w.z.num < 0 {
                        Option::None
                    } else {
                        Option::Some(Hit { color: self.color, normal: self.normal, p, t: t as i64 })
                    }
                }
            }
        }
    }

    /// Intersects the triangle's plane, then tests containment with
    /// the exact linear solver: inside means no negative weight.
    pub fn hits(&self, ray: &Ray, tmin: i64, tmax: i64) -> (r: Option<Hit>)
        requires
            self.wf(),
            ray.wf(),
            0 <= tmin,
            tmax <= T_MAX,
        ensures
            r == self.spec_hit(*ray, tmin as int, tmax as int),
            r matches Some(h) ==> {
                &&& tmin < h.t < tmax
                &&& bounded(h.p, SOLVER_LIMIT as int)
                &&& h.normal == self.normal
                &&& h.color == self.color
                &&& self.spec_weights(h.p).wf()
                &&& crate::solver::solves(self.a, self.b, self.c, h.p, self.spec_weights(h.p))
            },
    {
        proof {
            lemma_mul_bound(ray.direction.x as int, self.normal.x as int, 0x8000, 0x4000);
            lemma_mul_bound(ray.direction.y as int, self.normal.y as int, 0x8000, 0x4000);
            lemma_mul_bound(ray.direction.z as int, self.normal.z as int, 0x8000, 0x4000);
        }
        let dn128: i128 = (ray.direction.x as i128) * (self.normal.x as i128)
            + (ray.direction.y as i128) * (self.normal.y as i128)
            + (ray.direction.z as i128) * (self.normal.z as i128);
        let dn: i128 = dn128 / (SCALE as i128);
        proof {
            crate::fx::lemma_tdiv_shrinks(dn128 as int, SCALE as int);
        }
        if dn >= 0 {
            return None;
        }
        proof {
            let ob = ORIGIN_LIMIT as int + SOLVER_LIMIT as int;
            lemma_mul_bound(self.a.x - ray.origin.x, self.normal.x as int, ob, 0x4000);
            lemma_mul_bound(self.a.y - ray.origin.y, self.normal.y as int, ob, 0x4000);
            lemma_mul_bound(self.a.z - ray.origin.z, self.normal.z as int, ob, 0x4000);
        }
        let nx: i128 = (self.a.x as i128) - (ray.origin.x as i128);
        let ny: i128 = (self.a.y as i128) - (ray.origin.y as i128);
        let nz: i128 = (self.a.z as i128) - (ray.origin.z as i128);
        let num128: i128 = nx * (self.normal.x as i128) + ny * (self.normal.y as i128)
            + nz * (self.normal.z as i128);
        let num: i128 = num128 / (SCALE as i128);
        proof {
            crate::fx::lemma_tdiv_shrinks(num128 as int, SCALE as int);
        }
        let t: i128 = -((num * (SCALE as i128)) / (-dn));
        proof {
            crate::fx::lemma_tdiv_shrinks((num * (SCALE as int)) as int, (-dn) as int);
            assert(t == self.spec_t(*ray));
        }
        if t <= tmin as i128 || t >= tmax as i128 {
            return None;
        }
        let t64: i64 = t as i64;
        let p = ray.at(t64);
        if p.x < -SOLVER_LIMIT || p.x > SOLVER_LIMIT || p.y < -SOLVER_LIMIT || p.y > SOLVER_LIMIT
            || p.z < -SOLVER_LIMIT || p.z > SOLVER_LIMIT {
            // beyond the exact range of the solver, so not contained
            return None;
        }
        let o = solve_3variable_system(&self.a, &self.b, &self.c, &p);
        match o {
            None => None,
            Some(w) => {
                if w.x.num < 0 || w.y.num < 0 || w.z.num < 0 {
                    None
                } else {
                    Some(Hit { color: self.color, normal: self.normal, p, t: t64 })
                }
            },
        }
    }
}

/// The law of the frontal sphere hit: a sphere at the origin, seen
/// along the axis from farther than its radius, is hit exactly at the
/// distance minus the radius; the hit point sits on the front face,
/// and the normal is the exact outward unit axis, so its squared
/// length is one and it points away from the center.
pub proof fn lemma_sphere_axis_hit(s: Sphere, r: Ray, d: i64)
    requires
        s.center == (Vec3 { x: 0i64, y: 0i64, z: 0i64 }),
        0 < s.radius < d,
        d <= T_MAX,
        r.origin == (Vec3 { x: 0i64, y: 0i64, z: (-d) as i64 }),
        r.direction == (Vec3 { x: 0i64, y: 0i64, z: SCALE }),
    ensures
        s.spec_hit(r, 0, T_MAX as int) matches Some(h) && {
            &&& h.t == d - s.radius
            &&& h.p == (Vec3 { x: 0i64, y: 0i64, z: (-s.radius) as i64 })
            &&& h.normal == (Vec3 { x: 0i64, y: 0i64, z: (-SCALE) as i64 })
            &&& sq_len_raw(h.normal) == (SCALE as int) * (SCALE as int)
            &&& spec_dot(h.normal, Vec3 { x: (h.p.x - s.center.x) as i64,
                y: (h.p.y - s.center.y) as i64, z: (h.p.z - s.center.z) as i64 }) == s.radius
        },
{
    let sc = SCALE as int;
    let rad = s.radius as int;
    let di = d as int;
    let (a, b, c) = s.spec_abc(r);
    assert(a == sc * sc);
    assert(b == (-di) * sc);
    assert(-b == di * sc) by (nonlinear_arith)
        requires b == (-di) * sc;
    assert(c == di * di - rad * rad) by (nonlinear_arith)
        requires c == (-di) * (-di) - rad * rad;
    let disc = b * b - a * c;
    assert(disc == (sc * rad) * (sc * rad)) by (nonlinear_arith)
        requires
            disc == ((-di) * sc) * ((-di) * sc) - (sc * sc) * (di * di - rad * rad);
    // the discriminant is a perfect square, so the root is exact
    assert(crate::fx::is_isqrt(disc, sc * rad)) by (nonlinear_arith)
        requires disc == (sc * rad) * (sc * rad), sc >= 1, rad >= 1;
    assert(crate::fx::is_isqrt(disc, sqrt_floor(disc)));
    crate::fx::lemma_isqrt_unique(disc, sc * rad, sqrt_floor(disc));
    assert(disc > 0) by (nonlinear_arith)
        requires disc == (sc * rad) * (sc * rad), sc >= 1, rad >= 1;
    let sq = sqrt_floor(disc);
    // the near root is the distance minus the radius, exactly
    let t1 = tdiv((-b - sq) * sc, a);
    assert((-b - sq) * sc == (di - rad) * (sc * sc)) by (nonlinear_arith)
        requires -b == di * sc, sq == sc * rad;
    assert(t1 == di - rad) by {
        assert((di - rad) * (sc * sc) >= 0) by (nonlinear_arith)
            requires di >= rad, sc >= 1;
        vstd::arithmetic::div_mod::lemma_div_multiples_vanish(di - rad, sc * sc);
        assert((di - rad) * (sc * sc) == (sc * sc) * (di - rad)) by (nonlinear_arith);
    }
    assert(0 < t1 < T_MAX as int);
    assert(s.spec_hit_t(r, 0, T_MAX as int) == Some(t1));
    // along the unit axis the point lands exactly on the front face
    assert(fxmul(t1, sc) == t1) by {
        assert(t1 * sc >= 0) by (nonlinear_arith)
            requires t1 > 0, sc >= 1;
        vstd::arithmetic::div_mod::lemma_div_multiples_vanish(t1, sc);
        assert(t1 * sc == sc * t1) by (nonlinear_arith);
    }
    assert(fxmul(t1, 0) == 0) by {
        assert(t1 * 0 == 0) by (nonlinear_arith);
        assert(tdiv(0, sc) == 0);
    }
    let h = s.spec_hit(r, 0, T_MAX as int)->Some_0;
    assert(h.p.z == -rad);
    assert(h.p.x == 0 && h.p.y == 0);
    // the normal is the hit point over the radius: the exact unit axis
    assert(h.normal.z == -sc) by {
        assert(fxdiv(-rad - 0, rad) == -sc) by {
            assert(-((-rad) * sc) == rad * sc) by (nonlinear_arith);
            assert(rad * sc >= 0) by (nonlinear_arith)
                requires rad >= 1, sc >= 1;
            vstd::arithmetic::div_mod::lemma_div_multiples_vanish(sc, rad);
            assert(rad * sc == sc * rad) by (nonlinear_arith);
        }
    }
    assert(h.normal.x == 0 && h.normal.y == 0) by {
        assert(fxdiv(0, rad) == 0) by {
            assert(0 * sc == 0) by (nonlinear_arith);
            assert(tdiv(0, rad) == 0) by {
                vstd::arithmetic::div_mod::lemma_div_of0(rad);
            }
        }
    }
    // unit length and outwardness, exactly
    assert(sq_len_raw(h.normal) == sc * sc) by (nonlinear_arith)
        requires h.normal.x == 0 && h.normal.y == 0 && h.normal.z == -sc,
            sq_len_raw(h.normal) == h.normal.x * h.normal.x + h.normal.y * h.normal.y
                + h.normal.z * h.normal.z;
    assert(spec_dot(h.normal, Vec3 { x: (h.p.x - s.center.x) as i64,
        y: (h.p.y - s.center.y) as i64, z: (h.p.z - s.center.z) as i64 }) == rad) by {
        assert((-sc) * (-rad) == sc * rad) by (nonlinear_arith);
        assert(0 * 0 == 0) by (nonlinear_arith);
        assert(sc * rad >= 0) by (nonlinear_arith)
            requires sc >= 1, rad >= 1;
        vstd::arithmetic::div_mod::lemma_div_multiples_vanish(rad, sc);
        assert(sc * rad == rad * sc) by (nonlinear_arith);
        assert(tdiv(sc * rad, sc) == rad) by {
            assert(sc * rad == rad * sc) by (nonlinear_arith);
        }
    }
}

/* Ellipsoid */

#[derive(Clone, Copy, Debug)]
pub struct Ellipsoid {
    pub center: Vec3,
    pub translation: Vec3,
    pub radii: Vec3,
    pub inv_radii: Vec3,
    pub sphere: Sphere,
}

/// Largest per-axis radius of an ellipsoid.
pub const RADII_LIMIT: i64 = 0x100000;

impl Ellipsoid {
    pub open spec fn wf(self) -> bool {
        &&& bounded(self.center, WORLD as int)
        &&& self.translation.x == -self.center.x
        &&& self.translation.y == -self.center.y
        &&& self.translation.z == -self.center.z
        &&& SCALE <= self.radii.x <= RADII_LIMIT
        &&& SCALE <= self.radii.y <= RADII_LIMIT
        &&& SCALE <= self.radii.z <= RADII_LIMIT
        &&& self.inv_radii.x == fxdiv(SCALE as int, self.radii.x as int)
        &&& self.inv_radii.y == fxdiv(SCALE as int, self.radii.y as int)
        &&& self.inv_radii.z == fxdiv(SCALE as int, self.radii.z as int)
        &&& 0 <= self.inv_radii.x <= SCALE
        &&& 0 <= self.inv_radii.y <= SCALE
        &&& 0 <= self.inv_radii.z <= SCALE
        &&& self.sphere.center == (Vec3 { x: 0i64, y: 0i64, z: 0i64 })
        &&& self.sphere.radius == SCALE
    }

    /// An ellipsoid as a unit sphere under a per-axis scaling: rays
    /// are carried into the unit frame, hits carried back out.
    pub fn new(center: Vec3, radii: Vec3, color: (u8, u8, u8)) -> (r: Ellipsoid)
        requires
            bounded(center, WORLD as int),
            center.x > i64::MIN && center.y > i64::MIN && center.z > i64::MIN,
            SCALE <= radii.x <= RADII_LIMIT,
            SCALE <= radii.y <= RADII_LIMIT,
            SCALE <= radii.z <= RADII_LIMIT,
        ensures
            r.center == center,
            r.radii == radii,
            r.sphere.color == Vec3::spec_from_rgb(color.0 as int, color.1 as int, color.2 as int),
            r.wf(),
    {
        let mut translation = center;
        translation.invert();
        proof {
            lemma_inv_radius(radii.x as int);
            lemma_inv_radius(radii.y as int);
            lemma_inv_radius(radii.z as int);
        }
        let inv_radii = Vec3::new(
            crate::fx::div_fx(SCALE, radii.x),
            crate::fx::div_fx(SCALE, radii.y),
            crate::fx::div_fx(SCALE, radii.z),
        );
        let sphere = Sphere::new(Vec3::origin(), SCALE, color);
        Ellipsoid { center, translation, radii, inv_radii, sphere }
    }

    /// The incoming ray carried into the unit sphere's frame.
    pub open spec fn spec_ray2(self, r: Ray) -> Ray {
        Ray {
            origin: Vec3 {
                x: fxmul(r.origin.x + self.translation.x, self.inv_radii.x as int) as i64,
                y: fxmul(r.origin.y + self.translation.y, self.inv_radii.y as int) as i64,
                z: fxmul(r.origin.z + self.translation.z, self.inv_radii.z as int) as i64,
            },
            direction: Vec3 {
                x: fxmul(r.direction.x as int, self.inv_radii.x as int) as i64,
                y: fxmul(r.direction.y as int, self.inv_radii.y as int) as i64,
                z: fxmul(r.direction.z as int, self.inv_radii.z as int) as i64,
            },
            is_light: r.is_light,
        }
    }

    /// The full hit record: the unit-frame hit mapped back out by the
    /// inverse transform, the point scaled by the radii and moved to
    /// the center, the normal scaled by the radii; a direction that
    /// collapses to zero in the unit frame counts as a miss.
    pub open spec fn spec_hit(self, r: Ray, tmin: int, tmax: int) -> Option<Hit> {
        let r2 = self.spec_ray2(r);
        if sq_len_raw(r2.direction) == 0 {
            Option::None
        } else {
            match self.sphere.spec_hit(r2, tmin, tmax) {
                Option::None => Option::None,
                Option::Some(h) => Option::Some(Hit {
                    color: h.color,
                    normal: Vec3 {
                        x: fxmul(h.normal.x as int, self.radii.x as int) as i64,
                        y: fxmul(h.normal.y as int, self.radii.y as int) as i64,
                        z: fxmul(h.normal.z as int, self.radii.z as int) as i64,
                    },
                    p: Vec3 {
                        x: (fxmul(h.p.x as int, self.radii.x as int) + self.center.x) as i64,
                        y: (fxmul(h.p.y as int, self.radii.y as int) + self.center.y) as i64,
                        z: (fxmul(h.p.z as int, self.radii.z as int) + self.center.z) as i64,
                    },
                    t: h.t,
                }),
            }
        }
    }

    pub fn hits(&self, ray: &Ray, tmin: i64, tmax: i64) -> (r: Option<Hit>)
        requires
            self.wf(),
            ray.wf(),
            bounded(ray.origin, 0x1000_0000_0000),
            0 <= tmin,
            tmax <= T_MAX,
        ensures
            r == self.spec_hit(*ray, tmin as int, tmax as int),
            r matches Some(h) ==> tmin < h.t < tmax,
    {
        proof {
            lemma_fxmul_keeps(ray.origin.x + self.translation.x, self.inv_radii.x as int);
            lemma_fxmul_keeps(ray.origin.y + self.translation.y, self.inv_radii.y as int);
            lemma_fxmul_keeps(ray.origin.z + self.translation.z, self.inv_radii.z as int);
            lemma_fxmul_keeps(ray.direction.x as int, self.inv_radii.x as int);
            lemma_fxmul_keeps(ray.direction.y as int, self.inv_radii.y as int);
            lemma_fxmul_keeps(ray.direction.z as int, self.inv_radii.z as int);
        }
        let o2 = Vec3::new(
            crate::fx::mul_fx(ray.origin.x + self.translation.x, self.inv_radii.x),
            crate::fx::mul_fx(ray.origin.y + self.translation.y, self.inv_radii.y),
            crate::fx::mul_fx(ray.origin.z + self.translation.z, self.inv_radii.z),
        );
        let d2 = Vec3::new(
            crate::fx::mul_fx(ray.direction.x, self.inv_radii.x),
            crate::fx::mul_fx(ray.direction.y, self.inv_radii.y),
            crate::fx::mul_fx(ray.direction.z, self.inv_radii.z),
        );
        let ray2 = Ray { origin: o2, direction: d2, is_light: ray.is_light };
        proof {
            assert(ray2 == self.spec_ray2(*ray));
            lemma_mul_bound(d2.x as int, d2.x as int, DIR_LIMIT as int, DIR_LIMIT as int);
            lemma_mul_bound(d2.y as int, d2.y as int, DIR_LIMIT as int, DIR_LIMIT as int);
            lemma_mul_bound(d2.z as int, d2.z as int, DIR_LIMIT as int, DIR_LIMIT as int);
        }
        let zero = d2.x == 0 && d2.y == 0 && d2.z == 0;
        if zero {
            proof {
                assert(sq_len_raw(ray2.direction) == 0);
            }
            return None;
        }
        proof {
            assert(sq_len_raw(ray2.direction) > 0) by {
                if d2.x != 0 {
                    assert(d2.x * d2.x > 0) by (nonlinear_arith)
                        requires d2.x != 0;
                }
                if d2.y != 0 {
                    assert(d2.y * d2.y > 0) by (nonlinear_arith)
                        requires d2.y != 0;
                }
                if d2.z != 0 {
                    assert(d2.z * d2.z > 0) by (nonlinear_arith)
                        requires d2.z != 0;
                }
                assert(d2.x * d2.x >= 0 && d2.y * d2.y >= 0 && d2.z * d2.z >= 0) by (nonlinear_arith);
            }
        }
        let h = self.sphere.hits(&ray2, tmin, tmax);
        match h {
            None => None,
            Some(hit) => {
                proof {
                    let pb = ORIGIN_LIMIT as int + STEP as int;
                    lemma_mul_bound(hit.p.x as int, self.radii.x as int, pb, RADII_LIMIT as int);
                    lemma_mul_bound(hit.p.y as int, self.radii.y as int, pb, RADII_LIMIT as int);
                    lemma_mul_bound(hit.p.z as int, self.radii.z as int, pb, RADII_LIMIT as int);
                    crate::fx::lemma_tdiv_shrinks(hit.p.x * self.radii.x, SCALE as int);
                    crate::fx::lemma_tdiv_shrinks(hit.p.y * self.radii.y, SCALE as int);
                    crate::fx::lemma_tdiv_shrinks(hit.p.z * self.radii.z, SCALE as int);
                    // the unit-frame normal is the hit point over the
                    // unit radius, so it carries the hit point's bound
                    lemma_unit_normal_bound(hit.p.x as int, hit.normal.x as int);
                    lemma_unit_normal_bound(hit.p.y as int, hit.normal.y as int);
                    lemma_unit_normal_bound(hit.p.z as int, hit.normal.z as int);
                    lemma_normal_scale(hit.normal.x as int, self.radii.x as int);
                    lemma_normal_scale(hit.normal.y as int, self.radii.y as int);
                    lemma_normal_scale(hit.normal.z as int, self.radii.z as int);
                }
                let p = Vec3::new(
                    crate::fx::mul_fx(hit.p.x, self.radii.x) + self.center.x,
                    crate::fx::mul_fx(hit.p.y, self.radii.y) + self.center.y,
                    crate::fx::mul_fx(hit.p.z, self.radii.z) + self.center.z,
                );
                let n = Vec3::new(
                    crate::fx::mul_fx(hit.normal.x, self.radii.x),
                    crate::fx::mul_fx(hit.normal.y, self.radii.y),
                    crate::fx::mul_fx(hit.normal.z, self.radii.z),
                );
                Some(Hit { color: hit.color, normal: n, p, t: hit.t })
            },
        }
    }
}

/// The inverse of a radius of at least one unit lies in `[0, SCALE]`.
proof fn lemma_inv_radius(r: int)
    requires
        SCALE as int <= r,
    ensures
        0 <= fxdiv(SCALE as int, r) <= SCALE as int,
{
    let s = SCALE as int;
    vstd::arithmetic::div_mod::lemma_div_pos_is_pos(s * s, r);
    vstd::arithmetic::div_mod::lemma_div_is_ordered_by_denominator(s * s, s, r);
    assert((s * s) / s == s) by (nonlinear_arith)
        requires s >= 1;
}

/// A unit sphere's normal component, `fxdiv` of the hit coordinate by
/// the unit radius, keeps the coordinate's own magnitude.
proof fn lemma_unit_normal_bound(p: int, n: int)
    requires
        -0x2100_0000_0000 <= p <= 0x2100_0000_0000,
        n == fxdiv(p - 0, SCALE as int),
    ensures
        -0x2100_0000_0000 <= n <= 0x2100_0000_0000,
{
    lemma_mul_bound(p - 0, SCALE as int, 0x2100_0000_0000int, SCALE as int);
    crate::fx::lemma_tdiv_bound((p - 0) * (SCALE as int), SCALE as int,
        0x2100_0000_0000int * (SCALE as int));
    assert((0x2100_0000_0000int * (SCALE as int)) / (SCALE as int) == 0x2100_0000_0000)
        by (nonlinear_arith)
        requires (SCALE as int) >= 1;
}

/// Scaling a bounded normal component by a radius fits a machine word.
proof fn lemma_normal_scale(n: int, r: int)
    requires
        -0x2100_0000_0000 <= n <= 0x2100_0000_0000,
        0 <= r <= RADII_LIMIT as int,
    ensures
        crate::vec3::in64(fxmul(n, r)),
{
    lemma_mul_bound(n, r, 0x2100_0000_0000int, RADII_LIMIT as int);
    crate::fx::lemma_tdiv_bound(n * r, SCALE as int,
        0x2100_0000_0000int * (RADII_LIMIT as int));
    assert((0x2100_0000_0000int * (RADII_LIMIT as int)) / (SCALE as int)
        == 0x84_0000_0000_0000) by (nonlinear_arith)
        requires SCALE as int == 1024, RADII_LIMIT as int == 0x100000;
}

/// Multiplying by a fixed-point factor of magnitude at most one never
/// increases a value's magnitude.
pub proof fn lemma_fxmul_keeps(a: int, b: int)
    requires
        -(SCALE as int) <= b <= SCALE as int,
    ensures
        -(crate::fx::iabs(a)) <= fxmul(a, b) <= crate::fx::iabs(a),
{
    let ia = crate::fx::iabs(a);
    lemma_mul_bound(a, b, ia, SCALE as int);
    crate::fx::lemma_tdiv_bound(a * b, SCALE as int, ia * (SCALE as int));
    assert((ia * (SCALE as int)) / (SCALE as int) == ia) by (nonlinear_arith)
        requires (SCALE as int) >= 1, ia >= 0;
}


/* Tetrahedron */

/// Cosine and sine of a one-third turn, in fixed point.
pub const COS120: i64 = -512;

pub const SIN120: i64 = 887;

/// A unit direction `(c, s)` rotated by the angle whose cosine and
/// sine are `co` and `si`.
pub open spec fn spec_rot(c: int, s: int, co: int, si: int) -> (int, int) {
    (
        tdiv(c * co - s * si, SCALE as int),
        tdiv(s * co + c * si, SCALE as int),
    )
}

/// A base vertex: the bottom center pushed `width` units along a
/// horizontal direction.
pub open spec fn spec_vertex(bc: Vec3, width: int, r: (int, int)) -> Vec3 {
    Vec3 {
        x: (bc.x + fxmul(width, r.0)) as i64,
        y: bc.y,
        z: (bc.z + fxmul(width, r.1)) as i64,
    }
}

#[derive(Clone, Copy, Debug)]
pub struct Tetrahedron {
    pub base: Triangle,
    pub side1: Triangle,
    pub side2: Triangle,
    pub side3: Triangle,
    pub color: Vec3,
}

/// The tetrahedron a constructor builds: three base vertices spaced a
/// third of a turn apart around the axis below the apex, and four
/// triangular faces.
pub open spec fn spec_tetra(top: Vec3, height: int, width: int, dir: (int, int), color: Vec3)
    -> Tetrahedron {
    let bc = Vec3 { x: top.x, y: (top.y - height) as i64, z: top.z };
    let va = spec_vertex(bc, width, spec_rot(dir.0, dir.1, COS120 as int, SIN120 as int));
    let vb = spec_vertex(bc, width, spec_rot(dir.0, dir.1, COS120 as int, -(SIN120 as int)));
    let vc = spec_vertex(bc, width, dir);
    Tetrahedron {
        base: spec_make_tri(va, vc, vb, color),
        side1: spec_make_tri(va, vb, top, color),
        side2: spec_make_tri(vb, vc, top, color),
        side3: spec_make_tri(vc, va, top, color),
        color,
    }
}

/// `(c, s)` rotated by `(co, si)`, with the two-unit magnitude bound.
fn rot_dir(c: i64, s: i64, co: i64, si: i64) -> (r: (i64, i64))
    requires
        -SCALE <= c <= SCALE,
        -SCALE <= s <= SCALE,
        -SCALE <= co <= SCALE,
        -SCALE <= si <= SCALE,
    ensures
        (r.0 as int, r.1 as int) == spec_rot(c as int, s as int, co as int, si as int),
        -2 * SCALE <= r.0 <= 2 * SCALE,
        -2 * SCALE <= r.1 <= 2 * SCALE,
{
    proof {
        let sc = SCALE as int;
        lemma_mul_bound(c as int, co as int, sc, sc);
        lemma_mul_bound(s as int, si as int, sc, sc);
        lemma_mul_bound(s as int, co as int, sc, sc);
        lemma_mul_bound(c as int, si as int, sc, sc);
        lemma_tdiv_bound(c * co - s * si, sc, 2 * (sc * sc));
        lemma_tdiv_bound(s * co + c * si, sc, 2 * (sc * sc));
        assert((2 * (sc * sc)) / sc == 2 * sc) by (nonlinear_arith)
            requires sc >= 1;
    }
    let x: i64 = (c * co - s * si) / SCALE;
    let z: i64 = (s * co + c * si) / SCALE;
    (x, z)
}

/// `b` pushed by `width` along the rotated direction component `r`.
fn vertex_offset(b: i64, width: i64, r: i64) -> (o: i64)
    requires
        -0x11000 <= b <= 0x11000,
        0 < width <= 0x4000,
        -2 * SCALE <= r <= 2 * SCALE,
    ensures
        o == b + fxmul(width as int, r as int),
        -0x19000 <= o <= 0x19000,
    {
    proof {
        lemma_mul_bound(width as int, r as int, 0x4000, 2 * (SCALE as int));
        lemma_tdiv_bound(width * r, SCALE as int, 0x4000 * (2 * (SCALE as int)));
        assert((0x4000 * (2 * (SCALE as int))) / (SCALE as int) == 0x8000) by (nonlinear_arith)
            requires SCALE as int == 1024;
    }
    b + crate::fx::mul_fx(width, r)
}

impl Tetrahedron {
    pub open spec fn wf(self) -> bool {
        self.base.wf() && self.side1.wf() && self.side2.wf() && self.side3.wf()
    }

    /// A tetrahedron below the apex `top`: three base vertices spaced
    /// a third of a turn apart around `dir`, plus the apex.
    pub fn new(top: Vec3, height: i64, width: i64, dir: (i64, i64), color: (u8, u8, u8))
        -> (r: Tetrahedron)
        requires
            bounded(top, 0x11000),
            0 < height <= 0x10000,
            top.y - height >= -0x11000,
            0 < width <= 0x4000,
            -SCALE <= dir.0 <= SCALE,
            -SCALE <= dir.1 <= SCALE,
        ensures
            r == spec_tetra(top, height as int, width as int, (dir.0 as int, dir.1 as int),
                Vec3::spec_from_rgb(color.0 as int, color.1 as int, color.2 as int)),
            r.wf(),
    {
        let colorv = Vec3::from_rgb(color.0, color.1, color.2);
        let bc = Vec3::new(top.x, top.y - height, top.z);
        let ra = rot_dir(dir.0, dir.1, COS120, SIN120);
        let rb = rot_dir(dir.0, dir.1, COS120, -SIN120);
        let va = Vec3::new(vertex_offset(bc.x, width, ra.0), bc.y, vertex_offset(bc.z, width, ra.1));
        let vb = Vec3::new(vertex_offset(bc.x, width, rb.0), bc.y, vertex_offset(bc.z, width, rb.1));
        let vc = Vec3::new(vertex_offset(bc.x, width, dir.0), bc.y, vertex_offset(bc.z, width, dir.1));
        Tetrahedron {
            base: Triangle::make(&va, &vc, &vb, colorv),
            side1: Triangle::make(&va, &vb, &top, colorv),
            side2: Triangle::make(&vb, &vc, &top, colorv),
            side3: Triangle::make(&vc, &va, &top, colorv),
            color: colorv,
        }
    }

    pub open spec fn spec_face(self, i: int) -> Triangle {
        if i == 0 {
            self.base
        } else if i == 1 {
            self.side1
        } else if i == 2 {
            self.side2
        } else {
            self.side3
        }
    }

    /// The nearest face hit among the first `n` faces, each queried
    /// against the running nearest distance, keeping hits within the
    /// requested range.
    pub open spec fn spec_best(self, r: Ray, tmin: int, tmax: int, n: int) -> Option<Hit>
        decreases n,
    {
        if n <= 0 {
            Option::None
        } else {
            let prev = self.spec_best(r, tmin, tmax, n - 1);
            let tm: int = match prev {
                Option::Some(h) => h.t as int,
                Option::None => T_MAX as int,
            };
            match self.spec_face(n - 1).spec_hit(r, 0, tm) {
                Option::None => prev,
                Option::Some(h) => if h.t < tm && h.t >= tmin && h.t <= tmax {
                    Option::Some(h)
                } else {
                    prev
                },
            }
        }
    }

    /// The nearest hit across the four faces.
    pub fn hits(&self, ray: &Ray, tmin: i64, tmax: i64) -> (r: Option<Hit>)
        requires
            self.wf(),
            ray.wf(),
            0 <= tmin,
            tmax <= T_MAX,
        ensures
            r == self.spec_best(*ray, tmin as int, tmax as int, 4),
            r matches Some(h) ==> tmin <= h.t <= tmax && bounded(h.p, SOLVER_LIMIT as int),
    {
        let mut tm: i64 = T_MAX;
        let mut best: Option<Hit> = None;
        proof {
            assert(self.spec_best(*ray, tmin as int, tmax as int, 0) is None);
        }
        if let Some(h) = self.base.hits(ray, 0, tm) {
            if h.t < tm && h.t >= tmin && h.t <= tmax {
                tm = h.t;
                best = Some(h);
            }
        }
        proof {
            assert(best == self.spec_best(*ray, tmin as int, tmax as int, 1));
        }
        if let Some(h) = self.side1.hits(ray, 0, tm) {
            if h.t < tm && h.t >= tmin && h.t <= tmax {
                tm = h.t;
                best = Some(h);
            }
        }
        proof {
            assert(best == self.spec_best(*ray, tmin as int, tmax as int, 2));
        }
        if let Some(h) = self.side2.hits(ray, 0, tm) {
            if h.t < tm && h.t >= tmin && h.t <= tmax {
                tm = h.t;
                best = Some(h);
            }
        }
        proof {
            assert(best == self.spec_best(*ray, tmin as int, tmax as int, 3));
        }
        if let Some(h) = self.side3.hits(ray, 0, tm) {
            if h.t < tm && h.t >= tmin && h.t <= tmax {
                tm = h.t;
                best = Some(h);
            }
        }
        proof {
            assert(best == self.spec_best(*ray, tmin as int, tmax as int, 4));
        }
        best
    }
}

/* Conifer */

/// The height of a canopy level, as tenths of its width.
pub const CONIFER_RATIO_TENTHS: i64 = 18;

/// The stack of shrinking tetrahedra of a conifer, level by level,
/// together with the apex the stack ends at: each level is four
/// fifths the size of the one below and faces the opposite way.
pub open spec fn spec_levels(top: Vec3, width: int, height: int, dir: (int, int), color: Vec3,
    n: nat) -> (Seq<Tetrahedron>, Vec3)
    decreases n,
{
    if n == 0 {
        (Seq::empty(), top)
    } else {
        let t = spec_tetra(top, height, width, dir, color);
        if n == 1 {
            (seq![t], top)
        } else {
            let h2 = if tdiv(4 * height, 5) > 1 { tdiv(4 * height, 5) } else { 1int };
            let w2 = if tdiv(4 * width, 5) > 1 { tdiv(4 * width, 5) } else { 1int };
            let top2 = Vec3 { x: top.x, y: (top.y - tdiv(3 * height, 5) + h2) as i64, z: top.z };
            let rest = spec_levels(top2, w2, h2, (-dir.0, -dir.1), color, (n - 1) as nat);
            (seq![t] + rest.0, rest.1)
        }
    }
}

/// A stack of `n` levels holds `n` tetrahedra.
proof fn lemma_levels_len(top: Vec3, width: int, height: int, dir: (int, int), color: Vec3, n: nat)
    ensures
        spec_levels(top, width, height, dir, color, n).0.len() == n,
    decreases n,
{
    if n > 1 {
        let h2 = if tdiv(4 * height, 5) > 1 { tdiv(4 * height, 5) } else { 1int };
        let w2 = if tdiv(4 * width, 5) > 1 { tdiv(4 * width, 5) } else { 1int };
        let top2 = Vec3 { x: top.x, y: (top.y - tdiv(3 * height, 5) + h2) as i64, z: top.z };
        lemma_levels_len(top2, w2, h2, (-dir.0, -dir.1), color, (n - 1) as nat);
    }
}

#[derive(Clone, Debug)]
pub struct Conifer {
    pub tetrahedrons: Vec<Tetrahedron>,
    pub bounding_sphere: Sphere,
    pub top: Vec3,
    pub height: i64,
    pub color: Vec3,
}

/// What a conifer looks like when grown from `base` with the given
/// width, level count, facing direction and green tint: the levels,
/// the apex, the height, the blended color, and a bounding sphere a
/// third of the way up with radius four fifths of the height.
#[verifier::opaque]
pub open spec fn spec_conifer_matches(r: Conifer, base: Vec3, base_width: int, steps: int,
    d0: i64, d1: i64, tint: int) -> bool {
    let colorv = Vec3::spec_from_rgb(
        crate::vec3::spec_mix_channel(0, 61, tint),
        crate::vec3::spec_mix_channel(151, 159, tint),
        crate::vec3::spec_mix_channel(0, 73, tint),
    );
    let h0 = tdiv(base_width * (CONIFER_RATIO_TENTHS as int), 10);
    let top0 = Vec3 { x: base.x, y: (base.y + h0) as i64, z: base.z };
    let built = spec_levels(top0, base_width, h0, (d0 as int, d1 as int), colorv, steps as nat);
    let dy = built.1.y - base.y;
    &&& r.tetrahedrons@ == built.0
    &&& r.top == built.1
    &&& r.height == dy
    &&& r.color == colorv
    &&& r.bounding_sphere.center == (Vec3 {
        x: base.x,
        y: (base.y + tdiv(dy, 3)) as i64,
        z: base.z,
    })
    &&& r.bounding_sphere.radius == (if tdiv(dy * 4, 5) <= 1 { 1int } else { tdiv(dy * 4, 5) })
}

/// The nearest hit among the first `n` tetrahedra of a stack, each
/// queried against the running nearest distance.
pub open spec fn spec_fold_tets(tets: Seq<Tetrahedron>, r: Ray, tmin: int, tmax: int, n: int)
    -> Option<Hit>
    decreases n,
{
    if n <= 0 {
        Option::None
    } else {
        let prev = spec_fold_tets(tets, r, tmin, tmax, n - 1);
        let tm: int = match prev {
            Option::Some(h) => h.t as int,
            Option::None => T_MAX as int,
        };
        match tets[n - 1].spec_best(r, 0, tm, 4) {
            Option::None => prev,
            Option::Some(h) => if h.t < tm && h.t >= tmin && h.t <= tmax {
                Option::Some(h)
            } else {
                prev
            },
        }
    }
}

impl Conifer {
    pub open spec fn wf(self) -> bool {
        &&& forall|i: int| 0 <= i < self.tetrahedrons@.len() ==> (#[trigger] self.tetrahedrons@[i]).wf()
        &&& self.bounding_sphere.wf()
    }

    /// The bounding sphere is tried first as a cheap rejection; only
    /// then are the levels scanned for the nearest hit.
    pub open spec fn spec_hit(self, r: Ray, tmin: int, tmax: int) -> Option<Hit> {
        if self.bounding_sphere.spec_hit_t(r, 0, T_MAX as int) is None {
            Option::None
        } else {
            spec_fold_tets(self.tetrahedrons@, r, tmin, tmax, self.tetrahedrons@.len() as int)
        }
    }

    pub fn hits(&self, ray: &Ray, tmin: i64, tmax: i64) -> (r: Option<Hit>)
        requires
            self.wf(),
            ray.wf(),
            0 <= tmin,
            tmax <= T_MAX,
        ensures
            r == self.spec_hit(*ray, tmin as int, tmax as int),
            r matches Some(h) ==> tmin <= h.t <= tmax && bounded(h.p, SOLVER_LIMIT as int),
    {
        let pre = self.bounding_sphere.hits(ray, 0, T_MAX);
        if pre.is_none() {
            return None;
        }
        let mut tm: i64 = T_MAX;
        let mut best: Option<Hit> = None;
        let n = self.tetrahedrons.len();
        let mut i: usize = 0;
        proof {
            assert(spec_fold_tets(self.tetrahedrons@, *ray, tmin as int, tmax as int, 0) is None);
        }
        while i < n
            invariant
                n == self.tetrahedrons@.len(),
                0 <= i <= n,
                self.wf(),
                ray.wf(),
                0 <= tmin,
                tmax <= T_MAX,
                best == spec_fold_tets(self.tetrahedrons@, *ray, tmin as int, tmax as int, i as int),
                tm == match best {
                    Option::Some(h) => h.t as int,
                    Option::None => T_MAX as int,
                },
                best matches Some(h) ==> tmin <= h.t <= tmax
                    && bounded(h.p, SOLVER_LIMIT as int),
            decreases n - i,
        {
            let tet = &self.tetrahedrons[i];
            if let Some(h) = tet.hits(ray, 0, tm) {
                if h.t < tm && h.t >= tmin && h.t <= tmax {
                    tm = h.t;
                    best = Some(h);
                }
            }
            i = i + 1;
        }
        best
    }

    /// A conifer: a stack of `steps` shrinking tetrahedra above
    /// `base`, wrapped in a bounding sphere; the facing direction and
    /// the green tint come from the random generator.
    pub fn new(base: Vec3, base_width: i64, steps: u8) -> (r: Conifer)
        requires
            bounded(base, 0x8000),
            0 < base_width <= 0x2000,
        ensures
            r.wf(),
            r.tetrahedrons@.len() == steps as nat,
            r.height >= 1,
            exists|d0: i64, d1: i64, tint: i64|
                -SCALE <= d0 <= SCALE && -SCALE <= d1 <= SCALE && 0 <= tint <= SCALE
                && #[trigger] spec_conifer_matches(r, base, base_width as int, steps as int,
                    d0, d1, tint as int),
    {
        let u = crate::rng::random_below(2 * (SCALE as u64) + 1) as i64 - SCALE;
        let v = crate::rng::random_below(2 * (SCALE as u64) + 1) as i64 - SCALE;
        let dir: (i64, i64) = if u == 0 && v == 0 {
            (SCALE, 0)
        } else {
            proof {
                assert(u != 0 ==> u * u > 0) by (nonlinear_arith);
                assert(v != 0 ==> v * v > 0) by (nonlinear_arith);
                assert(u * u >= 0 && v * v >= 0) by (nonlinear_arith);
            }
            let d3 = Vec3::new(u, 0, v).to_normalized();
            (d3.x, d3.z)
        };
        let tint = crate::rng::random_below(SCALE as u64 + 1) as i64;
        let g1: (u8, u8, u8) = (0, 151, 0);
        let g2: (u8, u8, u8) = (61, 159, 73);
        let color = crate::vec3::mix_rgb(g1, g2, tint);
        let r = Conifer::with_shape(base, base_width, steps, dir, color);
        proof {
            reveal(spec_conifer_matches);
            assert(spec_conifer_matches(r, base, base_width as int, steps as int,
                dir.0, dir.1, tint as int));
        }
        r
    }

    /// The deterministic shape of a conifer, given the facing
    /// direction and the color.
    #[verifier::rlimit(100)]
    pub fn with_shape(base: Vec3, base_width: i64, steps: u8, dir: (i64, i64),
        color: (u8, u8, u8)) -> (r: Conifer)
        requires
            bounded(base, 0x8000),
            0 < base_width <= 0x2000,
            -SCALE <= dir.0 <= SCALE,
            -SCALE <= dir.1 <= SCALE,
        ensures
            r.wf(),
            r.tetrahedrons@.len() == steps as nat,
            r.height >= 1,
            ({
                let colorv = Vec3::spec_from_rgb(color.0 as int, color.1 as int, color.2 as int);
                let h0 = tdiv(base_width as int * CONIFER_RATIO_TENTHS as int, 10);
                let top0 = Vec3 { x: base.x, y: (base.y + h0) as i64, z: base.z };
                let built = spec_levels(top0, base_width as int, h0,
                    (dir.0 as int, dir.1 as int), colorv, steps as nat);
                let dy = built.1.y - base.y;
                &&& r.tetrahedrons@ == built.0
                &&& r.top == built.1
                &&& r.height == dy
                &&& r.color == colorv
                &&& r.bounding_sphere.center == (Vec3 {
                    x: base.x,
                    y: (base.y + tdiv(dy, 3)) as i64,
                    z: base.z,
                })
                &&& r.bounding_sphere.radius == (if tdiv(dy * 4, 5) <= 1 {
                    1int
                } else {
                    tdiv(dy * 4, 5)
                })
            }),
    {
        let colorv = Vec3::from_rgb(color.0, color.1, color.2);
        let mut width: i64 = base_width;
        let mut height: i64 = (base_width * CONIFER_RATIO_TENTHS) / 10;
        let ghost h0 = height as int;
        let mut top = Vec3::new(base.x, base.y + height, base.z);
        let ghost top0 = top;
        let mut dir_c: i64 = dir.0;
        let mut dir_s: i64 = dir.1;
        let mut tetrahedrons: Vec<Tetrahedron> = Vec::new();
        let ghost full = spec_levels(top0, base_width as int, h0,
            (dir.0 as int, dir.1 as int), colorv, steps as nat);
        proof {
            assert(0 < h0 <= 0x10000 && h0 <= 2 * base_width) by {
                lemma_tdiv_bound(base_width as int * 18, 10, 0x2000int * 18);
                vstd::arithmetic::div_mod::lemma_div_pos_is_pos(base_width as int * 18, 10);
                assert(base_width as int * 18 >= 10) by (nonlinear_arith)
                    requires base_width as int >= 1;
                assert((base_width as int * 18) / 10 >= 1) by {
                    vstd::arithmetic::div_mod::lemma_div_is_ordered(10, base_width as int * 18, 10);
                }
                assert(base_width as int * 18 <= base_width as int * 20) by (nonlinear_arith)
                    requires base_width as int >= 0;
                vstd::arithmetic::div_mod::lemma_div_is_ordered(
                    base_width as int * 18, base_width as int * 20, 10);
                assert((base_width as int * 20) / 10 == 2 * base_width) by (nonlinear_arith);
            }
        }
        let mut i: u8 = 0;
        while i < steps
            invariant
                0 <= i <= steps,
                0 < width <= base_width <= 0x2000,
                0 < height <= h0,
                -SCALE <= dir_c <= SCALE,
                -SCALE <= dir_s <= SCALE,
                top.x == base.x && top.z == base.z,
                base.y <= top.y - height,
                top.y + height <= base.y + 2 * h0 + i,
                bounded(base, 0x8000),
                0 < h0 <= 0x10000,
                h0 <= 2 * base_width,
                tetrahedrons@.len() == i as nat,
                full == spec_levels(top0, base_width as int, h0,
                    (dir.0 as int, dir.1 as int),
                    Vec3::spec_from_rgb(color.0 as int, color.1 as int, color.2 as int),
                    steps as nat),
                colorv == Vec3::spec_from_rgb(color.0 as int, color.1 as int, color.2 as int),
                spec_levels(top, width as int, height as int, (dir_c as int, dir_s as int),
                    colorv, (steps - i) as nat)
                    == (full.0.skip(i as int), full.1),
                tetrahedrons@ == full.0.take(i as int),
                forall|k: int| 0 <= k < tetrahedrons@.len()
                    ==> (#[trigger] tetrahedrons@[k]).wf(),
            decreases steps - i,
        {
            let ghost n = (steps - i) as nat;
            let ghost pair = spec_levels(top, width as int, height as int,
                (dir_c as int, dir_s as int), colorv, n);
            proof {
                lemma_levels_len(top0, base_width as int, h0,
                    (dir.0 as int, dir.1 as int), colorv, steps as nat);
                assert(height <= h0 <= 0x10000);
                assert(bounded(top, 0x11000));
            }
            let th = Tetrahedron::new(top, height, width, (dir_c, dir_s), color);
            let ghost prefix = tetrahedrons@;
            if i != steps - 1 {
                let t35: i64 = (3 * height) / 5;
                let mut h2: i64 = (4 * height) / 5;
                if h2 <= 1 {
                    h2 = 1;
                }
                let mut w2: i64 = (4 * width) / 5;
                if w2 <= 1 {
                    w2 = 1;
                }
                proof {
                    lemma_shrink_step(height as int, t35 as int, h2 as int);
                    lemma_shrink_w(width as int, w2 as int);
                }
                let ghost rest = spec_levels(
                    Vec3 { x: top.x, y: (top.y - t35 + h2) as i64, z: top.z },
                    w2 as int, h2 as int, (-dir_c as int, -dir_s as int), colorv, (n - 1) as nat);
                proof {
                    assert(pair == (seq![th] + rest.0, rest.1));
                    lemma_levels_len(
                        Vec3 { x: top.x, y: (top.y - t35 + h2) as i64, z: top.z },
                        w2 as int, h2 as int, (-dir_c as int, -dir_s as int), colorv,
                        (n - 1) as nat);
                    assert(rest.0 == full.0.skip(i as int + 1)) by {
                        assert(seq![th] + rest.0 == full.0.skip(i as int));
                        assert_seqs_equal!(rest.0 == full.0.skip(i as int + 1), k => {
                            assert(full.0.skip(i as int + 1)[k] == full.0[k + i + 1]);
                            assert(full.0.skip(i as int)[k + 1] == full.0[k + i + 1]);
                            assert((seq![th] + rest.0)[k + 1] == rest.0[k]);
                        });
                    }
                }
                top = Vec3::new(top.x, top.y - t35 + h2, top.z);
                height = h2;
                width = w2;
                dir_c = -dir_c;
                dir_s = -dir_s;
            } else {
                proof {
                    assert(pair == (seq![th], top));
                }
            }
            tetrahedrons.push(th);
            proof {
                assert(full.0.skip(i as int)[0] == th);
                assert(full.0[i as int] == th) by {
                    assert(full.0.skip(i as int)[0] == full.0[i as int]);
                }
                assert(tetrahedrons@ == full.0.take(i as int + 1)) by {
                    assert(tetrahedrons@ == prefix.push(th));
                    assert_seqs_equal!(tetrahedrons@ == full.0.take(i as int + 1), k => {
                        if k < i as int {
                            assert(prefix[k] == full.0.take(i as int)[k]);
                        }
                    });
                }
            }
            i = i + 1;
        }
        proof {
            lemma_levels_len(top0, base_width as int, h0,
                (dir.0 as int, dir.1 as int), colorv, steps as nat);
            assert(tetrahedrons@ == full.0) by {
                assert_seqs_equal!(full.0.take(steps as int) == full.0);
            }
            if steps == 0 {
                assert(full == (Seq::<Tetrahedron>::empty(), top0));
            }
            assert(top == full.1) by {
                if i > 0 {
                    assert(spec_levels(top, width as int, height as int,
                        (dir_c as int, dir_s as int), colorv, 0nat)
                        == (full.0.skip(steps as int), full.1));
                }
            }
        }
        let dy: i64 = top.y - base.y;
        proof {
            assert(dy >= 1);
            lemma_tdiv_bound(dy as int, 3, 0x30000int + 255);
            vstd::arithmetic::div_mod::lemma_div_pos_is_pos(dy as int, 3);
            lemma_tdiv_bound(4 * dy as int, 5, 4 * (0x30000int + 255));
            vstd::arithmetic::div_mod::lemma_div_pos_is_pos(4 * dy as int, 5);
        }
        let mut rad: i64 = (dy * 4) / 5;
        if rad <= 1 {
            rad = 1;
        }
        let bs = Sphere::new(Vec3::new(base.x, base.y + dy / 3, base.z), rad, (0, 0, 0));
        let height_out: i64 = dy;
        Conifer {
            tetrahedrons,
            bounding_sphere: bs,
            top,
            height: height_out,
            color: colorv,
        }
    }
}

/// One shrink step of the conifer loop: the new height is at most
/// four fifths of the old, the step keeps the apex above the base and
/// grows the potential `top.y + height` by at most one.
proof fn lemma_shrink_step(h: int, t35: int, h2: int)
    requires
        h >= 1,
        t35 == tdiv(3 * h, 5),
        h2 == if tdiv(4 * h, 5) > 1 { tdiv(4 * h, 5) } else { 1int },
    ensures
        0 <= t35 <= h,
        1 <= h2 <= h,
        2 * h2 - t35 <= h + 1,
{
    vstd::arithmetic::div_mod::lemma_div_pos_is_pos(3 * h, 5);
    vstd::arithmetic::div_mod::lemma_fundamental_div_mod(3 * h, 5);
    vstd::arithmetic::div_mod::lemma_div_pos_is_pos(4 * h, 5);
    vstd::arithmetic::div_mod::lemma_fundamental_div_mod(4 * h, 5);
    assert(5 * t35 <= 3 * h && 3 * h <= 5 * t35 + 4) by (nonlinear_arith)
        requires 3 * h == 5 * tdiv(3 * h, 5) + (3 * h) % 5, 0 <= (3 * h) % 5 < 5,
            t35 == tdiv(3 * h, 5), h >= 1;
    assert(5 * tdiv(4 * h, 5) <= 4 * h) by (nonlinear_arith)
        requires 4 * h == 5 * tdiv(4 * h, 5) + (4 * h) % 5, 0 <= (4 * h) % 5 < 5;
    if tdiv(4 * h, 5) > 1 {
        assert(2 * h2 - t35 <= h + 1) by (nonlinear_arith)
            requires h2 == tdiv(4 * h, 5), 5 * h2 <= 4 * h, 5 * t35 >= 3 * h - 4, h >= 1,
                t35 == tdiv(3 * h, 5);
        assert(h2 <= h) by (nonlinear_arith)
            requires 5 * h2 <= 4 * h, h >= 1;
    } else {
        assert(t35 >= 0);
    }
}

/// The width shrinks but stays positive.
proof fn lemma_shrink_w(w: int, w2: int)
    requires
        w >= 1,
        w2 == if tdiv(4 * w, 5) > 1 { tdiv(4 * w, 5) } else { 1int },
    ensures
        1 <= w2 <= w,
{
    vstd::arithmetic::div_mod::lemma_div_pos_is_pos(4 * w, 5);
    vstd::arithmetic::div_mod::lemma_fundamental_div_mod(4 * w, 5);
    assert(5 * tdiv(4 * w, 5) <= 4 * w) by (nonlinear_arith)
        requires 4 * w == 5 * tdiv(4 * w, 5) + (4 * w) % 5, 0 <= (4 * w) % 5 < 5;
    if tdiv(4 * w, 5) > 1 {
        assert(w2 <= w) by (nonlinear_arith)
            requires 5 * w2 <= 4 * w, w >= 1;
    }
}

/* BaseObject */

/// A scene primitive: one closed set of shapes, dispatched by match.
#[derive(Clone, Debug)]
pub enum BaseObject {
    Plan(Plan),
    Sphere(Sphere),
    Ellipsoid(Ellipsoid),
    Triangle(Triangle),
    Tetrahedron(Tetrahedron),
    Conifer(Conifer),
}

impl BaseObject {
    pub open spec fn wf(self) -> bool {
        match self {
            BaseObject::Plan(o) => o.wf(),
            BaseObject::Sphere(o) => o.wf(),
            BaseObject::Ellipsoid(o) => o.wf(),
            BaseObject::Triangle(o) => o.wf(),
            BaseObject::Tetrahedron(o) => o.wf(),
            BaseObject::Conifer(o) => o.wf(),
        }
    }

    pub open spec fn spec_hit(self, r: Ray, tmin: int, tmax: int) -> Option<Hit> {
        match self {
            BaseObject::Plan(o) => o.spec_hit(r, tmin, tmax),
            BaseObject::Sphere(o) => o.spec_hit(r, tmin, tmax),
            BaseObject::Ellipsoid(o) => o.spec_hit(r, tmin, tmax),
            BaseObject::Triangle(o) => o.spec_hit(r, tmin, tmax),
            BaseObject::Tetrahedron(o) => o.spec_best(r, tmin, tmax, 4),
            BaseObject::Conifer(o) => o.spec_hit(r, tmin, tmax),
        }
    }

    /// The intersection test of whichever primitive this is.
    pub fn hits(&self, ray: &Ray, tmin: i64, tmax: i64) -> (r: Option<Hit>)
        requires
            self.wf(),
            ray.wf(),
            bounded(ray.origin, 0x1000_0000_0000),
            0 <= tmin,
            tmax <= T_MAX,
        ensures
            r == self.spec_hit(*ray, tmin as int, tmax as int),
            r matches Some(h) ==> tmin <= h.t <= tmax,
    {
        match self {
            BaseObject::Plan(o) => o.hits(ray, tmin, tmax),
            BaseObject::Sphere(o) => o.hits(ray, tmin, tmax),
            BaseObject::Ellipsoid(o) => o.hits(ray, tmin, tmax),
            BaseObject::Triangle(o) => o.hits(ray, tmin, tmax),
            BaseObject::Tetrahedron(o) => o.hits(ray, tmin, tmax),
            BaseObject::Conifer(o) => o.hits(ray, tmin, tmax),
        }
    }
}

} // verus!
