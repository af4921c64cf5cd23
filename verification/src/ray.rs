//! Rays and intersection records, and the range discipline that keeps
//! every intersection computation within 128 bits.

use vstd::prelude::*;
use crate::vec3::{Vec3, bounded, sq_len_raw};
use crate::fx::{SCALE, fxmul, tdiv};

verus! {

/// Distance parameter that stands for "no hit": beyond everything.
pub const T_MAX: i64 = 0x8_0000_0000;

/// Largest direction component a ray may carry.
pub const DIR_LIMIT: i64 = 0x8000;

/// Largest origin component a ray may carry.
pub const ORIGIN_LIMIT: i64 = 0x2000_0000_0000;

/// Largest coordinate of scene data (centers, vertices, plane points).
pub const WORLD: i64 = 0x8000_0000;

/// How far one step of `T_MAX` units along a bounded direction can
/// move a point: `T_MAX * DIR_LIMIT / SCALE`.
pub const STEP: i64 = 0x100_0000_0000;

/// Snapping and self-intersection tolerance, in fixed-point units.
pub const EPSILON: i64 = 1;

#[derive(Clone, Copy, Debug)]
pub struct Ray {
    pub origin: Vec3,
    pub direction: Vec3,
    pub is_light: bool,
}

impl Ray {
    /// A usable ray: bounded components and a nonzero direction.
    pub open spec fn wf(self) -> bool {
        &&& bounded(self.origin, ORIGIN_LIMIT as int)
        &&& bounded(self.direction, DIR_LIMIT as int)
        &&& sq_len_raw(self.direction) > 0
    }

    /// The point at parameter `t` along this ray.
    pub fn at(&self, t: i64) -> (r: Vec3)
        requires
            bounded(self.origin, ORIGIN_LIMIT as int),
            bounded(self.direction, DIR_LIMIT as int),
            0 <= t <= T_MAX,
        ensures
            r.x == self.origin.x + fxmul(t as int, self.direction.x as int),
            r.y == self.origin.y + fxmul(t as int, self.direction.y as int),
            r.z == self.origin.z + fxmul(t as int, self.direction.z as int),
            bounded(r, ORIGIN_LIMIT as int + STEP as int),
    {
        proof {
            lemma_step_bound(t as int, self.direction.x as int);
            lemma_step_bound(t as int, self.direction.y as int);
            lemma_step_bound(t as int, self.direction.z as int);
        }
        self.direction.at(&self.origin, t)
    }
}

/// Moving at most `T_MAX` units along a bounded direction moves each
/// coordinate by at most `STEP`.
pub proof fn lemma_step_bound(t: int, d: int)
    requires
        0 <= t <= T_MAX as int,
        -(DIR_LIMIT as int) <= d <= DIR_LIMIT as int,
    ensures
        -(STEP as int) <= fxmul(t, d) <= STEP as int,
{
    assert(-(0x8_0000_0000 * 0x8000) <= t * d <= 0x8_0000_0000 * 0x8000) by (nonlinear_arith)
        requires 0 <= t <= 0x8_0000_0000, -0x8000 <= d <= 0x8000;
    crate::fx::lemma_tdiv_bound(t * d, SCALE as int, 0x8_0000_0000int * 0x8000);
    assert((0x8_0000_0000 * 0x8000) / 1024 == 0x100_0000_0000);
}

/// The point of `r` at parameter `t`, as a vector value.
pub open spec fn spec_at(r: Ray, t: int) -> Vec3 {
    Vec3 {
        x: (r.origin.x + fxmul(t, r.direction.x as int)) as i64,
        y: (r.origin.y + fxmul(t, r.direction.y as int)) as i64,
        z: (r.origin.z + fxmul(t, r.direction.z as int)) as i64,
    }
}

/// The record of a successful intersection.
#[derive(Clone, Copy, Debug)]
pub struct Hit {
    pub color: Vec3,
    pub normal: Vec3,
    pub p: Vec3,
    pub t: i64,
}

impl Hit {
    /// The "no hit yet" record: at distance `T_MAX`, black, unoriented.
    pub fn new() -> (h: Hit)
        ensures
            h.t == T_MAX,
            h.color == (Vec3 { x: 0i64, y: 0i64, z: 0i64 }),
            h.normal == (Vec3 { x: 0i64, y: 0i64, z: 0i64 }),
            h.p == (Vec3 { x: 0i64, y: 0i64, z: 0i64 }),
    {
        Hit {
            color: Vec3::origin(),
            normal: Vec3::origin(),
            p: Vec3::origin(),
            t: T_MAX,
        }
    }
}

} // verus!
