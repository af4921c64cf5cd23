//! The scene: the primitive list, the optional directional light, and
//! the procedural generators that populate it.

use vstd::prelude::*;
use crate::vec3::{Vec3, bounded, sq_len_raw};
use crate::fx::{SCALE, tdiv, fxmul, fxdiv, mul_fx, lemma_mul_bound, lemma_tdiv_bound};
use crate::ray::{DIR_LIMIT, WORLD, T_MAX};
use crate::object::{BaseObject, Conifer, Sphere};
use crate::camera::{RayCtx, Footprint};

verus! {

/// Pi, in fixed-point radians.
pub const PI_FX: i64 = 3217;

#[derive(Debug)]
pub struct Scene {
    pub objects: Vec<BaseObject>,
    pub sun: Option<(Vec3, Vec3, i64)>,
}

/// A sun is a bounded nonzero direction, a color with channels in
/// `[0, 1]`, and a softness in `(0, 1]`.
pub open spec fn sun_wf(sun: Option<(Vec3, Vec3, i64)>) -> bool {
    match sun {
        Option::None => true,
        Option::Some((d, c, s)) => {
            &&& bounded(d, DIR_LIMIT as int)
            &&& sq_len_raw(d) > 0
            &&& 0 <= c.x <= SCALE && 0 <= c.y <= SCALE && 0 <= c.z <= SCALE
            &&& 0 < s <= SCALE
        },
    }
}

impl Scene {
    pub open spec fn wf(self) -> bool {
        &&& forall|i: int| 0 <= i < self.objects@.len() ==> (#[trigger] self.objects@[i]).wf()
        &&& sun_wf(self.sun)
    }

    pub fn new() -> (r: Scene)
        ensures
            r.objects@.len() == 0,
            r.sun is None,
            r.wf(),
    {
        Scene { objects: Vec::new(), sun: None }
    }

    pub fn add(&mut self, obj: BaseObject)
        requires
            obj.wf(),
            old(self).wf(),
        ensures
            final(self).objects@ == old(self).objects@.push(obj),
            final(self).sun == old(self).sun,
            final(self).wf(),
    {
        self.objects.push(obj);
    }

    pub fn set_sun(&mut self, sun: Option<(Vec3, Vec3, i64)>)
        requires
            old(self).wf(),
            sun_wf(sun),
        ensures
            final(self).sun == sun,
            final(self).objects == old(self).objects,
            final(self).wf(),
    {
        self.sun = sun;
    }

    /// The warm late-afternoon light.
    pub fn set_golden_sun(&mut self)
        requires
            old(self).wf(),
        ensures
            final(self).objects == old(self).objects,
            final(self).wf(),
            final(self).sun matches Some((d, c, s)) && d == (Vec3 {
                x: 3072i64,
                y: 1024i64,
                z: -3072i64,
            }) && s == 819,
    {
        proof {
            assert(3 * (SCALE as int) * (3 * (SCALE as int)) > 0) by (nonlinear_arith)
                requires (SCALE as int) > 0;
        }
        let d = Vec3::new(3 * SCALE, SCALE, -3 * SCALE);
        let c = Vec3::from_rgb(242, 144, 45);
        proof {
            assert(sq_len_raw(d) > 0) by (nonlinear_arith)
                requires
                    sq_len_raw(d) == d.x * d.x + d.y * d.y + d.z * d.z,
                    d.x == 3 * SCALE as int && SCALE as int > 0;
        }
        self.set_sun(Some((d, c, 819)));
    }

    /// The cold morning light.
    pub fn set_blue_sun(&mut self)
        requires
            old(self).wf(),
        ensures
            final(self).objects == old(self).objects,
            final(self).wf(),
            final(self).sun matches Some((d, c, s)) && d == (Vec3 {
                x: -3072i64,
                y: 1024i64,
                z: 0i64,
            }) && s == 922,
    {
        let d = Vec3::new(-3 * SCALE, SCALE, 0);
        let c = Vec3::from_rgb(21, 116, 196);
        proof {
            assert(sq_len_raw(d) > 0) by (nonlinear_arith)
                requires
                    sq_len_raw(d) == d.x * d.x + d.y * d.y + d.z * d.z,
                    d.x == -3 * (SCALE as int) && SCALE as int > 0;
        }
        self.set_sun(Some((d, c, 922)));
    }
}

/* placement circles */

/// An exclusion disk used while scattering trees.
#[derive(Clone, Copy, Debug)]
pub struct Circle {
    pub center: Vec3,
    pub radix: i64,
}

/// The pairwise overlap test of the placement algorithm: two circles
/// conflict when their center distance squared lies between the
/// squared difference and the squared sum of the radii.
pub open spec fn spec_circles_conflict(a: Circle, b: Circle) -> bool {
    let d2 = (a.center.x - b.center.x) * (a.center.x - b.center.x)
        + (a.center.y - b.center.y) * (a.center.y - b.center.y)
        + (a.center.z - b.center.z) * (a.center.z - b.center.z);
    (a.radix - b.radix) * (a.radix - b.radix) <= d2
        && d2 <= (a.radix + b.radix) * (a.radix + b.radix)
}

/// No two circles of the sequence conflict pairwise.
pub open spec fn spec_all_clear(cs: Seq<Circle>) -> bool {
    forall|i: int, j: int| 0 <= i < j < cs.len()
        ==> !spec_circles_conflict(#[trigger] cs[i], #[trigger] cs[j])
}

impl Circle {
    pub fn new(center: Vec3, radix: i64) -> (r: Circle)
        ensures
            r.center == center,
            r.radix == radix,
    {
        Circle { center, radix }
    }

    pub fn intersects(&self, other: &Circle) -> (r: bool)
        requires
            bounded(self.center, WORLD as int),
            bounded(other.center, WORLD as int),
            0 <= self.radix <= WORLD,
            0 <= other.radix <= WORLD,
        ensures
            r <==> spec_circles_conflict(*self, *other),
    {
        let dx: i128 = (self.center.x as i128) - (other.center.x as i128);
        let dy: i128 = (self.center.y as i128) - (other.center.y as i128);
        let dz: i128 = (self.center.z as i128) - (other.center.z as i128);
        proof {
            lemma_mul_bound(dx as int, dx as int, 0x1_0000_0000int, 0x1_0000_0000int);
            lemma_mul_bound(dy as int, dy as int, 0x1_0000_0000int, 0x1_0000_0000int);
            lemma_mul_bound(dz as int, dz as int, 0x1_0000_0000int, 0x1_0000_0000int);
            let rd = self.radix as int - other.radix as int;
            let rs = self.radix as int + other.radix as int;
            lemma_mul_bound(rd, rd, 0x1_0000_0000int, 0x1_0000_0000int);
            lemma_mul_bound(rs, rs, 0x1_0000_0000int, 0x1_0000_0000int);
        }
        let d2: i128 = dx * dx + dy * dy + dz * dz;
        let rd: i128 = (self.radix as i128) - (other.radix as i128);
        let rs: i128 = (self.radix as i128) + (other.radix as i128);
        rd * rd <= d2 && d2 <= rs * rs
    }

    pub fn intersects_with_vect(&self, vec: &Vec<Circle>) -> (r: bool)
        requires
            bounded(self.center, WORLD as int),
            0 <= self.radix <= WORLD,
            forall|i: int| 0 <= i < vec@.len()
                ==> bounded((#[trigger] vec@[i]).center, WORLD as int)
                    && 0 <= vec@[i].radix <= WORLD,
        ensures
            r <==> exists|i: int| 0 <= i < vec@.len()
                && spec_circles_conflict(*self, #[trigger] vec@[i]),
    {
        let n = vec.len();
        let mut i: usize = 0;
        while i < n
            invariant
                0 <= i <= n,
                n == vec@.len(),
                bounded(self.center, WORLD as int),
                0 <= self.radix <= WORLD,
                forall|k: int| 0 <= k < vec@.len()
                    ==> bounded((#[trigger] vec@[k]).center, WORLD as int)
                        && 0 <= vec@[k].radix <= WORLD,
                forall|k: int| 0 <= k < i ==> !spec_circles_conflict(*self, #[trigger] vec@[k]),
            decreases n - i,
        {
            if self.intersects(&vec[i]) {
                return true;
            }
            i = i + 1;
        }
        false
    }
}

/* forest placement */

/// Attempts the placement loop gives up after; placement normally
/// stops far earlier, once the coverage target is reached.
pub const MAX_PLACEMENT_ATTEMPTS: u32 = 0x4000000;

/// What a placement run did: the exclusion circles it accepted, each
/// accepted tree's circular area, their total, and the attempts spent.
pub struct ForestAudit {
    pub circles: Vec<Circle>,
    pub areas: Vec<i64>,
    pub area: i64,
    pub attempts: u32,
}

/// The sum of the accepted areas.
pub open spec fn spec_area_sum(s: Seq<i64>) -> int
    decreases s.len(),
{
    if s.len() == 0 {
        0
    } else {
        spec_area_sum(s.drop_last()) + s.last()
    }
}

/// The area the placement must reach: the threshold share of the
/// footprint surface.
pub open spec fn spec_forest_target(footprint: Footprint, threshold: int) -> int {
    fxmul(footprint.spec_surface(), threshold)
}

/// Every corner of the footprint lies inside the box trees accept.
pub open spec fn spec_in_tree_box(footprint: Footprint) -> bool {
    &&& bounded(footprint.ne, 0x8000)
    &&& bounded(footprint.nw, 0x8000)
    &&& bounded(footprint.se, 0x8000)
    &&& bounded(footprint.sw, 0x8000)
}

/// A bilinear sample of a footprint inside the tree box stays inside.
proof fn lemma_pos_in_box(footprint: Footprint, i: int, j: int)
    requires
        spec_in_tree_box(footprint),
        0 <= i <= SCALE as int,
        0 <= j <= SCALE as int,
    ensures
        bounded(footprint.spec_real_position(i, j), 0x8000),
{
    crate::camera::lemma_mix_bound(footprint.se.x as int, footprint.ne.x as int, j, 0x8000);
    crate::camera::lemma_mix_bound(footprint.se.y as int, footprint.ne.y as int, j, 0x8000);
    crate::camera::lemma_mix_bound(footprint.se.z as int, footprint.ne.z as int, j, 0x8000);
    crate::camera::lemma_mix_bound(footprint.sw.x as int, footprint.nw.x as int, j, 0x8000);
    crate::camera::lemma_mix_bound(footprint.sw.y as int, footprint.nw.y as int, j, 0x8000);
    crate::camera::lemma_mix_bound(footprint.sw.z as int, footprint.nw.z as int, j, 0x8000);
    let e = crate::camera::spec_mix_v(footprint.se, footprint.ne, j);
    let w = crate::camera::spec_mix_v(footprint.sw, footprint.nw, j);
    crate::camera::lemma_mix_bound(w.x as int, e.x as int, i, 0x8000);
    crate::camera::lemma_mix_bound(w.y as int, e.y as int, i, 0x8000);
    crate::camera::lemma_mix_bound(w.z as int, e.z as int, i, 0x8000);
}

impl Scene {
    /// Scatters non-overlapping conifers across the footprint by
    /// rejection sampling until the accumulated circle area reaches
    /// `threshold` (a fraction of one) of the footprint surface: on
    /// each conflict streak past fifty, the working radius shrinks by
    /// a fifth.  Returns the number of trees planted; the scene gains
    /// exactly that many objects.  The audit carries out what the run
    /// did: the accepted circles, pairwise free of conflicts; the
    /// accumulated area, which reached the target unless the attempt
    /// budget ran out and never overshot it by more than one tree; and
    /// the attempts spent.  A footprint inside the tree box plants at
    /// least one tree: its very first sample is accepted.
    #[verifier::rlimit(100)]
    pub fn generate_forest_with_audit(&mut self, footprint: &Footprint, threshold: i64,
        audit: &mut ForestAudit) -> (trees: u32)
        requires
            old(self).wf(),
            footprint.wf(),
            footprint.modest(),
            0 < threshold < SCALE,
        ensures
            final(self).wf(),
            final(self).sun == old(self).sun,
            final(self).objects@.len() == old(self).objects@.len() + trees as nat,
            forall|k: int| 0 <= k < old(self).objects@.len()
                ==> final(self).objects@[k] == old(self).objects@[k],
            forall|k: int| old(self).objects@.len() <= k < final(self).objects@.len()
                ==> (#[trigger] final(self).objects@[k]) is Conifer,
            final(audit).circles@.len() == trees as nat,
            spec_all_clear(final(audit).circles@),
            0 <= final(audit).area <= spec_forest_target(*footprint, threshold as int) + 0x10000,
            final(audit).area >= spec_forest_target(*footprint, threshold as int)
                || final(audit).attempts == MAX_PLACEMENT_ATTEMPTS,
            spec_in_tree_box(*footprint) && spec_forest_target(*footprint, threshold as int) > 0
                ==> trees >= 1,
            final(audit).areas@.len() == trees as nat,
            final(audit).area == spec_area_sum(final(audit).areas@),
            forall|k: int| 0 <= k < trees ==> 0 <= #[trigger] final(audit).areas@[k] <= 0x10000,
            forall|k: int| 0 <= k < trees
                ==> ((#[trigger] final(self).objects@[old(self).objects@.len() + k])
                    matches BaseObject::Conifer(c)
                    && exists|w0: i64, d0: i64, d1: i64, t0: i64|
                        0 < w0 <= 0x2000 && -SCALE <= d0 <= SCALE && -SCALE <= d1 <= SCALE
                        && 0 <= t0 <= SCALE
                        && #[trigger] crate::object::spec_conifer_matches(c,
                            final(audit).circles@[k].center, w0 as int, 5, d0, d1, t0 as int)),
    {
        let mut width: i64 = 3 * SCALE / 2;
        let mut r: i64 = width / 4;
        let surface_total = footprint.get_surface();
        proof {
            lemma_mul_bound(surface_total as int, threshold as int,
                0x100_0000_0000_0000int, SCALE as int);
            lemma_tdiv_bound(surface_total as int * threshold as int, SCALE as int,
                0x100_0000_0000_0000int * 1024);
            assert((0x100_0000_0000_0000int * 1024) / 1024 == 0x100_0000_0000_0000)
                by (nonlinear_arith);
            vstd::arithmetic::div_mod::lemma_div_pos_is_pos(
                surface_total as int * threshold as int, SCALE as int);
            assert(surface_total as int * threshold as int >= 0) by (nonlinear_arith)
                requires surface_total >= 0, threshold > 0;
        }
        let surface_max: i64 = mul_fx(surface_total, threshold);
        let mut surface: i64 = 0;
        let mut vec: Vec<Circle> = Vec::new();
        let mut areas: Vec<i64> = Vec::new();
        let mut trees: u32 = 0;
        let mut tries: u32 = 0;
        let mut attempts: u32 = 0;
        let ghost base_len = self.objects@.len();
        while attempts < MAX_PLACEMENT_ATTEMPTS && surface < surface_max
            invariant
                self.wf(),
                self.sun == old(self).sun,
                footprint.wf(),
                footprint.modest(),
                0 <= attempts <= MAX_PLACEMENT_ATTEMPTS,
                1 <= width <= 3 * SCALE / 2,
                1 <= r <= width,
                0 <= surface <= surface_max + 0x10000,
                tries <= attempts,
                trees <= attempts,
                0 <= surface_max <= 0x100_0000_0000_0000,
                surface_max == spec_forest_target(*footprint, threshold as int),
                spec_in_tree_box(*footprint) && attempts >= 1 ==> trees >= 1,
                attempts == 0 ==> surface == 0 && trees == 0,
                trees == vec@.len(),
                trees == areas@.len(),
                surface == spec_area_sum(areas@),
                forall|k: int| 0 <= k < areas@.len() ==> 0 <= #[trigger] areas@[k] <= 0x10000,
                forall|k: int| 0 <= k < trees
                    ==> ((#[trigger] self.objects@[base_len + k])
                        matches BaseObject::Conifer(c)
                        && exists|w0: i64, d0: i64, d1: i64, t0: i64|
                            0 < w0 <= 0x2000 && -SCALE <= d0 <= SCALE && -SCALE <= d1 <= SCALE
                            && 0 <= t0 <= SCALE
                            && #[trigger] crate::object::spec_conifer_matches(c,
                                vec@[k].center, w0 as int, 5, d0, d1, t0 as int)),
                spec_all_clear(vec@),
                forall|k: int| 0 <= k < vec@.len()
                    ==> bounded((#[trigger] vec@[k]).center, WORLD as int)
                        && 0 <= vec@[k].radix <= WORLD,
                base_len == old(self).objects@.len(),
                self.objects@.len() == base_len + trees as nat,
                forall|k: int| 0 <= k < base_len
                    ==> self.objects@[k] == old(self).objects@[k],
                forall|k: int| base_len <= k < self.objects@.len()
                    ==> (#[trigger] self.objects@[k]) is Conifer,
            decreases MAX_PLACEMENT_ATTEMPTS - attempts,
        {
            attempts = attempts + 1;
            let i = crate::rng::random_below(SCALE as u64 + 1) as i64;
            let j = crate::rng::random_below(SCALE as u64 + 1) as i64;
            let pos = footprint.get_real_position(i, j);
            // a candidate beyond the world box of a tree counts as a
            // rejected sample
            let usable = -0x8000 <= pos.x && pos.x <= 0x8000 && -0x8000 <= pos.y
                && pos.y <= 0x8000 && -0x8000 <= pos.z && pos.z <= 0x8000;
            let rnd = crate::rng::random_below(SCALE as u64 + 1) as i64;
            proof {
                lemma_factor(rnd as int, r as int, width as int);
            }
            let rnd_factor: i64 = 716 + mul_fx(614, rnd);
            let this_r: i64 = max1(mul_fx(r, rnd_factor));
            let this_width: i64 = max1(mul_fx(width, rnd_factor));
            let c = Circle::new(pos, r);
            let conflict = if usable {
                c.intersects_with_vect(&vec)
            } else {
                true
            };
            if conflict {
                proof {
                    // an in-box footprint's first sample is accepted
                    if spec_in_tree_box(*footprint) && attempts == 1 {
                        lemma_pos_in_box(*footprint, i as int, j as int);
                        assert(usable);
                        assert(vec@.len() == 0);
                        assert(false);
                    }
                }
                tries = tries + 1;
                if tries > 50 {
                    proof {
                        lemma_shrink_keeps(width as int);
                        lemma_shrink_keeps(r as int);
                    }
                    width = max1((4 * width) / 5);
                    r = max1((4 * r) / 5);
                    if r > width {
                        r = width;
                    }
                }
            } else {
                tries = 0;
                let conifer = Conifer::new(pos, this_width, 5);
                proof {
                    let ghost cv = conifer;
                    assert(exists|w0: i64, d0: i64, d1: i64, t0: i64|
                        0 < w0 <= 0x2000 && -SCALE <= d0 <= SCALE && -SCALE <= d1 <= SCALE
                        && 0 <= t0 <= SCALE
                        && #[trigger] crate::object::spec_conifer_matches(cv, pos,
                            w0 as int, 5, d0, d1, t0 as int)) by {
                        let (d0, d1, t0) = choose|d0: i64, d1: i64, t0: i64|
                            -SCALE <= d0 <= SCALE && -SCALE <= d1 <= SCALE && 0 <= t0 <= SCALE
                            && #[trigger] crate::object::spec_conifer_matches(cv, pos,
                                this_width as int, 5, d0, d1, t0 as int);
                        assert(crate::object::spec_conifer_matches(cv, pos,
                            this_width as int, 5, d0, d1, t0 as int));
                    }
                }
                self.add(BaseObject::Conifer(conifer));
                proof {
                    assert(spec_all_clear(vec@.push(c))) by {
                        assert(forall|k: int| 0 <= k < vec@.len()
                            ==> !spec_circles_conflict(c, #[trigger] vec@[k]));
                        assert(forall|k: int| 0 <= k < vec@.len()
                            ==> !spec_circles_conflict(#[trigger] vec@[k], c)) by {
                            assert(forall|k: int| 0 <= k < vec@.len() ==> (
                                spec_circles_conflict(#[trigger] vec@[k], c)
                                    == spec_circles_conflict(c, vec@[k]))) by {
                                lemma_conflict_symmetric(c, vec@);
                            }
                        }
                    }
                }
                let ghost objects_pre = self.objects@;
                let ghost vec_pre = vec@;
                vec.push(c);
                trees = trees + 1;
                proof {
                    lemma_area_step(this_r as int);
                }
                let sq = mul_fx(this_r, this_r);
                let tree_area = mul_fx(PI_FX, sq);
                proof {
                    assert(areas@.push(tree_area as i64).drop_last() =~= areas@);
                }
                areas.push(tree_area);
                surface = surface + tree_area;
                proof {
                    assert forall|k: int| 0 <= k < trees as int implies (
                        (#[trigger] self.objects@[base_len + k])
                            matches BaseObject::Conifer(cf)
                        && exists|w0: i64, d0: i64, d1: i64, t0: i64|
                            0 < w0 <= 0x2000 && -SCALE <= d0 <= SCALE && -SCALE <= d1 <= SCALE
                            && 0 <= t0 <= SCALE
                            && #[trigger] crate::object::spec_conifer_matches(cf,
                                vec@[k].center, w0 as int, 5, d0, d1, t0 as int)) by {
                        if k == trees as int - 1 {
                            assert(self.objects@[base_len + k]
                                == BaseObject::Conifer(conifer));
                            assert(vec@[k] == c);
                            assert(c.center == pos);
                        } else {
                            assert(self.objects@[base_len + k] == objects_pre[base_len + k]);
                            assert(vec@[k] == vec_pre[k]);
                            assert((objects_pre[base_len + k]) matches BaseObject::Conifer(cf)
                                && exists|w0: i64, d0: i64, d1: i64, t0: i64|
                                    0 < w0 <= 0x2000 && -SCALE <= d0 <= SCALE
                                    && -SCALE <= d1 <= SCALE && 0 <= t0 <= SCALE
                                    && #[trigger] crate::object::spec_conifer_matches(cf,
                                        vec_pre[k].center, w0 as int, 5, d0, d1, t0 as int));
                        }
                    }
                }
            }
        }
        audit.circles = vec;
        audit.areas = areas;
        audit.area = surface;
        audit.attempts = attempts;
        trees
    }

    /// The plain entry: scatters the forest and reports the tree
    /// count, discarding the audit.
    pub fn generate_forest_monte_carlo(&mut self, footprint: &Footprint, threshold: i64)
        -> (trees: u32)
        requires
            old(self).wf(),
            footprint.wf(),
            footprint.modest(),
            0 < threshold < SCALE,
        ensures
            final(self).wf(),
            final(self).sun == old(self).sun,
            final(self).objects@.len() == old(self).objects@.len() + trees as nat,
            forall|k: int| 0 <= k < old(self).objects@.len()
                ==> final(self).objects@[k] == old(self).objects@[k],
            forall|k: int| old(self).objects@.len() <= k < final(self).objects@.len()
                ==> (#[trigger] final(self).objects@[k]) is Conifer,
            spec_in_tree_box(*footprint) && spec_forest_target(*footprint, threshold as int) > 0
                ==> trees >= 1,
    {
        let mut audit = ForestAudit {
            circles: Vec::new(),
            areas: Vec::new(),
            area: 0,
            attempts: 0,
        };
        self.generate_forest_with_audit(footprint, threshold, &mut audit)
    }
}

/// The placement conflict test is symmetric.
proof fn lemma_conflict_symmetric(c: Circle, cs: Seq<Circle>)
    ensures
        forall|k: int| 0 <= k < cs.len()
            ==> (spec_circles_conflict(#[trigger] cs[k], c) == spec_circles_conflict(c, cs[k])),
{
    assert forall|k: int| 0 <= k < cs.len()
        implies (spec_circles_conflict(#[trigger] cs[k], c) == spec_circles_conflict(c, cs[k])) by {
        let a = cs[k];
        assert((a.center.x - c.center.x) * (a.center.x - c.center.x)
            == (c.center.x - a.center.x) * (c.center.x - a.center.x)) by (nonlinear_arith);
        assert((a.center.y - c.center.y) * (a.center.y - c.center.y)
            == (c.center.y - a.center.y) * (c.center.y - a.center.y)) by (nonlinear_arith);
        assert((a.center.z - c.center.z) * (a.center.z - c.center.z)
            == (c.center.z - a.center.z) * (c.center.z - a.center.z)) by (nonlinear_arith);
        assert((a.radix - c.radix) * (a.radix - c.radix)
            == (c.radix - a.radix) * (c.radix - a.radix)) by (nonlinear_arith);
        assert((a.radix + c.radix) * (a.radix + c.radix)
            == (c.radix + a.radix) * (c.radix + a.radix)) by (nonlinear_arith);
    }
}

/// The jittered radius and width stay in the tree constructor's range.
proof fn lemma_factor(rnd: int, r: int, width: int)
    requires
        0 <= rnd <= SCALE as int,
        1 <= r <= width,
        width <= 3 * (SCALE as int) / 2,
    ensures
        0 <= fxmul(614, rnd) <= 614,
        0 <= fxmul(r, 716 + fxmul(614, rnd)) <= 0x1000,
        0 <= fxmul(width, 716 + fxmul(614, rnd)) <= 0x1000,
{
    let s = SCALE as int;
    lemma_mul_bound(614, rnd, 614, s);
    lemma_tdiv_bound(614 * rnd, s, 614 * s);
    assert((614 * s) / s == 614) by (nonlinear_arith)
        requires s >= 1;
    assert(0 <= 614 * rnd) by (nonlinear_arith)
        requires rnd >= 0;
    vstd::arithmetic::div_mod::lemma_div_pos_is_pos(614 * rnd, s);
    let f = 716 + fxmul(614, rnd);
    assert(0 <= r * f <= 1536 * 1330) by (nonlinear_arith)
        requires 1 <= r <= 1536, 716 <= f <= 1330;
    assert(0 <= width * f <= 1536 * 1330) by (nonlinear_arith)
        requires 1 <= width <= 1536, 716 <= f <= 1330;
    lemma_tdiv_bound(r * f, s, 1536int * 1330);
    lemma_tdiv_bound(width * f, s, 1536int * 1330);
    vstd::arithmetic::div_mod::lemma_div_pos_is_pos(r * f, s);
    vstd::arithmetic::div_mod::lemma_div_pos_is_pos(width * f, s);
    assert((1536int * 1330) / 1024 == 1995) by (nonlinear_arith);
}

/// One accepted tree adds a bounded circular area.
proof fn lemma_area_step(this_r: int)
    requires
        0 <= this_r <= 0x1000,
    ensures
        0 <= fxmul(this_r, this_r) <= 0x4000,
        0 <= fxmul(PI_FX as int, fxmul(this_r, this_r)) <= 0x10000,
{
    let s = SCALE as int;
    lemma_mul_bound(this_r, this_r, 0x1000, 0x1000int);
    assert(0 <= this_r * this_r) by (nonlinear_arith);
    lemma_tdiv_bound(this_r * this_r, s, 0x1000int * 0x1000);
    vstd::arithmetic::div_mod::lemma_div_pos_is_pos(this_r * this_r, s);
    assert((0x1000int * 0x1000) / 1024 == 0x4000) by (nonlinear_arith);
    let sq = fxmul(this_r, this_r);
    lemma_mul_bound(PI_FX as int, sq, 3217, 0x4000int);
    assert(0 <= PI_FX as int * sq) by (nonlinear_arith)
        requires sq >= 0;
    lemma_tdiv_bound(PI_FX as int * sq, s, 3217 * 0x4000int);
    vstd::arithmetic::div_mod::lemma_div_pos_is_pos(PI_FX as int * sq, s);
    assert((3217 * 0x4000int) / 1024 <= 0x10000) by (nonlinear_arith);
}

/// Shrinking by a fifth never grows a positive value.
proof fn lemma_shrink_keeps(w: int)
    requires
        w >= 1,
    ensures
        0 <= tdiv(4 * w, 5) <= w,
{
    assert(0 <= 4 * w) by (nonlinear_arith)
        requires w >= 0;
    vstd::arithmetic::div_mod::lemma_div_pos_is_pos(4 * w, 5);
    vstd::arithmetic::div_mod::lemma_fundamental_div_mod(4 * w, 5);
    assert(tdiv(4 * w, 5) <= w) by (nonlinear_arith)
        requires
            4 * w == 5 * ((4 * w) / 5) + (4 * w) % 5,
            0 <= (4 * w) % 5 < 5,
            w >= 1;
}

/// One, or the value itself when positive.
fn max1(v: i64) -> (r: i64)
    requires
        v < i64::MAX,
    ensures
        r == if v >= 1 { v as int } else { 1int },
        r >= 1,
{
    if v >= 1 {
        v
    } else {
        1
    }
}


/* the signature stamp and the photo extraction */

/// A fixed-point product clamped into the world box, total on all
/// inputs: the watermark geometry cannot overflow through it.
fn cmul(a: i64, b: i64) -> (r: i64)
    ensures
        r == spec_cmul(a as int, b as int),
        -WORLD <= r <= WORLD,
{
    proof {
        lemma_mul_bound(a as int, b as int, 0x8000_0000_0000_0000int, 0x8000_0000_0000_0000int);
    }
    let p: i128 = (a as i128) * (b as i128);
    let q: i128 = p / (SCALE as i128);
    if q > WORLD as i128 {
        WORLD
    } else if q < -(WORLD as i128) {
        -WORLD
    } else {
        q as i64
    }
}

/// `fxmul`, clamped into the world box.
pub open spec fn spec_cmul(a: int, b: int) -> int {
    let q = fxmul(a, b);
    if q > WORLD as int {
        WORLD as int
    } else if q < -(WORLD as int) {
        -(WORLD as int)
    } else {
        q
    }
}

/// A sum clamped into the world box.
fn cadd(a: i64, b: i64) -> (r: i64)
    requires
        -WORLD <= a <= WORLD,
        -WORLD <= b <= WORLD,
    ensures
        r == spec_cadd(a as int, b as int),
        -WORLD <= r <= WORLD,
{
    let q = a + b;
    if q > WORLD {
        WORLD
    } else if q < -WORLD {
        -WORLD
    } else {
        q
    }
}

pub open spec fn spec_cadd(a: int, b: int) -> int {
    let q = a + b;
    if q > WORLD as int {
        WORLD as int
    } else if q < -(WORLD as int) {
        -(WORLD as int)
    } else {
        q
    }
}

/// The watermark's frame: the anchor point left of the camera's
/// bottom-right corner, the glyph diameter (eight thousandths of the
/// image's right edge), and the sphere radius (half of that), all
/// determined by the camera alone.
pub open spec fn spec_signature_geometry(ctx: RayCtx) -> (Vec3, int, int) {
    let pbr = ctx.spec_ij_to_screen(SCALE as int, SCALE as int);
    let ptr = ctx.spec_ij_to_screen(SCALE as int, 0);
    let edge = spec_clamp_w(spec_dist_clamped(pbr, ptr));
    let diameter = spec_clamp1w(tdiv(edge * 8, 1000));
    let radius = spec_clamp1w(tdiv(diameter, 2));
    let reach = spec_cadd(SCALE as int, spec_cmul(2 * SCALE as int, diameter));
    let cx = spec_cadd(spec_clamp_w(ctx.eye.origin.x as int),
        spec_cmul(ctx.eye.direction.x as int, reach));
    let cy = spec_cadd(spec_clamp_w(ctx.eye.origin.y as int),
        spec_cmul(ctx.eye.direction.y as int, reach));
    let cz = spec_cadd(spec_clamp_w(ctx.eye.origin.z as int),
        spec_cmul(ctx.eye.direction.z as int, reach));
    let brx = spec_cadd(cx, spec_cadd(ctx.b.x as int,
        -fxdiv(ctx.v.x as int, ctx.aspect_ratio as int)));
    let bry = spec_cadd(cy, spec_cadd(ctx.b.y as int,
        -fxdiv(ctx.v.y as int, ctx.aspect_ratio as int)));
    let brz = spec_cadd(cz, spec_cadd(ctx.b.z as int,
        -fxdiv(ctx.v.z as int, ctx.aspect_ratio as int)));
    let base = Vec3 {
        x: spec_cadd(brx, spec_cadd(spec_cmul(spec_cmul(-25 * SCALE as int, diameter),
            ctx.b.x as int), spec_cmul(spec_cmul(2 * SCALE as int, diameter),
            ctx.v.x as int))) as i64,
        y: spec_cadd(bry, spec_cadd(spec_cmul(spec_cmul(-25 * SCALE as int, diameter),
            ctx.b.y as int), spec_cmul(spec_cmul(2 * SCALE as int, diameter),
            ctx.v.y as int))) as i64,
        z: spec_cadd(brz, spec_cadd(spec_cmul(spec_cmul(-25 * SCALE as int, diameter),
            ctx.b.z as int), spec_cmul(spec_cmul(2 * SCALE as int, diameter),
            ctx.v.z as int))) as i64,
    };
    (base, diameter, radius)
}

/// One stamped point: the anchor pushed along the image basis by the
/// glyph offset, in diameters.
pub open spec fn spec_signature_point(ctx: RayCtx, base: Vec3, diameter: int, off: (i64, i64))
    -> Vec3 {
    Vec3 {
        x: spec_cadd(base.x as int, spec_cadd(
            spec_cmul(spec_cmul(off.0 as int, diameter), ctx.b.x as int),
            spec_cmul(spec_cmul(off.1 as int, diameter), ctx.v.x as int))) as i64,
        y: spec_cadd(base.y as int, spec_cadd(
            spec_cmul(spec_cmul(off.0 as int, diameter), ctx.b.y as int),
            spec_cmul(spec_cmul(off.1 as int, diameter), ctx.v.y as int))) as i64,
        z: spec_cadd(base.z as int, spec_cadd(
            spec_cmul(spec_cmul(off.0 as int, diameter), ctx.b.z as int),
            spec_cmul(spec_cmul(off.1 as int, diameter), ctx.v.z as int))) as i64,
    }
}

impl Scene {
    /// Stamps a reproducible watermark: a fixed glyph grid of small
    /// spheres placed relative to the camera's bottom-right corner.
    /// The scene gains exactly the sixty stamp spheres, all of one
    /// radius and one color, each at its glyph offset.
    pub fn add_signature(&mut self, ray_ctx: &RayCtx)
        requires
            old(self).wf(),
            ray_ctx.wf(),
        ensures
            final(self).wf(),
            final(self).sun == old(self).sun,
            final(self).objects@.len() == old(self).objects@.len() + 60,
            forall|k: int| 0 <= k < old(self).objects@.len()
                ==> final(self).objects@[k] == old(self).objects@[k],
            ({
                let (base, diameter, radius) = spec_signature_geometry(*ray_ctx);
                forall|k: int| 0 <= k < 60
                    ==> #[trigger] final(self).objects@[old(self).objects@.len() + k]
                        == BaseObject::Sphere(crate::object::Sphere {
                            center: spec_signature_point(*ray_ctx, base, diameter,
                                spec_glyph_offsets()[k]),
                            radius: radius as i64,
                            color: Vec3::spec_from_rgb(254, 55, 32),
                        })
            }),
    {
        let p_bottom_right = ray_ctx.ij_to_screen(SCALE, SCALE);
        let p_top_right = ray_ctx.ij_to_screen(SCALE, 0);
        let edge = clamp_world(dist_clamped(&p_bottom_right, &p_top_right));
        // eight thousandths of the right edge
        let diameter = max1i(((edge as i128) * 8 / 1000) as i64);
        let radius = max1i(diameter / 2);
        let cx = cadd(clamp_world(ray_ctx.eye.origin.x),
            cmul(ray_ctx.eye.direction.x, cadd(SCALE, cmul(2 * SCALE, diameter))));
        let cy = cadd(clamp_world(ray_ctx.eye.origin.y),
            cmul(ray_ctx.eye.direction.y, cadd(SCALE, cmul(2 * SCALE, diameter))));
        let cz = cadd(clamp_world(ray_ctx.eye.origin.z),
            cmul(ray_ctx.eye.direction.z, cadd(SCALE, cmul(2 * SCALE, diameter))));
        let brx = cadd(cx, cadd(ray_ctx.b.x, -div_aspect(ray_ctx.v.x, ray_ctx.aspect_ratio)));
        let bry = cadd(cy, cadd(ray_ctx.b.y, -div_aspect(ray_ctx.v.y, ray_ctx.aspect_ratio)));
        let brz = cadd(cz, cadd(ray_ctx.b.z, -div_aspect(ray_ctx.v.z, ray_ctx.aspect_ratio)));
        let bx = cadd(brx, cadd(cmul(cmul(-25 * SCALE, diameter), ray_ctx.b.x),
            cmul(cmul(2 * SCALE, diameter), ray_ctx.v.x)));
        let by = cadd(bry, cadd(cmul(cmul(-25 * SCALE, diameter), ray_ctx.b.y),
            cmul(cmul(2 * SCALE, diameter), ray_ctx.v.y)));
        let bz = cadd(brz, cadd(cmul(cmul(-25 * SCALE, diameter), ray_ctx.b.z),
            cmul(cmul(2 * SCALE, diameter), ray_ctx.v.z)));
        let base = Vec3::new(bx, by, bz);
        proof {
            assert((base, diameter as int, radius as int) == spec_signature_geometry(*ray_ctx));
        }
        let offs = glyph_offsets();
        let n = offs.len();
        let mut k: usize = 0;
        let ghost base_len = self.objects@.len();
        while k < n
            invariant
                0 <= k <= n,
                n == offs@.len(),
                n == 60,
                offs@ == spec_glyph_offsets(),
                self.wf(),
                self.sun == old(self).sun,
                ray_ctx.wf(),
                -WORLD <= base.x <= WORLD && -WORLD <= base.y <= WORLD
                    && -WORLD <= base.z <= WORLD,
                1 <= radius <= WORLD,
                1 <= diameter <= WORLD,
                (base, diameter as int, radius as int) == spec_signature_geometry(*ray_ctx),
                base_len == old(self).objects@.len(),
                self.objects@.len() == base_len + k as nat,
                forall|m: int| 0 <= m < base_len
                    ==> self.objects@[m] == old(self).objects@[m],
                forall|m: int| 0 <= m < k as int
                    ==> #[trigger] self.objects@[base_len + m]
                        == BaseObject::Sphere(crate::object::Sphere {
                            center: spec_signature_point(*ray_ctx, base, diameter as int,
                                spec_glyph_offsets()[m]),
                            radius,
                            color: Vec3::spec_from_rgb(254, 55, 32),
                        }),
            decreases n - k,
        {
            let (gx, gy) = offs[k];
            let v = Vec3::new(
                cadd(base.x, cadd(cmul(cmul(gx, diameter), ray_ctx.b.x),
                    cmul(cmul(gy, diameter), ray_ctx.v.x))),
                cadd(base.y, cadd(cmul(cmul(gx, diameter), ray_ctx.b.y),
                    cmul(cmul(gy, diameter), ray_ctx.v.y))),
                cadd(base.z, cadd(cmul(cmul(gx, diameter), ray_ctx.b.z),
                    cmul(cmul(gy, diameter), ray_ctx.v.z))),
            );
            let sphere = Sphere::new(v, radius, (254, 55, 32));
            proof {
                assert(v == spec_signature_point(*ray_ctx, base, diameter as int,
                    spec_glyph_offsets()[k as int]));
            }
            self.add(BaseObject::Sphere(sphere));
            k = k + 1;
        }
    }
}

/// A coordinate clamped into the exact distance helper's range.
pub open spec fn spec_clamp_q(v: int) -> int {
    if v > 0x4000_0000 {
        0x4000_0000
    } else if v < -0x4000_0000 {
        -0x4000_0000
    } else {
        v
    }
}

/// The distance of two points, each first clamped into the range of
/// the exact distance helper.
pub open spec fn spec_dist_clamped(a: Vec3, b: Vec3) -> int {
    Footprint::spec_dist(
        Vec3 {
            x: spec_clamp_q(a.x as int) as i64,
            y: spec_clamp_q(a.y as int) as i64,
            z: spec_clamp_q(a.z as int) as i64,
        },
        Vec3 {
            x: spec_clamp_q(b.x as int) as i64,
            y: spec_clamp_q(b.y as int) as i64,
            z: spec_clamp_q(b.z as int) as i64,
        },
    )
}

fn dist_clamped(a: &Vec3, b: &Vec3) -> (r: i64)
    ensures
        r == spec_dist_clamped(*a, *b),
        0 <= r <= 0x1_0000_0000,
{
    let ca = Vec3 {
        x: if a.x > 0x4000_0000 { 0x4000_0000 } else if a.x < -0x4000_0000 { -0x4000_0000 } else { a.x },
        y: if a.y > 0x4000_0000 { 0x4000_0000 } else if a.y < -0x4000_0000 { -0x4000_0000 } else { a.y },
        z: if a.z > 0x4000_0000 { 0x4000_0000 } else if a.z < -0x4000_0000 { -0x4000_0000 } else { a.z },
    };
    let cb = Vec3 {
        x: if b.x > 0x4000_0000 { 0x4000_0000 } else if b.x < -0x4000_0000 { -0x4000_0000 } else { b.x },
        y: if b.y > 0x4000_0000 { 0x4000_0000 } else if b.y < -0x4000_0000 { -0x4000_0000 } else { b.y },
        z: if b.z > 0x4000_0000 { 0x4000_0000 } else if b.z < -0x4000_0000 { -0x4000_0000 } else { b.z },
    };
    crate::camera::dist_fx(&ca, &cb)
}

/// A coordinate clamped into the world box.
pub open spec fn spec_clamp_w(v: int) -> int {
    if v > WORLD as int {
        WORLD as int
    } else if v < -(WORLD as int) {
        -(WORLD as int)
    } else {
        v
    }
}

/// Clamps a coordinate into the world box.
fn clamp_world(v: i64) -> (r: i64)
    ensures
        r == spec_clamp_w(v as int),
        -WORLD <= r <= WORLD,
{
    if v > WORLD {
        WORLD
    } else if v < -WORLD {
        -WORLD
    } else {
        v
    }
}

/// One, or the value itself when at least one; clamped to the world.
/// A value floored at one and capped at the world box.
pub open spec fn spec_clamp1w(v: int) -> int {
    if v < 1 {
        1
    } else if v > WORLD as int {
        WORLD as int
    } else {
        v
    }
}

fn max1i(v: i64) -> (r: i64)
    ensures
        r == spec_clamp1w(v as int),
        1 <= r <= WORLD,
{
    if v < 1 {
        1
    } else if v > WORLD {
        WORLD
    } else {
        v
    }
}

/// A basis component divided by the aspect ratio.
fn div_aspect(v: i64, aspect: i64) -> (r: i64)
    requires
        -SCALE <= v <= SCALE,
        SCALE / 16 <= aspect <= 16 * SCALE,
    ensures
        r == crate::fx::fxdiv(v as int, aspect as int),
        -16 * SCALE <= r <= 16 * SCALE,
{
    proof {
        lemma_mul_bound(v as int, SCALE as int, SCALE as int, SCALE as int);
        lemma_tdiv_bound(v as int * (SCALE as int), aspect as int,
            (SCALE as int) * (SCALE as int));
        vstd::arithmetic::div_mod::lemma_div_is_ordered_by_denominator(
            (SCALE as int) * (SCALE as int), 64, aspect as int);
        if v >= 0 {
            vstd::arithmetic::div_mod::lemma_div_is_ordered_by_denominator(
                v as int * (SCALE as int), 64, aspect as int);
            vstd::arithmetic::div_mod::lemma_div_is_ordered(
                v as int * (SCALE as int), (SCALE as int) * (SCALE as int), 64);
        } else {
            vstd::arithmetic::div_mod::lemma_div_is_ordered_by_denominator(
                -(v as int * (SCALE as int)), 64, aspect as int);
            assert(-(v as int * (SCALE as int)) <= (SCALE as int) * (SCALE as int))
                by (nonlinear_arith)
                requires -(SCALE as int) <= v as int <= 0;
            vstd::arithmetic::div_mod::lemma_div_is_ordered(
                -(v as int * (SCALE as int)), (SCALE as int) * (SCALE as int), 64);
        }
        assert(((SCALE as int) * (SCALE as int)) / 64 == 16 * (SCALE as int))
            by (nonlinear_arith)
            requires SCALE as int == 1024;
    }
    crate::fx::div_fx(v, aspect)
}

/// The glyph grid of the watermark, in fixed-point grid units.
pub open spec fn spec_glyph_offsets() -> Seq<(i64, i64)> {
    seq![
        (0i64, 0i64), (0i64, 1024i64), (0i64, 2048i64), (0i64, 3072i64), (0i64, 4096i64),
        (1024i64, 0i64), (1024i64, 2048i64), (1024i64, 4096i64),
        (1843i64, 1024i64), (1843i64, 3072i64),
        (4096i64, 0i64),
        (6144i64, 0i64), (6144i64, 1024i64), (6144i64, 2048i64), (6144i64, 3072i64),
        (6144i64, 4096i64), (7168i64, 2048i64), (7168i64, 4096i64), (8192i64, 4096i64),
        (10240i64, 0i64), (10240i64, 1024i64), (10240i64, 2048i64), (10240i64, 3072i64),
        (11264i64, 2048i64), (11264i64, 4096i64),
        (12288i64, 0i64), (12288i64, 1024i64), (12288i64, 2048i64), (12288i64, 3072i64),
        (14336i64, 0i64), (14336i64, 1024i64), (14336i64, 2048i64), (14336i64, 3072i64),
        (14336i64, 4096i64), (15360i64, 0i64),
        (16384i64, 0i64), (16384i64, 1024i64), (16384i64, 2048i64), (16384i64, 3072i64),
        (16384i64, 4096i64),
        (18432i64, 0i64), (18432i64, 1024i64), (18432i64, 2048i64), (18432i64, 3072i64),
        (18432i64, 4096i64), (19456i64, 2048i64), (19456i64, 4096i64),
        (20275i64, 0i64), (20480i64, 1024i64), (20480i64, 3072i64),
        (22528i64, 0i64), (22528i64, 1024i64), (22528i64, 2048i64), (22528i64, 3072i64),
        (22528i64, 4096i64), (23552i64, 0i64), (23552i64, 2048i64), (23552i64, 4096i64),
        (24576i64, 0i64), (24576i64, 4096i64),
    ]
}

#[verifier::rlimit(100)]
fn glyph_offsets() -> (r: Vec<(i64, i64)>)
    ensures
        r@ == spec_glyph_offsets(),
        r@.len() == 60,
{
    let mut v: Vec<(i64, i64)> = Vec::new();
    // B
    v.push((0, 0)); v.push((0, 1024)); v.push((0, 2048)); v.push((0, 3072)); v.push((0, 4096));
    v.push((1024, 0)); v.push((1024, 2048)); v.push((1024, 4096));
    v.push((1843, 1024)); v.push((1843, 3072));
    // .
    v.push((4096, 0));
    // F
    v.push((6144, 0)); v.push((6144, 1024)); v.push((6144, 2048)); v.push((6144, 3072));
    v.push((6144, 4096)); v.push((7168, 2048)); v.push((7168, 4096)); v.push((8192, 4096));
    // A
    v.push((10240, 0)); v.push((10240, 1024)); v.push((10240, 2048)); v.push((10240, 3072));
    v.push((11264, 2048)); v.push((11264, 4096));
    v.push((12288, 0)); v.push((12288, 1024)); v.push((12288, 2048)); v.push((12288, 3072));
    // U
    v.push((14336, 0)); v.push((14336, 1024)); v.push((14336, 2048)); v.push((14336, 3072));
    v.push((14336, 4096)); v.push((15360, 0));
    v.push((16384, 0)); v.push((16384, 1024)); v.push((16384, 2048)); v.push((16384, 3072));
    v.push((16384, 4096));
    // R
    v.push((18432, 0)); v.push((18432, 1024)); v.push((18432, 2048)); v.push((18432, 3072));
    v.push((18432, 4096)); v.push((19456, 2048)); v.push((19456, 4096));
    v.push((20275, 0)); v.push((20480, 1024)); v.push((20480, 3072));
    // E
    v.push((22528, 0)); v.push((22528, 1024)); v.push((22528, 2048)); v.push((22528, 3072));
    v.push((22528, 4096)); v.push((23552, 0)); v.push((23552, 2048)); v.push((23552, 4096));
    v.push((24576, 0)); v.push((24576, 4096));
    proof {
        assert(v@ =~= spec_glyph_offsets());
    }
    v
}

/// The extraction grid, derived from the vertical sphere count and
/// the camera's aspect ratio: horizontal and vertical cell counts,
/// the sphere radius, and the view distance; none when the counts
/// leave no usable grid.
pub open spec fn spec_extract_grid(ctx: RayCtx, nv_fx: int) -> Option<(int, int, int, int)> {
    let denom = spec_cadd(
        spec_cmul(4 * SCALE as int, spec_cmul(nv_fx, ctx.aspect_ratio as int)),
        -(PI_FX as int),
    );
    if denom <= 0 {
        Option::None
    } else {
        let radius = spec_clamp1w(fxdiv(2 * PI_FX as int, denom));
        let f = spec_cadd(2 * SCALE as int, radius);
        let nh = tdiv(spec_cmul(nv_fx, ctx.aspect_ratio as int) + SCALE as int - 1, SCALE as int);
        let nv = tdiv(nv_fx, SCALE as int) + 1;
        if nh < 2 || nv < 2 || nh > 256 || nv > 256 {
            Option::None
        } else {
            Option::Some((nh, nv, radius, f))
        }
    }
}

/// The low edge of the screen block a sphere of angular radius `r`
/// at coordinate `c` covers, over `ext` pixels: truncated, clamped
/// into the grid.
pub open spec fn spec_print_lo(c: int, r: int, ext: int) -> int {
    let a = tdiv((c - r) * ext, SCALE as int);
    if a < 0 {
        0
    } else if a >= ext {
        ext - 1
    } else {
        a
    }
}

/// The high edge of that block: the ceiling, clamped into the grid.
pub open spec fn spec_print_hi(c: int, r: int, ext: int) -> int {
    let raw = (c + r) * ext;
    if raw <= 0 {
        0
    } else {
        let a = tdiv(raw + SCALE as int - 1, SCALE as int);
        if a > ext {
            ext
        } else {
            a
        }
    }
}

/// Whether the camera ray through one quarter offset of screen pixel
/// `(x, y)` hits the probe sphere.
pub open spec fn spec_probe_hits(ctx: RayCtx, probe: Sphere, x: int, y: int, di: int,
    dj: int) -> bool {
    let i = tdiv((4 * x + di) * (SCALE as int), 4 * ctx.width);
    let j = tdiv((4 * y + dj) * (SCALE as int), 4 * ctx.height);
    probe.spec_hit_t(ctx.spec_ray_new(i, j, false), 0, T_MAX as int) is Some
}

/// How many of a pixel's four sub-rays hit the probe sphere.
pub open spec fn spec_pix_weight(ctx: RayCtx, probe: Sphere, x: int, y: int) -> int {
    (if spec_probe_hits(ctx, probe, x, y, 1, 1) { 1int } else { 0 })
    + (if spec_probe_hits(ctx, probe, x, y, 1, 3) { 1int } else { 0 })
    + (if spec_probe_hits(ctx, probe, x, y, 3, 1) { 1int } else { 0 })
    + (if spec_probe_hits(ctx, probe, x, y, 3, 3) { 1int } else { 0 })
}

/// One covered pixel's weighted color contribution: nothing outside
/// the photo, else the photo pixel (bottom row first) times the
/// pixel's sub-ray weight; the last component is the weight itself.
pub open spec fn spec_pix_contrib(ctx: RayCtx, photo: crate::render::PhotoBuf, probe: Sphere,
    x: int, y: int) -> (int, int, int, int) {
    let bw = crate::render::rgb_dims(photo).0 as int;
    let bh = crate::render::rgb_dims(photo).1 as int;
    if x >= bw || y >= bh {
        (0, 0, 0, 0)
    } else {
        let w = spec_pix_weight(ctx, probe, x, y);
        let p = crate::render::rgb_pixels(photo)[(x as u32, (bh - 1 - y) as u32)];
        (p.0 * w, p.1 * w, p.2 * w, w)
    }
}

/// The weighted sums over one block row `[x0, x)` at height `y`.
pub open spec fn spec_row_sums(ctx: RayCtx, photo: crate::render::PhotoBuf, probe: Sphere,
    x0: int, x: int, y: int) -> (int, int, int, int)
    decreases x - x0,
{
    if x <= x0 {
        (0, 0, 0, 0)
    } else {
        let p = spec_row_sums(ctx, photo, probe, x0, x - 1, y);
        let c = spec_pix_contrib(ctx, photo, probe, x - 1, y);
        (p.0 + c.0, p.1 + c.1, p.2 + c.2, p.3 + c.3)
    }
}

/// The weighted sums over the block rows `[y0, y)`.
pub open spec fn spec_block_sums(ctx: RayCtx, photo: crate::render::PhotoBuf, probe: Sphere,
    x0: int, x1: int, y0: int, y: int) -> (int, int, int, int)
    decreases y - y0,
{
    if y <= y0 {
        (0, 0, 0, 0)
    } else {
        let p = spec_block_sums(ctx, photo, probe, x0, x1, y0, y - 1);
        let c = spec_row_sums(ctx, photo, probe, x0, x1, y - 1);
        (p.0 + c.0, p.1 + c.1, p.2 + c.2, p.3 + c.3)
    }
}

/// The screen-print averaged color of a probe sphere at `(ci, cj)`:
/// the photo pixels of its screen block, weighted by sub-ray hits;
/// none when no sub-ray over the block hits the sphere.
pub open spec fn spec_cell_color(ctx: RayCtx, photo: crate::render::PhotoBuf, probe: Sphere,
    ci: int, cj: int, ri: int, rj: int) -> Option<(int, int, int)> {
    let x0 = spec_print_lo(ci, ri, ctx.width as int);
    let x1 = spec_print_hi(ci, ri, ctx.width as int);
    let y0 = spec_print_lo(cj, rj, ctx.height as int);
    let y1 = spec_print_hi(cj, rj, ctx.height as int);
    let sums = spec_block_sums(ctx, photo, probe, x0, x1, y0, y1);
    if sums.3 > 0 {
        Option::Some((tdiv(sums.0, sums.3), tdiv(sums.1, sums.3), tdiv(sums.2, sums.3)))
    } else {
        Option::None
    }
}

/// The image coordinates of one extraction cell's sphere, row major:
/// the back sphere sits half a cell off in both axes.
pub open spec fn spec_extract_coords(nh: int, nv: int, cell: int, back: bool) -> (int, int) {
    let fi = tdiv((cell % nh) * (SCALE as int), nh - 1);
    let fj = tdiv((cell / nh) * (SCALE as int), nv - 1);
    if back {
        (fi + tdiv(SCALE as int, 2 * nh), fj + tdiv(SCALE as int, 2 * nv))
    } else {
        (fi, fj)
    }
}

/// The placed sphere of one extraction cell: centered on the cell's
/// camera ray at the stated distance with the stated radius (the back
/// sphere a tenth larger and one back-radius farther), colored by the
/// screen-print average, or by some bytes when no sub-ray hits (that
/// fallback color is random).
#[verifier::opaque]
pub open spec fn spec_cell_matches(ctx: RayCtx, photo: crate::render::PhotoBuf, nh: int,
    nv: int, radius: int, f: int, cell: int, back: bool, obj: BaseObject) -> bool {
    let (ci, cj) = spec_extract_coords(nh, nv, cell, back);
    let ray = ctx.spec_ray_new(ci, cj, false);
    let r2 = spec_clamp1w(radius + tdiv(radius, 10));
    let rad = if back { r2 } else { radius };
    let t = if back { spec_clamp_t(spec_cadd(f, r2)) } else { f };
    let center = spec_clamp_vec(Vec3 {
        x: (ctx.eye.origin.x + fxmul(t, ray.direction.x as int)) as i64,
        y: (ctx.eye.origin.y + fxmul(t, ray.direction.y as int)) as i64,
        z: (ctx.eye.origin.z + fxmul(t, ray.direction.z as int)) as i64,
    });
    let probe = Sphere { center, radius: rad as i64, color: Vec3::spec_from_rgb(0, 0, 0) };
    let ri = tdiv(SCALE as int, 2 * nh);
    let rj = tdiv(SCALE as int, 2 * nv);
    obj matches BaseObject::Sphere(s) && ({
        &&& s.center == center
        &&& s.radius == rad as i64
        &&& match spec_cell_color(ctx, photo, probe, ci, cj, ri, rj) {
            Option::Some(c) => s.color == Vec3::spec_from_rgb(c.0, c.1, c.2),
            Option::None => exists|rr: int, gg: int, bb: int| 0 <= rr <= 255 && 0 <= gg <= 255
                && 0 <= bb <= 255 && s.color == Vec3::spec_from_rgb(rr, gg, bb),
        }
    })
}

impl Scene {
    /// Populates the scene with a grid of spheres approximating a
    /// source photo: one front sphere per grid cell and one background
    /// sphere behind each gap, half a cell off.  Each sphere's color
    /// averages the photo pixels over the sphere's screen block,
    /// weighted by four sub-ray hit tests per pixel, with a random
    /// color where nothing is hit.  Returns how many spheres were
    /// added: two per grid cell.
    #[verifier::rlimit(100)]
    pub fn generate_from_image(&mut self, ray_ctx: &RayCtx, buf: &crate::render::PhotoBuf,
        nb_vert_spheres: i64) -> (nb: usize)
        requires
            old(self).wf(),
            ray_ctx.wf(),
            SCALE <= nb_vert_spheres <= 64 * SCALE,
            1 <= crate::render::rgb_dims(*buf).0 <= 0x10000,
            1 <= crate::render::rgb_dims(*buf).1 <= 0x10000,
        ensures
            final(self).wf(),
            final(self).sun == old(self).sun,
            final(self).objects@.len() == old(self).objects@.len() + nb as nat,
            forall|k: int| 0 <= k < old(self).objects@.len()
                ==> final(self).objects@[k] == old(self).objects@[k],
            forall|k: int| old(self).objects@.len() <= k < final(self).objects@.len()
                ==> (#[trigger] final(self).objects@[k]) is Sphere,
            spec_extract_grid(*ray_ctx, nb_vert_spheres as int) is None
                ==> nb == 0 && final(self).objects@ == old(self).objects@,
            (spec_extract_grid(*ray_ctx, nb_vert_spheres as int) matches Some((nh, nv, radius, f))
                ==> nb as int == 2 * nh * nv
                    && forall|cell: int| 0 <= cell < nh * nv ==> {
                        &&& #[trigger] spec_cell_matches(*ray_ctx, *buf, nh, nv, radius, f,
                            cell, false,
                            final(self).objects@[old(self).objects@.len() + 2 * cell])
                        &&& spec_cell_matches(*ray_ctx, *buf, nh, nv, radius, f, cell, true,
                            final(self).objects@[old(self).objects@.len() + 2 * cell + 1])
                    }),
    {
        let bw = crate::render::photo_width(buf);
        let bh = crate::render::photo_height(buf);
        // the angular radius of one sphere, from the vertical count
        let denom = cadd(cmul(4 * SCALE, cmul(nb_vert_spheres, ray_ctx.aspect_ratio)), -PI_FX);
        if denom <= 0 {
            return 0;
        }
        let radius = max1i(crate::fx::div_fx(2 * PI_FX, denom));
        let f = cadd(2 * SCALE, radius);
        // grid extents: the horizontal count follows the aspect ratio
        let nh_fx = cmul(nb_vert_spheres, ray_ctx.aspect_ratio);
        let nh: i64 = (nh_fx + SCALE - 1) / SCALE;
        let nv: i64 = nb_vert_spheres / SCALE + 1;
        if nh < 2 || nv < 2 || nh > 256 || nv > 256 {
            return 0;
        }
        // half-cell offsets: the back spheres sit behind the gaps
        let ri: i64 = SCALE / (2 * nh);
        let rj: i64 = SCALE / (2 * nv);
        proof {
            lemma_half_cell(nh as int);
            lemma_half_cell(nv as int);
        }
        let mut nb: usize = 0;
        let ghost base_len = self.objects@.len();
        let mut yi: i64 = 0;
        while yi < nv
            invariant
                0 <= yi <= nv,
                2 <= nh <= 256,
                2 <= nv <= 256,
                self.wf(),
                self.sun == old(self).sun,
                ray_ctx.wf(),
                1 <= radius <= WORLD,
                -WORLD <= f <= WORLD,
                bw == crate::render::rgb_dims(*buf).0,
                bh == crate::render::rgb_dims(*buf).1,
                1 <= bw <= 0x10000 && 1 <= bh <= 0x10000,
                ri as int == tdiv(SCALE as int, 2 * nh as int) && 0 <= ri <= SCALE / 4,
                rj as int == tdiv(SCALE as int, 2 * nv as int) && 0 <= rj <= SCALE / 4,
                base_len == old(self).objects@.len(),
                self.objects@.len() == base_len + nb as nat,
                nb as int == 2 * ((yi as int) * (nh as int)),
                spec_extract_grid(*ray_ctx, nb_vert_spheres as int)
                    == Some((nh as int, nv as int, radius as int, f as int)),
                forall|m: int| 0 <= m < base_len
                    ==> self.objects@[m] == old(self).objects@[m],
                forall|m: int| base_len <= m < self.objects@.len()
                    ==> (#[trigger] self.objects@[m]) is Sphere,
                forall|cell: int| 0 <= cell < (yi as int) * (nh as int) ==> {
                    &&& #[trigger] spec_cell_matches(*ray_ctx, *buf, nh as int, nv as int,
                        radius as int, f as int, cell, false, self.objects@[base_len + 2 * cell])
                    &&& spec_cell_matches(*ray_ctx, *buf, nh as int, nv as int,
                        radius as int, f as int, cell, true,
                        self.objects@[base_len + 2 * cell + 1])
                },
            decreases nv - yi,
        {
            let mut xi: i64 = 0;
            while xi < nh
                invariant
                    0 <= xi <= nh,
                    0 <= yi < nv,
                    2 <= nh <= 256,
                    2 <= nv <= 256,
                    self.wf(),
                    self.sun == old(self).sun,
                    ray_ctx.wf(),
                    1 <= radius <= WORLD,
                    -WORLD <= f <= WORLD,
                    bw == crate::render::rgb_dims(*buf).0,
                    bh == crate::render::rgb_dims(*buf).1,
                    1 <= bw <= 0x10000 && 1 <= bh <= 0x10000,
                    ri as int == tdiv(SCALE as int, 2 * nh as int) && 0 <= ri <= SCALE / 4,
                    rj as int == tdiv(SCALE as int, 2 * nv as int) && 0 <= rj <= SCALE / 4,
                    base_len == old(self).objects@.len(),
                    self.objects@.len() == base_len + nb as nat,
                    nb as int == 2 * ((yi as int) * (nh as int) + xi as int),
                    spec_extract_grid(*ray_ctx, nb_vert_spheres as int)
                        == Some((nh as int, nv as int, radius as int, f as int)),
                    forall|m: int| 0 <= m < base_len
                        ==> self.objects@[m] == old(self).objects@[m],
                    forall|m: int| base_len <= m < self.objects@.len()
                        ==> (#[trigger] self.objects@[m]) is Sphere,
                    forall|cell: int| 0 <= cell < (yi as int) * (nh as int) + xi as int ==> {
                        &&& #[trigger] spec_cell_matches(*ray_ctx, *buf, nh as int, nv as int,
                            radius as int, f as int, cell, false,
                            self.objects@[base_len + 2 * cell])
                        &&& spec_cell_matches(*ray_ctx, *buf, nh as int, nv as int,
                            radius as int, f as int, cell, true,
                            self.objects@[base_len + 2 * cell + 1])
                    },
                decreases nh - xi,
            {
                proof {
                    assert(2 * ((yi as int) * (nh as int) + xi as int) + 2
                        <= 2 * (256 * 256int + 256) + 2) by (nonlinear_arith)
                        requires 0 <= yi as int <= 256, 0 <= xi as int <= 256,
                            2 <= nh as int <= 256;
                }
                let ghost objects_pre = self.objects@;
                self.place_cell(ray_ctx, buf, nh, nv, radius, f, ri, rj, yi, xi);
                proof {
                    let ghost done = (yi as int) * (nh as int) + xi as int;
                    assert forall|cell: int| 0 <= cell < done + 1 implies {
                        &&& #[trigger] spec_cell_matches(*ray_ctx, *buf, nh as int, nv as int,
                            radius as int, f as int, cell, false,
                            self.objects@[base_len + 2 * cell])
                        &&& spec_cell_matches(*ray_ctx, *buf, nh as int, nv as int,
                            radius as int, f as int, cell, true,
                            self.objects@[base_len + 2 * cell + 1])
                    } by {
                        if cell < done {
                            assert(self.objects@[base_len + 2 * cell]
                                == objects_pre[base_len + 2 * cell]);
                            assert(self.objects@[base_len + 2 * cell + 1]
                                == objects_pre[base_len + 2 * cell + 1]);
                            assert(spec_cell_matches(*ray_ctx, *buf, nh as int, nv as int,
                                radius as int, f as int, cell, false,
                                objects_pre[base_len + 2 * cell]));
                            assert(spec_cell_matches(*ray_ctx, *buf, nh as int, nv as int,
                                radius as int, f as int, cell, true,
                                objects_pre[base_len + 2 * cell + 1]));
                        }
                    }
                }
                nb = nb + 2;
                xi = xi + 1;
            }
            proof {
                assert(((yi + 1) as int) * (nh as int)
                    == (yi as int) * (nh as int) + nh as int) by (nonlinear_arith);
                assert(2 * (((yi + 1) as int) * (nh as int))
                    == 2 * ((yi as int) * (nh as int) + nh as int)) by (nonlinear_arith);
                assert forall|cell: int| 0 <= cell < ((yi + 1) as int) * (nh as int) implies {
                    &&& #[trigger] spec_cell_matches(*ray_ctx, *buf, nh as int, nv as int,
                        radius as int, f as int, cell, false,
                        self.objects@[base_len + 2 * cell])
                    &&& spec_cell_matches(*ray_ctx, *buf, nh as int, nv as int,
                        radius as int, f as int, cell, true,
                        self.objects@[base_len + 2 * cell + 1])
                } by {
                    assert(0 <= cell < (yi as int) * (nh as int) + nh as int);
                    assert(spec_cell_matches(*ray_ctx, *buf, nh as int, nv as int,
                        radius as int, f as int, cell, false,
                        self.objects@[base_len + 2 * cell]));
                }
            }
            yi = yi + 1;
        }
        proof {
            assert(2 * ((nv as int) * (nh as int)) == 2 * (nh as int) * (nv as int))
                by (nonlinear_arith);
            assert((nv as int) * (nh as int) == (nh as int) * (nv as int)) by (nonlinear_arith);
        }
        nb
    }

    /// Places the front and back sphere of one extraction cell.
    #[verifier::rlimit(100)]
    fn place_cell(&mut self, ray_ctx: &RayCtx, buf: &crate::render::PhotoBuf, nh: i64, nv: i64,
        radius: i64, f: i64, ri: i64, rj: i64, yi: i64, xi: i64)
        requires
            old(self).wf(),
            ray_ctx.wf(),
            2 <= nh <= 256,
            2 <= nv <= 256,
            0 <= yi < nv,
            0 <= xi < nh,
            1 <= radius <= WORLD,
            -WORLD <= f <= WORLD,
            ri as int == tdiv(SCALE as int, 2 * nh as int) && 0 <= ri <= SCALE / 4,
            rj as int == tdiv(SCALE as int, 2 * nv as int) && 0 <= rj <= SCALE / 4,
            1 <= crate::render::rgb_dims(*buf).0 <= 0x10000,
            1 <= crate::render::rgb_dims(*buf).1 <= 0x10000,
        ensures
            final(self).wf(),
            final(self).sun == old(self).sun,
            final(self).objects@.len() == old(self).objects@.len() + 2,
            forall|m: int| 0 <= m < old(self).objects@.len()
                ==> final(self).objects@[m] == old(self).objects@[m],
            final(self).objects@[old(self).objects@.len() as int] is Sphere,
            final(self).objects@[old(self).objects@.len() as int + 1] is Sphere,
            spec_cell_matches(*ray_ctx, *buf, nh as int, nv as int, radius as int, f as int,
                (yi as int) * (nh as int) + xi as int, false,
                final(self).objects@[old(self).objects@.len() as int]),
            spec_cell_matches(*ray_ctx, *buf, nh as int, nv as int, radius as int, f as int,
                (yi as int) * (nh as int) + xi as int, true,
                final(self).objects@[old(self).objects@.len() as int + 1]),
    {
        // normalized grid coordinates of this cell
        let fi = (xi * SCALE) / (nh - 1);
        let fj = (yi * SCALE) / (nv - 1);
        proof {
            lemma_grid_coord(xi as int, nh as int);
            lemma_grid_coord(yi as int, nv as int);
            lemma_at_fits(f as int, ray_ctx.eye.origin.x as int);
            lemma_at_fits(f as int, ray_ctx.eye.origin.y as int);
            lemma_at_fits(f as int, ray_ctx.eye.origin.z as int);
        }
        // the front sphere, looking through the cell
        let ray = ray_ctx.ray_new(fi, fj, false);
        let front_c = clamp_vec(ray.direction.at(&ray_ctx.eye.origin, f));
        let front_probe = Sphere::new(front_c, radius, (0, 0, 0));
        let front_col = cell_color(ray_ctx, buf, &front_probe, fi, fj, ri, rj);
        let front = Sphere::new(front_c, radius, front_col);
        self.add(BaseObject::Sphere(front));
        // the background sphere: half a cell off, a tenth larger, one
        // back-radius farther
        let r2 = max1i(radius + radius / 10);
        let f2 = clamp_t(cadd(f, r2));
        proof {
            lemma_at_fits(f2 as int, ray_ctx.eye.origin.x as int);
            lemma_at_fits(f2 as int, ray_ctx.eye.origin.y as int);
            lemma_at_fits(f2 as int, ray_ctx.eye.origin.z as int);
        }
        let ci2 = fi + ri;
        let cj2 = fj + rj;
        let ray2 = ray_ctx.ray_new(ci2, cj2, false);
        let back_c = clamp_vec(ray2.direction.at(&ray_ctx.eye.origin, f2));
        let back_probe = Sphere::new(back_c, r2, (0, 0, 0));
        let back_col = cell_color(ray_ctx, buf, &back_probe, ci2, cj2, ri, rj);
        let back = Sphere::new(back_c, r2, back_col);
        self.add(BaseObject::Sphere(back));
        proof {
            reveal(spec_cell_matches);
            let cell0 = (yi as int) * (nh as int) + xi as int;
            assert(0 <= (xi as int) < (nh as int));
            assert(cell0 >= 0) by (nonlinear_arith)
                requires yi as int >= 0, nh as int >= 1, xi as int >= 0,
                    cell0 == (yi as int) * (nh as int) + xi as int;
            vstd::arithmetic::div_mod::lemma_fundamental_div_mod_converse(
                cell0, nh as int, yi as int, xi as int);
            assert(spec_cell_matches(*ray_ctx, *buf, nh as int, nv as int,
                radius as int, f as int, cell0, false, BaseObject::Sphere(front)));
            assert(spec_cell_matches(*ray_ctx, *buf, nh as int, nv as int,
                radius as int, f as int, cell0, true, BaseObject::Sphere(back)));
        }
    }
}

/// A half-cell offset is at most a quarter unit.
proof fn lemma_half_cell(n: int)
    requires
        2 <= n <= 256,
    ensures
        0 <= tdiv(SCALE as int, 2 * n) <= SCALE as int / 4,
{
    vstd::arithmetic::div_mod::lemma_div_pos_is_pos(SCALE as int, 2 * n);
    vstd::arithmetic::div_mod::lemma_div_is_ordered_by_denominator(SCALE as int, 4, 2 * n);
}

/// The low block edge, as the specification states it.
fn print_lo(c: i64, r: i64, ext: i64) -> (e: i64)
    requires
        -2 * SCALE <= c - r <= 4 * SCALE,
        1 <= ext <= 0x10000,
    ensures
        e == spec_print_lo(c as int, r as int, ext as int),
        0 <= e < ext,
{
    proof {
        lemma_mul_bound(c as int - r as int, ext as int, 4096, 0x10000int);
    }
    let a = ((c - r) * ext) / SCALE;
    if a < 0 {
        0
    } else if a >= ext {
        ext - 1
    } else {
        a
    }
}

/// The high block edge, as the specification states it.
fn print_hi(c: i64, r: i64, ext: i64) -> (e: i64)
    requires
        -2 * SCALE <= c + r <= 4 * SCALE,
        1 <= ext <= 0x10000,
    ensures
        e == spec_print_hi(c as int, r as int, ext as int),
        0 <= e <= ext,
{
    proof {
        lemma_mul_bound(c as int + r as int, ext as int, 4096, 0x10000int);
    }
    let raw = (c + r) * ext;
    if raw <= 0 {
        0
    } else {
        let a = (raw + SCALE - 1) / SCALE;
        if a > ext {
            ext
        } else {
            proof {
                vstd::arithmetic::div_mod::lemma_div_pos_is_pos(
                    raw as int + SCALE as int - 1, SCALE as int);
            }
            a
        }
    }
}

/// A quarter-offset sub-coordinate stays inside the unit image.
proof fn lemma_subcoord(x: int, di: int, w: int)
    requires
        0 <= x < w,
        1 <= w <= 0x10000,
        1 <= di <= 3,
    ensures
        0 <= tdiv((4 * x + di) * (SCALE as int), 4 * w) < SCALE as int,
{
    let s = SCALE as int;
    assert((4 * x + di) * s >= 0) by (nonlinear_arith)
        requires x >= 0, di >= 0, s >= 0;
    vstd::arithmetic::div_mod::lemma_div_pos_is_pos((4 * x + di) * s, 4 * w);
    assert((4 * x + di) * s < s * (4 * w)) by (nonlinear_arith)
        requires x <= w - 1, di <= 3, s > 0, w >= 1;
    vstd::arithmetic::div_mod::lemma_div_by_multiple_is_strongly_ordered(
        (4 * x + di) * s, s * (4 * w), s, 4 * w);
    vstd::arithmetic::div_mod::lemma_div_multiples_vanish(s, 4 * w);
    assert(s * (4 * w) == (4 * w) * s) by (nonlinear_arith);
}

/// Whether one quarter-offset sub-ray of screen pixel `(x, y)` hits
/// the probe sphere.
fn probe_hit(ctx: &RayCtx, probe: &Sphere, x: i64, y: i64, di: i64, dj: i64) -> (b: bool)
    requires
        ctx.wf(),
        probe.wf(),
        0 <= x < ctx.width,
        0 <= y < ctx.height,
        1 <= di <= 3,
        1 <= dj <= 3,
    ensures
        b == spec_probe_hits(*ctx, *probe, x as int, y as int, di as int, dj as int),
{
    proof {
        lemma_subcoord(x as int, di as int, ctx.width as int);
        lemma_subcoord(y as int, dj as int, ctx.height as int);
    }
    let i = ((4 * x + di) * SCALE) / (4 * ctx.width);
    let j = ((4 * y + dj) * SCALE) / (4 * ctx.height);
    let r = ctx.ray_new(i, j, false);
    probe.hits(&r, 0, T_MAX).is_some()
}

/// How many of a pixel's four sub-rays hit the probe sphere.
fn pix_weight(ctx: &RayCtx, probe: &Sphere, x: i64, y: i64) -> (w: u64)
    requires
        ctx.wf(),
        probe.wf(),
        0 <= x < ctx.width,
        0 <= y < ctx.height,
    ensures
        w as int == spec_pix_weight(*ctx, *probe, x as int, y as int),
        w <= 4,
{
    let mut w: u64 = 0;
    if probe_hit(ctx, probe, x, y, 1, 1) {
        w = w + 1;
    }
    if probe_hit(ctx, probe, x, y, 1, 3) {
        w = w + 1;
    }
    if probe_hit(ctx, probe, x, y, 3, 1) {
        w = w + 1;
    }
    if probe_hit(ctx, probe, x, y, 3, 3) {
        w = w + 1;
    }
    w
}

/// The screen-print averaged color of a probe sphere: photo pixels of
/// its block, weighted by sub-ray hits; random bytes when no sub-ray
/// over the block hits anything.
#[verifier::rlimit(100)]
fn cell_color(ctx: &RayCtx, buf: &crate::render::PhotoBuf, probe: &Sphere, ci: i64, cj: i64,
    ri: i64, rj: i64) -> (r: (u8, u8, u8))
    requires
        ctx.wf(),
        probe.wf(),
        0 <= ci <= 2 * SCALE,
        0 <= cj <= 2 * SCALE,
        0 <= ri <= SCALE,
        0 <= rj <= SCALE,
        1 <= crate::render::rgb_dims(*buf).0 <= 0x10000,
        1 <= crate::render::rgb_dims(*buf).1 <= 0x10000,
    ensures
        (spec_cell_color(*ctx, *buf, *probe, ci as int, cj as int, ri as int, rj as int)
            matches Some(c) ==> r.0 == c.0 && r.1 == c.1 && r.2 == c.2),
{
    let bw = crate::render::photo_width(buf) as i64;
    let bh = crate::render::photo_height(buf) as i64;
    let x0 = print_lo(ci, ri, ctx.width);
    let x1 = print_hi(ci, ri, ctx.width);
    let y0 = print_lo(cj, rj, ctx.height);
    let y1 = print_hi(cj, rj, ctx.height);
    let mut rs: u64 = 0;
    let mut gs: u64 = 0;
    let mut bs: u64 = 0;
    let mut ws: u64 = 0;
    let mut y = y0;
    while y < y1
        invariant
            y0 <= y <= y1 || (y == y0 && y1 < y0),
            0 <= y0 < 0x10001,
            0 <= y1 <= 0x10000,
            0 <= x0 < 0x10001,
            0 <= x1 <= 0x10000,
            ctx.wf(),
            probe.wf(),
            x0 == spec_print_lo(ci as int, ri as int, ctx.width as int),
            x1 == spec_print_hi(ci as int, ri as int, ctx.width as int),
            y0 == spec_print_lo(cj as int, rj as int, ctx.height as int),
            y1 == spec_print_hi(cj as int, rj as int, ctx.height as int),
            x0 < ctx.width && x1 <= ctx.width,
            y0 < ctx.height && y1 <= ctx.height,
            bw == crate::render::rgb_dims(*buf).0,
            bh == crate::render::rgb_dims(*buf).1,
            1 <= bw <= 0x10000 && 1 <= bh <= 0x10000,
            (rs as int, gs as int, bs as int, ws as int)
                == spec_block_sums(*ctx, *buf, *probe, x0 as int, x1 as int, y0 as int, y as int),
            rs <= 255 * ws && gs <= 255 * ws && bs <= 255 * ws,
            ws as int <= 4 * ((y as int - y0 as int) * 0x10000),
        decreases y1 - y,
    {
        let mut x = x0;
        while x < x1
            invariant
                x0 <= x <= x1 || (x == x0 && x1 < x0),
                y0 <= y < y1,
                0 <= y0 < 0x10001,
                0 <= y1 <= 0x10000,
                0 <= x0 < 0x10001,
                0 <= x1 <= 0x10000,
                ctx.wf(),
                probe.wf(),
                x0 == spec_print_lo(ci as int, ri as int, ctx.width as int),
                x1 == spec_print_hi(ci as int, ri as int, ctx.width as int),
                y0 == spec_print_lo(cj as int, rj as int, ctx.height as int),
                y1 == spec_print_hi(cj as int, rj as int, ctx.height as int),
                x0 < ctx.width && x1 <= ctx.width,
                y0 < ctx.height && y1 <= ctx.height,
                bw == crate::render::rgb_dims(*buf).0,
                bh == crate::render::rgb_dims(*buf).1,
                1 <= bw <= 0x10000 && 1 <= bh <= 0x10000,
                ({
                    let blk = spec_block_sums(*ctx, *buf, *probe, x0 as int, x1 as int,
                        y0 as int, y as int);
                    let row = spec_row_sums(*ctx, *buf, *probe, x0 as int, x as int, y as int);
                    (rs as int, gs as int, bs as int, ws as int)
                        == (blk.0 + row.0, blk.1 + row.1, blk.2 + row.2, blk.3 + row.3)
                }),
                rs <= 255 * ws && gs <= 255 * ws && bs <= 255 * ws,
                ws as int <= 4 * ((y as int - y0 as int) * 0x10000 + (x as int - x0 as int)),
            decreases x1 - x,
        {
            let ghost cpart = spec_pix_contrib(*ctx, *buf, *probe, x as int, y as int);
            if x < bw && y < bh {
                let w = pix_weight(ctx, probe, x, y);
                if w > 0 {
                    let p = crate::render::photo_get(buf, x as u32, (bh - 1 - y) as u32);
                    proof {
                        lemma_weighted_channel(p.0 as int, w as int);
                        lemma_weighted_channel(p.1 as int, w as int);
                        lemma_weighted_channel(p.2 as int, w as int);
                        assert(cpart == (p.0 as int * w as int, p.1 as int * w as int,
                            p.2 as int * w as int, w as int));
                        assert(4 * ((y as int - y0 as int) * 0x10000 + (x as int - x0 as int) + 1)
                            <= 4 * (0x10000 * 0x10000int + 0x10000)) by (nonlinear_arith)
                            requires 0 <= y as int - y0 as int <= 0x10000,
                                0 <= (x as int - x0 as int) && (x as int - x0 as int) < 0x10000;
                    }
                    rs = rs + (p.0 as u64) * w;
                    gs = gs + (p.1 as u64) * w;
                    bs = bs + (p.2 as u64) * w;
                    ws = ws + w;
                } else {
                    proof {
                        assert(cpart == (0int * 0, 0int, 0int, 0int)
                            || cpart == (0int, 0int, 0int, 0int));
                        assert(cpart.3 == 0);
                        assert(cpart.0 == 0 && cpart.1 == 0 && cpart.2 == 0) by {
                            let pv = crate::render::rgb_pixels(*buf)[(
                                x as u32, (bh as int - 1 - y as int) as u32)];
                            assert(cpart.0 == pv.0 as int * 0) by (nonlinear_arith)
                                requires cpart.0 == pv.0 as int
                                    * spec_pix_weight(*ctx, *probe, x as int, y as int),
                                    spec_pix_weight(*ctx, *probe, x as int, y as int) == 0;
                            assert(pv.0 as int * 0 == 0) by (nonlinear_arith);
                            assert(cpart.1 == pv.1 as int * 0) by (nonlinear_arith)
                                requires cpart.1 == pv.1 as int
                                    * spec_pix_weight(*ctx, *probe, x as int, y as int),
                                    spec_pix_weight(*ctx, *probe, x as int, y as int) == 0;
                            assert(pv.1 as int * 0 == 0) by (nonlinear_arith);
                            assert(cpart.2 == pv.2 as int * 0) by (nonlinear_arith)
                                requires cpart.2 == pv.2 as int
                                    * spec_pix_weight(*ctx, *probe, x as int, y as int),
                                    spec_pix_weight(*ctx, *probe, x as int, y as int) == 0;
                            assert(pv.2 as int * 0 == 0) by (nonlinear_arith);
                        }
                    }
                }
            } else {
                proof {
                    assert(cpart == (0int, 0int, 0int, 0int));
                }
            }
            proof {
                assert(spec_row_sums(*ctx, *buf, *probe, x0 as int, x as int + 1, y as int)
                    == ({
                        let prev = spec_row_sums(*ctx, *buf, *probe, x0 as int, x as int, y as int);
                        (prev.0 + cpart.0, prev.1 + cpart.1, prev.2 + cpart.2,
                            prev.3 + cpart.3)
                    }));
            }
            x = x + 1;
        }
        proof {
            assert(4 * (((y + 1) as int - y0 as int) * 0x10000)
                == 4 * ((y as int - y0 as int) * 0x10000 + 0x10000)) by (nonlinear_arith);
        }
        y = y + 1;
    }
    if ws > 0 {
        proof {
            lemma_weighted_avg(rs as int, ws as int);
            lemma_weighted_avg(gs as int, ws as int);
            lemma_weighted_avg(bs as int, ws as int);
        }
        ((rs / ws) as u8, (gs / ws) as u8, (bs / ws) as u8)
    } else {
        // nothing was hit: the fallback color is a random one
        (
            crate::rng::random_below(256) as u8,
            crate::rng::random_below(256) as u8,
            crate::rng::random_below(256) as u8,
        )
    }
}

/// One pixel's weighted channel stays within the weight times a byte.
proof fn lemma_weighted_channel(p: int, w: int)
    requires
        0 <= p <= 255,
        0 <= w <= 4,
    ensures
        0 <= p * w <= 255 * w,
        p * w <= 1020,
{
    assert(0 <= p * w <= 255 * w) by (nonlinear_arith)
        requires 0 <= p <= 255, 0 <= w;
    assert(255 * w <= 1020) by (nonlinear_arith)
        requires w <= 4;
}

/// A weighted channel sum divides to a byte.
proof fn lemma_weighted_avg(sum: int, w: int)
    requires
        1 <= w,
        0 <= sum <= 255 * w,
    ensures
        0 <= tdiv(sum, w) <= 255,
{
    vstd::arithmetic::div_mod::lemma_div_pos_is_pos(sum, w);
    vstd::arithmetic::div_mod::lemma_div_is_ordered(sum, 255 * w, w);
    vstd::arithmetic::div_mod::lemma_div_multiples_vanish(255, w);
    assert(255 * w == w * 255) by (nonlinear_arith);
}

/// Walking a bounded parameter along a bounded direction fits in a
/// machine word.
proof fn lemma_at_fits(t: int, o: int)
    requires
        -(T_MAX as int) <= t <= T_MAX as int,
        -(WORLD as int) <= o <= WORLD as int,
    ensures
        forall|d: int| -(DIR_LIMIT as int) <= d <= DIR_LIMIT as int
            ==> crate::vec3::in64(#[trigger] fxmul(t, d))
                && crate::vec3::in64(o + fxmul(t, d)),
{
    assert forall|d: int| -(DIR_LIMIT as int) <= d <= DIR_LIMIT as int
        implies crate::vec3::in64(#[trigger] fxmul(t, d))
            && crate::vec3::in64(o + fxmul(t, d)) by {
        lemma_mul_bound(t, d, T_MAX as int, DIR_LIMIT as int);
        lemma_tdiv_bound(t * d, SCALE as int, (T_MAX as int) * (DIR_LIMIT as int));
        assert(((T_MAX as int) * (DIR_LIMIT as int)) / (SCALE as int) == 0x100_0000_0000)
            by (nonlinear_arith)
            requires SCALE as int == 1024, T_MAX as int == 0x8_0000_0000,
                DIR_LIMIT as int == 0x8000;
    }
}

/// Grid coordinates stay within one unit.
proof fn lemma_grid_coord(i: int, n: int)
    requires
        0 <= i < n,
        2 <= n <= 256,
    ensures
        0 <= tdiv(i * (SCALE as int), n - 1) <= SCALE as int,
{
    let s = SCALE as int;
    assert(0 <= i * s <= (n - 1) * s) by (nonlinear_arith)
        requires 0 <= i <= n - 1, s > 0;
    vstd::arithmetic::div_mod::lemma_div_pos_is_pos(i * s, n - 1);
    vstd::arithmetic::div_mod::lemma_div_is_ordered(i * s, (n - 1) * s, n - 1);
    vstd::arithmetic::div_mod::lemma_div_multiples_vanish(s, n - 1);
    assert((n - 1) * s == s * (n - 1)) by (nonlinear_arith);
}

/// A time parameter clamped into the ray's range.
pub open spec fn spec_clamp_t(v: int) -> int {
    if v < 0 {
        0
    } else if v > T_MAX as int {
        T_MAX as int
    } else {
        v
    }
}

fn clamp_t(v: i64) -> (r: i64)
    ensures
        r == spec_clamp_t(v as int),
        0 <= r <= T_MAX,
{
    if v < 0 {
        0
    } else if v > T_MAX {
        T_MAX
    } else {
        v
    }
}

/// A point clamped into the world box, coordinate by coordinate.
pub open spec fn spec_clamp_vec(v: Vec3) -> Vec3 {
    Vec3 {
        x: if v.x > WORLD { WORLD } else if v.x < -WORLD { (-WORLD) as i64 } else { v.x },
        y: if v.y > WORLD { WORLD } else if v.y < -WORLD { (-WORLD) as i64 } else { v.y },
        z: if v.z > WORLD { WORLD } else if v.z < -WORLD { (-WORLD) as i64 } else { v.z },
    }
}

fn clamp_vec(v: Vec3) -> (r: Vec3)
    ensures
        r == spec_clamp_vec(v),
        bounded(r, WORLD as int),
{
    Vec3 {
        x: if v.x > WORLD { WORLD } else if v.x < -WORLD { -WORLD } else { v.x },
        y: if v.y > WORLD { WORLD } else if v.y < -WORLD { -WORLD } else { v.y },
        z: if v.z > WORLD { WORLD } else if v.z < -WORLD { -WORLD } else { v.z },
    }
}

} // verus!
