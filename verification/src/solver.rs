//! An exact solver for `x*a + y*b + z*c = p` over three-component
//! vectors: Gaussian elimination with row swaps, carried out on
//! 128-bit integers, returning the solution as exact rationals.

use vstd::prelude::*;
use crate::vec3::{Vec3, bounded};
use crate::fx::lemma_mul_bound;

verus! {

/// Largest component magnitude the solver accepts; it keeps every
/// intermediate product of the elimination within 128 bits.
pub const SOLVER_LIMIT: i64 = 131072;

/// An exact rational number with a positive denominator.
#[derive(Clone, Copy, Debug)]
pub struct Q {
    pub num: i128,
    pub den: i128,
}

impl Q {
    pub open spec fn wf(self) -> bool {
        self.den > 0
    }

    /// This rational equals the integer `a`.
    pub open spec fn eq_int(self, a: int) -> bool {
        self.num == a * self.den
    }

    /// Whether this rational equals the integer `v`, decided exactly.
    pub fn is_int(&self, v: i64) -> (r: bool)
        requires
            self.wf(),
        ensures
            r <==> self.eq_int(v as int),
    {
        let rem = self.num % self.den;
        if rem != 0 {
            proof {
                if self.num == v as int * self.den {
                    lemma_multiple_rem_zero(v as int, self.den as int);
                }
            }
            false
        } else {
            let quot = self.num / self.den;
            proof {
                lemma_exact_quotient(self.num as int, self.den as int, quot as int);
                if quot != v as i128 && self.num == v as int * self.den {
                    assert(false) by (nonlinear_arith)
                        requires
                            self.num == quot as int * self.den,
                            self.num == v as int * self.den,
                            self.den > 0,
                            quot as int != v as int;
                }
            }
            quot == v as i128
        }
    }
}

/// If `n == v * d`, the truncating remainder of `n` by `d` is zero.
proof fn lemma_multiple_rem_zero(v: int, d: int)
    requires
        d > 0,
    ensures
        v * d >= 0 ==> (v * d) % d == 0,
        v * d < 0 ==> (-(v * d)) % d == 0,
{
    vstd::arithmetic::div_mod::lemma_mod_multiples_basic(v, d);
    assert(-(v * d) == (-v) * d) by (nonlinear_arith);
    vstd::arithmetic::div_mod::lemma_mod_multiples_basic(-v, d);
}

/// A zero truncating remainder with quotient `q` means `n == q * d`.
proof fn lemma_exact_quotient(n: int, d: int, q: int)
    requires
        d > 0,
        n >= 0 ==> q == n / d && n % d == 0,
        n < 0 ==> q == -((-n) / d) && (-n) % d == 0,
    ensures
        n == q * d,
{
    if n >= 0 {
        vstd::arithmetic::div_mod::lemma_fundamental_div_mod(n, d);
    } else {
        vstd::arithmetic::div_mod::lemma_fundamental_div_mod(-n, d);
        assert(-n == ((-n) / d) * d + (-n) % d) by {
            assert(d * ((-n) / d) == ((-n) / d) * d) by (nonlinear_arith);
        }
        assert(n == q * d) by (nonlinear_arith)
            requires -n == (-q) * d, q == -(-q);
    }
}

/// The solution of a system: three exact rationals.
#[derive(Clone, Copy, Debug)]
pub struct QVec3 {
    pub x: Q,
    pub y: Q,
    pub z: Q,
}

impl QVec3 {
    pub open spec fn wf(self) -> bool {
        self.x.wf() && self.y.wf() && self.z.wf()
    }
}

/// `x` brought over the common denominator of the triple.
pub open spec fn wx(w: QVec3) -> int {
    w.x.num * (w.y.den * w.z.den)
}

pub open spec fn wy(w: QVec3) -> int {
    w.y.num * (w.x.den * w.z.den)
}

pub open spec fn wz(w: QVec3) -> int {
    w.z.num * (w.x.den * w.y.den)
}

/// The common denominator of the triple.
pub open spec fn wd(w: QVec3) -> int {
    w.x.den * (w.y.den * w.z.den)
}

/// The defect of one equation `ra*x + rb*y + rc*z = rd` at `w`,
/// multiplied through by the common denominator; zero means the
/// equation holds exactly.
pub open spec fn row_val(ra: int, rb: int, rc: int, rd: int, w: QVec3) -> int {
    ra * wx(w) + rb * wy(w) + rc * wz(w) - rd * wd(w)
}

/// `w` solves `x*a + y*b + z*c = p` exactly, coordinate by coordinate.
pub open spec fn solves(a: Vec3, b: Vec3, c: Vec3, p: Vec3, w: QVec3) -> bool {
    &&& row_val(a.x as int, b.x as int, c.x as int, p.x as int, w) == 0
    &&& row_val(a.y as int, b.y as int, c.y as int, p.y as int, w) == 0
    &&& row_val(a.z as int, b.z as int, c.z as int, p.z as int, w) == 0
}

/// One row of the augmented system, in specification land.
pub type R4 = (int, int, int, int);

/// `alpha * r - beta * s`, one row combined with another.
pub open spec fn comb(alpha: int, r: R4, beta: int, s: R4) -> R4 {
    (
        alpha * r.0 - beta * s.0,
        alpha * r.1 - beta * s.1,
        alpha * r.2 - beta * s.2,
        alpha * r.3 - beta * s.3,
    )
}

/// Rows swapped until the first pivot is nonzero, as the elimination
/// performs it: first the leading coefficient, then the second.
pub open spec fn spec_arrange(r1: R4, r2: R4, r3: R4) -> Option<(R4, R4, R4)> {
    let first = if r1.0 != 0 {
        Option::Some((r1, r2, r3))
    } else if r2.0 != 0 {
        Option::Some((r2, r1, r3))
    } else if r3.0 != 0 {
        Option::Some((r3, r2, r1))
    } else {
        Option::None
    };
    match first {
        Option::None => Option::None,
        Option::Some((s1, s2, s3)) => {
            if s2.1 != 0 {
                Option::Some((s1, s2, s3))
            } else if s3.1 != 0 {
                Option::Some((s1, s3, s2))
            } else {
                Option::None
            }
        },
    }
}

/// The three elimination steps on arranged rows: zero the leading
/// coefficient of the third and second rows, then the second
/// coefficient of the third.
pub open spec fn spec_eliminate(s1: R4, s2: R4, s3: R4) -> (R4, R4, R4) {
    let t3 = if s3.0 != 0 {
        comb(s1.0, s3, s3.0, s1)
    } else {
        s3
    };
    let t2 = if s2.0 != 0 {
        comb(s1.0, s2, s2.0, s1)
    } else {
        s2
    };
    let u3 = if t2.1 != 0 {
        comb(t2.1, t3, t3.1, t2)
    } else {
        t3
    };
    (s1, t2, u3)
}

/// Whether the elimination runs to completion: rows can be arranged,
/// the third pivot is nonzero before the elimination, and all three
/// pivots are nonzero after it.
pub open spec fn spec_solvable(r1: R4, r2: R4, r3: R4) -> bool {
    match spec_arrange(r1, r2, r3) {
        Option::None => false,
        Option::Some((s1, s2, s3)) => {
            if s3.2 == 0 {
                false
            } else {
                let (t1, t2, u3) = spec_eliminate(s1, s2, s3);
                u3.2 != 0 && t2.1 != 0 && t1.0 != 0
            }
        },
    }
}

/// The rows of the system `x*a + y*b + z*c = p`, one per coordinate.
pub open spec fn spec_row_x(a: Vec3, b: Vec3, c: Vec3, p: Vec3) -> R4 {
    (a.x as int, b.x as int, c.x as int, p.x as int)
}

pub open spec fn spec_row_y(a: Vec3, b: Vec3, c: Vec3, p: Vec3) -> R4 {
    (a.y as int, b.y as int, c.y as int, p.y as int)
}

pub open spec fn spec_row_z(a: Vec3, b: Vec3, c: Vec3, p: Vec3) -> R4 {
    (a.z as int, b.z as int, c.z as int, p.z as int)
}

/// One row of the augmented system at run time.
#[derive(Clone, Copy, Debug)]
struct Row {
    a: i128,
    b: i128,
    c: i128,
    d: i128,
}

impl Row {
    spec fn view4(self) -> R4 {
        (self.a as int, self.b as int, self.c as int, self.d as int)
    }

    spec fn within(self, m: int) -> bool {
        &&& -m <= self.a <= m
        &&& -m <= self.b <= m
        &&& -m <= self.c <= m
        &&& -m <= self.d <= m
    }
}

/// `alpha * r - beta * s` at run time, with a magnitude bound carried
/// through: inputs below `m` give outputs below `2 * m * m`.
fn comb_row(alpha: i128, r: &Row, beta: i128, s: &Row, Ghost(m): Ghost<int>) -> (t: Row)
    requires
        0 < m,
        2 * m * m < i128::MAX,
        -m <= alpha <= m,
        -m <= beta <= m,
        r.within(m),
        s.within(m),
    ensures
        t.view4() == comb(alpha as int, r.view4(), beta as int, s.view4()),
        t.within(2 * m * m),
{
    proof {
        assert(2 * m * m == 2 * (m * m)) by (nonlinear_arith);
        lemma_comb_bounds(alpha as int, r.a as int, beta as int, s.a as int, m);
        lemma_comb_bounds(alpha as int, r.b as int, beta as int, s.b as int, m);
        lemma_comb_bounds(alpha as int, r.c as int, beta as int, s.c as int, m);
        lemma_comb_bounds(alpha as int, r.d as int, beta as int, s.d as int, m);
    }
    Row {
        a: alpha * r.a - beta * s.a,
        b: alpha * r.b - beta * s.b,
        c: alpha * r.c - beta * s.c,
        d: alpha * r.d - beta * s.d,
    }
}

proof fn lemma_comb_bounds(alpha: int, x: int, beta: int, y: int, m: int)
    requires
        0 < m,
        -m <= alpha <= m,
        -m <= beta <= m,
        -m <= x <= m,
        -m <= y <= m,
    ensures
        0 < m * m,
        -(m * m) <= alpha * x <= m * m,
        -(m * m) <= beta * y <= m * m,
        -(2 * m * m) <= alpha * x - beta * y <= 2 * m * m,
{
    assert(0 < m * m) by (nonlinear_arith)
        requires 0 < m;
    assert(2 * m * m == 2 * (m * m)) by (nonlinear_arith);
    assert(-(m * m) <= alpha * x <= m * m) by (nonlinear_arith)
        requires 0 < m, -m <= alpha <= m, -m <= x <= m;
    assert(-(m * m) <= beta * y <= m * m) by (nonlinear_arith)
        requires 0 < m, -m <= beta <= m, -m <= y <= m;
}

/// If `w` zeroes the combined row `alpha*r - beta*s` and the row `s`,
/// and `alpha` is nonzero, then `w` zeroes the row `r` too.
proof fn lemma_combine_back(alpha: int, r: R4, beta: int, s: R4, w: QVec3)
    requires
        alpha != 0,
        row_val(comb(alpha, r, beta, s).0, comb(alpha, r, beta, s).1,
            comb(alpha, r, beta, s).2, comb(alpha, r, beta, s).3, w) == 0,
        row_val(s.0, s.1, s.2, s.3, w) == 0,
    ensures
        row_val(r.0, r.1, r.2, r.3, w) == 0,
{
    let xq = wx(w);
    let yq = wy(w);
    let zq = wz(w);
    let dq = wd(w);
    let t = comb(alpha, r, beta, s);
    assert(t.0 * xq == alpha * (r.0 * xq) - beta * (s.0 * xq)) by (nonlinear_arith)
        requires t.0 == alpha * r.0 - beta * s.0;
    assert(t.1 * yq == alpha * (r.1 * yq) - beta * (s.1 * yq)) by (nonlinear_arith)
        requires t.1 == alpha * r.1 - beta * s.1;
    assert(t.2 * zq == alpha * (r.2 * zq) - beta * (s.2 * zq)) by (nonlinear_arith)
        requires t.2 == alpha * r.2 - beta * s.2;
    assert(t.3 * dq == alpha * (r.3 * dq) - beta * (s.3 * dq)) by (nonlinear_arith)
        requires t.3 == alpha * r.3 - beta * s.3;
    let rv = row_val(r.0, r.1, r.2, r.3, w);
    let sv = row_val(s.0, s.1, s.2, s.3, w);
    assert(alpha * rv == alpha * (r.0 * xq) + alpha * (r.1 * yq) + alpha * (r.2 * zq)
        - alpha * (r.3 * dq)) by (nonlinear_arith)
        requires rv == r.0 * xq + r.1 * yq + r.2 * zq - r.3 * dq;
    assert(beta * sv == beta * (s.0 * xq) + beta * (s.1 * yq) + beta * (s.2 * zq)
        - beta * (s.3 * dq)) by (nonlinear_arith)
        requires sv == s.0 * xq + s.1 * yq + s.2 * zq - s.3 * dq;
    assert(alpha * rv == 0);
    assert(rv == 0) by (nonlinear_arith)
        requires alpha * rv == 0, alpha != 0;
}

/// The back-substituted `z` zeroes the last triangular row.
proof fn lemma_z_row(c3: int, d3: int, w: QVec3)
    requires
        c3 * w.z.num == d3 * w.z.den,
    ensures
        row_val(0, 0, c3, d3, w) == 0,
{
    let pd = w.x.den * w.y.den;
    assert(c3 * wz(w) - d3 * wd(w) == 0) by (nonlinear_arith)
        requires
            c3 * w.z.num == d3 * w.z.den,
            wz(w) == w.z.num * (w.x.den * w.y.den),
            wd(w) == w.x.den * (w.y.den * w.z.den);
    assert(0 * wx(w) == 0 && 0 * wy(w) == 0) by (nonlinear_arith);
}

/// The back-substituted `y` zeroes the middle triangular row.
proof fn lemma_y_row(b2: int, c2: int, d2: int, w: QVec3)
    requires
        w.y.num == d2 * w.z.den - c2 * w.z.num,
        w.y.den == b2 * w.z.den,
    ensures
        row_val(0, b2, c2, d2, w) == 0,
{
    let xd = w.x.den as int;
    let yn = w.y.num as int;
    let yd = w.y.den as int;
    let zn = w.z.num as int;
    let zd = w.z.den as int;
    let k = xd * zd;
    assert(wy(w) == yn * k);
    assert(wz(w) == zn * (xd * (b2 * zd)));
    assert(wz(w) == b2 * (zn * k)) by (nonlinear_arith)
        requires wz(w) == zn * (xd * (b2 * zd)), k == xd * zd;
    assert(wd(w) == xd * ((b2 * zd) * zd));
    assert(wd(w) == b2 * (zd * k)) by (nonlinear_arith)
        requires wd(w) == xd * ((b2 * zd) * zd), k == xd * zd;
    assert(yn + c2 * zn - d2 * zd == 0);
    assert(c2 * (b2 * (zn * k)) == b2 * (k * (c2 * zn))) by (nonlinear_arith);
    assert(d2 * (b2 * (zd * k)) == b2 * (k * (d2 * zd))) by (nonlinear_arith);
    assert(b2 * (yn * k) == b2 * (k * yn)) by (nonlinear_arith);
    assert(b2 * (k * yn) + b2 * (k * (c2 * zn)) - b2 * (k * (d2 * zd))
        == b2 * (k * (yn + c2 * zn - d2 * zd))) by (nonlinear_arith);
    assert(b2 * (k * 0) == 0) by (nonlinear_arith);
    assert(0 * wx(w) == 0) by (nonlinear_arith);
}

/// The back-substituted `x` zeroes the first triangular row.  `zn2`
/// is `z` brought over the denominator of `y`.
proof fn lemma_x_row(a1: int, b1: int, c1: int, d1: int, zn2: int, w: QVec3)
    requires
        zn2 * w.z.den == w.z.num * w.y.den,
        w.x.num == d1 * w.y.den - c1 * zn2 - b1 * w.y.num,
        w.x.den == a1 * w.y.den,
    ensures
        row_val(a1, b1, c1, d1, w) == 0,
{
    let xn = w.x.num as int;
    let xd = w.x.den as int;
    let yn = w.y.num as int;
    let yd = w.y.den as int;
    let zn = w.z.num as int;
    let zd = w.z.den as int;
    let inner = xn * zd + b1 * (yn * zd) + c1 * (yd * zn) - d1 * (yd * zd);
    assert(xn * zd == (d1 * yd) * zd - (c1 * zn2) * zd - (b1 * yn) * zd) by (nonlinear_arith)
        requires xn == d1 * yd - c1 * zn2 - b1 * yn;
    assert((d1 * yd) * zd == d1 * (yd * zd)) by (nonlinear_arith);
    assert((c1 * zn2) * zd == c1 * (zn2 * zd)) by (nonlinear_arith);
    assert((b1 * yn) * zd == b1 * (yn * zd)) by (nonlinear_arith);
    assert(c1 * (zn2 * zd) == c1 * (yd * zn)) by (nonlinear_arith)
        requires zn2 * zd == zn * yd;
    assert(inner == 0);
    // pull the common factor a1 * yd out of every cross term
    assert(wx(w) == yd * (xn * zd)) by (nonlinear_arith)
        requires wx(w) == xn * (yd * zd);
    assert(wy(w) == yn * ((a1 * yd) * zd));
    assert(wy(w) == yd * (scaled3(a1, yn, zd))) by (nonlinear_arith)
        requires wy(w) == yn * ((a1 * yd) * zd), scaled3(a1, yn, zd) == a1 * (yn * zd);
    assert(wz(w) == zn * ((a1 * yd) * yd));
    assert(wz(w) == yd * (scaled3(a1, zn, yd))) by (nonlinear_arith)
        requires wz(w) == zn * ((a1 * yd) * yd), scaled3(a1, zn, yd) == a1 * (zn * yd);
    assert(wd(w) == (a1 * yd) * (yd * zd));
    assert(wd(w) == yd * (scaled3(a1, yd, zd))) by (nonlinear_arith)
        requires wd(w) == (a1 * yd) * (yd * zd), scaled3(a1, yd, zd) == a1 * (yd * zd);
    // assemble: row_val is yd times a combination that is a1 * inner
    assert(row_val(a1, b1, c1, d1, w)
        == a1 * (yd * (xn * zd)) + b1 * (yd * (a1 * (yn * zd)))
            + c1 * (yd * (a1 * (zn * yd))) - d1 * (yd * (a1 * (yd * zd))));
    assert(b1 * (yd * (a1 * (yn * zd))) == a1 * (yd * (b1 * (yn * zd)))) by (nonlinear_arith);
    assert(c1 * (yd * (a1 * (zn * yd))) == a1 * (yd * (c1 * (yd * zn)))) by (nonlinear_arith);
    assert(d1 * (yd * (a1 * (yd * zd))) == a1 * (yd * (d1 * (yd * zd)))) by (nonlinear_arith);
    assert(yd * (xn * zd) + yd * (b1 * (yn * zd)) + yd * (c1 * (yd * zn))
        - yd * (d1 * (yd * zd)) == yd * inner) by (nonlinear_arith)
        requires inner == xn * zd + b1 * (yn * zd) + c1 * (yd * zn) - d1 * (yd * zd);
    assert(a1 * (yd * (xn * zd)) + a1 * (yd * (b1 * (yn * zd))) + a1 * (yd * (c1 * (yd * zn)))
        - a1 * (yd * (d1 * (yd * zd))) == a1 * (yd * inner)) by (nonlinear_arith)
        requires yd * (xn * zd) + yd * (b1 * (yn * zd)) + yd * (c1 * (yd * zn))
            - yd * (d1 * (yd * zd)) == yd * inner;
    assert(a1 * (yd * 0) == 0) by (nonlinear_arith);
}

/// `a * (b * c)`, named so the lifted terms stay small in the proofs.
spec fn scaled3(a: int, b: int, c: int) -> int {
    a * (b * c)
}

/// All four cross terms of a row defect flip sign together, so a zero
/// defect survives flipping the signs of both parts of one rational.
proof fn lemma_row_negated(r: R4, w1: QVec3, w2: QVec3)
    requires
        row_val(r.0, r.1, r.2, r.3, w1) == 0,
        wx(w2) == -wx(w1),
        wy(w2) == -wy(w1),
        wz(w2) == -wz(w1),
        wd(w2) == -wd(w1),
    ensures
        row_val(r.0, r.1, r.2, r.3, w2) == 0,
{
    assert(row_val(r.0, r.1, r.2, r.3, w2) == -row_val(r.0, r.1, r.2, r.3, w1)) by (nonlinear_arith)
        requires
            wx(w2) == -wx(w1) && wy(w2) == -wy(w1) && wz(w2) == -wz(w1) && wd(w2) == -wd(w1),
            row_val(r.0, r.1, r.2, r.3, w1) == r.0 * wx(w1) + r.1 * wy(w1) + r.2 * wz(w1)
                - r.3 * wd(w1),
            row_val(r.0, r.1, r.2, r.3, w2) == r.0 * wx(w2) + r.1 * wy(w2) + r.2 * wz(w2)
                - r.3 * wd(w2);
}

/// Flipping the sign of the `x` rational negates all four cross terms.
proof fn lemma_flip_x(w1: QVec3, w2: QVec3)
    requires
        w2.x.num == -w1.x.num,
        w2.x.den == -w1.x.den,
        w2.y == w1.y,
        w2.z == w1.z,
    ensures
        wx(w2) == -wx(w1) && wy(w2) == -wy(w1) && wz(w2) == -wz(w1) && wd(w2) == -wd(w1),
{
    assert(wx(w2) == -wx(w1) && wy(w2) == -wy(w1) && wz(w2) == -wz(w1) && wd(w2) == -wd(w1))
        by (nonlinear_arith)
        requires
            w2.x.num == -w1.x.num && w2.x.den == -w1.x.den && w2.y == w1.y && w2.z == w1.z,
            wx(w1) == w1.x.num * (w1.y.den * w1.z.den),
            wy(w1) == w1.y.num * (w1.x.den * w1.z.den),
            wz(w1) == w1.z.num * (w1.x.den * w1.y.den),
            wd(w1) == w1.x.den * (w1.y.den * w1.z.den),
            wx(w2) == w2.x.num * (w2.y.den * w2.z.den),
            wy(w2) == w2.y.num * (w2.x.den * w2.z.den),
            wz(w2) == w2.z.num * (w2.x.den * w2.y.den),
            wd(w2) == w2.x.den * (w2.y.den * w2.z.den);
}

/// Flipping the sign of the `y` rational negates all four cross terms.
proof fn lemma_flip_y(w1: QVec3, w2: QVec3)
    requires
        w2.y.num == -w1.y.num,
        w2.y.den == -w1.y.den,
        w2.x == w1.x,
        w2.z == w1.z,
    ensures
        wx(w2) == -wx(w1) && wy(w2) == -wy(w1) && wz(w2) == -wz(w1) && wd(w2) == -wd(w1),
{
    assert(wx(w2) == -wx(w1) && wy(w2) == -wy(w1) && wz(w2) == -wz(w1) && wd(w2) == -wd(w1))
        by (nonlinear_arith)
        requires
            w2.y.num == -w1.y.num && w2.y.den == -w1.y.den && w2.x == w1.x && w2.z == w1.z,
            wx(w1) == w1.x.num * (w1.y.den * w1.z.den),
            wy(w1) == w1.y.num * (w1.x.den * w1.z.den),
            wz(w1) == w1.z.num * (w1.x.den * w1.y.den),
            wd(w1) == w1.x.den * (w1.y.den * w1.z.den),
            wx(w2) == w2.x.num * (w2.y.den * w2.z.den),
            wy(w2) == w2.y.num * (w2.x.den * w2.z.den),
            wz(w2) == w2.z.num * (w2.x.den * w2.y.den),
            wd(w2) == w2.x.den * (w2.y.den * w2.z.den);
}

/// Flipping the sign of the `z` rational negates all four cross terms.
proof fn lemma_flip_z(w1: QVec3, w2: QVec3)
    requires
        w2.z.num == -w1.z.num,
        w2.z.den == -w1.z.den,
        w2.x == w1.x,
        w2.y == w1.y,
    ensures
        wx(w2) == -wx(w1) && wy(w2) == -wy(w1) && wz(w2) == -wz(w1) && wd(w2) == -wd(w1),
{
    assert(wx(w2) == -wx(w1) && wy(w2) == -wy(w1) && wz(w2) == -wz(w1) && wd(w2) == -wd(w1))
        by (nonlinear_arith)
        requires
            w2.z.num == -w1.z.num && w2.z.den == -w1.z.den && w2.x == w1.x && w2.y == w1.y,
            wx(w1) == w1.x.num * (w1.y.den * w1.z.den),
            wy(w1) == w1.y.num * (w1.x.den * w1.z.den),
            wz(w1) == w1.z.num * (w1.x.den * w1.y.den),
            wd(w1) == w1.x.den * (w1.y.den * w1.z.den),
            wx(w2) == w2.x.num * (w2.y.den * w2.z.den),
            wy(w2) == w2.y.num * (w2.x.den * w2.z.den),
            wz(w2) == w2.z.num * (w2.x.den * w2.y.den),
            wd(w2) == w2.x.den * (w2.y.den * w2.z.den);
}

/// The rows `w` must zero: the incoming rows recovered from the arranged,
/// eliminated ones.  Keeps every row defect at zero while the sign of
/// one rational is normalized.
proof fn lemma_normalize_keeps(rows: (R4, R4, R4), w1: QVec3, w2: QVec3)
    requires
        row_val(rows.0.0, rows.0.1, rows.0.2, rows.0.3, w1) == 0,
        row_val(rows.1.0, rows.1.1, rows.1.2, rows.1.3, w1) == 0,
        row_val(rows.2.0, rows.2.1, rows.2.2, rows.2.3, w1) == 0,
        wx(w2) == -wx(w1) && wy(w2) == -wy(w1) && wz(w2) == -wz(w1) && wd(w2) == -wd(w1),
    ensures
        row_val(rows.0.0, rows.0.1, rows.0.2, rows.0.3, w2) == 0,
        row_val(rows.1.0, rows.1.1, rows.1.2, rows.1.3, w2) == 0,
        row_val(rows.2.0, rows.2.1, rows.2.2, rows.2.3, w2) == 0,
{
    lemma_row_negated(rows.0, w1, w2);
    lemma_row_negated(rows.1, w1, w2);
    lemma_row_negated(rows.2, w1, w2);
}

/// The raw back-substituted solution of a triangular system, before
/// sign normalization: each unknown as numerator and denominator.
pub open spec fn spec_backsub(t1: R4, t2: R4, u3: R4) -> QVec3 {
    let zn = u3.3;
    let zd = u3.2;
    let yn = t2.3 * zd - t2.2 * zn;
    let yd = t2.1 * zd;
    let zn2 = zn * t2.1;
    let xn = t1.3 * yd - t1.2 * zn2 - t1.1 * yn;
    let xd = t1.0 * yd;
    QVec3 {
        x: Q { num: xn as i128, den: xd as i128 },
        y: Q { num: yn as i128, den: yd as i128 },
        z: Q { num: zn as i128, den: zd as i128 },
    }
}

/// One rational with numerator and denominator flipped to make the
/// denominator positive.
pub open spec fn spec_posden(q: Q) -> Q {
    if q.den < 0 {
        Q { num: (-q.num) as i128, den: (-q.den) as i128 }
    } else {
        q
    }
}

/// The solution the elimination returns on solvable rows: arrange,
/// eliminate, back-substitute, and normalize the denominators.
pub open spec fn spec_solution(r1: R4, r2: R4, r3: R4) -> QVec3 {
    let (s1, s2, s3) = spec_arrange(r1, r2, r3)->Some_0;
    let (t1, t2, u3) = spec_eliminate(s1, s2, s3);
    let w = spec_backsub(t1, t2, u3);
    QVec3 { x: spec_posden(w.x), y: spec_posden(w.y), z: spec_posden(w.z) }
}

/// Solves `x*a + y*b + z*c = p` by Gaussian elimination with row
/// swaps, exactly, over the rationals.  Returns `None` exactly when a
/// required pivot is zero (see [`spec_solvable`]); a returned triple
/// satisfies all three coordinate equations exactly.
pub fn solve_3variable_system(a: &Vec3, b: &Vec3, c: &Vec3, p: &Vec3) -> (r: Option<QVec3>)
    requires
        bounded(*a, SOLVER_LIMIT as int),
        bounded(*b, SOLVER_LIMIT as int),
        bounded(*c, SOLVER_LIMIT as int),
        bounded(*p, SOLVER_LIMIT as int),
    ensures
        r is Some <==> spec_solvable(
            spec_row_x(*a, *b, *c, *p),
            spec_row_y(*a, *b, *c, *p),
            spec_row_z(*a, *b, *c, *p),
        ),
        r matches Some(w) ==> w.wf() && solves(*a, *b, *c, *p, w),
        r matches Some(w) ==> w == spec_solution(
            spec_row_x(*a, *b, *c, *p),
            spec_row_y(*a, *b, *c, *p),
            spec_row_z(*a, *b, *c, *p),
        ),
{
    // magnitude bounds along the elimination: inputs are below 2^17,
    // first combinations below 2^35, second below 2^71
    let ghost l = 131072int;
    let ghost b2 = 34359738368int;
    let ghost b3 = 2361183241434822606848int;
    let mut r1 = Row { a: a.x as i128, b: b.x as i128, c: c.x as i128, d: p.x as i128 };
    let mut r2 = Row { a: a.y as i128, b: b.y as i128, c: c.y as i128, d: p.y as i128 };
    let mut r3 = Row { a: a.z as i128, b: b.z as i128, c: c.z as i128, d: p.z as i128 };
    let ghost o1 = r1.view4();
    let ghost o2 = r2.view4();
    let ghost o3 = r3.view4();

    // arrange a nonzero leading pivot by row swaps
    if r1.a == 0 {
        if r2.a != 0 {
            let t = r1;
            r1 = r2;
            r2 = t;
        } else if r3.a != 0 {
            let t = r1;
            r1 = r3;
            r3 = t;
        } else {
            return None;
        }
    }
    // arrange a nonzero second pivot
    if r2.b == 0 {
        if r3.b != 0 {
            let t = r2;
            r2 = r3;
            r3 = t;
        } else {
            return None;
        }
    }
    proof {
        assert(spec_arrange(o1, o2, o3) == Some((r1.view4(), r2.view4(), r3.view4())));
    }
    if r3.c == 0 {
        return None;
    }
    let ghost s1v = r1.view4();
    let ghost s2v = r2.view4();
    let ghost s3v = r3.view4();

    // eliminate the leading coefficient of the third row
    let t3 = if r3.a != 0 {
        comb_row(r1.a, &r3, r3.a, &r1, Ghost(l))
    } else {
        r3
    };
    // eliminate the leading coefficient of the second row
    let t2 = if r2.a != 0 {
        comb_row(r1.a, &r2, r2.a, &r1, Ghost(l))
    } else {
        r2
    };
    proof {
        assert(t3.within(b2) && t2.within(b2));
    }
    // eliminate the second coefficient of the third row
    let u3 = if t2.b != 0 {
        comb_row(t2.b, &t3, t3.b, &t2, Ghost(b2))
    } else {
        t3
    };
    proof {
        assert(u3.within(b3));
        assert(spec_eliminate(s1v, s2v, s3v) == (r1.view4(), t2.view4(), u3.view4()));
    }

    if u3.c == 0 || t2.b == 0 || r1.a == 0 {
        return None;
    }
    proof {
        assert(spec_solvable(o1, o2, o3));
    }

    // back substitution, over a common denominator per unknown
    let zn: i128 = u3.d;
    let zd: i128 = u3.c;
    proof {
        lemma_mul_bound(t2.d as int, zd as int, b2, b3);
        lemma_mul_bound(t2.c as int, zn as int, b2, b3);
        lemma_mul_bound(t2.b as int, zd as int, b2, b3);
        lemma_mul_bound(zn as int, t2.b as int, b3, b2);
    }
    let yn: i128 = t2.d * zd - t2.c * zn;
    let yd: i128 = t2.b * zd;
    let zn2: i128 = zn * t2.b;
    proof {
        let ghost m7 = 162259276829213363391578010288128int;
        lemma_mul_bound(r1.d as int, yd as int, l, m7);
        lemma_mul_bound(r1.c as int, zn2 as int, l, m7);
        lemma_mul_bound(r1.b as int, yn as int, l, m7);
        lemma_mul_bound(r1.a as int, yd as int, l, m7);
    }
    let xn: i128 = r1.d * yd - r1.c * zn2 - r1.b * yn;
    let xd: i128 = r1.a * yd;
    proof {
        assert(yd != 0) by (nonlinear_arith)
            requires t2.b != 0, zd != 0, yd == t2.b as int * zd as int;
        assert(xd != 0) by (nonlinear_arith)
            requires r1.a != 0, yd != 0, xd == r1.a as int * yd as int;
    }
    let w0 = QVec3 {
        x: Q { num: xn, den: xd },
        y: Q { num: yn, den: yd },
        z: Q { num: zn, den: zd },
    };
    proof {
        // the triple zeroes the triangular rows ...
        assert(zd as int * w0.z.num == u3.d as int * w0.z.den) by (nonlinear_arith)
            requires w0.z.num == u3.d as int, w0.z.den == zd as int;
        lemma_z_row(u3.c as int, u3.d as int, w0);
        assert(row_val(u3.a as int, u3.b as int, u3.c as int, u3.d as int, w0) == 0) by {
            assert(u3.a == 0 && u3.b == 0) by {
                assert(r1.a as int * r3.a as int - r3.a as int * r1.a as int == 0) by (nonlinear_arith);
                assert(r1.a as int * r2.a as int - r2.a as int * r1.a as int == 0) by (nonlinear_arith);
                assert(t2.b as int * t3.a as int - t3.b as int * t2.a as int == 0) by (nonlinear_arith)
                    requires t3.a == 0, t2.a == 0;
                assert(t2.b as int * t3.b as int - t3.b as int * t2.b as int == 0) by (nonlinear_arith);
            }
        }
        lemma_y_row(t2.b as int, t2.c as int, t2.d as int, w0);
        assert(row_val(t2.a as int, t2.b as int, t2.c as int, t2.d as int, w0) == 0);
        assert(zn2 as int * w0.z.den == w0.z.num * w0.y.den) by (nonlinear_arith)
            requires
                zn2 == zn as int * t2.b as int,
                yd == t2.b as int * zd as int,
                w0.z.num == zn as int,
                w0.z.den == zd as int,
                w0.y.den == yd as int;
        lemma_x_row(r1.a as int, r1.b as int, r1.c as int, r1.d as int, zn2 as int, w0);

        // ... hence the arranged rows ...
        if t2.b != 0 {
            lemma_combine_back(t2.b as int, t3.view4(), t3.b as int, t2.view4(), w0);
        }
        if s3v.0 != 0 {
            lemma_combine_back(r1.a as int, s3v, s3v.0, s1v, w0);
        }
        if s2v.0 != 0 {
            lemma_combine_back(r1.a as int, s2v, s2v.0, s1v, w0);
        }
        // ... and the incoming rows, which are the same three rows.
        assert(row_val(o1.0, o1.1, o1.2, o1.3, w0) == 0);
        assert(row_val(o2.0, o2.1, o2.2, o2.3, w0) == 0);
        assert(row_val(o3.0, o3.1, o3.2, o3.3, w0) == 0);
    }

    // normalize the denominators to be positive
    let mut w = w0;
    if w.x.den < 0 {
        let ghost before = w;
        w.x.num = -w.x.num;
        w.x.den = -w.x.den;
        proof {
            lemma_flip_x(before, w);
            lemma_normalize_keeps((o1, o2, o3), before, w);
        }
    }
    if w.y.den < 0 {
        let ghost before = w;
        w.y.num = -w.y.num;
        w.y.den = -w.y.den;
        proof {
            lemma_flip_y(before, w);
            lemma_normalize_keeps((o1, o2, o3), before, w);
        }
    }
    if w.z.den < 0 {
        let ghost before = w;
        w.z.num = -w.z.num;
        w.z.den = -w.z.den;
        proof {
            lemma_flip_z(before, w);
            lemma_normalize_keeps((o1, o2, o3), before, w);
        }
    }
    proof {
        assert(w0 == spec_backsub(r1.view4(), t2.view4(), u3.view4()));
        assert(w == spec_solution(o1, o2, o3));
    }
    Some(w)
}

} // verus!
