//! Fixed-point scalars: signed 64-bit integers carrying `SCALE` units
//! per 1.0, with truncating (round-toward-zero) products and quotients.

use vstd::prelude::*;

verus! {

/// Number of fixed-point units in one whole unit.
pub const SCALE: i64 = 1024;

/// Truncating division (round toward zero), the semantics of Rust's `/`
/// on signed integers, defined over the Euclidean `/` of specifications.
pub open spec fn tdiv(a: int, b: int) -> int {
    if a >= 0 {
        a / b
    } else {
        -((-a) / b)
    }
}

/// The fixed-point product of two scalars: `a * b` rescaled back down.
pub open spec fn fxmul(a: int, b: int) -> int {
    tdiv(a * b, SCALE as int)
}

/// The fixed-point quotient of two scalars: `a / b` scaled up first.
pub open spec fn fxdiv(a: int, b: int) -> int {
    tdiv(a * (SCALE as int), b)
}

/// `|a|` over the mathematical integers.
pub open spec fn iabs(a: int) -> int {
    if a >= 0 {
        a
    } else {
        -a
    }
}

/// A quotient is no larger in magnitude than its dividend's bound:
/// for `b > 0` and `|a| <= m`, `|tdiv(a, b)| <= m / b`.
pub proof fn lemma_tdiv_bound(a: int, b: int, m: int)
    requires
        b > 0,
        0 <= m,
        -m <= a <= m,
    ensures
        -(m / b) <= tdiv(a, b) <= m / b,
        0 <= m / b,
{
    if a >= 0 {
        vstd::arithmetic::div_mod::lemma_div_is_ordered(a, m, b);
        vstd::arithmetic::div_mod::lemma_div_pos_is_pos(a, b);
    } else {
        vstd::arithmetic::div_mod::lemma_div_is_ordered(-a, m, b);
        vstd::arithmetic::div_mod::lemma_div_pos_is_pos(-a, b);
    }
    vstd::arithmetic::div_mod::lemma_div_pos_is_pos(m, b);
}

/// Truncating division by a positive divisor never increases magnitude.
pub proof fn lemma_tdiv_shrinks(a: int, b: int)
    requires
        b >= 1,
    ensures
        -iabs(a) <= tdiv(a, b) <= iabs(a),
{
    lemma_tdiv_bound(a, b, iabs(a));
    vstd::arithmetic::div_mod::lemma_div_is_ordered_by_denominator(iabs(a), 1, b);
    vstd::arithmetic::div_mod::lemma_basic_div_specific_divisor(1);
}

/// The product of two bounded integers is bounded by the product of
/// the bounds.
pub proof fn lemma_mul_bound(a: int, b: int, ma: int, mb: int)
    requires
        0 <= ma,
        0 <= mb,
        -ma <= a <= ma,
        -mb <= b <= mb,
    ensures
        -(ma * mb) <= a * b <= ma * mb,
{
    assert(-(ma * mb) <= a * b <= ma * mb) by (nonlinear_arith)
        requires 0 <= ma, 0 <= mb, -ma <= a <= ma, -mb <= b <= mb;
}

/// Fixed-point product, truncating toward zero.
pub fn mul_fx(a: i64, b: i64) -> (r: i64)
    requires
        i64::MIN <= fxmul(a as int, b as int) <= i64::MAX,
    ensures
        r == fxmul(a as int, b as int),
{
    let p: i128 = (a as i128) * (b as i128);
    let q: i128 = p / (SCALE as i128);
    proof {
        assert(q == fxmul(a as int, b as int));
    }
    q as i64
}

/// Fixed-point quotient, truncating toward zero.
pub fn div_fx(a: i64, b: i64) -> (r: i64)
    requires
        b != 0,
        i64::MIN <= fxdiv(a as int, b as int) <= i64::MAX,
    ensures
        r == fxdiv(a as int, b as int),
{
    let p: i128 = (a as i128) * (SCALE as i128);
    let q: i128 = p / (b as i128);
    proof {
        assert(q == fxdiv(a as int, b as int));
    }
    q as i64
}

/// Where `t` stands between `a` and `b`, as a fixed-point fraction.
pub fn remap_01(a: i64, b: i64, t: i64) -> (r: i64)
    requires
        a != b,
        i64::MIN <= t - a <= i64::MAX,
        i64::MIN <= b - a <= i64::MAX,
        i64::MIN <= fxdiv(t - a, b - a) <= i64::MAX,
    ensures
        r == fxdiv(t - a, b - a),
{
    div_fx(t - a, b - a)
}

/// `r` is the integer square root of `n`.
pub open spec fn is_isqrt(n: int, r: int) -> bool {
    0 <= r && r * r <= n < (r + 1) * (r + 1)
}

/// The integer square root of `n` (meaningful for `n >= 0`).
pub open spec fn sqrt_floor(n: int) -> int {
    choose|r: int| is_isqrt(n, r)
}

/// The integer square root is unique.
pub proof fn lemma_isqrt_unique(n: int, r1: int, r2: int)
    requires
        is_isqrt(n, r1),
        is_isqrt(n, r2),
    ensures
        r1 == r2,
{
    if r1 < r2 {
        assert((r1 + 1) * (r1 + 1) <= r2 * r2) by (nonlinear_arith)
            requires 0 <= r1, r1 < r2;
    }
    if r2 < r1 {
        assert((r2 + 1) * (r2 + 1) <= r1 * r1) by (nonlinear_arith)
            requires 0 <= r2, r2 < r1;
    }
}

/// Integer square root by bisection.
pub fn isqrt(n: u128) -> (r: u128)
    ensures
        is_isqrt(n as int, r as int),
        r == sqrt_floor(n as int),
{
    if n == 0 {
        proof {
            assert(is_isqrt(0, 0));
            lemma_isqrt_unique(0, 0, sqrt_floor(0));
        }
        return 0;
    }
    let mut lo: u128 = 0;
    let mut hi: u128 = 0x1_0000_0000_0000_0000;
    proof {
        assert((0x1_0000_0000_0000_0000 as int) * (0x1_0000_0000_0000_0000 as int) > u128::MAX as int) by (nonlinear_arith);
    }
    while lo + 1 < hi
        invariant
            0 <= lo < hi <= 0x1_0000_0000_0000_0000,
            (lo as int) * (lo as int) <= n as int,
            (hi as int) * (hi as int) > n as int,
        decreases hi - lo,
    {
        let mid: u128 = lo + (hi - lo) / 2;
        proof {
            assert(lo < mid < hi);
            assert((mid as int) * (mid as int) < (0x1_0000_0000_0000_0000 as int) * (0x1_0000_0000_0000_0000 as int)) by (nonlinear_arith)
                requires 0 <= mid < 0x1_0000_0000_0000_0000 as int;
        }
        if mid * mid <= n {
            lo = mid;
        } else {
            hi = mid;
        }
    }
    proof {
        assert(hi == lo + 1);
        lemma_isqrt_unique(n as int, lo as int, sqrt_floor(n as int));
    }
    lo
}

} // verus!
