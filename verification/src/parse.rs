//! Verified parsing of the command-line value grammars: an image
//! geometry `WxH`, a vector `(x.x, y.y, z.z)`, and a sun
//! `(x, y, z, r, g, b, softness)`.  Matches are found anywhere in the
//! value, leftmost first, so stray quoting around a flag does no harm.

use vstd::prelude::*;
use crate::vec3::Vec3;
use crate::fx::{SCALE, tdiv};

verus! {

pub open spec fn spec_digit(c: char) -> bool {
    '0' <= c && c <= '9'
}

/// The end of the digit run starting at `i`.
pub open spec fn spec_run_end(s: Seq<char>, i: int) -> int
    decreases s.len() - i when 0 <= i <= s.len()
{
    if i < s.len() && spec_digit(s[i]) {
        spec_run_end(s, i + 1)
    } else {
        i
    }
}

/// The decimal value of the digits `s[i..j]`.
pub open spec fn spec_num_val(s: Seq<char>, i: int, j: int) -> int
    decreases j - i when i <= j
{
    if i >= j {
        0
    } else {
        spec_num_val(s, i, j - 1) * 10 + (s[j - 1] as int - '0' as int)
    }
}

/// The end index of the digit run starting at `from`.
fn run_end(s: &str, from: usize) -> (e: usize)
    requires
        from <= s@.len(),
    ensures
        e == spec_run_end(s@, from as int),
        from <= e <= s@.len(),
        forall|k: int| from <= k < e ==> spec_digit(s@[k]),
{
    let n = s.unicode_len();
    let mut i = from;
    while i < n
        invariant
            from <= i <= n,
            n == s@.len(),
            spec_run_end(s@, from as int) == spec_run_end(s@, i as int),
            forall|k: int| from <= k < i ==> spec_digit(s@[k]),
        decreases n - i,
    {
        let c = s.get_char(i);
        if !('0' <= c && c <= '9') {
            return i;
        }
        i = i + 1;
    }
    i
}

/// The decimal value of `s[i..j]`, or none above the cap.
fn digits_value(s: &str, i: usize, j: usize, cap: u64) -> (r: Option<u64>)
    requires
        i <= j <= s@.len(),
        forall|k: int| i <= k < j ==> spec_digit(s@[k]),
        1 <= cap <= 0xFFFF_FFFF,
    ensures
        r matches Some(v) ==> v == spec_num_val(s@, i as int, j as int) && v <= cap,
        r is None ==> spec_num_val(s@, i as int, j as int) > cap,
{
    let mut acc: u64 = 0;
    let mut k = i;
    let mut over = false;
    while k < j
        invariant
            i <= k <= j <= s@.len(),
            forall|m: int| i <= m < j ==> spec_digit(s@[m]),
            1 <= cap <= 0xFFFF_FFFF,
            !over ==> acc == spec_num_val(s@, i as int, k as int) && acc <= cap,
            over ==> spec_num_val(s@, i as int, k as int) > cap,
        decreases j - k,
    {
        let c = s.get_char(k);
        let d: u64 = (c as u64) - ('0' as u64);
        proof {
            assert(spec_num_val(s@, i as int, k as int + 1)
                == spec_num_val(s@, i as int, k as int) * 10 + (s@[k as int] as int - '0' as int));
            if over {
                lemma_num_grows(spec_num_val(s@, i as int, k as int), d as int, cap as int);
            }
        }
        if !over {
            let next = acc * 10 + d;
            if next > cap {
                over = true;
            } else {
                acc = next;
            }
        }
        k = k + 1;
    }
    if over {
        None
    } else {
        Some(acc)
    }
}

/// A value past the cap stays past the cap as digits accumulate.
proof fn lemma_num_grows(v: int, d: int, cap: int)
    requires
        v > cap,
        cap >= 1,
        d >= 0,
    ensures
        v * 10 + d > cap,
{
    assert(v * 10 >= v) by (nonlinear_arith)
        requires v >= 1;
}

/// A geometry match at position `p`: a digit run, an `x`, a second
/// digit run, both values within `u32`.
pub open spec fn spec_geom_at(s: Seq<char>, p: int) -> bool {
    let e1 = spec_run_end(s, p);
    &&& 0 <= p <= s.len()
    &&& e1 > p
    &&& e1 < s.len()
    &&& s[e1] == 'x'
    &&& e1 + 1 < s.len()
    &&& spec_digit(s[e1 + 1])
    &&& spec_num_val(s, p, e1) <= u32::MAX
    &&& spec_num_val(s, e1 + 1, spec_run_end(s, e1 + 1)) <= u32::MAX
}

/// Parses the leftmost `WxH` geometry anywhere in `val`.  A digit run
/// too wide for a machine word is no match at its own start, but a
/// narrower start inside it may still match.
pub fn parse_geometry(val: &str) -> (r: Result<(u32, u32), String>)
    ensures
        r is Ok <==> exists|p: int| spec_geom_at(val@, p),
        r matches Err(e) ==> e@ == "invalid geometry"@,
        r matches Ok((w, h)) ==> exists|p: int| #[trigger] spec_geom_at(val@, p)
            && w == spec_num_val(val@, p, spec_run_end(val@, p))
            && h == spec_num_val(val@, spec_run_end(val@, p) + 1,
                spec_run_end(val@, spec_run_end(val@, p) + 1))
            && (forall|q: int| 0 <= q < p ==> !spec_geom_at(val@, q)),
{
    let n = val.unicode_len();
    let mut p: usize = 0;
    while p < n
        invariant
            0 <= p <= n,
            n == val@.len(),
            forall|q: int| 0 <= q < p ==> !spec_geom_at(val@, q),
        decreases n - p,
    {
        let c = val.get_char(p);
        if '0' <= c && c <= '9' {
            let e1 = run_end(val, p);
            if e1 < n && val.get_char(e1) == 'x' && e1 + 1 < n {
                let c2 = val.get_char(e1 + 1);
                if '0' <= c2 && c2 <= '9' {
                    let e2 = run_end(val, e1 + 1);
                    let wv = digits_value(val, p, e1, 0xFFFF_FFFF);
                    let hv = digits_value(val, e1 + 1, e2, 0xFFFF_FFFF);
                    if let (Some(w), Some(h)) = (wv, hv) {
                        proof {
                            assert(spec_geom_at(val@, p as int));
                        }
                        return Ok((w as u32, h as u32));
                    }
                }
            }
        } else {
            proof {
                assert(spec_run_end(val@, p as int) == p);
            }
        }
        p = p + 1;
    }
    Err(error_text("invalid geometry"))
}

/// The rejection message of one grammar.
fn error_text(msg: &str) -> (r: String)
    ensures
        r@ == msg@,
{
    broadcast use vstd::string::to_string_from_display_ensures_for_str;

    msg.to_string()
}

/// Accepts exactly the values in which a geometry occurs.
pub fn is_geometry(val: String) -> (r: Result<(), String>)
    ensures
        r is Ok <==> exists|p: int| spec_geom_at(val@, p),
        r matches Err(e) ==> e@ == "invalid geometry"@,
{
    match parse_geometry(val.as_str()) {
        Err(s) => Err(s),
        _ => Ok(()),
    }
}

/* vectors */

/// A decimal component at `p`: an optional sign, an integer digit
/// run, a mandatory dot when `dot_required`, and a fraction run; the
/// match ends at `.2` and its fixed-point value is `.1` (the integer
/// part capped at a million units).
pub open spec fn spec_component_at(s: Seq<char>, p: int, dot_required: bool) -> Option<(int, int)> {
    let sgn: int = if p < s.len() && (s[p] == '+' || s[p] == '-') { 1 } else { 0 };
    let neg = p < s.len() && s[p] == '-';
    let i0 = p + sgn;
    let e1 = spec_run_end(s, i0);
    if !(0 <= p && i0 < s.len() && e1 > i0 && spec_num_val(s, i0, e1) <= 0x100000) {
        Option::None
    } else if e1 < s.len() && s[e1] == '.' {
        let f0 = e1 + 1;
        let f1 = spec_run_end(s, f0);
        let fk = if f1 - f0 <= 6 { f1 } else { f0 + 6 };
        let frac = tdiv(spec_num_val(s, f0, fk) * (SCALE as int), spec_pow10(fk - f0));
        let v = spec_num_val(s, i0, e1) * (SCALE as int) + frac;
        Option::Some((if neg { -v } else { v }, f1))
    } else if dot_required {
        Option::None
    } else {
        let v = spec_num_val(s, i0, e1) * (SCALE as int);
        Option::Some((if neg { -v } else { v }, e1))
    }
}

pub open spec fn spec_pow10(k: int) -> int
    decreases k when k >= 0
{
    if k <= 0 {
        1
    } else {
        10 * spec_pow10(k - 1)
    }
}

/// Parses one signed decimal component at `p`; `(value, end)`.
fn component_at(s: &str, p: usize, dot_required: bool) -> (r: Option<(i64, usize)>)
    requires
        p <= s@.len(),
    ensures
        r matches Some((v, e)) ==> spec_component_at(s@, p as int, dot_required)
            == Option::Some((v as int, e as int)) && p < e <= s@.len(),
        r is None ==> spec_component_at(s@, p as int, dot_required) is None,
{
    let n = s.unicode_len();
    if p >= n {
        return None;
    }
    let c0 = s.get_char(p);
    let neg = c0 == '-';
    let sgn: usize = if c0 == '+' || c0 == '-' { 1 } else { 0 };
    let i0 = p + sgn;
    if i0 >= n {
        return None;
    }
    let e1 = run_end(s, i0);
    if e1 == i0 {
        return None;
    }
    let whole = match digits_value(s, i0, e1, 0x100000) {
        Some(v) => v as i64,
        None => {
            return None;
        },
    };
    if e1 < n && s.get_char(e1) == '.' {
        let f0 = e1 + 1;
        let f1 = run_end(s, f0);
        let fk = if f1 - f0 <= 6 { f1 } else { f0 + 6 };
        proof {
            lemma_frac_bound(s@, f0 as int, fk as int);
        }
        let fv = match digits_value(s, f0, fk, 0xFFFF_FFFF) {
            Some(v) => v as i64,
            None => {
                // six digits stay far below the cap
                proof {
                    lemma_frac_bound(s@, f0 as int, fk as int);
                    assert(false);
                }
                0
            },
        };
        let den = pow10(fk - f0);
        let frac = (fv * SCALE) / den;
        let v = whole * SCALE + frac;
        let v = if neg { -v } else { v };
        Some((v, f1))
    } else if dot_required {
        None
    } else {
        let v = whole * SCALE;
        let v = if neg { -v } else { v };
        Some((v, e1))
    }
}

/// At most six fraction digits stay below a million.
proof fn lemma_frac_bound(s: Seq<char>, f0: int, fk: int)
    requires
        0 <= f0 <= fk <= s.len(),
        fk - f0 <= 6,
        forall|k: int| f0 <= k < fk ==> spec_digit(s[k]),
    ensures
        0 <= spec_num_val(s, f0, fk) < 1000000,
    decreases fk - f0,
{
    if f0 == fk {
        assert(spec_num_val(s, f0, fk) == 0);
    } else {
        lemma_frac_bound_n(s, f0, fk);
    }
}

/// The value of `k` digits is below `10^k`.
proof fn lemma_frac_bound_n(s: Seq<char>, f0: int, fk: int)
    requires
        0 <= f0 <= fk <= s.len(),
        fk - f0 <= 6,
        forall|k: int| f0 <= k < fk ==> spec_digit(s[k]),
    ensures
        0 <= spec_num_val(s, f0, fk) < spec_pow10(fk - f0),
        spec_pow10(fk - f0) <= 1000000,
    decreases fk - f0,
{
    lemma_pow10_table();
    lemma_pow10_mono(fk - f0, 6);
    if f0 == fk {
    } else {
        lemma_frac_bound_n(s, f0, fk - 1);
        let v = spec_num_val(s, f0, fk - 1);
        let d = s[fk - 1] as int - '0' as int;
        assert(v * 10 + d < 10 * spec_pow10(fk - 1 - f0)) by (nonlinear_arith)
            requires v < spec_pow10(fk - 1 - f0), 0 <= d <= 9, v >= 0;
    }
}

/// Powers of ten are at least one.
proof fn lemma_pow10_pos(k: int)
    requires
        k >= 0,
    ensures
        spec_pow10(k) >= 1,
    decreases k,
{
    if k > 0 {
        lemma_pow10_pos(k - 1);
        assert(10 * spec_pow10(k - 1) >= spec_pow10(k - 1)) by (nonlinear_arith)
            requires spec_pow10(k - 1) >= 1;
    }
}

/// Powers of ten grow with the exponent.
proof fn lemma_pow10_mono(a: int, b: int)
    requires
        0 <= a <= b,
    ensures
        spec_pow10(a) <= spec_pow10(b),
    decreases b,
{
    if a < b {
        lemma_pow10_mono(a, b - 1);
        lemma_pow10_pos(b - 1);
        assert(10 * spec_pow10(b - 1) >= spec_pow10(b - 1)) by (nonlinear_arith)
            requires spec_pow10(b - 1) >= 1;
    }
}

/// The first seven powers of ten.
proof fn lemma_pow10_table()
    ensures
        spec_pow10(0) == 1,
        spec_pow10(1) == 10,
        spec_pow10(2) == 100,
        spec_pow10(3) == 1000,
        spec_pow10(4) == 10000,
        spec_pow10(5) == 100000,
        spec_pow10(6) == 1000000,
{
    assert(spec_pow10(0) == 1);
    assert(spec_pow10(1) == 10);
    assert(spec_pow10(2) == 100);
    assert(spec_pow10(3) == 1000);
    assert(spec_pow10(4) == 10000);
    assert(spec_pow10(5) == 100000);
    assert(spec_pow10(6) == 1000000);
}

fn pow10(k: usize) -> (r: i64)
    requires
        k <= 6,
    ensures
        r == spec_pow10(k as int),
        1 <= r <= 1000000,
{
    proof {
        lemma_pow10_table();
        lemma_pow10_mono(k as int, 6);
        lemma_pow10_pos(k as int);
    }
    let mut r: i64 = 1;
    let mut i: usize = 0;
    while i < k
        invariant
            0 <= i <= k <= 6,
            r == spec_pow10(i as int),
            1 <= r <= 1000000,
        decreases k - i,
    {
        proof {
            assert(spec_pow10(i as int + 1) == 10 * spec_pow10(i as int));
            lemma_pow10_table();
            lemma_pow10_mono(i as int + 1, 6);
            lemma_pow10_pos(i as int + 1);
        }
        r = r * 10;
        i = i + 1;
    }
    r
}

/// Skips one comma and at least one space, as the vector grammar asks.
fn sep_at(s: &str, p: usize) -> (r: Option<usize>)
    requires
        p <= s@.len(),
    ensures
        r matches Some(e) ==> spec_sep_at(s@, p as int) == Option::Some(e as int)
            && p < e <= s@.len(),
        r is None ==> spec_sep_at(s@, p as int) is None,
{
    let n = s.unicode_len();
    if p >= n || s.get_char(p) != ',' {
        return None;
    }
    let mut i = p + 1;
    while i < n && s.get_char(i) == ' '
        invariant
            p + 1 <= i <= n,
            n == s@.len(),
            forall|k: int| p + 1 <= k < i ==> s@[k] == ' ',
            spec_space_end(s@, p + 1) == spec_space_end(s@, i as int),
        decreases n - i,
    {
        i = i + 1;
    }
    proof {
        assert(spec_space_end(s@, i as int) == i);
    }
    if i == p + 1 {
        None
    } else {
        Some(i)
    }
}

pub open spec fn spec_space_end(s: Seq<char>, i: int) -> int
    decreases s.len() - i when 0 <= i <= s.len()
{
    if i < s.len() && s[i] == ' ' {
        spec_space_end(s, i + 1)
    } else {
        i
    }
}

/// A comma followed by one or more spaces.
pub open spec fn spec_sep_at(s: Seq<char>, p: int) -> Option<int> {
    if 0 <= p < s.len() && s[p] == ',' && spec_space_end(s, p + 1) > p + 1 {
        Option::Some(spec_space_end(s, p + 1))
    } else {
        Option::None
    }
}

/// A full vector match starting at the parenthesis at `p`: three
/// dotted components separated by comma-space, closed by `)`.
pub open spec fn spec_vec3_at(s: Seq<char>, p: int) -> Option<Vec3> {
    if !(0 <= p < s.len() && s[p] == '(') {
        Option::None
    } else {
        match spec_component_at(s, p + 1, true) {
            Option::None => Option::None,
            Option::Some((x, e1)) => match spec_sep_at(s, e1) {
                Option::None => Option::None,
                Option::Some(p2) => match spec_component_at(s, p2, true) {
                    Option::None => Option::None,
                    Option::Some((y, e2)) => match spec_sep_at(s, e2) {
                        Option::None => Option::None,
                        Option::Some(p3) => match spec_component_at(s, p3, true) {
                            Option::None => Option::None,
                            Option::Some((z, e3)) => if e3 < s.len() && s[e3] == ')' {
                                Option::Some(Vec3 { x: x as i64, y: y as i64, z: z as i64 })
                            } else {
                                Option::None
                            },
                        },
                    },
                },
            },
        }
    }
}

/// Tries a full vector match at the parenthesis at `p`.
fn vec3_at(s: &str, p: usize) -> (r: Option<Vec3>)
    requires
        p < s@.len(),
    ensures
        r matches Some(v) ==> spec_vec3_at(s@, p as int) == Option::Some(v),
        r is None ==> spec_vec3_at(s@, p as int) is None,
{
    let n = s.unicode_len();
    if s.get_char(p) != '(' {
        return None;
    }
    let (x, e1) = match component_at(s, p + 1, true) {
        Some(r) => r,
        None => {
            return None;
        },
    };
    let p2 = match sep_at(s, e1) {
        Some(r) => r,
        None => {
            return None;
        },
    };
    let (y, e2) = match component_at(s, p2, true) {
        Some(r) => r,
        None => {
            return None;
        },
    };
    let p3 = match sep_at(s, e2) {
        Some(r) => r,
        None => {
            return None;
        },
    };
    let (z, e3) = match component_at(s, p3, true) {
        Some(r) => r,
        None => {
            return None;
        },
    };
    if e3 < n && s.get_char(e3) == ')' {
        Some(Vec3::new(x, y, z))
    } else {
        None
    }
}

/// Parses the leftmost vector literal anywhere in `val`.
pub fn parse_vec3(val: &str) -> (r: Result<Vec3, String>)
    ensures
        r is Ok <==> exists|p: int| spec_vec3_at(val@, p) is Some,
        r matches Err(e) ==> e@ == "invalid vector"@,
        r matches Ok(v) ==> exists|p: int| #[trigger] spec_vec3_at(val@, p) == Option::Some(v)
            && (forall|q: int| 0 <= q < p ==> spec_vec3_at(val@, q) is None),
{
    let n = val.unicode_len();
    let mut p: usize = 0;
    while p < n
        invariant
            0 <= p <= n,
            n == val@.len(),
            forall|q: int| 0 <= q < p ==> spec_vec3_at(val@, q) is None,
        decreases n - p,
    {
        if let Some(v) = vec3_at(val, p) {
            return Ok(v);
        }
        p = p + 1;
    }
    Err(error_text("invalid vector"))
}

/// Accepts exactly the values in which a vector literal occurs.
pub fn is_vec3(val: String) -> (r: Result<(), String>)
    ensures
        r is Ok <==> exists|p: int| spec_vec3_at(val@, p) is Some,
        r matches Err(e) ==> e@ == "invalid vector"@,
{
    match parse_vec3(val.as_str()) {
        Err(s) => Err(s),
        _ => Ok(()),
    }
}

/* suns */

/// A byte component: a plain digit run valued at most 255.
pub open spec fn spec_byte_at(s: Seq<char>, p: int) -> Option<(int, int)> {
    let e = spec_run_end(s, p);
    if 0 <= p < s.len() && e > p && spec_num_val(s, p, e) <= 255 {
        Option::Some((spec_num_val(s, p, e), e))
    } else {
        Option::None
    }
}

fn byte_at(s: &str, p: usize) -> (r: Option<(u8, usize)>)
    requires
        p <= s@.len(),
    ensures
        r matches Some((v, e)) ==> spec_byte_at(s@, p as int)
            == Option::Some((v as int, e as int)) && p < e <= s@.len(),
        r is None ==> spec_byte_at(s@, p as int) is None,
{
    let n = s.unicode_len();
    if p >= n {
        return None;
    }
    let e = run_end(s, p);
    if e == p {
        return None;
    }
    match digits_value(s, p, e, 255) {
        Some(v) => Some((v as u8, e)),
        None => None,
    }
}

/// A sun match at the parenthesis at `p`: a direction of three
/// components with optional dots, three color bytes, and a softness,
/// closed by `)`.  The match's value is `(direction, color bytes,
/// softness)`.
pub open spec fn spec_sun_at(s: Seq<char>, p: int) -> Option<(Vec3, (int, int, int), int)> {
    if !(0 <= p < s.len() && s[p] == '(') {
        Option::None
    } else {
        match spec_component_at(s, p + 1, false) {
            Option::None => Option::None,
            Option::Some((x, e1)) => match spec_sep_at(s, e1) {
                Option::None => Option::None,
                Option::Some(p2) => match spec_component_at(s, p2, false) {
                    Option::None => Option::None,
                    Option::Some((y, e2)) => match spec_sep_at(s, e2) {
                        Option::None => Option::None,
                        Option::Some(p3) => match spec_component_at(s, p3, false) {
                            Option::None => Option::None,
                            Option::Some((z, e3)) => match spec_sep_at(s, e3) {
                                Option::None => Option::None,
                                Option::Some(p4) => match spec_byte_at(s, p4) {
                                    Option::None => Option::None,
                                    Option::Some((cr, e4)) => match spec_sep_at(s, e4) {
                                        Option::None => Option::None,
                                        Option::Some(p5) => match spec_byte_at(s, p5) {
                                            Option::None => Option::None,
                                            Option::Some((cg, e5)) => match spec_sep_at(s, e5) {
                                                Option::None => Option::None,
                                                Option::Some(p6) => match spec_byte_at(s, p6) {
                                                    Option::None => Option::None,
                                                    Option::Some((cb, e6)) => match spec_sep_at(s, e6) {
                                                        Option::None => Option::None,
                                                        Option::Some(p7) => match spec_component_at(s, p7, false) {
                                                            Option::None => Option::None,
                                                            Option::Some((f, e7)) => if 0 <= f
                                                                && f <= SCALE as int
                                                                && e7 < s.len() && s[e7] == ')' {
                                                                Option::Some((
                                                                    Vec3 { x: x as i64, y: y as i64, z: z as i64 },
                                                                    (cr, cg, cb),
                                                                    f,
                                                                ))
                                                            } else {
                                                                Option::None
                                                            },
                                                        },
                                                    },
                                                },
                                            },
                                        },
                                    },
                                },
                            },
                        },
                    },
                },
            },
        }
    }
}

fn sun_at(s: &str, p: usize) -> (r: Option<(Vec3, (u8, u8, u8), i64)>)
    requires
        p < s@.len(),
    ensures
        r matches Some((d, c, f)) ==> spec_sun_at(s@, p as int)
            == Option::Some((d, (c.0 as int, c.1 as int, c.2 as int), f as int)),
        r is None ==> spec_sun_at(s@, p as int) is None,
{
    let n = s.unicode_len();
    if s.get_char(p) != '(' {
        return None;
    }
    let (x, e1) = match component_at(s, p + 1, false) { Some(r) => r, None => { return None; } };
    let p2 = match sep_at(s, e1) { Some(r) => r, None => { return None; } };
    let (y, e2) = match component_at(s, p2, false) { Some(r) => r, None => { return None; } };
    let p3 = match sep_at(s, e2) { Some(r) => r, None => { return None; } };
    let (z, e3) = match component_at(s, p3, false) { Some(r) => r, None => { return None; } };
    let p4 = match sep_at(s, e3) { Some(r) => r, None => { return None; } };
    let (cr, e4) = match byte_at(s, p4) { Some(r) => r, None => { return None; } };
    let p5 = match sep_at(s, e4) { Some(r) => r, None => { return None; } };
    let (cg, e5) = match byte_at(s, p5) { Some(r) => r, None => { return None; } };
    let p6 = match sep_at(s, e5) { Some(r) => r, None => { return None; } };
    let (cb, e6) = match byte_at(s, p6) { Some(r) => r, None => { return None; } };
    let p7 = match sep_at(s, e6) { Some(r) => r, None => { return None; } };
    let (f, e7) = match component_at(s, p7, false) { Some(r) => r, None => { return None; } };
    if 0 <= f && f <= SCALE && e7 < n && s.get_char(e7) == ')' {
        Some((Vec3::new(x, y, z), (cr, cg, cb), f))
    } else {
        None
    }
}

/// Parses the leftmost sun literal anywhere in `val`: a zero softness
/// means "no sun".
pub fn parse_sun(val: &str) -> (r: Result<Option<(Vec3, (u8, u8, u8), i64)>, String>)
    ensures
        r is Ok <==> exists|p: int| spec_sun_at(val@, p) is Some,
        r matches Err(e) ==> e@ == "invalid sun"@,
        r matches Ok(Some((d, c, f))) ==> f > 0 && exists|p: int| #[trigger] spec_sun_at(val@, p)
            == Option::Some((d, (c.0 as int, c.1 as int, c.2 as int), f as int))
            && (forall|q: int| 0 <= q < p ==> spec_sun_at(val@, q) is None),
        r matches Ok(o) && o is None ==> exists|p: int| (#[trigger] spec_sun_at(val@, p)
            matches Option::Some((d, c, f)) && f <= 0)
            && (forall|q: int| 0 <= q < p ==> spec_sun_at(val@, q) is None),
{
    let n = val.unicode_len();
    let mut p: usize = 0;
    while p < n
        invariant
            0 <= p <= n,
            n == val@.len(),
            forall|q: int| 0 <= q < p ==> spec_sun_at(val@, q) is None,
        decreases n - p,
    {
        if let Some((d, c, f)) = sun_at(val, p) {
            if f > 0 {
                return Ok(Some((d, c, f)));
            } else {
                return Ok(None);
            }
        }
        p = p + 1;
    }
    Err(error_text("invalid sun"))
}

/// Accepts exactly the values in which a sun literal occurs.
pub fn is_sun(val: String) -> (r: Result<(), String>)
    ensures
        r is Ok <==> exists|p: int| spec_sun_at(val@, p) is Some,
        r matches Err(e) ==> e@ == "invalid sun"@,
{
    match parse_sun(val.as_str()) {
        Err(s) => Err(s),
        _ => Ok(()),
    }
}

} // verus!
