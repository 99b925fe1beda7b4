//! Fixed-point scalar and 3-vector arithmetic.
//!
//! All geometry in this crate is carried as integers scaled by `FP` (2^12).
//! Every executable operation here is pinned to an exact mathematical spec,
//! so the whole pipeline built on top of it is a function of its inputs.

use vstd::prelude::*;
use vstd::arithmetic::div_mod::{
    lemma_div_is_ordered, lemma_div_multiples_vanish, lemma_div_nonincreasing,
    lemma_div_pos_is_pos,
};

verus! {

/// One unit in fixed-point scale (2^12).
pub const FP: i64 = 4096;

/// Pi in fixed-point scale (round(pi * FP)).
pub const PI_FP: i64 = 12868;

/// A 3-vector of fixed-point coordinates.
#[derive(Clone, Copy, PartialEq, Eq, Structural, Debug)]
pub struct V3 {
    pub x: i64,
    pub y: i64,
    pub z: i64,
}

/// Every component of `v` lies in `[-m, m]`.
pub open spec fn in_range(v: V3, m: int) -> bool {
    -m <= v.x <= m && -m <= v.y <= m && -m <= v.z <= m
}

/// `r` is the floor of the square root of `n`.
pub open spec fn is_sqrt_floor(n: int, r: int) -> bool {
    0 <= r && r * r <= n && n < (r + 1) * (r + 1)
}

/// The floor of the square root of a non-negative integer.
pub open spec fn sqrt_floor(n: int) -> int {
    choose|r: int| is_sqrt_floor(n, r)
}

/// The square-root floor is unique, so any witness equals `sqrt_floor`.
pub proof fn lemma_sqrt_floor_is(n: int, r: int)
    requires
        is_sqrt_floor(n, r),
    ensures
        sqrt_floor(n) == r,
{
    let rc = sqrt_floor(n);
    assert(is_sqrt_floor(n, rc));
    assert(rc == r) by (nonlinear_arith)
        requires
            is_sqrt_floor(n, r),
            is_sqrt_floor(n, rc),
    {}
}

/// If `s < m * m` with `m > 0`, then the square-root floor of `s` is below `m`.
pub proof fn lemma_sqrt_floor_lt(s: int, r: int, m: int)
    requires
        is_sqrt_floor(s, r),
        0 < m,
        s < m * m,
    ensures
        r < m,
{
    assert(r < m) by (nonlinear_arith)
        requires
            is_sqrt_floor(s, r),
            0 < m,
            s < m * m,
    {}
}

/// A component whose square is at most `s` is bounded by the root of `s`.
pub proof fn lemma_comp_le_sqrt(c: int, s: int, r: int)
    requires
        c * c <= s,
        is_sqrt_floor(s, r),
    ensures
        -r <= c <= r,
{
    assert(-r <= c <= r) by (nonlinear_arith)
        requires
            c * c <= s,
            is_sqrt_floor(s, r),
    {}
}

/// Bound on a product of two bounded factors.
pub proof fn lemma_mul_bound(x: int, y: int, mx: int, my: int)
    requires
        -mx <= x <= mx,
        -my <= y <= my,
        0 <= mx,
        0 <= my,
    ensures
        -(mx * my) <= x * y <= mx * my,
{
    assert(-(mx * my) <= x * y <= mx * my) by (nonlinear_arith)
        requires
            -mx <= x <= mx,
            -my <= y <= my,
            0 <= mx,
            0 <= my,
    {}
}

/// Integer square root, rounding down.
///
/// Binary search over the result; the invariant brackets the root.
pub fn isqrt(n: u128) -> (r: u64)
    requires
        n < 85070591730234615865843651857942052864u128,
    ensures
        is_sqrt_floor(n as int, r as int),
        r as int == sqrt_floor(n as int),
{
    let mut lo: u128 = 0;
    let mut hi: u128 = 9223372036854775808u128;
    assert((hi as int) * (hi as int) == 85070591730234615865843651857942052864) by (nonlinear_arith)
        requires
            hi == 9223372036854775808u128,
    {}
    while hi - lo > 1
        invariant
            lo < hi,
            hi <= 9223372036854775808u128,
            (lo as int) * (lo as int) <= n as int,
            (n as int) < (hi as int) * (hi as int),
        decreases hi - lo,
    {
        let mid: u128 = lo + (hi - lo) / 2;
        proof {
            assert(lo < mid < hi);
            lemma_mul_bound(mid as int, mid as int, 9223372036854775807, 9223372036854775807);
        }
        let sq: u128 = mid * mid;
        if sq <= n {
            lo = mid;
        } else {
            hi = mid;
        }
    }
    proof {
        assert(hi == lo + 1);
        lemma_sqrt_floor_is(n as int, lo as int);
    }
    lo as u64
}

/// Division of a signed value by a positive one, rounding toward zero.
pub open spec fn sdiv_spec(a: int, b: int) -> int {
    if a >= 0 {
        a / b
    } else {
        -((-a) / b)
    }
}

/// A quotient is bounded by `m` whenever the dividend is within `m * b`.
pub proof fn lemma_sdiv_bound(a: int, b: int, m: int)
    requires
        b >= 1,
        m >= 0,
        -(m * b) <= a <= m * b,
    ensures
        -m <= sdiv_spec(a, b) <= m,
{
    lemma_div_multiples_vanish(m, b);
    assert(b * m == m * b) by (nonlinear_arith) {}
    if a >= 0 {
        lemma_div_pos_is_pos(a, b);
        lemma_div_is_ordered(a, m * b, b);
    } else {
        lemma_div_pos_is_pos(-a, b);
        lemma_div_is_ordered(-a, m * b, b);
    }
}

/// Division toward zero on machine integers, pinned to `sdiv_spec`.
pub fn sdiv(a: i128, b: u64) -> (r: i128)
    requires
        b > 0,
        -85070591730234615865843651857942052864 < (a as int),
        (a as int) < 85070591730234615865843651857942052864,
    ensures
        r as int == sdiv_spec(a as int, b as int),
{
    if a >= 0 {
        let q: u128 = (a as u128) / (b as u128);
        proof {
            lemma_div_nonincreasing(a as int, b as int);
            lemma_div_pos_is_pos(a as int, b as int);
        }
        q as i128
    } else {
        let neg: i128 = -a;
        let q: u128 = (neg as u128) / (b as u128);
        proof {
            lemma_div_nonincreasing(neg as int, b as int);
            lemma_div_pos_is_pos(neg as int, b as int);
        }
        -(q as i128)
    }
}

/// Clamp to a symmetric interval.
pub open spec fn clamp_spec(v: int, m: int) -> int {
    if v < -m {
        -m
    } else if v > m {
        m
    } else {
        v
    }
}

/// Clamp on machine integers, pinned to `clamp_spec`.
pub fn clamp_i128(v: i128, m: i64) -> (r: i64)
    requires
        0 <= m,
    ensures
        r as int == clamp_spec(v as int, m as int),
{
    let wide: i128 = m as i128;
    if v < -wide {
        -m
    } else if v > wide {
        m
    } else {
        v as i64
    }
}

/// Componentwise difference.
pub fn v3_sub(a: V3, b: V3) -> (r: V3)
    requires
        in_range(a, 288230376151711744),
        in_range(b, 288230376151711744),
    ensures
        r.x as int == a.x - b.x,
        r.y as int == a.y - b.y,
        r.z as int == a.z - b.z,
        in_range(r, 576460752303423488),
{
    V3 { x: a.x - b.x, y: a.y - b.y, z: a.z - b.z }
}

/// The cross product, componentwise, over unbounded integers.
pub open spec fn cross_spec(
    ax: int,
    ay: int,
    az: int,
    bx: int,
    by: int,
    bz: int,
) -> (int, int, int) {
    (ay * bz - az * by, az * bx - ax * bz, ax * by - ay * bx)
}

/// Cross product of two bounded vectors.
pub fn cross(a: V3, b: V3) -> (r: V3)
    requires
        in_range(a, 1073741824),
        in_range(b, 1073741824),
    ensures
        (r.x as int, r.y as int, r.z as int) == cross_spec(
            a.x as int,
            a.y as int,
            a.z as int,
            b.x as int,
            b.y as int,
            b.z as int,
        ),
        in_range(r, 2305843009213693952),
{
    proof {
        lemma_mul_bound(a.y as int, b.z as int, 1073741824, 1073741824);
        lemma_mul_bound(a.z as int, b.y as int, 1073741824, 1073741824);
        lemma_mul_bound(a.z as int, b.x as int, 1073741824, 1073741824);
        lemma_mul_bound(a.x as int, b.z as int, 1073741824, 1073741824);
        lemma_mul_bound(a.x as int, b.y as int, 1073741824, 1073741824);
        lemma_mul_bound(a.y as int, b.x as int, 1073741824, 1073741824);
    }
    V3 {
        x: a.y * b.z - a.z * b.y,
        y: a.z * b.x - a.x * b.z,
        z: a.x * b.y - a.y * b.x,
    }
}

/// The dot product over unbounded integers.
pub open spec fn dot3_spec(ax: int, ay: int, az: int, bx: int, by: int, bz: int) -> int {
    ax * bx + ay * by + az * bz
}

/// Dot product of two bounded vectors, in a wide register.
pub fn dot_wide(a: V3, b: V3) -> (r: i128)
    requires
        in_range(a, 2305843009213693952),
        in_range(b, 2305843009213693952),
    ensures
        r as int == dot3_spec(a.x as int, a.y as int, a.z as int, b.x as int, b.y as int, b.z as int),
        -15950735949418990474845684723364134912 <= (r as int)
            <= 15950735949418990474845684723364134912,
{
    proof {
        lemma_mul_bound(a.x as int, b.x as int, 2305843009213693952, 2305843009213693952);
        lemma_mul_bound(a.y as int, b.y as int, 2305843009213693952, 2305843009213693952);
        lemma_mul_bound(a.z as int, b.z as int, 2305843009213693952, 2305843009213693952);
    }
    (a.x as i128) * (b.x as i128) + (a.y as i128) * (b.y as i128) + (a.z as i128) * (b.z as i128)
}

/// Length (Euclidean norm, rounded down) of an integer vector.
pub open spec fn norm_l(x: int, y: int, z: int) -> int {
    sqrt_floor(x * x + y * y + z * z)
}

/// The fixed-point unit vector along `(x, y, z)`, or zero when the length
/// rounds down to zero.
pub open spec fn norm3_spec(x: int, y: int, z: int) -> (int, int, int) {
    let l = norm_l(x, y, z);
    if l == 0 {
        (0, 0, 0)
    } else {
        (sdiv_spec(x * 4096, l), sdiv_spec(y * 4096, l), sdiv_spec(z * 4096, l))
    }
}

/// Normalize a vector to fixed-point unit scale.
pub fn normalize3(v: V3) -> (r: V3)
    requires
        in_range(v, 288230376151711744),
    ensures
        (r.x as int, r.y as int, r.z as int) == norm3_spec(v.x as int, v.y as int, v.z as int),
        in_range(r, 4096),
{
    proof {
        lemma_mul_bound(v.x as int, v.x as int, 288230376151711744, 288230376151711744);
        lemma_mul_bound(v.y as int, v.y as int, 288230376151711744, 288230376151711744);
        lemma_mul_bound(v.z as int, v.z as int, 288230376151711744, 288230376151711744);
        assert(v.x as int * (v.x as int) >= 0) by (nonlinear_arith) {}
        assert(v.y as int * (v.y as int) >= 0) by (nonlinear_arith) {}
        assert(v.z as int * (v.z as int) >= 0) by (nonlinear_arith) {}
    }
    let sx: i128 = (v.x as i128) * (v.x as i128);
    let sy: i128 = (v.y as i128) * (v.y as i128);
    let sz: i128 = (v.z as i128) * (v.z as i128);
    let s: u128 = (sx + sy + sz) as u128;
    let l: u64 = isqrt(s);
    if l == 0 {
        V3 { x: 0, y: 0, z: 0 }
    } else {
        proof {
            lemma_comp_le_sqrt(v.x as int, s as int, l as int);
            lemma_comp_le_sqrt(v.y as int, s as int, l as int);
            lemma_comp_le_sqrt(v.z as int, s as int, l as int);
            lemma_sdiv_bound((v.x as int) * 4096, l as int, 4096);
            lemma_sdiv_bound((v.y as int) * 4096, l as int, 4096);
            lemma_sdiv_bound((v.z as int) * 4096, l as int, 4096);
        }
        let rx: i128 = sdiv((v.x as i128) * 4096, l);
        let ry: i128 = sdiv((v.y as i128) * 4096, l);
        let rz: i128 = sdiv((v.z as i128) * 4096, l);
        V3 { x: rx as i64, y: ry as i64, z: rz as i64 }
    }
}

/// Fixed-point arc cosine on `[0, FP]`, via a square-root-times-polynomial
/// approximation of `acos`.
pub open spec fn acos_half_spec(x: int) -> int {
    let s = sqrt_floor((4096 - x) * 4096);
    let p = 6434 - (869 * x) / 4096 + (304 * (x * x)) / 16777216 - (77 * ((x * x) * x))
        / 68719476736;
    (s * p) / 4096
}

/// Fixed-point arc cosine on `[-FP, FP]`, in radians scaled by `FP`.
pub open spec fn acos_spec(c: int) -> int {
    if c >= 0 {
        acos_half_spec(c)
    } else {
        12868 - acos_half_spec(-c)
    }
}

/// Arc cosine of a fixed-point cosine value.
pub fn acos_fp(c: i64) -> (r: i64)
    requires
        -4096 <= c <= 4096,
    ensures
        r as int == acos_spec(c as int),
        0 <= r <= 12868,
{
    let x: u64 = if c >= 0 {
        c as u64
    } else {
        (-c) as u64
    };
    let s: u64 = isqrt(((4096 - x) * 4096) as u128);
    proof {
        lemma_sqrt_floor_lt((4096 - x as int) * 4096, s as int, 4097);
        lemma_mul_bound(x as int, x as int, 4096, 4096);
        lemma_mul_bound((x * x) as int, x as int, 16777216, 4096);
        lemma_div_pos_is_pos(869 * (x as int), 4096);
        lemma_div_is_ordered(869 * (x as int), 3559424, 4096);
        lemma_div_pos_is_pos(304 * ((x * x) as int), 16777216);
        lemma_div_is_ordered(304 * ((x * x) as int), 5100273664, 16777216);
        lemma_div_pos_is_pos(77 * ((x * x * x) as int), 68719476736);
        lemma_div_is_ordered(77 * ((x * x * x) as int), 5291399708672, 68719476736);
    }
    let t1: u64 = (869 * x) / 4096;
    let t2: u64 = (304 * (x * x)) / 16777216;
    let t3: u64 = (77 * ((x * x) * x)) / 68719476736;
    let p: u64 = 6434 + t2 - t1 - t3;
    proof {
        lemma_mul_bound(s as int, p as int, 4096, 6738);
        lemma_div_pos_is_pos((s * p) as int, 4096);
        lemma_div_is_ordered((s * p) as int, 27598848, 4096);
    }
    let half: u64 = (s * p) / 4096;
    if c >= 0 {
        half as i64
    } else {
        12868 - (half as i64)
    }
}

/// The unit geometric normal of a triangle: the normalized cross product of
/// its two edges from the first corner (zero when the triangle is
/// degenerate).
pub open spec fn unit_normal_of(p0: V3, p1: V3, p2: V3) -> (int, int, int) {
    let c = cross_spec(
        p1.x - p0.x,
        p1.y - p0.y,
        p1.z - p0.z,
        p2.x - p0.x,
        p2.y - p0.y,
        p2.z - p0.z,
    );
    norm3_spec(c.0, c.1, c.2)
}

/// Unit geometric normal of a triangle with bounded corner positions.
pub fn unit_tri_normal(p0: V3, p1: V3, p2: V3) -> (r: V3)
    requires
        in_range(p0, 134217728),
        in_range(p1, 134217728),
        in_range(p2, 134217728),
    ensures
        (r.x as int, r.y as int, r.z as int) == unit_normal_of(p0, p1, p2),
        in_range(r, 4096),
{
    let e1 = v3_sub(p1, p0);
    let e2 = v3_sub(p2, p0);
    proof {
        lemma_mul_bound(e1.y as int, e2.z as int, 268435456, 268435456);
        lemma_mul_bound(e1.z as int, e2.y as int, 268435456, 268435456);
        lemma_mul_bound(e1.z as int, e2.x as int, 268435456, 268435456);
        lemma_mul_bound(e1.x as int, e2.z as int, 268435456, 268435456);
        lemma_mul_bound(e1.x as int, e2.y as int, 268435456, 268435456);
        lemma_mul_bound(e1.y as int, e2.x as int, 268435456, 268435456);
    }
    let c = cross(e1, e2);
    normalize3(c)
}

/// The fixed-point cosine of the angle between two edge vectors, clamped to
/// `[-FP, FP]`; a zero-length edge yields `FP` (angle zero, weight zero).
pub open spec fn corner_cos_spec(
    ax: int,
    ay: int,
    az: int,
    bx: int,
    by: int,
    bz: int,
) -> int {
    let la = norm_l(ax, ay, az);
    let lb = norm_l(bx, by, bz);
    if la == 0 || lb == 0 {
        4096
    } else {
        clamp_spec(sdiv_spec(dot3_spec(ax, ay, az, bx, by, bz) * 4096, la * lb), 4096)
    }
}

/// Cosine of the angle between two bounded vectors, in fixed point.
pub fn corner_cos(a: V3, b: V3) -> (r: i64)
    requires
        in_range(a, 536870912),
        in_range(b, 536870912),
    ensures
        r as int == corner_cos_spec(
            a.x as int,
            a.y as int,
            a.z as int,
            b.x as int,
            b.y as int,
            b.z as int,
        ),
        -4096 <= r <= 4096,
{
    proof {
        lemma_mul_bound(a.x as int, a.x as int, 536870912, 536870912);
        lemma_mul_bound(a.y as int, a.y as int, 536870912, 536870912);
        lemma_mul_bound(a.z as int, a.z as int, 536870912, 536870912);
        lemma_mul_bound(b.x as int, b.x as int, 536870912, 536870912);
        lemma_mul_bound(b.y as int, b.y as int, 536870912, 536870912);
        lemma_mul_bound(b.z as int, b.z as int, 536870912, 536870912);
        assert(a.x as int * (a.x as int) >= 0) by (nonlinear_arith) {}
        assert(a.y as int * (a.y as int) >= 0) by (nonlinear_arith) {}
        assert(a.z as int * (a.z as int) >= 0) by (nonlinear_arith) {}
        assert(b.x as int * (b.x as int) >= 0) by (nonlinear_arith) {}
        assert(b.y as int * (b.y as int) >= 0) by (nonlinear_arith) {}
        assert(b.z as int * (b.z as int) >= 0) by (nonlinear_arith) {}
    }
    let sa: u128 = (((a.x as i128) * (a.x as i128)) + ((a.y as i128) * (a.y as i128)) + ((a.z
        as i128) * (a.z as i128))) as u128;
    let sb: u128 = (((b.x as i128) * (b.x as i128)) + ((b.y as i128) * (b.y as i128)) + ((b.z
        as i128) * (b.z as i128))) as u128;
    let la: u64 = isqrt(sa);
    let lb: u64 = isqrt(sb);
    if la == 0 || lb == 0 {
        4096
    } else {
        proof {
            lemma_sqrt_floor_lt(sa as int, la as int, 1073741824);
            lemma_sqrt_floor_lt(sb as int, lb as int, 1073741824);
            lemma_mul_bound(la as int, lb as int, 1073741824, 1073741824);
            assert(la as int * (lb as int) >= 1) by (nonlinear_arith)
                requires
                    la as int >= 1,
                    lb as int >= 1,
            {}
        }
        let den: u64 = la * lb;
        let d: i128 = dot_wide(a, b);
        proof {
            lemma_mul_bound(a.x as int, b.x as int, 536870912, 536870912);
            lemma_mul_bound(a.y as int, b.y as int, 536870912, 536870912);
            lemma_mul_bound(a.z as int, b.z as int, 536870912, 536870912);
        }
        let c: i128 = sdiv(d * 4096, den);
        clamp_i128(c, 4096)
    }
}

} // verus!
