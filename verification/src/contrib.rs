//! Per-triangle tangent-space contributions.
//!
//! Each triangle yields a unit geometric normal, an angle weight per corner,
//! a unit tangent and bitangent direction solved from the UV-to-position
//! linear system, and the pre-normalization magnitudes. A zero-area triangle
//! contributes nothing; a singular UV mapping zeroes the tangent data but
//! keeps normal and weights.

use vstd::prelude::*;
use crate::math::{
    acos_fp, acos_spec, corner_cos, corner_cos_spec, cross, cross_spec, in_range, isqrt,
    lemma_mul_bound, norm_l, norm3_spec, normalize3, sqrt_floor, v3_sub, V3,
};
use crate::mesh::{vertex_ok, Vertex};

verus! {

/// Cap on a reported magnitude (2^50 in fixed point), so that a nearly
/// singular UV mapping cannot overflow later accumulation.
pub const MAG_LIMIT: i64 = 1125899906842624;

/// What one triangle feeds into the accumulator.
pub struct Contrib {
    /// Unit geometric normal, or zero for a zero-area triangle.
    pub n: V3,
    /// Angle weight at the first, second and third corner.
    pub w0: i64,
    pub w1: i64,
    pub w2: i64,
    /// Unit tangent direction, or zero when the UV mapping is singular.
    pub t: V3,
    /// Unit bitangent direction, or zero when the UV mapping is singular.
    pub b: V3,
    /// Pre-normalization tangent and bitangent magnitudes, capped.
    pub ms: i64,
    pub mt: i64,
}

/// Ghost image of a contribution, over unbounded integers.
pub ghost struct GContrib {
    pub n: (int, int, int),
    pub w0: int,
    pub w1: int,
    pub w2: int,
    pub t: (int, int, int),
    pub b: (int, int, int),
    pub ms: int,
    pub mt: int,
}

/// The ghost image of an executable contribution.
pub open spec fn g_of_contrib(c: Contrib) -> GContrib {
    GContrib {
        n: (c.n.x as int, c.n.y as int, c.n.z as int),
        w0: c.w0 as int,
        w1: c.w1 as int,
        w2: c.w2 as int,
        t: (c.t.x as int, c.t.y as int, c.t.z as int),
        b: (c.b.x as int, c.b.y as int, c.b.z as int),
        ms: c.ms as int,
        mt: c.mt as int,
    }
}

/// Absolute value.
pub open spec fn iabs(x: int) -> int {
    if x < 0 {
        -x
    } else {
        x
    }
}

/// The (doubled-area) cross product of a triangle's edges.
pub open spec fn sp_cross_of(v0: Vertex, v1: Vertex, v2: Vertex) -> (int, int, int) {
    cross_spec(
        v1.px - v0.px,
        v1.py - v0.py,
        v1.pz - v0.pz,
        v2.px - v0.px,
        v2.py - v0.py,
        v2.pz - v0.pz,
    )
}

/// The angle weight subtended by two edge vectors.
pub open spec fn sp_weight(
    ax: int,
    ay: int,
    az: int,
    bx: int,
    by: int,
    bz: int,
) -> int {
    acos_spec(corner_cos_spec(ax, ay, az, bx, by, bz))
}

/// The determinant of the per-triangle UV linear system.
pub open spec fn sp_uv_det(v0: Vertex, v1: Vertex, v2: Vertex) -> int {
    (v1.tu - v0.tu) * (v2.tv - v0.tv) - (v2.tu - v0.tu) * (v1.tv - v0.tv)
}

/// The unnormalized tangent of the UV solve, oriented by the determinant's
/// sign.
pub open spec fn sp_traw(v0: Vertex, v1: Vertex, v2: Vertex) -> (int, int, int) {
    let d = sp_uv_det(v0, v1, v2);
    let t1 = v1.tv - v0.tv;
    let t2 = v2.tv - v0.tv;
    let rx = t2 * (v1.px - v0.px) - t1 * (v2.px - v0.px);
    let ry = t2 * (v1.py - v0.py) - t1 * (v2.py - v0.py);
    let rz = t2 * (v1.pz - v0.pz) - t1 * (v2.pz - v0.pz);
    if d < 0 {
        (-rx, -ry, -rz)
    } else {
        (rx, ry, rz)
    }
}

/// The unnormalized bitangent of the UV solve, oriented by the
/// determinant's sign.
pub open spec fn sp_braw(v0: Vertex, v1: Vertex, v2: Vertex) -> (int, int, int) {
    let d = sp_uv_det(v0, v1, v2);
    let s1 = v1.tu - v0.tu;
    let s2 = v2.tu - v0.tu;
    let rx = s1 * (v2.px - v0.px) - s2 * (v1.px - v0.px);
    let ry = s1 * (v2.py - v0.py) - s2 * (v1.py - v0.py);
    let rz = s1 * (v2.pz - v0.pz) - s2 * (v1.pz - v0.pz);
    if d < 0 {
        (-rx, -ry, -rz)
    } else {
        (rx, ry, rz)
    }
}

/// The capped fixed-point length of a raw solve vector divided by the
/// determinant's magnitude: the pre-normalization scale of the mapping.
pub open spec fn sp_mag(t: (int, int, int), d: int) -> int {
    let q = (norm_l(t.0, t.1, t.2) * 4096) / iabs(d);
    if q > 1125899906842624 {
        1125899906842624
    } else {
        q
    }
}

/// Everything one triangle contributes, over unbounded integers.
pub open spec fn spec_contrib(v0: Vertex, v1: Vertex, v2: Vertex) -> GContrib {
    let cr = sp_cross_of(v0, v1, v2);
    if cr == (0int, 0int, 0int) {
        GContrib { n: (0, 0, 0), w0: 0, w1: 0, w2: 0, t: (0, 0, 0), b: (0, 0, 0), ms: 0, mt: 0 }
    } else {
        let n = norm3_spec(cr.0, cr.1, cr.2);
        let w0 = sp_weight(
            v1.px - v0.px,
            v1.py - v0.py,
            v1.pz - v0.pz,
            v2.px - v0.px,
            v2.py - v0.py,
            v2.pz - v0.pz,
        );
        let w1 = sp_weight(
            v2.px - v1.px,
            v2.py - v1.py,
            v2.pz - v1.pz,
            v0.px - v1.px,
            v0.py - v1.py,
            v0.pz - v1.pz,
        );
        let w2 = sp_weight(
            v0.px - v2.px,
            v0.py - v2.py,
            v0.pz - v2.pz,
            v1.px - v2.px,
            v1.py - v2.py,
            v1.pz - v2.pz,
        );
        let d = sp_uv_det(v0, v1, v2);
        if d == 0 {
            GContrib { n, w0, w1, w2, t: (0, 0, 0), b: (0, 0, 0), ms: 0, mt: 0 }
        } else {
            let tr = sp_traw(v0, v1, v2);
            let br = sp_braw(v0, v1, v2);
            GContrib {
                n,
                w0,
                w1,
                w2,
                t: norm3_spec(tr.0, tr.1, tr.2),
                b: norm3_spec(br.0, br.1, br.2),
                ms: sp_mag(tr, d),
                mt: sp_mag(br, d),
            }
        }
    }
}

/// Length of a raw solve vector, rounded down.
fn raw_len(v: V3) -> (r: u64)
    requires
        in_range(v, 288230376151711744),
    ensures
        r as int == norm_l(v.x as int, v.y as int, v.z as int),
{
    proof {
        lemma_mul_bound(v.x as int, v.x as int, 288230376151711744, 288230376151711744);
        lemma_mul_bound(v.y as int, v.y as int, 288230376151711744, 288230376151711744);
        lemma_mul_bound(v.z as int, v.z as int, 288230376151711744, 288230376151711744);
        assert(v.x as int * (v.x as int) >= 0) by (nonlinear_arith) {}
        assert(v.y as int * (v.y as int) >= 0) by (nonlinear_arith) {}
        assert(v.z as int * (v.z as int) >= 0) by (nonlinear_arith) {}
    }
    let s: u128 = (((v.x as i128) * (v.x as i128)) + ((v.y as i128) * (v.y as i128)) + ((v.z
        as i128) * (v.z as i128))) as u128;
    isqrt(s)
}

/// The capped magnitude, executable.
fn raw_mag(v: V3, d: i64) -> (r: i64)
    requires
        in_range(v, 288230376151711744),
        d != 0,
        -576460752303423488 <= d <= 576460752303423488,
    ensures
        r as int == sp_mag((v.x as int, v.y as int, v.z as int), d as int),
        0 <= r <= 1125899906842624,
{
    let l: u64 = raw_len(v);
    let ad: u64 = if d < 0 {
        (-d) as u64
    } else {
        d as u64
    };
    let q: u128 = ((l as u128) * 4096) / (ad as u128);
    proof {
        vstd::arithmetic::div_mod::lemma_div_pos_is_pos((l as int) * 4096, ad as int);
    }
    if q > 1125899906842624 {
        1125899906842624
    } else {
        q as i64
    }
}

/// Compute the contribution of one triangle, given its three corners.
pub fn tri_contrib(v0: &Vertex, v1: &Vertex, v2: &Vertex) -> (c: Contrib)
    requires
        vertex_ok(*v0),
        vertex_ok(*v1),
        vertex_ok(*v2),
    ensures
        g_of_contrib(c) == spec_contrib(*v0, *v1, *v2),
        in_range(c.n, 4096),
        in_range(c.t, 4096),
        in_range(c.b, 4096),
        0 <= c.w0 <= 12868,
        0 <= c.w1 <= 12868,
        0 <= c.w2 <= 12868,
        0 <= c.ms <= 1125899906842624,
        0 <= c.mt <= 1125899906842624,
{
    let p0 = V3 { x: v0.px, y: v0.py, z: v0.pz };
    let p1 = V3 { x: v1.px, y: v1.py, z: v1.pz };
    let p2 = V3 { x: v2.px, y: v2.py, z: v2.pz };
    let e1 = v3_sub(p1, p0);
    let e2 = v3_sub(p2, p0);
    proof {
        lemma_mul_bound(e1.y as int, e2.z as int, 268435456, 268435456);
        lemma_mul_bound(e1.z as int, e2.y as int, 268435456, 268435456);
        lemma_mul_bound(e1.z as int, e2.x as int, 268435456, 268435456);
        lemma_mul_bound(e1.x as int, e2.z as int, 268435456, 268435456);
        lemma_mul_bound(e1.x as int, e2.y as int, 268435456, 268435456);
        lemma_mul_bound(e1.y as int, e2.x as int, 268435456, 268435456);
    }
    let cr = cross(e1, e2);
    if cr.x == 0 && cr.y == 0 && cr.z == 0 {
        return Contrib {
            n: V3 { x: 0, y: 0, z: 0 },
            w0: 0,
            w1: 0,
            w2: 0,
            t: V3 { x: 0, y: 0, z: 0 },
            b: V3 { x: 0, y: 0, z: 0 },
            ms: 0,
            mt: 0,
        };
    }
    let n = normalize3(cr);
    let w0 = acos_fp(corner_cos(e1, e2));
    let e21 = v3_sub(p2, p1);
    let e01 = v3_sub(p0, p1);
    let w1 = acos_fp(corner_cos(e21, e01));
    let e02 = v3_sub(p0, p2);
    let e12 = v3_sub(p1, p2);
    let w2 = acos_fp(corner_cos(e02, e12));
    let s1: i64 = v1.tu - v0.tu;
    let t1: i64 = v1.tv - v0.tv;
    let s2: i64 = v2.tu - v0.tu;
    let t2: i64 = v2.tv - v0.tv;
    proof {
        lemma_mul_bound(s1 as int, t2 as int, 268435456, 268435456);
        lemma_mul_bound(s2 as int, t1 as int, 268435456, 268435456);
        lemma_mul_bound(t2 as int, e1.x as int, 268435456, 268435456);
        lemma_mul_bound(t1 as int, e2.x as int, 268435456, 268435456);
        lemma_mul_bound(t2 as int, e1.y as int, 268435456, 268435456);
        lemma_mul_bound(t1 as int, e2.y as int, 268435456, 268435456);
        lemma_mul_bound(t2 as int, e1.z as int, 268435456, 268435456);
        lemma_mul_bound(t1 as int, e2.z as int, 268435456, 268435456);
        lemma_mul_bound(s1 as int, e2.x as int, 268435456, 268435456);
        lemma_mul_bound(s2 as int, e1.x as int, 268435456, 268435456);
        lemma_mul_bound(s1 as int, e2.y as int, 268435456, 268435456);
        lemma_mul_bound(s2 as int, e1.y as int, 268435456, 268435456);
        lemma_mul_bound(s1 as int, e2.z as int, 268435456, 268435456);
        lemma_mul_bound(s2 as int, e1.z as int, 268435456, 268435456);
    }
    let det: i64 = s1 * t2 - s2 * t1;
    if det == 0 {
        return Contrib {
            n,
            w0,
            w1,
            w2,
            t: V3 { x: 0, y: 0, z: 0 },
            b: V3 { x: 0, y: 0, z: 0 },
            ms: 0,
            mt: 0,
        };
    }
    let mut tr = V3 {
        x: t2 * e1.x - t1 * e2.x,
        y: t2 * e1.y - t1 * e2.y,
        z: t2 * e1.z - t1 * e2.z,
    };
    let mut br = V3 {
        x: s1 * e2.x - s2 * e1.x,
        y: s1 * e2.y - s2 * e1.y,
        z: s1 * e2.z - s2 * e1.z,
    };
    if det < 0 {
        tr = V3 { x: -tr.x, y: -tr.y, z: -tr.z };
        br = V3 { x: -br.x, y: -br.y, z: -br.z };
    }
    let ms = raw_mag(tr, det);
    let mt = raw_mag(br, det);
    Contrib { n, w0, w1, w2, t: normalize3(tr), b: normalize3(br), ms, mt }
}

} // verus!
