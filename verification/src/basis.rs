//! Finalizing a cluster's accumulated sums into a tangent basis.
//!
//! The accumulated tangent is normalized and Gram-Schmidt-orthogonalized
//! against the averaged normal, the bitangent is recomputed as the cross
//! product of normal and tangent, and the mirror flag is the sign of the
//! un-orthogonalized accumulated bitangent against that cross product. A
//! cluster whose every triangle was degenerate receives a deterministic
//! orthonormal frame derived from the normal alone.

use vstd::prelude::*;
use crate::accum::{acc_ok, Acc, GAcc};
use crate::contrib::iabs;
use crate::math::{
    cross, cross_spec, dot3_spec, in_range, lemma_mul_bound, lemma_sdiv_bound, norm3_spec,
    normalize3, sdiv, sdiv_spec, V3,
};
use crate::mesh::{vertex_ok, Vertex};
use vstd::arithmetic::div_mod::{lemma_div_is_ordered, lemma_div_multiples_vanish,
    lemma_div_pos_is_pos};

verus! {

/// The tangent basis delivered for one corner, in fixed point.
#[derive(Clone, Copy, PartialEq, Eq, Structural, Debug)]
pub struct Basis {
    pub tx: i64,
    pub ty: i64,
    pub tz: i64,
    pub bx: i64,
    pub by: i64,
    pub bz: i64,
    pub ms: i64,
    pub mt: i64,
    pub mirrored: bool,
}

/// Ghost image of a basis, over unbounded integers.
pub ghost struct GBasis {
    pub t: (int, int, int),
    pub b: (int, int, int),
    pub ms: int,
    pub mt: int,
    pub mirrored: bool,
}

/// The ghost image of an executable basis.
pub open spec fn g_of_basis(b: Basis) -> GBasis {
    GBasis {
        t: (b.tx as int, b.ty as int, b.tz as int),
        b: (b.bx as int, b.by as int, b.bz as int),
        ms: b.ms as int,
        mt: b.mt as int,
        mirrored: b.mirrored,
    }
}

/// The frame normal: the corner's attribute normal, falling back to the
/// accumulated area-weighted face normal, falling back to the z axis.
pub open spec fn sp_frame_normal(a: GAcc, fb: Vertex) -> (int, int, int) {
    let n0 = norm3_spec(fb.nx as int, fb.ny as int, fb.nz as int);
    if n0 == (0int, 0int, 0int) {
        let na = norm3_spec(a.n.0, a.n.1, a.n.2);
        if na == (0int, 0int, 0int) {
            (0int, 0int, 4096int)
        } else {
            na
        }
    } else {
        n0
    }
}

/// The coordinate axis least aligned with `nn`.
pub open spec fn sp_axis(nn: (int, int, int)) -> (int, int, int) {
    if iabs(nn.0) <= iabs(nn.1) && iabs(nn.0) <= iabs(nn.2) {
        (4096int, 0int, 0int)
    } else if iabs(nn.1) <= iabs(nn.2) {
        (0int, 4096int, 0int)
    } else {
        (0int, 0int, 4096int)
    }
}

/// The fallback tangent for an all-degenerate cluster: an axis crossed with
/// the frame normal.
pub open spec fn sp_fallback_t(nn: (int, int, int)) -> (int, int, int) {
    let ax = sp_axis(nn);
    let c = cross_spec(ax.0, ax.1, ax.2, nn.0, nn.1, nn.2);
    let t = norm3_spec(c.0, c.1, c.2);
    if t == (0int, 0int, 0int) {
        (4096int, 0int, 0int)
    } else {
        t
    }
}

/// Cross product of two fixed-point unit-scale vectors, rescaled to unit
/// scale.
pub open spec fn sp_fpcross(a: (int, int, int), b: (int, int, int)) -> (int, int, int) {
    let c = cross_spec(a.0, a.1, a.2, b.0, b.1, b.2);
    (sdiv_spec(c.0, 4096), sdiv_spec(c.1, 4096), sdiv_spec(c.2, 4096))
}

/// Remove from `t0` its component along the unit normal `nn`.
pub open spec fn sp_project(t0: (int, int, int), nn: (int, int, int)) -> (int, int, int) {
    let d = dot3_spec(nn.0, nn.1, nn.2, t0.0, t0.1, t0.2);
    let pr = sdiv_spec(d, 4096);
    (
        t0.0 - sdiv_spec(nn.0 * pr, 4096),
        t0.1 - sdiv_spec(nn.1 * pr, 4096),
        t0.2 - sdiv_spec(nn.2 * pr, 4096),
    )
}

/// The basis a cluster's sums finalize to.
pub open spec fn spec_finalize(a: GAcc, fb: Vertex) -> GBasis {
    let nn = sp_frame_normal(a, fb);
    let t0 = norm3_spec(a.t.0, a.t.1, a.t.2);
    let tp = if t0 == (0int, 0int, 0int) {
        (0int, 0int, 0int)
    } else {
        let pj = sp_project(t0, nn);
        norm3_spec(pj.0, pj.1, pj.2)
    };
    if tp == (0int, 0int, 0int) {
        let tf = sp_fallback_t(nn);
        GBasis { t: tf, b: sp_fpcross(nn, tf), ms: 0, mt: 0, mirrored: false }
    } else {
        let cx = cross_spec(nn.0, nn.1, nn.2, tp.0, tp.1, tp.2);
        let mir = dot3_spec(cx.0, cx.1, cx.2, a.b.0, a.b.1, a.b.2) < 0;
        let bb = sp_fpcross(nn, tp);
        let bs = if mir {
            (-bb.0, -bb.1, -bb.2)
        } else {
            bb
        };
        GBasis {
            t: tp,
            b: bs,
            ms: if a.w > 0 {
                a.ms / a.w
            } else {
                0
            },
            mt: if a.w > 0 {
                a.mt / a.w
            } else {
                0
            },
            mirrored: mir,
        }
    }
}

/// Absolute value on a bounded machine integer.
fn abs64(v: i64) -> (r: i64)
    requires
        -1000000000000000000 <= v <= 1000000000000000000,
    ensures
        r as int == iabs(v as int),
{
    if v < 0 {
        -v
    } else {
        v
    }
}

/// Cross product of two unit-scale vectors, rescaled back to unit scale.
fn fp_cross(a: V3, b: V3) -> (r: V3)
    requires
        in_range(a, 16384),
        in_range(b, 16384),
    ensures
        (r.x as int, r.y as int, r.z as int) == sp_fpcross(
            (a.x as int, a.y as int, a.z as int),
            (b.x as int, b.y as int, b.z as int),
        ),
        in_range(r, 131072),
{
    proof {
        lemma_mul_bound(a.y as int, b.z as int, 16384, 16384);
        lemma_mul_bound(a.z as int, b.y as int, 16384, 16384);
        lemma_mul_bound(a.z as int, b.x as int, 16384, 16384);
        lemma_mul_bound(a.x as int, b.z as int, 16384, 16384);
        lemma_mul_bound(a.x as int, b.y as int, 16384, 16384);
        lemma_mul_bound(a.y as int, b.x as int, 16384, 16384);
    }
    let c = cross(a, b);
    proof {
        lemma_sdiv_bound(c.x as int, 4096, 131072);
        lemma_sdiv_bound(c.y as int, 4096, 131072);
        lemma_sdiv_bound(c.z as int, 4096, 131072);
    }
    let rx: i128 = sdiv(c.x as i128, 4096);
    let ry: i128 = sdiv(c.y as i128, 4096);
    let rz: i128 = sdiv(c.z as i128, 4096);
    V3 { x: rx as i64, y: ry as i64, z: rz as i64 }
}

/// Finalize one cluster's accumulated sums into a basis.
#[verifier::rlimit(60)]
pub fn finalize_acc(a: &Acc, fb: &Vertex) -> (r: Basis)
    requires
        acc_ok(*a, 3145728),
        vertex_ok(*fb),
    ensures
        g_of_basis(r) == spec_finalize(crate::accum::g_of_acc(*a), *fb),
{
    let n0 = normalize3(V3 { x: fb.nx, y: fb.ny, z: fb.nz });
    let nn: V3 = if n0.x == 0 && n0.y == 0 && n0.z == 0 {
        let na = normalize3(V3 { x: a.nx, y: a.ny, z: a.nz });
        if na.x == 0 && na.y == 0 && na.z == 0 {
            V3 { x: 0, y: 0, z: 4096 }
        } else {
            na
        }
    } else {
        n0
    };
    let t0 = normalize3(V3 { x: a.tx, y: a.ty, z: a.tz });
    let tp: V3 = if t0.x == 0 && t0.y == 0 && t0.z == 0 {
        V3 { x: 0, y: 0, z: 0 }
    } else {
        proof {
            lemma_mul_bound(nn.x as int, t0.x as int, 4096, 4096);
            lemma_mul_bound(nn.y as int, t0.y as int, 4096, 4096);
            lemma_mul_bound(nn.z as int, t0.z as int, 4096, 4096);
        }
        let d: i64 = nn.x * t0.x + nn.y * t0.y + nn.z * t0.z;
        let pr: i128 = sdiv(d as i128, 4096);
        proof {
            lemma_sdiv_bound(d as int, 4096, 12288);
            lemma_mul_bound(nn.x as int, sdiv_spec(d as int, 4096), 4096, 12288);
            lemma_mul_bound(nn.y as int, sdiv_spec(d as int, 4096), 4096, 12288);
            lemma_mul_bound(nn.z as int, sdiv_spec(d as int, 4096), 4096, 12288);
        }
        let gx: i128 = (nn.x as i128) * pr;
        let gy: i128 = (nn.y as i128) * pr;
        let gz: i128 = (nn.z as i128) * pr;
        proof {
            lemma_sdiv_bound(gx as int, 4096, 12288);
            lemma_sdiv_bound(gy as int, 4096, 12288);
            lemma_sdiv_bound(gz as int, 4096, 12288);
        }
        let px: i128 = sdiv(gx, 4096);
        let py: i128 = sdiv(gy, 4096);
        let pz: i128 = sdiv(gz, 4096);
        let pj = V3 { x: t0.x - (px as i64), y: t0.y - (py as i64), z: t0.z - (pz as i64) };
        normalize3(pj)
    };
    if tp.x == 0 && tp.y == 0 && tp.z == 0 {
        let ax0 = abs64(nn.x);
        let ax1 = abs64(nn.y);
        let ax2 = abs64(nn.z);
        let ax: V3 = if ax0 <= ax1 && ax0 <= ax2 {
            V3 { x: 4096, y: 0, z: 0 }
        } else if ax1 <= ax2 {
            V3 { x: 0, y: 4096, z: 0 }
        } else {
            V3 { x: 0, y: 0, z: 4096 }
        };
        proof {
            lemma_mul_bound(ax.y as int, nn.z as int, 4096, 4096);
            lemma_mul_bound(ax.z as int, nn.y as int, 4096, 4096);
            lemma_mul_bound(ax.z as int, nn.x as int, 4096, 4096);
            lemma_mul_bound(ax.x as int, nn.z as int, 4096, 4096);
            lemma_mul_bound(ax.x as int, nn.y as int, 4096, 4096);
            lemma_mul_bound(ax.y as int, nn.x as int, 4096, 4096);
        }
        let cx = cross(ax, nn);
        let tc = normalize3(cx);
        let tf: V3 = if tc.x == 0 && tc.y == 0 && tc.z == 0 {
            V3 { x: 4096, y: 0, z: 0 }
        } else {
            tc
        };
        let bf = fp_cross(nn, tf);
        return Basis {
            tx: tf.x,
            ty: tf.y,
            tz: tf.z,
            bx: bf.x,
            by: bf.y,
            bz: bf.z,
            ms: 0,
            mt: 0,
            mirrored: false,
        };
    }
    proof {
        lemma_mul_bound(nn.y as int, tp.z as int, 4096, 4096);
        lemma_mul_bound(nn.z as int, tp.y as int, 4096, 4096);
        lemma_mul_bound(nn.z as int, tp.x as int, 4096, 4096);
        lemma_mul_bound(nn.x as int, tp.z as int, 4096, 4096);
        lemma_mul_bound(nn.x as int, tp.y as int, 4096, 4096);
        lemma_mul_bound(nn.y as int, tp.x as int, 4096, 4096);
    }
    let cxv = cross(nn, tp);
    proof {
        lemma_mul_bound(cxv.x as int, a.bx as int, 33554432, 165928545288192);
        lemma_mul_bound(cxv.y as int, a.by as int, 33554432, 165928545288192);
        lemma_mul_bound(cxv.z as int, a.bz as int, 33554432, 165928545288192);
    }
    let mdot: i128 = (cxv.x as i128) * (a.bx as i128) + (cxv.y as i128) * (a.by as i128) + (cxv.z
        as i128) * (a.bz as i128);
    let mir: bool = mdot < 0;
    let bb = fp_cross(nn, tp);
    let bs: V3 = if mir {
        V3 { x: -bb.x, y: -bb.y, z: -bb.z }
    } else {
        bb
    };
    let ms: i64 = if a.w > 0 {
        proof {
            assert(1125899906842624 * (a.w as int) == (a.w as int) * 1125899906842624)
                by (nonlinear_arith) {}
            lemma_div_multiples_vanish(1125899906842624, a.w as int);
            lemma_div_is_ordered(a.ms as int, (a.w as int) * 1125899906842624, a.w as int);
            lemma_div_pos_is_pos(a.ms as int, a.w as int);
        }
        ((a.ms as u128) / (a.w as u128)) as i64
    } else {
        0
    };
    let mt: i64 = if a.w > 0 {
        proof {
            assert(1125899906842624 * (a.w as int) == (a.w as int) * 1125899906842624)
                by (nonlinear_arith) {}
            lemma_div_multiples_vanish(1125899906842624, a.w as int);
            lemma_div_is_ordered(a.mt as int, (a.w as int) * 1125899906842624, a.w as int);
            lemma_div_pos_is_pos(a.mt as int, a.w as int);
        }
        ((a.mt as u128) / (a.w as u128)) as i64
    } else {
        0
    };
    Basis { tx: tp.x, ty: tp.y, tz: tp.z, bx: bs.x, by: bs.y, bz: bs.z, ms, mt, mirrored: mir }
}

} // verus!
