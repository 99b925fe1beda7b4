//! The two generation entry points and the laws of the pipeline.
//!
//! `generate_default` clusters corners by exact position and texture
//! coordinate (unlimited smoothing, split only by UV seams) and its output
//! is pinned, corner by corner, to a mathematical function of the mesh.
//! `generate` takes an angular threshold as a fixed-point cosine and
//! clusters only along edge-sharing triangles within the threshold; its
//! output is pinned to the same pipeline over some sound clustering.

use vstd::prelude::*;
use crate::accum::{accumulate, acc_ok, cl_ints, gseq, spec_accumulate};
use crate::basis::{finalize_acc, g_of_basis, spec_finalize, Basis, GBasis};
use crate::cluster::{
    cluster_default, cluster_of, cluster_threshold, lemma_cluster_idempotent,
    lemma_cluster_same_key, same_key,
};
use crate::mesh::{
    corner_total, lemma_corner_total_take_le, lemma_corner_total_take_step, mesh_error, mesh_ok,
    mview, validate, GenError, Vertex,
};
use crate::tri::{
    build_topology, flat_corners, flat_tris, lemma_flat_corners_len, lemma_flat_tris_indices,
    lemma_flat_tris_len,
};

verus! {

/// The faces of a vector-of-vectors result, as a sequence of sequences.
pub open spec fn oview(o: Vec<Vec<Basis>>) -> Seq<Seq<Basis>> {
    Seq::new(o@.len(), |i: int| o@[i]@)
}

/// The default cluster assignment of every flattened corner.
pub open spec fn spec_cluster_seq(s: Seq<Vertex>) -> Seq<int> {
    Seq::new(s.len(), |i: int| cluster_of(s, i))
}

/// A sound cluster assignment: every corner names a root corner with the
/// same position and texture coordinate.
pub open spec fn cluster_sound(s: Seq<Vertex>, cl: Seq<int>) -> bool {
    &&& cl.len() == s.len()
    &&& forall|i: int|
        0 <= i < cl.len() ==> 0 <= #[trigger] cl[i] <= i && cl[cl[i]] == cl[i] && same_key(
            s[cl[i]],
            s[i],
        )
}

/// The basis corner `i` receives under cluster assignment `cl`: its
/// cluster's accumulated sums, finalized against the corner's own
/// attributes (the tangent is orthogonalized against the corner's normal).
pub open spec fn spec_corner_basis_with(m: Seq<Seq<Vertex>>, cl: Seq<int>, i: int) -> GBasis {
    let s = flat_corners(m);
    spec_finalize(spec_accumulate(s, cl, flat_tris(m), s.len())[cl[i]], s[i])
}

/// The basis corner `i` receives under default clustering.
pub open spec fn spec_corner_basis(m: Seq<Seq<Vertex>>, i: int) -> GBasis {
    spec_corner_basis_with(m, spec_cluster_seq(flat_corners(m)), i)
}

/// The output has one basis per corner, each pinned to the pipeline under
/// cluster assignment `cl`.
pub open spec fn bases_match_with(
    m: Seq<Seq<Vertex>>,
    cl: Seq<int>,
    o: Seq<Seq<Basis>>,
) -> bool {
    &&& o.len() == m.len()
    &&& forall|f: int| 0 <= f < m.len() ==> (#[trigger] o[f]).len() == m[f].len()
    &&& forall|f: int, v: int|
        0 <= f < m.len() && 0 <= v < m[f].len() ==> g_of_basis(#[trigger] o[f][v])
            == spec_corner_basis_with(m, cl, corner_total(m.take(f)) + v)
}

/// The output of default generation: one basis per corner, pinned to a
/// function of the mesh alone.
pub open spec fn bases_match(m: Seq<Seq<Vertex>>, o: Seq<Seq<Basis>>) -> bool {
    bases_match_with(m, spec_cluster_seq(flat_corners(m)), o)
}

/// Every flattened corner of a well-formed mesh is in range.
pub proof fn lemma_flat_corners_ok(m: Seq<Seq<Vertex>>)
    requires
        forall|f: int| 0 <= f < m.len() ==> crate::mesh::face_ok(#[trigger] m[f]),
    ensures
        forall|i: int|
            0 <= i < flat_corners(m).len() ==> crate::mesh::vertex_ok(
                #[trigger] flat_corners(m)[i],
            ),
    decreases m.len(),
{
    if m.len() > 0 {
        let d = m.drop_last();
        assert(forall|f: int| 0 <= f < d.len() ==> crate::mesh::face_ok(#[trigger] d[f]));
        lemma_flat_corners_ok(d);
        assert(crate::mesh::face_ok(m[m.len() - 1]));
        assert forall|i: int|
            flat_corners(d).len() <= i < flat_corners(m).len() implies crate::mesh::vertex_ok(
            #[trigger] flat_corners(m)[i],
        ) by {
            assert(flat_corners(m)[i] == m.last()[i - flat_corners(d).len()]);
        }
    }
}

/// Run accumulation and finalization under a given cluster assignment and
/// group the bases by face.
fn run_pipeline(
    mesh: &Vec<Vec<Vertex>>,
    corners: &Vec<Vertex>,
    tris: &Vec<crate::tri::Tri>,
    cl: &Vec<usize>,
) -> (r: Vec<Vec<Basis>>)
    requires
        mesh_ok(mview(mesh)),
        corners@ == flat_corners(mview(mesh)),
        tris@ == flat_tris(mview(mesh)),
        cl@.len() == corners@.len(),
        forall|i: int| 0 <= i < cl@.len() ==> (#[trigger] cl@[i]) <= i,
    ensures
        bases_match_with(mview(mesh), cl_ints(cl@), oview(r)),
{
    let ghost mv = mview(mesh);
    proof {
        lemma_flat_corners_len(mv);
        lemma_flat_tris_len(mv);
        lemma_flat_tris_indices(mv);
        lemma_flat_corners_ok(mv);
        crate::mesh::lemma_corner_total_nonneg(mv);
    }
    let n: usize = corners.len();
    let accs = accumulate(corners, cl, tris);
    let mut bases: Vec<Basis> = Vec::new();
    let mut i: usize = 0;
    while i < n
        invariant
            n == corners@.len(),
            corners@ == flat_corners(mv),
            tris@ == flat_tris(mv),
            cl@.len() == n,
            forall|k: int| 0 <= k < cl@.len() ==> (#[trigger] cl@[k]) <= k,
            accs@.len() == n,
            gseq(accs@) == spec_accumulate(corners@, cl_ints(cl@), tris@, n as nat),
            forall|k: int| 0 <= k < accs@.len() ==> acc_ok(#[trigger] accs@[k], 3145728),
            forall|k: int| 0 <= k < corners@.len() ==> crate::mesh::vertex_ok(
                #[trigger] corners@[k],
            ),
            0 <= i <= n,
            bases@.len() == i,
            forall|k: int|
                0 <= k < i ==> g_of_basis(#[trigger] bases@[k]) == spec_corner_basis_with(
                    mv,
                    cl_ints(cl@),
                    k,
                ),
        decreases n - i,
    {
        let c: usize = cl[i];
        let b = finalize_acc(&accs[c], &corners[i]);
        proof {
            assert(gseq(accs@)[c as int] == crate::accum::g_of_acc(accs@[c as int]));
        }
        bases.push(b);
        i = i + 1;
    }
    let nf: usize = mesh.len();
    let mut out: Vec<Vec<Basis>> = Vec::new();
    let mut pos: usize = 0;
    let mut f: usize = 0;
    while f < nf
        invariant
            nf == mv.len(),
            mv == mview(mesh),
            n == corner_total(mv),
            bases@.len() == n,
            forall|k: int|
                0 <= k < n ==> g_of_basis(#[trigger] bases@[k]) == spec_corner_basis_with(
                    mv,
                    cl_ints(cl@),
                    k,
                ),
            0 <= f <= nf,
            out@.len() == f,
            pos == corner_total(mv.take(f as int)),
            0 <= pos <= n,
            forall|f2: int| 0 <= f2 < f ==> (#[trigger] out@[f2]@).len() == mv[f2].len(),
            forall|f2: int, v: int|
                0 <= f2 < f && 0 <= v < mv[f2].len() ==> g_of_basis(#[trigger] out@[f2]@[v])
                    == spec_corner_basis_with(mv, cl_ints(cl@), corner_total(mv.take(f2)) + v),
        decreases nf - f,
    {
        let len: usize = mesh[f].len();
        proof {
            lemma_corner_total_take_step(mv, f as int);
            lemma_corner_total_take_le(mv, f as int + 1);
        }
        let mut row: Vec<Basis> = Vec::new();
        let mut v: usize = 0;
        while v < len
            invariant
                nf == mv.len(),
                mv == mview(mesh),
                n == corner_total(mv),
                bases@.len() == n,
                forall|k: int|
                    0 <= k < n ==> g_of_basis(#[trigger] bases@[k]) == spec_corner_basis_with(
                        mv,
                        cl_ints(cl@),
                        k,
                    ),
                0 <= f < nf,
                len == mv[f as int].len(),
                pos == corner_total(mv.take(f as int)),
                pos + len <= n,
                0 <= v <= len,
                row@.len() == v,
                forall|v2: int|
                    0 <= v2 < v ==> g_of_basis(#[trigger] row@[v2]) == spec_corner_basis_with(
                        mv,
                        cl_ints(cl@),
                        pos + v2,
                    ),
            decreases len - v,
        {
            row.push(bases[pos + v]);
            v = v + 1;
        }
        out.push(row);
        pos = pos + len;
        f = f + 1;
    }
    proof {
        assert(mv.take(nf as int) =~= mv);
    }
    out
}

/// Generate tangent bases with unlimited smoothing: one cluster per
/// (position, texcoord), split only by UV seams.
///
/// Succeeds exactly on well-formed meshes; on success the result holds one
/// basis per corner of every face — delivered exactly once per corner —
/// each pinned to `spec_corner_basis`. A rejected mesh produces no bases at
/// all.
pub fn generate_default(mesh: &Vec<Vec<Vertex>>) -> (r: Result<Vec<Vec<Basis>>, GenError>)
    ensures
        r is Ok <==> mesh_ok(mview(mesh)),
        r is Err ==> r->Err_0 == mesh_error(mview(mesh)),
        r is Ok ==> bases_match(mview(mesh), oview(r->Ok_0)),
{
    let ghost mv = mview(mesh);
    match validate(mesh) {
        Err(e) => Err(e),
        Ok(()) => {
            let (corners, _refs, tris) = build_topology(mesh);
            let cl = cluster_default(&corners);
            proof {
                lemma_flat_corners_len(mv);
                assert forall|i: int| 0 <= i < cl@.len() implies (#[trigger] cl@[i]) <= i by {
                    lemma_cluster_idempotent(corners@, i);
                }
                assert(cl_ints(cl@) =~= spec_cluster_seq(flat_corners(mv)));
            }
            let out = run_pipeline(mesh, &corners, &tris, &cl);
            Ok(out)
        },
    }
}

/// Generate tangent bases under an angular threshold, given as the
/// fixed-point cosine of the largest angle two face normals may subtend
/// while smoothing across their shared edge (clamped to `[-FP, FP]`).
///
/// Succeeds exactly on well-formed meshes. On success the output is the
/// accumulation pipeline run over some sound clustering: corners merge only
/// when position and texture coordinate agree exactly, so a UV seam always
/// splits, whatever the threshold.
pub fn generate(mesh: &Vec<Vec<Vertex>>, cos_threshold: i64) -> (r: Result<
    Vec<Vec<Basis>>,
    GenError,
>)
    ensures
        r is Ok <==> mesh_ok(mview(mesh)),
        r is Err ==> r->Err_0 == mesh_error(mview(mesh)),
        r is Ok ==> exists|cl: Seq<int>|
            cluster_sound(flat_corners(mview(mesh)), cl) && bases_match_with(
                mview(mesh),
                cl,
                oview(r->Ok_0),
            ),
{
    let ghost mv = mview(mesh);
    let ct: i64 = if cos_threshold < -4096 {
        -4096
    } else if cos_threshold > 4096 {
        4096
    } else {
        cos_threshold
    };
    match validate(mesh) {
        Err(e) => Err(e),
        Ok(()) => {
            let (corners, _refs, tris) = build_topology(mesh);
            proof {
                lemma_flat_corners_len(mv);
                lemma_flat_tris_indices(mv);
                lemma_flat_corners_ok(mv);
            }
            let cl = cluster_threshold(&corners, &tris, ct);
            let out = run_pipeline(mesh, &corners, &tris, &cl);
            proof {
                assert(cluster_sound(flat_corners(mv), cl_ints(cl@)));
            }
            Ok(out)
        },
    }
}

/// Corners of one default cluster with one attribute normal receive
/// identical bases: across a smooth, seam-free shared edge the averaged
/// tangent direction agrees exactly.
pub proof fn lemma_same_cluster_same_basis(m: Seq<Seq<Vertex>>, i: int, j: int)
    requires
        0 <= i < flat_corners(m).len(),
        0 <= j < flat_corners(m).len(),
        cluster_of(flat_corners(m), i) == cluster_of(flat_corners(m), j),
        flat_corners(m)[i].nx == flat_corners(m)[j].nx,
        flat_corners(m)[i].ny == flat_corners(m)[j].ny,
        flat_corners(m)[i].nz == flat_corners(m)[j].nz,
    ensures
        spec_corner_basis(m, i) == spec_corner_basis(m, j),
{
    let s = flat_corners(m);
    lemma_cluster_same_key(s, i, j);
    assert(s[i].tu == s[j].tu && s[i].tv == s[j].tv);
    assert(crate::basis::spec_finalize(
        spec_accumulate(s, spec_cluster_seq(s), flat_tris(m), s.len())[cluster_of(s, i)],
        s[i],
    ) == crate::basis::spec_finalize(
        spec_accumulate(s, spec_cluster_seq(s), flat_tris(m), s.len())[cluster_of(s, j)],
        s[j],
    ));
}

/// The seam rule: two corners at the same position whose texture
/// coordinates differ are never clustered together, even when their normals
/// agree exactly.
pub proof fn lemma_seam_never_merges(s: Seq<Vertex>, i: int, j: int)
    requires
        0 <= i < s.len(),
        0 <= j < s.len(),
        s[i].tu != s[j].tu || s[i].tv != s[j].tv,
    ensures
        cluster_of(s, i) != cluster_of(s, j),
{
    if cluster_of(s, i) == cluster_of(s, j) {
        lemma_cluster_same_key(s, i, j);
    }
}

/// Ghost images determine bases: two bases with one image are equal.
pub proof fn lemma_basis_pinned(b1: Basis, b2: Basis)
    requires
        g_of_basis(b1) == g_of_basis(b2),
    ensures
        b1 == b2,
{
}

/// Determinism of default generation: any two outputs that meet the
/// contract on one mesh are identical, bit for bit, whatever order the
/// pipeline's sums were produced in.
pub proof fn lemma_generate_deterministic(
    m: Seq<Seq<Vertex>>,
    o1: Seq<Seq<Basis>>,
    o2: Seq<Seq<Basis>>,
)
    requires
        bases_match(m, o1),
        bases_match(m, o2),
    ensures
        o1 == o2,
{
    assert forall|f: int| 0 <= f < m.len() implies o1[f] =~= o2[f] by {
        assert forall|v: int| 0 <= v < m[f].len() implies o1[f][v] == o2[f][v] by {
            lemma_basis_pinned(o1[f][v], o2[f][v]);
        }
    }
    assert(o1 =~= o2);
}

} // verus!
