//! The mesh data model and its well-formedness rules.
//!
//! A mesh is a list of faces, each an ordered list of vertex attributes in
//! fixed-point coordinates. Generation runs only on well-formed meshes: every
//! face has at least three vertices, every coordinate is within the
//! representable range, and the total corner count is bounded.

use vstd::prelude::*;

verus! {

/// Largest admissible magnitude of any fixed-point coordinate (2^27,
/// about 32768 world units at `FP` scale).
pub const COORD_LIMIT: i64 = 134217728;

/// Largest admissible total number of corners in a mesh (2^20).
pub const CORNER_LIMIT: usize = 1048576;

/// The attributes of one corner: position, normal and texture coordinates,
/// all in fixed-point scale.
#[derive(Clone, Copy, PartialEq, Eq, Structural, Debug)]
pub struct Vertex {
    pub px: i64,
    pub py: i64,
    pub pz: i64,
    pub nx: i64,
    pub ny: i64,
    pub nz: i64,
    pub tu: i64,
    pub tv: i64,
}

/// Why generation rejected a mesh.
#[derive(Clone, Copy, PartialEq, Eq, Structural, Debug)]
pub enum GenError {
    /// Some face reports fewer than three vertices.
    DegenerateFace,
    /// A coordinate is out of the representable range (the caller maps
    /// non-finite inputs there), or the mesh exceeds the corner budget.
    MalformedMesh,
}

/// The faces of a vector-of-vectors mesh, as a sequence of sequences.
pub open spec fn mview(m: &Vec<Vec<Vertex>>) -> Seq<Seq<Vertex>> {
    Seq::new(m@.len(), |i: int| m@[i]@)
}

/// All eight coordinates of `v` are within `COORD_LIMIT`.
pub open spec fn vertex_ok(v: Vertex) -> bool {
    &&& -134217728 <= v.px <= 134217728
    &&& -134217728 <= v.py <= 134217728
    &&& -134217728 <= v.pz <= 134217728
    &&& -134217728 <= v.nx <= 134217728
    &&& -134217728 <= v.ny <= 134217728
    &&& -134217728 <= v.nz <= 134217728
    &&& -134217728 <= v.tu <= 134217728
    &&& -134217728 <= v.tv <= 134217728
}

/// A face has at least three corners and only in-range attributes.
pub open spec fn face_ok(f: Seq<Vertex>) -> bool {
    &&& 3 <= f.len()
    &&& forall|v: int| 0 <= v < f.len() ==> vertex_ok(#[trigger] f[v])
}

/// Total number of corners over all faces.
pub open spec fn corner_total(m: Seq<Seq<Vertex>>) -> int
    decreases m.len(),
{
    if m.len() == 0 {
        0
    } else {
        corner_total(m.drop_last()) + m.last().len()
    }
}

/// A mesh generation accepts: every face well formed, corner budget kept.
pub open spec fn mesh_ok(m: Seq<Seq<Vertex>>) -> bool {
    &&& forall|f: int| 0 <= f < m.len() ==> face_ok(#[trigger] m[f])
    &&& corner_total(m) <= 1048576
}

/// Some face has fewer than three corners.
pub open spec fn has_small_face(m: Seq<Seq<Vertex>>) -> bool {
    exists|f: int| 0 <= f < m.len() && #[trigger] m[f].len() < 3
}

/// The error a malformed mesh is rejected with: a too-small face wins over
/// any other defect.
pub open spec fn mesh_error(m: Seq<Seq<Vertex>>) -> GenError {
    if has_small_face(m) {
        GenError::DegenerateFace
    } else {
        GenError::MalformedMesh
    }
}

/// The corner total is non-negative.
pub proof fn lemma_corner_total_nonneg(m: Seq<Seq<Vertex>>)
    ensures
        corner_total(m) >= 0,
    decreases m.len(),
{
    if m.len() > 0 {
        lemma_corner_total_nonneg(m.drop_last());
    }
}

/// Extending a prefix by one face adds that face's corner count.
pub proof fn lemma_corner_total_take_step(m: Seq<Seq<Vertex>>, k: int)
    requires
        0 <= k < m.len(),
    ensures
        corner_total(m.take(k + 1)) == corner_total(m.take(k)) + m[k].len(),
{
    assert(m.take(k + 1).drop_last() =~= m.take(k));
    assert(m.take(k + 1).last() =~= m[k]);
}

/// The corner total of a prefix never exceeds the total of the whole mesh.
pub proof fn lemma_corner_total_take_le(m: Seq<Seq<Vertex>>, k: int)
    requires
        0 <= k <= m.len(),
    ensures
        corner_total(m.take(k)) <= corner_total(m),
    decreases m.len() - k,
{
    if k == m.len() {
        assert(m.take(k) =~= m);
    } else {
        lemma_corner_total_take_step(m, k);
        lemma_corner_total_take_le(m, k + 1);
    }
}

/// Whether all attributes of one corner are in range.
pub fn vertex_in_range(v: &Vertex) -> (r: bool)
    ensures
        r == vertex_ok(*v),
{
    -134217728 <= v.px && v.px <= 134217728 && -134217728 <= v.py && v.py <= 134217728
        && -134217728 <= v.pz && v.pz <= 134217728 && -134217728 <= v.nx && v.nx <= 134217728
        && -134217728 <= v.ny && v.ny <= 134217728 && -134217728 <= v.nz && v.nz <= 134217728
        && -134217728 <= v.tu && v.tu <= 134217728 && -134217728 <= v.tv && v.tv <= 134217728
}

/// Check a mesh for the defects generation rejects.
///
/// Succeeds exactly on well-formed meshes; a rejected mesh is reported with
/// the error `mesh_error` assigns to it.
pub fn validate(mesh: &Vec<Vec<Vertex>>) -> (r: Result<(), GenError>)
    ensures
        r is Ok <==> mesh_ok(mview(mesh)),
        r is Err ==> r->Err_0 == mesh_error(mview(mesh)),
{
    let ghost mv = mview(mesh);
    let n: usize = mesh.len();
    let mut f: usize = 0;
    while f < n
        invariant
            n == mv.len(),
            mv == mview(mesh),
            0 <= f <= n,
            forall|i: int| 0 <= i < f ==> #[trigger] mv[i].len() >= 3,
        decreases n - f,
    {
        if mesh[f].len() < 3 {
            assert(mv[f as int].len() < 3);
            return Err(GenError::DegenerateFace);
        }
        f = f + 1;
    }
    assert(!has_small_face(mv));
    let mut total: usize = 0;
    f = 0;
    while f < n
        invariant
            n == mv.len(),
            mv == mview(mesh),
            0 <= f <= n,
            total == corner_total(mv.take(f as int)),
            total <= 1048576,
            forall|i: int| 0 <= i < f ==> face_ok(#[trigger] mv[i]),
            !has_small_face(mv),
        decreases n - f,
    {
        let len: usize = mesh[f].len();
        let mut v: usize = 0;
        while v < len
            invariant
                n == mv.len(),
                mv == mview(mesh),
                0 <= f < n,
                len == mv[f as int].len(),
                0 <= v <= len,
                !has_small_face(mv),
                forall|i: int| 0 <= i < v ==> vertex_ok(#[trigger] mv[f as int][i]),
            decreases len - v,
        {
            if !vertex_in_range(&mesh[f][v]) {
                assert(!vertex_ok(mv[f as int][v as int]));
                assert(!mesh_ok(mv));
                return Err(GenError::MalformedMesh);
            }
            v = v + 1;
        }
        proof {
            lemma_corner_total_take_step(mv, f as int);
        }
        if len > 1048576 || total + len > 1048576 {
            proof {
                lemma_corner_total_take_le(mv, f as int + 1);
            }
            assert(corner_total(mv) > 1048576);
            return Err(GenError::MalformedMesh);
        }
        total = total + len;
        f = f + 1;
    }
    proof {
        assert(mv.take(n as int) =~= mv);
    }
    Ok(())
}

} // verus!
