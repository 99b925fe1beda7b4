//! Triangle decomposition.
//!
//! Faces of arbitrary arity are flattened into one corner list and
//! fan-triangulated from slot 0 (triangle `(0, i, i+1)` for each `i`), with a
//! back-reference from every corner to its originating `(face, slot)` pair.

use vstd::prelude::*;
use crate::mesh::{corner_total, lemma_corner_total_take_step, mesh_ok, mview, Vertex};

verus! {

/// A back-reference from a flattened corner to its face and slot.
#[derive(Clone, Copy, PartialEq, Eq, Structural, Debug)]
pub struct CornerRef {
    pub face: usize,
    pub slot: usize,
}

/// A triangle, as three indices into the flattened corner list.
#[derive(Clone, Copy, PartialEq, Eq, Structural, Debug)]
pub struct Tri {
    pub a: usize,
    pub b: usize,
    pub c: usize,
}

/// All corners of a mesh, face by face, slots in order.
pub open spec fn flat_corners(m: Seq<Seq<Vertex>>) -> Seq<Vertex>
    decreases m.len(),
{
    if m.len() == 0 {
        Seq::empty()
    } else {
        flat_corners(m.drop_last()) + m.last()
    }
}

/// The back-references for one face of `n` corners.
pub open spec fn face_refs(f: int, n: nat) -> Seq<CornerRef> {
    Seq::new(n, |v: int| CornerRef { face: f as usize, slot: v as usize })
}

/// The back-references for all corners of a mesh.
pub open spec fn flat_refs(m: Seq<Seq<Vertex>>) -> Seq<CornerRef>
    decreases m.len(),
{
    if m.len() == 0 {
        Seq::empty()
    } else {
        flat_refs(m.drop_last()) + face_refs(m.len() - 1, m.last().len())
    }
}

/// The fan triangles of one face whose corners start at `base`.
pub open spec fn face_tris(base: int, n: nat) -> Seq<Tri> {
    Seq::new(
        if n >= 2 {
            (n - 2) as nat
        } else {
            0
        },
        |i: int|
            Tri {
                a: base as usize,
                b: (base + i + 1) as usize,
                c: (base + i + 2) as usize,
            },
    )
}

/// The fan triangles of a whole mesh.
pub open spec fn flat_tris(m: Seq<Seq<Vertex>>) -> Seq<Tri>
    decreases m.len(),
{
    if m.len() == 0 {
        Seq::empty()
    } else {
        flat_tris(m.drop_last()) + face_tris(corner_total(m.drop_last()), m.last().len())
    }
}

/// There are exactly as many flattened corners as the corner total counts.
pub proof fn lemma_flat_corners_len(m: Seq<Seq<Vertex>>)
    ensures
        flat_corners(m).len() == corner_total(m),
        flat_refs(m).len() == corner_total(m),
    decreases m.len(),
{
    if m.len() > 0 {
        lemma_flat_corners_len(m.drop_last());
    }
}

/// There are no more triangles than corners.
pub proof fn lemma_flat_tris_len(m: Seq<Seq<Vertex>>)
    ensures
        flat_tris(m).len() <= corner_total(m),
    decreases m.len(),
{
    if m.len() > 0 {
        lemma_flat_tris_len(m.drop_last());
        crate::mesh::lemma_corner_total_nonneg(m.drop_last());
    }
}

/// Every triangle of a mesh within the corner budget indexes real corners.
pub proof fn lemma_flat_tris_indices(m: Seq<Seq<Vertex>>)
    requires
        corner_total(m) <= 1048576,
    ensures
        forall|j: int|
            0 <= j < flat_tris(m).len() ==> (#[trigger] flat_tris(m)[j]).a < corner_total(m)
                && flat_tris(m)[j].b < corner_total(m) && flat_tris(m)[j].c < corner_total(m),
    decreases m.len(),
{
    if m.len() > 0 {
        let d = m.drop_last();
        assert(d =~= m.take(m.len() - 1));
        crate::mesh::lemma_corner_total_take_le(m, m.len() - 1);
        lemma_flat_tris_indices(d);
        crate::mesh::lemma_corner_total_nonneg(d);
        let base = corner_total(d);
        let nn = m.last().len();
        assert forall|j: int|
            flat_tris(d).len() <= j < flat_tris(m).len() implies (#[trigger] flat_tris(
            m,
        )[j]).a < corner_total(m) && flat_tris(m)[j].b < corner_total(m) && flat_tris(m)[j].c
            < corner_total(m) by {
            let i = j - flat_tris(d).len();
            assert(flat_tris(m)[j] == face_tris(base, nn)[i]);
            assert(0 <= i < face_tris(base, nn).len());
            assert(nn >= 2);
            assert(base + i + 2 <= base + nn <= 1048576);
        }
    }
}

/// Flatten a mesh's corners, back-references and fan triangles.
pub fn build_topology(mesh: &Vec<Vec<Vertex>>) -> (r: (Vec<Vertex>, Vec<CornerRef>, Vec<Tri>))
    requires
        mesh_ok(mview(mesh)),
    ensures
        r.0@ == flat_corners(mview(mesh)),
        r.1@ == flat_refs(mview(mesh)),
        r.2@ == flat_tris(mview(mesh)),
{
    let ghost mv = mview(mesh);
    let n: usize = mesh.len();
    let mut corners: Vec<Vertex> = Vec::new();
    let mut refs: Vec<CornerRef> = Vec::new();
    let mut tris: Vec<Tri> = Vec::new();
    let mut f: usize = 0;
    while f < n
        invariant
            n == mv.len(),
            mv == mview(mesh),
            mesh_ok(mv),
            0 <= f <= n,
            corners@ == flat_corners(mv.take(f as int)),
            refs@ == flat_refs(mv.take(f as int)),
            tris@ == flat_tris(mv.take(f as int)),
            corners@.len() == corner_total(mv.take(f as int)),
            corners@.len() <= 1048576,
        decreases n - f,
    {
        let base: usize = corners.len();
        let len: usize = mesh[f].len();
        proof {
            lemma_corner_total_take_step(mv, f as int);
            crate::mesh::lemma_corner_total_take_le(mv, f as int + 1);
            assert(crate::mesh::face_ok(mv[f as int]));
        }
        let mut v: usize = 0;
        while v < len
            invariant
                n == mv.len(),
                mv == mview(mesh),
                0 <= f < n,
                len == mv[f as int].len(),
                base + len <= 1048576,
                0 <= v <= len,
                base == corner_total(mv.take(f as int)),
                corners@ == flat_corners(mv.take(f as int)) + mv[f as int].take(v as int),
                refs@ == flat_refs(mv.take(f as int)) + face_refs(f as int, len as nat).take(
                    v as int,
                ),
                corners@.len() == base + v,
            decreases len - v,
        {
            corners.push(mesh[f][v]);
            refs.push(CornerRef { face: f, slot: v });
            proof {
                assert(mv[f as int].take(v as int + 1) =~= mv[f as int].take(v as int).push(
                    mv[f as int][v as int],
                ));
                assert(face_refs(f as int, len as nat).take(v as int + 1) =~= face_refs(
                    f as int,
                    len as nat,
                ).take(v as int).push(CornerRef { face: f, slot: v }));
            }
            v = v + 1;
        }
        let mut i: usize = 0;
        while i + 2 < len
            invariant
                n == mv.len(),
                mv == mview(mesh),
                0 <= f < n,
                len == mv[f as int].len(),
                3 <= len,
                base + len <= 1048576,
                0 <= i <= len - 2,
                base == corner_total(mv.take(f as int)),
                tris@ == flat_tris(mv.take(f as int)) + face_tris(base as int, len as nat).take(
                    i as int,
                ),
            decreases len - i,
        {
            tris.push(Tri { a: base, b: base + i + 1, c: base + i + 2 });
            proof {
                assert(face_tris(base as int, len as nat).take(i as int + 1) =~= face_tris(
                    base as int,
                    len as nat,
                ).take(i as int).push(Tri { a: base, b: (base + i + 1) as usize, c: (base + i + 2) as usize }));
            }
            i = i + 1;
        }
        proof {
            assert(mv.take(f as int + 1).drop_last() =~= mv.take(f as int));
            assert(mv.take(f as int + 1).last() =~= mv[f as int]);
            assert(mv[f as int].take(len as int) =~= mv[f as int]);
            assert(face_refs(f as int, len as nat).take(len as int) =~= face_refs(
                f as int,
                len as nat,
            ));
            assert(face_tris(base as int, len as nat).take(i as int) =~= face_tris(
                base as int,
                len as nat,
            ));
        }
        f = f + 1;
    }
    proof {
        assert(mv.take(n as int) =~= mv);
    }
    (corners, refs, tris)
}

} // verus!
