//! Smoothing-group clustering.
//!
//! Corners at the same position share one averaged tangent basis unless a UV
//! seam splits them: two corners merge only when position and texture
//! coordinates agree exactly. The default clusterer groups all matching
//! corners; the threshold clusterer additionally demands a path of
//! edge-sharing triangles whose face normals stay within the angular
//! threshold, via a union-find over corners.

use vstd::prelude::*;
use crate::math::{corner_cos, in_range, unit_tri_normal, V3};
use crate::mesh::{vertex_ok, Vertex};
use crate::tri::Tri;

verus! {

/// Two corners may share a tangent basis: equal position and equal texture
/// coordinates (a differing texcoord is a UV seam and never merges).
pub open spec fn same_key(a: Vertex, b: Vertex) -> bool {
    a.px == b.px && a.py == b.py && a.pz == b.pz && a.tu == b.tu && a.tv == b.tv
}

/// Runtime check for `same_key`.
pub fn keys_equal(a: &Vertex, b: &Vertex) -> (r: bool)
    ensures
        r == same_key(*a, *b),
{
    a.px == b.px && a.py == b.py && a.pz == b.pz && a.tu == b.tu && a.tv == b.tv
}

/// Runtime check for equal positions alone.
pub fn pos_equal(a: &Vertex, b: &Vertex) -> (r: bool)
    ensures
        r == (a.px == b.px && a.py == b.py && a.pz == b.pz),
{
    a.px == b.px && a.py == b.py && a.pz == b.pz
}

/// The first index at or after `j` whose key matches corner `i` (corner `i`
/// itself matches, so the scan always lands).
pub open spec fn first_match_from(s: Seq<Vertex>, i: int, j: int) -> int
    recommends
        0 <= j <= i < s.len(),
    decreases i - j,
{
    if j >= i {
        i
    } else if same_key(s[j], s[i]) {
        j
    } else {
        first_match_from(s, i, j + 1)
    }
}

/// The default cluster of corner `i`: the first corner with the same key.
pub open spec fn cluster_of(s: Seq<Vertex>, i: int) -> int {
    first_match_from(s, i, 0)
}

/// The scan returns an index in range whose key matches, and skips only
/// mismatches.
pub proof fn lemma_first_match_from(s: Seq<Vertex>, i: int, j: int)
    requires
        0 <= j <= i < s.len(),
    ensures
        j <= first_match_from(s, i, j) <= i,
        same_key(s[first_match_from(s, i, j)], s[i]),
        forall|k: int| j <= k < first_match_from(s, i, j) ==> !same_key(#[trigger] s[k], s[i]),
    decreases i - j,
{
    if j < i && !same_key(s[j], s[i]) {
        lemma_first_match_from(s, i, j + 1);
    }
}

/// A found index with no earlier match is the first match.
pub proof fn lemma_first_match_found(s: Seq<Vertex>, i: int, j: int)
    requires
        0 <= j <= i < s.len(),
        j == i || same_key(s[j], s[i]),
        forall|k: int| 0 <= k < j ==> !same_key(#[trigger] s[k], s[i]),
    ensures
        cluster_of(s, i) == j,
{
    lemma_first_match_from(s, i, 0);
    let m = cluster_of(s, i);
    if m < j {
        assert(!same_key(s[m], s[i]));
    }
}

/// Corners in one default cluster have the same key: the seam rule. Two
/// corners whose texture coordinates differ are never merged, whatever their
/// normals.
pub proof fn lemma_cluster_same_key(s: Seq<Vertex>, i: int, j: int)
    requires
        0 <= i < s.len(),
        0 <= j < s.len(),
        cluster_of(s, i) == cluster_of(s, j),
    ensures
        same_key(s[i], s[j]),
{
    lemma_first_match_from(s, i, 0);
    lemma_first_match_from(s, j, 0);
}

/// Corners with the same key land in the same default cluster: one cluster
/// per (position, texcoord).
pub proof fn lemma_same_key_same_cluster(s: Seq<Vertex>, i: int, j: int)
    requires
        0 <= i < s.len(),
        0 <= j < s.len(),
        same_key(s[i], s[j]),
    ensures
        cluster_of(s, i) == cluster_of(s, j),
{
    lemma_first_match_from(s, i, 0);
    lemma_first_match_from(s, j, 0);
    let mi = cluster_of(s, i);
    let mj = cluster_of(s, j);
    if mi < mj {
        assert(!same_key(s[mi], s[j]));
    }
    if mj < mi {
        assert(!same_key(s[mj], s[i]));
    }
}

/// The representative of a cluster is its own representative.
pub proof fn lemma_cluster_idempotent(s: Seq<Vertex>, i: int)
    requires
        0 <= i < s.len(),
    ensures
        0 <= cluster_of(s, i) <= i,
        same_key(s[cluster_of(s, i)], s[i]),
        cluster_of(s, cluster_of(s, i)) == cluster_of(s, i),
{
    lemma_first_match_from(s, i, 0);
    let m = cluster_of(s, i);
    assert forall|k: int| 0 <= k < m implies !same_key(#[trigger] s[k], s[m]) by {
        assert(!same_key(s[k], s[i]));
    }
    lemma_first_match_found(s, m, m);
}

/// Assign every corner its default cluster: the first corner with an equal
/// position and texture coordinate.
pub fn cluster_default(corners: &Vec<Vertex>) -> (r: Vec<usize>)
    ensures
        r@.len() == corners@.len(),
        forall|i: int| 0 <= i < r@.len() ==> #[trigger] r@[i] as int == cluster_of(corners@, i),
{
    let n: usize = corners.len();
    let mut r: Vec<usize> = Vec::new();
    let mut i: usize = 0;
    while i < n
        invariant
            n == corners@.len(),
            0 <= i <= n,
            r@.len() == i,
            forall|k: int| 0 <= k < i ==> #[trigger] r@[k] as int == cluster_of(corners@, k),
        decreases n - i,
    {
        let mut j: usize = 0;
        while j < i && !keys_equal(&corners[j], &corners[i])
            invariant
                n == corners@.len(),
                0 <= i < n,
                0 <= j <= i,
                forall|k: int| 0 <= k < j ==> !same_key(#[trigger] corners@[k], corners@[i as int]),
            decreases i - j,
        {
            j = j + 1;
        }
        proof {
            lemma_first_match_found(corners@, i as int, j as int);
        }
        r.push(j);
        i = i + 1;
    }
    r
}

/// The union-find parent forest: parents point at equal-key corners with a
/// smaller or equal index.
pub open spec fn uf_ok(p: Seq<usize>, s: Seq<Vertex>) -> bool {
    p.len() == s.len() && forall|i: int|
        0 <= i < p.len() ==> (#[trigger] p[i]) <= i && same_key(s[p[i] as int], s[i])
}

/// Follow parents to the root of a corner's set.
fn uf_find(p: &Vec<usize>, Ghost(s): Ghost<Seq<Vertex>>, start: usize) -> (r: usize)
    requires
        uf_ok(p@, s),
        (start as int) < p@.len(),
    ensures
        (r as int) < p@.len(),
        r <= start,
        p@[r as int] == r,
        same_key(s[r as int], s[start as int]),
        p@[start as int] == start ==> r == start,
{
    let mut i: usize = start;
    while p[i] != i
        invariant
            uf_ok(p@, s),
            (i as int) < p@.len(),
            i <= start,
            same_key(s[i as int], s[start as int]),
            p@[start as int] == start ==> i == start,
        decreases i,
    {
        i = p[i];
    }
    i
}

/// Join the sets of two corners that share a key.
fn uf_union(p: &mut Vec<usize>, Ghost(s): Ghost<Seq<Vertex>>, a: usize, b: usize)
    requires
        uf_ok(old(p)@, s),
        (a as int) < old(p)@.len(),
        (b as int) < old(p)@.len(),
        same_key(s[a as int], s[b as int]),
    ensures
        uf_ok(final(p)@, s),
        final(p)@.len() == old(p)@.len(),
{
    let ra: usize = uf_find(p, Ghost(s), a);
    let rb: usize = uf_find(p, Ghost(s), b);
    if ra < rb {
        p.set(rb, ra);
    } else if rb < ra {
        p.set(ra, rb);
    }
}

/// Whether two triangles share a geometric edge: at least two corner pairs
/// at equal positions.
fn shares_edge(c: &Vec<Vertex>, t1: Tri, t2: Tri) -> (r: bool)
    requires
        (t1.a as int) < c@.len(),
        (t1.b as int) < c@.len(),
        (t1.c as int) < c@.len(),
        (t2.a as int) < c@.len(),
        (t2.b as int) < c@.len(),
        (t2.c as int) < c@.len(),
{
    let mut cnt: u32 = 0;
    if pos_equal(&c[t1.a], &c[t2.a]) {
        cnt = cnt + 1;
    }
    if pos_equal(&c[t1.a], &c[t2.b]) {
        cnt = cnt + 1;
    }
    if pos_equal(&c[t1.a], &c[t2.c]) {
        cnt = cnt + 1;
    }
    if pos_equal(&c[t1.b], &c[t2.a]) {
        cnt = cnt + 1;
    }
    if pos_equal(&c[t1.b], &c[t2.b]) {
        cnt = cnt + 1;
    }
    if pos_equal(&c[t1.b], &c[t2.c]) {
        cnt = cnt + 1;
    }
    if pos_equal(&c[t1.c], &c[t2.a]) {
        cnt = cnt + 1;
    }
    if pos_equal(&c[t1.c], &c[t2.b]) {
        cnt = cnt + 1;
    }
    if pos_equal(&c[t1.c], &c[t2.c]) {
        cnt = cnt + 1;
    }
    cnt >= 2
}

/// The position of a corner as a vector.
fn pos_v3(v: &Vertex) -> (r: V3)
    ensures
        r.x == v.px,
        r.y == v.py,
        r.z == v.pz,
        vertex_ok(*v) ==> in_range(r, 134217728),
{
    V3 { x: v.px, y: v.py, z: v.pz }
}

/// Whether the face normals of two triangles are within the angular
/// threshold, given as a fixed-point cosine.
fn angle_ok(c: &Vec<Vertex>, t1: Tri, t2: Tri, cos_thresh: i64) -> (r: bool)
    requires
        (t1.a as int) < c@.len(),
        (t1.b as int) < c@.len(),
        (t1.c as int) < c@.len(),
        (t2.a as int) < c@.len(),
        (t2.b as int) < c@.len(),
        (t2.c as int) < c@.len(),
        forall|i: int| 0 <= i < c@.len() ==> vertex_ok(#[trigger] c@[i]),
{
    let n1: V3 = unit_tri_normal(pos_v3(&c[t1.a]), pos_v3(&c[t1.b]), pos_v3(&c[t1.c]));
    let n2: V3 = unit_tri_normal(pos_v3(&c[t2.a]), pos_v3(&c[t2.b]), pos_v3(&c[t2.c]));
    corner_cos(n1, n2) >= cos_thresh
}

/// Assign clusters under an angular threshold: corners merge only along
/// paths of edge-sharing triangles whose face normals stay within the
/// threshold, and never across a UV seam.
///
/// The assignment is sound — merged corners always share position and
/// texture coordinates — and every cluster is named by its root corner.
pub fn cluster_threshold(corners: &Vec<Vertex>, tris: &Vec<Tri>, cos_thresh: i64) -> (r: Vec<
    usize,
>)
    requires
        forall|i: int| 0 <= i < corners@.len() ==> vertex_ok(#[trigger] corners@[i]),
        forall|j: int|
            0 <= j < tris@.len() ==> (#[trigger] tris@[j]).a < corners@.len()
                && tris@[j].b < corners@.len() && tris@[j].c < corners@.len(),
    ensures
        r@.len() == corners@.len(),
        forall|i: int|
            0 <= i < r@.len() ==> (#[trigger] r@[i]) <= i && r@[r@[i] as int] == r@[i]
                && same_key(corners@[r@[i] as int], corners@[i]),
{
    let n: usize = corners.len();
    let mut p: Vec<usize> = Vec::new();
    let mut i: usize = 0;
    while i < n
        invariant
            0 <= i <= n,
            p@.len() == i,
            forall|k: int| 0 <= k < i ==> #[trigger] p@[k] == k,
        decreases n - i,
    {
        p.push(i);
        i = i + 1;
    }
    let nt: usize = tris.len();
    let mut t1: usize = 0;
    while t1 < nt
        invariant
            n == corners@.len(),
            nt == tris@.len(),
            uf_ok(p@, corners@),
            forall|i2: int| 0 <= i2 < corners@.len() ==> vertex_ok(#[trigger] corners@[i2]),
            forall|j: int|
                0 <= j < tris@.len() ==> (#[trigger] tris@[j]).a < corners@.len()
                    && tris@[j].b < corners@.len() && tris@[j].c < corners@.len(),
        decreases nt - t1,
    {
        let mut t2: usize = t1 + 1;
        while t2 < nt
            invariant
                n == corners@.len(),
                nt == tris@.len(),
                (t1 as int) < nt,
                uf_ok(p@, corners@),
                forall|i2: int| 0 <= i2 < corners@.len() ==> vertex_ok(#[trigger] corners@[i2]),
                forall|j: int|
                    0 <= j < tris@.len() ==> (#[trigger] tris@[j]).a < corners@.len()
                        && tris@[j].b < corners@.len() && tris@[j].c < corners@.len(),
            decreases nt - t2,
        {
            let ta: Tri = tris[t1];
            let tb: Tri = tris[t2];
            if shares_edge(corners, ta, tb) && angle_ok(corners, ta, tb, cos_thresh) {
                union_matching(&mut p, corners, ta.a, tb);
                union_matching(&mut p, corners, ta.b, tb);
                union_matching(&mut p, corners, ta.c, tb);
            }
            t2 = t2 + 1;
        }
        t1 = t1 + 1;
    }
    let mut r: Vec<usize> = Vec::new();
    let mut i2: usize = 0;
    while i2 < n
        invariant
            n == corners@.len(),
            uf_ok(p@, corners@),
            p@.len() == n,
            0 <= i2 <= n,
            r@.len() == i2,
            forall|k: int|
                0 <= k < i2 ==> (#[trigger] r@[k]) <= k && (r@[k] as int) < n && p@[r@[k] as int]
                    == r@[k] && same_key(corners@[r@[k] as int], corners@[k]),
            forall|k: int| 0 <= k < i2 && p@[k] == k ==> #[trigger] r@[k] == k,
        decreases n - i2,
    {
        let root: usize = uf_find(&p, Ghost(corners@), i2);
        r.push(root);
        i2 = i2 + 1;
    }
    proof {
        assert forall|i3: int| 0 <= i3 < r@.len() implies (#[trigger] r@[i3]) <= i3 && r@[r@[i3]
            as int] == r@[i3] && same_key(corners@[r@[i3] as int], corners@[i3]) by {
            let j = r@[i3] as int;
            assert(p@[j] == r@[i3]);
            assert(r@[j] <= j && p@[r@[j] as int] == r@[j]);
        }
    }
    r
}

/// Union one corner of the first triangle with every matching corner of the
/// second.
fn union_matching(p: &mut Vec<usize>, corners: &Vec<Vertex>, u: usize, tb: Tri)
    requires
        uf_ok(old(p)@, corners@),
        (u as int) < corners@.len(),
        (tb.a as int) < corners@.len(),
        (tb.b as int) < corners@.len(),
        (tb.c as int) < corners@.len(),
    ensures
        uf_ok(final(p)@, corners@),
        final(p)@.len() == old(p)@.len(),
{
    if keys_equal(&corners[u], &corners[tb.a]) {
        uf_union(p, Ghost(corners@), u, tb.a);
    }
    if keys_equal(&corners[u], &corners[tb.b]) {
        uf_union(p, Ghost(corners@), u, tb.b);
    }
    if keys_equal(&corners[u], &corners[tb.c]) {
        uf_union(p, Ghost(corners@), u, tb.c);
    }
}

} // verus!
