//! Accumulation of triangle contributions into per-cluster sums.
//!
//! Every triangle corner adds its angle-weighted tangent, bitangent and
//! face-normal direction, and its weighted magnitudes, into the accumulator
//! of its corner's cluster. The executable loop is pinned to a fold over the
//! triangle list.

use vstd::prelude::*;
use crate::contrib::{g_of_contrib, spec_contrib, tri_contrib, Contrib, GContrib};
use crate::math::{in_range, lemma_mul_bound};
use crate::mesh::{vertex_ok, Vertex};
use crate::tri::Tri;

verus! {

/// Per-cluster running sums.
#[derive(Clone, Copy, PartialEq, Eq, Structural, Debug)]
pub struct Acc {
    pub tx: i64,
    pub ty: i64,
    pub tz: i64,
    pub bx: i64,
    pub by: i64,
    pub bz: i64,
    pub nx: i64,
    pub ny: i64,
    pub nz: i64,
    pub w: i64,
    pub ms: i128,
    pub mt: i128,
}

/// Ghost image of an accumulator, over unbounded integers.
pub ghost struct GAcc {
    pub t: (int, int, int),
    pub b: (int, int, int),
    pub n: (int, int, int),
    pub w: int,
    pub ms: int,
    pub mt: int,
}

/// The ghost image of an executable accumulator.
pub open spec fn g_of_acc(a: Acc) -> GAcc {
    GAcc {
        t: (a.tx as int, a.ty as int, a.tz as int),
        b: (a.bx as int, a.by as int, a.bz as int),
        n: (a.nx as int, a.ny as int, a.nz as int),
        w: a.w as int,
        ms: a.ms as int,
        mt: a.mt as int,
    }
}

/// The ghost image of a whole accumulator table.
pub open spec fn gseq(s: Seq<Acc>) -> Seq<GAcc> {
    s.map_values(|a: Acc| g_of_acc(a))
}

/// Cluster indices as plain integers.
pub open spec fn cl_ints(c: Seq<usize>) -> Seq<int> {
    c.map_values(|u: usize| u as int)
}

/// The empty accumulator.
pub open spec fn gacc_zero() -> GAcc {
    GAcc { t: (0, 0, 0), b: (0, 0, 0), n: (0, 0, 0), w: 0, ms: 0, mt: 0 }
}

/// One corner's weighted addition into an accumulator.
pub open spec fn gacc_plus(a: GAcc, c: GContrib, w: int) -> GAcc {
    GAcc {
        t: (a.t.0 + w * c.t.0, a.t.1 + w * c.t.1, a.t.2 + w * c.t.2),
        b: (a.b.0 + w * c.b.0, a.b.1 + w * c.b.1, a.b.2 + w * c.b.2),
        n: (a.n.0 + w * c.n.0, a.n.1 + w * c.n.1, a.n.2 + w * c.n.2),
        w: a.w + w,
        ms: a.ms + w * c.ms,
        mt: a.mt + w * c.mt,
    }
}

/// One triangle's three corner additions, in slot order.
pub open spec fn spec_acc_tri(
    accs: Seq<GAcc>,
    s: Seq<Vertex>,
    cl: Seq<int>,
    t: Tri,
) -> Seq<GAcc> {
    let c = spec_contrib(s[t.a as int], s[t.b as int], s[t.c as int]);
    let ia = cl[t.a as int];
    let ib = cl[t.b as int];
    let ic = cl[t.c as int];
    let a1 = accs.update(ia, gacc_plus(accs[ia], c, c.w0));
    let a2 = a1.update(ib, gacc_plus(a1[ib], c, c.w1));
    a2.update(ic, gacc_plus(a2[ic], c, c.w2))
}

/// The accumulator table after folding a triangle list, starting from `n`
/// empty accumulators.
pub open spec fn spec_accumulate(s: Seq<Vertex>, cl: Seq<int>, tris: Seq<Tri>, n: nat) -> Seq<
    GAcc,
>
    decreases tris.len(),
{
    if tris.len() == 0 {
        Seq::new(n as nat, |i: int| gacc_zero())
    } else {
        spec_acc_tri(spec_accumulate(s, cl, tris.drop_last(), n), s, cl, tris.last())
    }
}

/// Range bounds on an accumulator after at most `k` corner additions.
pub open spec fn acc_ok(a: Acc, k: int) -> bool {
    &&& -(k * 52747264) <= a.tx <= k * 52747264
    &&& -(k * 52747264) <= a.ty <= k * 52747264
    &&& -(k * 52747264) <= a.tz <= k * 52747264
    &&& -(k * 52747264) <= a.bx <= k * 52747264
    &&& -(k * 52747264) <= a.by <= k * 52747264
    &&& -(k * 52747264) <= a.bz <= k * 52747264
    &&& -(k * 52747264) <= a.nx <= k * 52747264
    &&& -(k * 52747264) <= a.ny <= k * 52747264
    &&& -(k * 52747264) <= a.nz <= k * 52747264
    &&& 0 <= a.w <= k * 12868
    &&& 0 <= a.ms <= 1125899906842624 * (a.w as int)
    &&& 0 <= a.mt <= 1125899906842624 * (a.w as int)
}

/// Add one weighted contribution into one accumulator slot.
fn acc_apply(accs: &mut Vec<Acc>, idx: usize, c: &Contrib, w: i64, Ghost(cnt): Ghost<int>)
    requires
        (idx as int) < old(accs)@.len(),
        in_range(c.t, 4096),
        in_range(c.b, 4096),
        in_range(c.n, 4096),
        0 <= w <= 12868,
        0 <= c.ms <= 1125899906842624,
        0 <= c.mt <= 1125899906842624,
        acc_ok(old(accs)@[idx as int], cnt),
        0 <= cnt <= 3145728,
    ensures
        final(accs)@.len() == old(accs)@.len(),
        g_of_acc(final(accs)@[idx as int]) == gacc_plus(
            g_of_acc(old(accs)@[idx as int]),
            g_of_contrib(*c),
            w as int,
        ),
        forall|j: int|
            0 <= j < old(accs)@.len() && j != idx ==> final(accs)@[j] == old(accs)@[j],
        acc_ok(final(accs)@[idx as int], cnt + 1),
{
    let a: Acc = accs[idx];
    proof {
        lemma_mul_bound(w as int, c.t.x as int, 12868, 4096);
        lemma_mul_bound(w as int, c.t.y as int, 12868, 4096);
        lemma_mul_bound(w as int, c.t.z as int, 12868, 4096);
        lemma_mul_bound(w as int, c.b.x as int, 12868, 4096);
        lemma_mul_bound(w as int, c.b.y as int, 12868, 4096);
        lemma_mul_bound(w as int, c.b.z as int, 12868, 4096);
        lemma_mul_bound(w as int, c.n.x as int, 12868, 4096);
        lemma_mul_bound(w as int, c.n.y as int, 12868, 4096);
        lemma_mul_bound(w as int, c.n.z as int, 12868, 4096);
        lemma_mul_bound(w as int, c.ms as int, 12868, 1125899906842624);
        lemma_mul_bound(w as int, c.mt as int, 12868, 1125899906842624);
        assert(a.ms as int <= 1125899906842624 * 40479227904) by (nonlinear_arith)
            requires
                a.ms as int <= 1125899906842624 * (a.w as int),
                a.w as int <= 40479227904,
        {}
        assert(a.mt as int <= 1125899906842624 * 40479227904) by (nonlinear_arith)
            requires
                a.mt as int <= 1125899906842624 * (a.w as int),
                a.w as int <= 40479227904,
        {}
        assert((w as int) * (c.ms as int) <= (w as int) * 1125899906842624) by (nonlinear_arith)
            requires
                0 <= w as int,
                c.ms as int <= 1125899906842624,
        {}
        assert((w as int) * (c.mt as int) <= (w as int) * 1125899906842624) by (nonlinear_arith)
            requires
                0 <= w as int,
                c.mt as int <= 1125899906842624,
        {}
        assert((w as int) * (c.ms as int) >= 0) by (nonlinear_arith)
            requires
                0 <= w as int,
                0 <= c.ms as int,
        {}
        assert((w as int) * (c.mt as int) >= 0) by (nonlinear_arith)
            requires
                0 <= w as int,
                0 <= c.mt as int,
        {}
        assert(1125899906842624 * ((a.w + w) as int) == 1125899906842624 * (a.w as int)
            + 1125899906842624 * (w as int)) by (nonlinear_arith) {}
    }
    let na = Acc {
        tx: a.tx + w * c.t.x,
        ty: a.ty + w * c.t.y,
        tz: a.tz + w * c.t.z,
        bx: a.bx + w * c.b.x,
        by: a.by + w * c.b.y,
        bz: a.bz + w * c.b.z,
        nx: a.nx + w * c.n.x,
        ny: a.ny + w * c.n.y,
        nz: a.nz + w * c.n.z,
        w: a.w + w,
        ms: a.ms + (w as i128) * (c.ms as i128),
        mt: a.mt + (w as i128) * (c.mt as i128),
    };
    accs.set(idx, na);
}

/// Fold every triangle's contributions into per-cluster sums.
pub fn accumulate(corners: &Vec<Vertex>, cl: &Vec<usize>, tris: &Vec<Tri>) -> (r: Vec<Acc>)
    requires
        corners@.len() <= 1048576,
        forall|i: int| 0 <= i < corners@.len() ==> vertex_ok(#[trigger] corners@[i]),
        cl@.len() == corners@.len(),
        forall|i: int| 0 <= i < cl@.len() ==> (#[trigger] cl@[i] as int) < corners@.len(),
        tris@.len() <= corners@.len(),
        forall|j: int|
            0 <= j < tris@.len() ==> (#[trigger] tris@[j]).a < corners@.len()
                && tris@[j].b < corners@.len() && tris@[j].c < corners@.len(),
    ensures
        r@.len() == corners@.len(),
        gseq(r@) == spec_accumulate(corners@, cl_ints(cl@), tris@, corners@.len() as nat),
        forall|i: int| 0 <= i < r@.len() ==> acc_ok(#[trigger] r@[i], 3145728),
{
    let n: usize = corners.len();
    let mut accs: Vec<Acc> = Vec::new();
    let mut i: usize = 0;
    while i < n
        invariant
            0 <= i <= n,
            accs@.len() == i,
            forall|j: int|
                0 <= j < i ==> #[trigger] accs@[j] == (Acc {
                    tx: 0i64,
                    ty: 0i64,
                    tz: 0i64,
                    bx: 0i64,
                    by: 0i64,
                    bz: 0i64,
                    nx: 0i64,
                    ny: 0i64,
                    nz: 0i64,
                    w: 0i64,
                    ms: 0i128,
                    mt: 0i128,
                }),
        decreases n - i,
    {
        accs.push(
            Acc {
                tx: 0,
                ty: 0,
                tz: 0,
                bx: 0,
                by: 0,
                bz: 0,
                nx: 0,
                ny: 0,
                nz: 0,
                w: 0,
                ms: 0,
                mt: 0,
            },
        );
        i = i + 1;
    }
    proof {
        assert(gseq(accs@) =~= spec_accumulate(
            corners@,
            cl_ints(cl@),
            tris@.take(0),
            n as nat,
        ));
    }
    let nt: usize = tris.len();
    let mut k: usize = 0;
    while k < nt
        invariant
            n == corners@.len(),
            nt == tris@.len(),
            nt <= n <= 1048576,
            forall|i2: int| 0 <= i2 < corners@.len() ==> vertex_ok(#[trigger] corners@[i2]),
            cl@.len() == n,
            forall|i2: int| 0 <= i2 < cl@.len() ==> (#[trigger] cl@[i2] as int) < n,
            forall|j: int|
                0 <= j < tris@.len() ==> (#[trigger] tris@[j]).a < n && tris@[j].b < n
                    && tris@[j].c < n,
            0 <= k <= nt,
            accs@.len() == n,
            gseq(accs@) == spec_accumulate(corners@, cl_ints(cl@), tris@.take(k as int), n as nat),
            forall|j: int| 0 <= j < accs@.len() ==> acc_ok(#[trigger] accs@[j], 3 * k),
        decreases nt - k,
    {
        let t: Tri = tris[k];
        let c: Contrib = tri_contrib(&corners[t.a], &corners[t.b], &corners[t.c]);
        let ghost before = gseq(accs@);
        let ia: usize = cl[t.a];
        let ib: usize = cl[t.b];
        let ic: usize = cl[t.c];
        acc_apply(&mut accs, ia, &c, c.w0, Ghost(3 * k as int));
        let ghost mid1 = gseq(accs@);
        proof {
            assert(mid1 =~= before.update(
                ia as int,
                gacc_plus(before[ia as int], g_of_contrib(c), c.w0 as int),
            ));
        }
        acc_apply(&mut accs, ib, &c, c.w1, Ghost(3 * k as int + 1));
        let ghost mid2 = gseq(accs@);
        proof {
            assert(mid2 =~= mid1.update(
                ib as int,
                gacc_plus(mid1[ib as int], g_of_contrib(c), c.w1 as int),
            ));
        }
        acc_apply(&mut accs, ic, &c, c.w2, Ghost(3 * k as int + 2));
        proof {
            assert(gseq(accs@) =~= mid2.update(
                ic as int,
                gacc_plus(mid2[ic as int], g_of_contrib(c), c.w2 as int),
            ));
            assert(tris@.take(k as int + 1).drop_last() =~= tris@.take(k as int));
            assert(tris@.take(k as int + 1).last() == tris@[k as int]);
            assert(g_of_contrib(c) == spec_contrib(
                corners@[t.a as int],
                corners@[t.b as int],
                corners@[t.c as int],
            ));
            assert(gseq(accs@) =~= spec_acc_tri(before, corners@, cl_ints(cl@), tris@[k as int]));
        }
        k = k + 1;
    }
    proof {
        assert(tris@.take(nt as int) =~= tris@);
    }
    accs
}

} // verus!
