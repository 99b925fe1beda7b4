use mikktspace::cluster::cluster_default;
use mikktspace::{generate, generate_default, GenError, Vertex};

const FP: i64 = 4096;

fn vtx(p: [i64; 3], n: [i64; 3], t: [i64; 2]) -> Vertex {
    Vertex {
        px: p[0] * FP,
        py: p[1] * FP,
        pz: p[2] * FP,
        nx: n[0] * FP,
        ny: n[1] * FP,
        nz: n[2] * FP,
        tu: t[0] * FP,
        tv: t[1] * FP,
    }
}

fn quad(p: [[i64; 3]; 4], n: [i64; 3]) -> Vec<Vertex> {
    let uv: [[i64; 2]; 4] = [[0, 0], [1, 0], [1, 1], [0, 1]];
    (0..4).map(|i| vtx(p[i], n, uv[i])).collect()
}

fn cube() -> Vec<Vec<Vertex>> {
    vec![
        quad([[0, 0, 1], [1, 0, 1], [1, 1, 1], [0, 1, 1]], [0, 0, 1]),
        quad([[0, 0, 0], [0, 1, 0], [1, 1, 0], [1, 0, 0]], [0, 0, -1]),
        quad([[1, 0, 0], [1, 1, 0], [1, 1, 1], [1, 0, 1]], [1, 0, 0]),
        quad([[0, 0, 0], [0, 0, 1], [0, 1, 1], [0, 1, 0]], [-1, 0, 0]),
        quad([[0, 1, 0], [0, 1, 1], [1, 1, 1], [1, 1, 0]], [0, 1, 0]),
        quad([[0, 0, 0], [1, 0, 0], [1, 0, 1], [0, 0, 1]], [0, -1, 0]),
    ]
}

#[test]
fn closed_mesh_one_basis_per_corner() {
    let mesh = cube();
    let out = generate_default(&mesh).expect("well-formed closed mesh must succeed");
    assert_eq!(out.len(), mesh.len());
    for (f, face) in mesh.iter().enumerate() {
        assert_eq!(out[f].len(), face.len());
    }
}

#[test]
fn planar_quad_identical_tangents() {
    // Two triangles of one planar quad, shared edge, identical normal,
    // the straightforward UV layout u = x, v = y.
    let f0 = vec![
        vtx([0, 0, 0], [0, 0, 1], [0, 0]),
        vtx([1, 0, 0], [0, 0, 1], [1, 0]),
        vtx([1, 1, 0], [0, 0, 1], [1, 1]),
    ];
    let f1 = vec![
        vtx([0, 0, 0], [0, 0, 1], [0, 0]),
        vtx([1, 1, 0], [0, 0, 1], [1, 1]),
        vtx([0, 1, 0], [0, 0, 1], [0, 1]),
    ];
    let mesh = vec![f0, f1];
    let out = generate_default(&mesh).expect("planar quad must succeed");
    let first = (out[0][0].tx, out[0][0].ty, out[0][0].tz);
    for face in &out {
        for b in face {
            assert_eq!((b.tx, b.ty, b.tz), first, "tangents must agree across the quad");
            assert!(!b.mirrored);
        }
    }
    assert_eq!(first, (FP, 0, 0), "tangent must follow the u axis");
}

#[test]
fn uv_seam_never_merges() {
    // Same position, identical normals (angle zero), differing texcoords.
    let corners = vec![
        vtx([0, 0, 0], [0, 0, 1], [0, 0]),
        vtx([0, 0, 0], [0, 0, 1], [1, 0]),
        vtx([0, 0, 0], [0, 0, 1], [0, 0]),
    ];
    let cl = cluster_default(&corners);
    assert_ne!(cl[0], cl[1], "a UV seam must split the cluster");
    assert_eq!(cl[0], cl[2], "matching position and texcoord must merge");
}

#[test]
fn cube_tangents_orthogonal_to_normals() {
    let mesh = cube();
    let out = generate_default(&mesh).expect("cube must succeed");
    for (f, face) in mesh.iter().enumerate() {
        for (v, vert) in face.iter().enumerate() {
            let b = &out[f][v];
            let t = [
                b.tx as f64 / FP as f64,
                b.ty as f64 / FP as f64,
                b.tz as f64 / FP as f64,
            ];
            let n = [
                vert.nx as f64 / FP as f64,
                vert.ny as f64 / FP as f64,
                vert.nz as f64 / FP as f64,
            ];
            let dot = t[0] * n[0] + t[1] * n[1] + t[2] * n[2];
            assert!(dot.abs() < 1e-4, "tangent must be orthogonal to the vertex normal");
            let len = (t[0] * t[0] + t[1] * t[1] + t[2] * t[2]).sqrt();
            assert!((len - 1.0).abs() < 1e-2, "tangent must be unit length");
        }
    }
}

#[test]
fn mirrored_uv_sets_flag() {
    // The same triangle, once with the UV winding matching the geometric
    // winding and once flipped.
    let plain = vec![vec![
        vtx([0, 0, 0], [0, 0, 1], [0, 0]),
        vtx([1, 0, 0], [0, 0, 1], [1, 0]),
        vtx([0, 1, 0], [0, 0, 1], [0, 1]),
    ]];
    let flipped = vec![vec![
        vtx([0, 0, 0], [0, 0, 1], [0, 0]),
        vtx([1, 0, 0], [0, 0, 1], [0, 1]),
        vtx([0, 1, 0], [0, 0, 1], [1, 0]),
    ]];
    let out_plain = generate_default(&plain).expect("plain triangle must succeed");
    let out_flipped = generate_default(&flipped).expect("flipped triangle must succeed");
    for b in &out_plain[0] {
        assert!(!b.mirrored, "an unflipped face must not be mirrored");
    }
    for b in &out_flipped[0] {
        assert!(b.mirrored, "a flipped face must be mirrored");
    }
}

#[test]
fn generation_is_deterministic() {
    let mesh = cube();
    let a = generate_default(&mesh).expect("first run must succeed");
    let b = generate_default(&mesh).expect("second run must succeed");
    assert_eq!(a, b, "two runs on one mesh must agree bit for bit");
    let c = generate(&mesh, 0).expect("thresholded first run must succeed");
    let d = generate(&mesh, 0).expect("thresholded second run must succeed");
    assert_eq!(c, d, "thresholded runs must agree bit for bit");
}

#[test]
fn degenerate_face_rejected() {
    let mesh = vec![vec![
        vtx([0, 0, 0], [0, 0, 1], [0, 0]),
        vtx([1, 0, 0], [0, 0, 1], [1, 0]),
    ]];
    assert_eq!(generate_default(&mesh), Err(GenError::DegenerateFace));
}

#[test]
fn out_of_range_coordinate_rejected() {
    let mut v = vtx([0, 0, 0], [0, 0, 1], [0, 0]);
    v.px = i64::MAX;
    let mesh = vec![vec![
        v,
        vtx([1, 0, 0], [0, 0, 1], [1, 0]),
        vtx([0, 1, 0], [0, 0, 1], [0, 1]),
    ]];
    assert_eq!(generate_default(&mesh), Err(GenError::MalformedMesh));
}

#[test]
fn degenerate_face_wins_over_bad_coordinate() {
    let mut v = vtx([0, 0, 0], [0, 0, 1], [0, 0]);
    v.px = i64::MAX;
    let mesh = vec![
        vec![v, vtx([1, 0, 0], [0, 0, 1], [1, 0]), vtx([0, 1, 0], [0, 0, 1], [0, 1])],
        vec![vtx([0, 0, 0], [0, 0, 1], [0, 0])],
    ];
    assert_eq!(generate_default(&mesh), Err(GenError::DegenerateFace));
}

#[test]
fn corner_budget_overflow_rejected() {
    let face = vec![
        vtx([0, 0, 0], [0, 0, 1], [0, 0]),
        vtx([1, 0, 0], [0, 0, 1], [1, 0]),
        vtx([0, 1, 0], [0, 0, 1], [0, 1]),
    ];
    // 349,526 triangles hold 1,048,578 corners: one over the budget.
    let mesh = vec![face; 349526];
    assert_eq!(generate_default(&mesh), Err(GenError::MalformedMesh));
}

#[test]
fn ngon_faces_are_fan_decomposed() {
    // A planar pentagon with u = x, v = y.
    let pts: [[i64; 3]; 5] = [[0, 0, 0], [2, 0, 0], [3, 2, 0], [1, 3, 0], [-1, 2, 0]];
    let face: Vec<Vertex> = pts
        .iter()
        .map(|p| vtx(*p, [0, 0, 1], [p[0], p[1]]))
        .collect();
    let mesh = vec![face];
    let out = generate_default(&mesh).expect("pentagon must succeed");
    assert_eq!(out[0].len(), 5);
    for b in &out[0] {
        assert_eq!((b.tx, b.ty, b.tz), (FP, 0, 0));
        assert!(!b.mirrored);
    }
}

#[test]
fn singular_uv_falls_back_without_failing() {
    // All texcoords equal: the UV system is singular on every triangle, so
    // the cluster falls back to a frame from the normal alone.
    let mesh = vec![vec![
        vtx([0, 0, 0], [0, 0, 1], [0, 0]),
        vtx([1, 0, 0], [0, 0, 1], [0, 0]),
        vtx([0, 1, 0], [0, 0, 1], [0, 0]),
    ]];
    let out = generate_default(&mesh).expect("a singular UV mapping is not fatal");
    for b in &out[0] {
        let t2 = b.tx * b.tx + b.ty * b.ty + b.tz * b.tz;
        assert!(t2 > 0, "the fallback frame still has a tangent");
        assert_eq!(b.ms, 0);
        assert_eq!(b.mt, 0);
        assert!(!b.mirrored);
    }
}

fn raw(p: [i64; 3], n: [i64; 3], t: [i64; 2]) -> Vertex {
    Vertex {
        px: p[0],
        py: p[1],
        pz: p[2],
        nx: n[0],
        ny: n[1],
        nz: n[2],
        tu: t[0],
        tv: t[1],
    }
}

/// A cube with smoothed corner normals, a center point per side, and a
/// distinct local UV layout per side: four triangle fans around each
/// center.
fn smoothed_cube() -> Vec<Vec<Vertex>> {
    // 1/sqrt(3) at fixed-point scale, and half a unit.
    let c3: i64 = 2365;
    let h: i64 = 2048;
    let corner = |d: [i64; 3], uv: [i64; 2]| raw([d[0] * h, d[1] * h, d[2] * h], [d[0] * c3, d[1] * c3, d[2] * c3], [uv[0] * 4096, uv[1] * 4096]);
    let center = |d: [i64; 3], uv: [i64; 2]| raw([d[0] * h, d[1] * h, d[2] * h], [d[0] * 4096, d[1] * 4096, d[2] * 4096], [uv[0] * 2048, uv[1] * 2048]);
    let sides: [([ [i64; 3]; 5], [[i64; 2]; 5]); 2] = [
        (
            [[1, -1, 1], [1, -1, -1], [1, 1, -1], [1, 1, 1], [1, 0, 0]],
            [[0, 0], [0, 1], [1, 1], [1, 0], [1, 1]],
        ),
        (
            [[-1, 1, 1], [-1, -1, 1], [1, -1, 1], [1, 1, 1], [0, 0, 1]],
            [[0, 0], [0, 1], [1, 1], [1, 0], [1, 1]],
        ),
    ];
    let mut mesh = Vec::new();
    for (dirs, uvs) in sides.iter() {
        let pts: Vec<Vertex> = (0..4).map(|i| corner(dirs[i], uvs[i])).collect();
        let ctr = center(dirs[4], uvs[4]);
        for i in 0..4 {
            mesh.push(vec![pts[i], pts[(i + 1) % 4], ctr]);
        }
    }
    mesh
}

#[test]
fn smoothed_corner_normals_stay_orthogonal() {
    let mesh = smoothed_cube();
    let out = generate_default(&mesh).expect("smoothed cube sides must succeed");
    for (f, face) in mesh.iter().enumerate() {
        for (v, vert) in face.iter().enumerate() {
            let b = &out[f][v];
            let t = [
                b.tx as f64 / FP as f64,
                b.ty as f64 / FP as f64,
                b.tz as f64 / FP as f64,
            ];
            let nl = (((vert.nx * vert.nx + vert.ny * vert.ny + vert.nz * vert.nz) as f64)
                .sqrt())
            .max(1.0);
            let n = [vert.nx as f64 / nl, vert.ny as f64 / nl, vert.nz as f64 / nl];
            let dot = t[0] * n[0] + t[1] * n[1] + t[2] * n[2];
            assert!(
                dot.abs() < 5e-3,
                "tangent must stay orthogonal to the smoothed vertex normal"
            );
        }
    }
}

#[test]
fn decomposer_keeps_backreferences() {
    let mesh = vec![
        vec![
            vtx([0, 0, 0], [0, 0, 1], [0, 0]),
            vtx([1, 0, 0], [0, 0, 1], [1, 0]),
            vtx([1, 1, 0], [0, 0, 1], [1, 1]),
            vtx([0, 1, 0], [0, 0, 1], [0, 1]),
        ],
        vec![
            vtx([0, 0, 1], [0, 0, 1], [0, 0]),
            vtx([1, 0, 1], [0, 0, 1], [1, 0]),
            vtx([1, 1, 1], [0, 0, 1], [1, 1]),
        ],
    ];
    let (corners, refs, tris) = mikktspace::tri::build_topology(&mesh);
    assert_eq!(corners.len(), 7);
    assert_eq!(refs.len(), 7);
    for (i, r) in refs.iter().enumerate() {
        let expect = if i < 4 { (0, i) } else { (1, i - 4) };
        assert_eq!((r.face, r.slot), expect);
        assert_eq!(corners[i], mesh[r.face][r.slot]);
    }
    // Fan triangulation: quad -> (0,1,2),(0,2,3); triangle -> itself.
    let got: Vec<(usize, usize, usize)> = tris.iter().map(|t| (t.a, t.b, t.c)).collect();
    assert_eq!(got, vec![(0, 1, 2), (0, 2, 3), (4, 5, 6)]);
}

#[test]
fn angular_threshold_splits_a_sharp_crease() {
    // Two triangles folded 90 degrees along the edge (0,0,0)-(1,0,0). The
    // shared corners carry equal texcoords, so default smoothing merges
    // them, but their faces' tangent directions differ.
    let f1 = vec![
        vtx([0, 0, 0], [0, 0, 1], [0, 0]),
        vtx([1, 0, 0], [0, 0, 1], [1, 1]),
        vtx([0, 1, 0], [0, 0, 1], [0, 1]),
    ];
    let f2 = vec![
        vtx([0, 0, 0], [0, 1, 0], [0, 0]),
        vtx([1, 0, 0], [0, 1, 0], [1, 1]),
        vtx([0, 0, -1], [0, 1, 0], [0, 1]),
    ];
    let mesh = vec![f1, f2];
    let merged = generate_default(&mesh).expect("crease mesh must succeed");
    // Cosine threshold FP: only exactly parallel face normals smooth, so
    // the 90-degree crease keeps each face's own tangent.
    let split = generate(&mesh, FP).expect("strict threshold must succeed");
    assert_ne!(
        (merged[0][0].tx, merged[0][0].ty, merged[0][0].tz),
        (split[0][0].tx, split[0][0].ty, split[0][0].tz),
        "a strict threshold must stop smoothing across the crease"
    );
    // Cosine threshold 0 admits the right angle, so the crease smooths
    // exactly as the default does.
    let smooth = generate(&mesh, 0).expect("permissive threshold must succeed");
    assert_eq!(smooth, merged, "a permissive threshold matches default smoothing");
}

#[test]
fn thresholded_generation_covers_all_corners() {
    let mesh = cube();
    // Cosine threshold 0: smooth across edges up to a right angle.
    let out = generate(&mesh, 0).expect("cube must succeed under a threshold");
    assert_eq!(out.len(), mesh.len());
    for (f, face) in mesh.iter().enumerate() {
        assert_eq!(out[f].len(), face.len());
        for (v, vert) in face.iter().enumerate() {
            let b = &out[f][v];
            let dot = b.tx * vert.nx + b.ty * vert.ny + b.tz * vert.nz;
            assert!(dot.abs() < FP * FP / 1000, "tangent stays orthogonal to the normal");
        }
    }
    assert_eq!(generate(&vec![vec![]], 0), Err(GenError::DegenerateFace));
}
