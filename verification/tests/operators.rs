use mesh_laplace::laplace_get;
use mesh_laplace::mesh_laplacian;
use mesh_laplace::opposite_angle;
use mesh_laplace::triangle_area;
use mesh_laplace::FromSharedVertex;
use mesh_laplace::LapEntry;
use mesh_laplace::Laplacian;
use mesh_laplace::MeshError;
use mesh_laplace::Scalar;
use mesh_laplace::SharedVertexMeshData;
use mesh_laplace::TriMesh;
use mesh_laplace::Vec3;

/// Double-precision scalar for exercising the operators.
#[derive(Clone, Copy, PartialEq, Debug)]
struct F(f64);

impl Scalar for F {
    fn zero_s() -> F {
        F(0.0)
    }
    fn one_s() -> F {
        F(1.0)
    }
    fn two_s() -> F {
        F(2.0)
    }
    fn three_s() -> F {
        F(3.0)
    }
    fn add_s(self, other: F) -> F {
        F(self.0 + other.0)
    }
    fn sub_s(self, other: F) -> F {
        F(self.0 - other.0)
    }
    fn mul_s(self, other: F) -> F {
        F(self.0 * other.0)
    }
    fn div_s(self, other: F) -> F {
        F(self.0 / other.0)
    }
    fn neg_s(self) -> F {
        F(-self.0)
    }
    fn sqrt_s(self) -> F {
        F(self.0.sqrt())
    }
    fn acos_s(self) -> F {
        F(self.0.acos())
    }
    fn tan_s(self) -> F {
        F(self.0.tan())
    }
    fn zero() -> F {
        F(0.0)
    }
    fn one() -> F {
        F(1.0)
    }
    fn two() -> F {
        F(2.0)
    }
    fn three() -> F {
        F(3.0)
    }
    fn add(self, other: F) -> F {
        F(self.0 + other.0)
    }
    fn sub(self, other: F) -> F {
        F(self.0 - other.0)
    }
    fn mul(self, other: F) -> F {
        F(self.0 * other.0)
    }
    fn div(self, other: F) -> F {
        F(self.0 / other.0)
    }
    fn neg(self) -> F {
        F(-self.0)
    }
    fn sqrt(self) -> F {
        F(self.0.sqrt())
    }
    fn acos(self) -> F {
        F(self.0.acos())
    }
    fn tan(self) -> F {
        F(self.0.tan())
    }
}

fn fvec(xs: &[f64]) -> Vec<F> {
    xs.iter().map(|&x| F(x)).collect()
}

fn mesh(vs: &[f64], fs: &[usize]) -> TriMesh<F> {
    TriMesh::try_from_vertices_and_faces(&fvec(vs), fs).unwrap()
}

fn get(entries: &Vec<LapEntry<F>>, i: usize, j: usize) -> Option<f64> {
    laplace_get(entries, i, j).map(|v| v.0)
}

fn approx(a: f64, b: f64) {
    assert!((a - b).abs() < 1e-9, "{} != {}", a, b);
}

const TRI_VS: [f64; 9] = [0.0, 0.0, 0.0, 1.0, 0.0, 0.0, 0.0, 1.0, 0.0];
const TRI_FS: [usize; 3] = [0, 1, 2];

const QUAD_VS: [f64; 12] = [0.0, 0.0, 0.0, 1.0, 0.0, 0.0, 1.0, 1.0, 0.0, 0.0, 1.0, 0.0];
const QUAD_FS: [usize; 6] = [0, 1, 2, 0, 2, 3];

const TET_VS: [f64; 12] = [1.0, 1.0, 1.0, 1.0, -1.0, -1.0, -1.0, 1.0, -1.0, -1.0, -1.0, 1.0];
const TET_FS: [usize; 12] = [0, 1, 2, 0, 3, 1, 0, 2, 3, 1, 3, 2];

#[test]
fn construction_round_trip() {
    let m = mesh(&QUAD_VS, &QUAD_FS);
    assert_eq!(m.n_vertices(), 4);
    assert_eq!(m.n_faces(), 2);
    for v in 0..4 {
        let p = m.vertex_position(v);
        assert_eq!(p.x.0, QUAD_VS[3 * v]);
        assert_eq!(p.y.0, QUAD_VS[3 * v + 1]);
        assert_eq!(p.z.0, QUAD_VS[3 * v + 2]);
    }
    for k in 0..2 {
        let (a, b, c) = m.face_vertices(k);
        assert_eq!(a, QUAD_FS[3 * k]);
        assert_eq!(b, QUAD_FS[3 * k + 1]);
        assert_eq!(c, QUAD_FS[3 * k + 2]);
    }
}

#[test]
fn construction_through_trait() {
    let m: TriMesh<F> = TriMesh::from_vertices_and_faces(&fvec(&TRI_VS), &TRI_FS);
    assert_eq!(m.n_vertices(), 3);
    assert_eq!(m.n_faces(), 1);
    assert_eq!(m.n_edges(), 3);
}

#[test]
fn construction_rejects_bad_vertex_length() {
    let r = TriMesh::<F>::try_from_vertices_and_faces(&fvec(&[0.0, 1.0, 2.0, 3.0]), &TRI_FS);
    assert_eq!(r.err().unwrap(), MeshError::InvalidInput);
}

#[test]
fn construction_rejects_bad_face_length() {
    let r = TriMesh::<F>::try_from_vertices_and_faces(&fvec(&TRI_VS), &[0, 1]);
    assert_eq!(r.err().unwrap(), MeshError::InvalidInput);
}

#[test]
fn construction_rejects_out_of_range_index() {
    let r = TriMesh::<F>::try_from_vertices_and_faces(&fvec(&TRI_VS), &[0, 1, 3]);
    assert_eq!(r.err().unwrap(), MeshError::InvalidInput);
}

#[test]
fn empty_mesh() {
    let m = mesh(&[], &[]);
    assert_eq!(m.n_vertices(), 0);
    assert_eq!(m.n_edges(), 0);
    let lap = m.laplace_matrix().unwrap();
    assert_eq!(lap.len(), 0);
    let mass = m.mass_matrix();
    assert_eq!(mass.len(), 0);
}

#[test]
fn opposite_angle_right_triangle() {
    let p1 = Vec3 { x: F(1.0), y: F(0.0), z: F(0.0) };
    let p2 = Vec3 { x: F(0.0), y: F(1.0), z: F(0.0) };
    let p3 = Vec3 { x: F(0.0), y: F(0.0), z: F(0.0) };
    approx(opposite_angle(&p1, &p2, &p3).0, std::f64::consts::FRAC_PI_2);
    let p4 = Vec3 { x: F(0.0), y: F(0.0), z: F(0.0) };
    approx(opposite_angle(&p4, &p2, &p1).0, std::f64::consts::FRAC_PI_4);
}

#[test]
fn triangle_area_values() {
    let o = Vec3 { x: F(0.0), y: F(0.0), z: F(0.0) };
    let ex = Vec3 { x: F(1.0), y: F(0.0), z: F(0.0) };
    let ey = Vec3 { x: F(0.0), y: F(1.0), z: F(0.0) };
    approx(triangle_area(&o, &ex, &ey).0, 0.5);
    let far = Vec3 { x: F(2.0), y: F(0.0), z: F(0.0) };
    assert_eq!(triangle_area(&o, &ex, &far).0, 0.0);
}

#[test]
fn single_triangle_boundary_edges() {
    let m = mesh(&TRI_VS, &TRI_FS);
    assert_eq!(m.n_edges(), 3);
    for e in 0..3 {
        assert_eq!(m.edge_face_count(e), 1);
    }
}

#[test]
fn single_triangle_laplacian() {
    let m = mesh(&TRI_VS, &TRI_FS);
    let lap = m.laplace_matrix().unwrap();
    // 3 diagonal keys and both directions of the 3 edges.
    assert_eq!(lap.len(), 9);
    // The edge 1-2 is opposite the right angle at vertex 0: cot = 0.
    approx(get(&lap, 1, 2).unwrap(), 0.0);
    // The edges 0-1 and 0-2 are each opposite a 45-degree angle: cot = 1,
    // one boundary face only, halved.
    approx(get(&lap, 0, 1).unwrap(), 0.5);
    approx(get(&lap, 0, 2).unwrap(), 0.5);
    approx(get(&lap, 0, 0).unwrap(), -1.0);
    approx(get(&lap, 1, 1).unwrap(), -0.5);
    approx(get(&lap, 2, 2).unwrap(), -0.5);
    // Off-diagonal pairs hold one value each, written symmetrically.
    let mut off: u32 = 0;
    for i in 0..3 {
        for j in 0..3 {
            if i != j {
                assert_eq!(get(&lap, i, j), get(&lap, j, i));
                off += 1;
            } else {
                assert!(get(&lap, i, j).is_some());
            }
        }
    }
    assert_eq!(off / 2, 3);
}

#[test]
fn single_triangle_mass() {
    let m = mesh(&TRI_VS, &TRI_FS);
    let mass = m.mass_matrix();
    assert_eq!(mass.len(), 3);
    for v in 0..3 {
        approx(mass[v].0, 0.5 / 3.0);
    }
    let total: f64 = mass.iter().map(|a| a.0).sum();
    approx(total, 0.5);
}

#[test]
fn row_sums_are_zero() {
    let m = mesh(&QUAD_VS, &QUAD_FS);
    let lap = m.laplace_matrix().unwrap();
    let n = m.n_vertices();
    for i in 0..n {
        let mut sum = 0.0;
        for j in 0..n {
            if let Some(w) = get(&lap, i, j) {
                sum += w;
            }
        }
        approx(sum, 0.0);
    }
}

#[test]
fn symmetry_on_shared_edge_mesh() {
    let m = mesh(&QUAD_VS, &QUAD_FS);
    let lap = m.laplace_matrix().unwrap();
    for i in 0..4 {
        for j in 0..4 {
            assert_eq!(get(&lap, i, j), get(&lap, j, i));
        }
    }
    // The diagonal edge 0-2 has two incident right angles: weight 0.
    approx(get(&lap, 0, 2).unwrap(), 0.0);
    // The boundary edge 0-1 is opposite a 45-degree angle: weight 0.5.
    approx(get(&lap, 0, 1).unwrap(), 0.5);
    // Vertices 1 and 3 share no edge: no entry.
    assert_eq!(get(&lap, 1, 3), None);
    assert_eq!(get(&lap, 3, 1), None);
}

#[test]
fn mass_nonnegative_and_totals_area() {
    let m = mesh(&QUAD_VS, &QUAD_FS);
    let mass = m.mass_matrix();
    assert_eq!(mass.len(), 4);
    for a in &mass {
        assert!(a.0 >= 0.0);
    }
    let total: f64 = mass.iter().map(|a| a.0).sum();
    approx(total, 1.0);
}

#[test]
fn degenerate_triangle_detectable() {
    let m = mesh(&[0.0, 0.0, 0.0, 1.0, 0.0, 0.0, 2.0, 0.0, 0.0], &TRI_FS);
    let mass = m.mass_matrix();
    approx(mass[0].0, 0.0);
    let lap = m.laplace_matrix().unwrap();
    // The angle opposite the edge 0-1 is zero: its cotangent is infinite,
    // and the value is recorded as-is rather than clamped to zero.
    let w = get(&lap, 0, 1).unwrap();
    assert!(!w.is_finite());
}

#[test]
fn regular_tetrahedron_symmetric_weights() {
    let m = mesh(&TET_VS, &TET_FS);
    let lap = m.laplace_matrix().unwrap();
    assert_eq!(m.n_edges(), 6);
    for e in 0..6 {
        assert_eq!(m.edge_face_count(e), 2);
    }
    // Every angle is 60 degrees: each edge weight is 2 * cot(60) / 2.
    let expected = 1.0 / 3.0_f64.sqrt();
    for i in 0..4 {
        for j in 0..4 {
            if i != j {
                approx(get(&lap, i, j).unwrap(), expected);
            } else {
                approx(get(&lap, i, j).unwrap(), -3.0 * expected);
            }
        }
    }
    let mass = m.mass_matrix();
    // Each face is equilateral with side sqrt(8): area 2 * sqrt(3); every
    // vertex touches three faces.
    let per_vertex = 2.0 * 3.0_f64.sqrt();
    for v in 0..4 {
        approx(mass[v].0, per_vertex);
    }
}

#[test]
fn free_function_matches_method() {
    let m = mesh(&TRI_VS, &TRI_FS);
    let a = m.laplace_matrix().unwrap();
    let b = mesh_laplacian(mesh(&TRI_VS, &TRI_FS)).unwrap();
    assert_eq!(a.len(), b.len());
    for (x, y) in a.iter().zip(b.iter()) {
        assert_eq!((x.row, x.col), (y.row, y.col));
        assert_eq!(x.val.0, y.val.0);
    }
}

#[test]
fn malformed_face_two_distinct_vertices() {
    let m = mesh(&[0.0, 0.0, 0.0, 1.0, 0.0, 0.0], &[0, 0, 1]);
    assert_eq!(m.laplace_matrix().err().unwrap(), MeshError::MalformedTopology);
}

#[test]
fn malformed_edge_three_faces() {
    let vs = [
        0.0, 0.0, 0.0, 1.0, 0.0, 0.0, 0.0, 1.0, 0.0, 0.0, 0.0, 1.0, 0.0, -1.0, 0.0,
    ];
    let fs = [0, 1, 2, 0, 1, 3, 0, 1, 4];
    let m = mesh(&vs, &fs);
    assert_eq!(m.laplace_matrix().err().unwrap(), MeshError::MalformedTopology);
}

#[test]
fn adjacency_queries() {
    let m = mesh(&QUAD_VS, &QUAD_FS);
    assert_eq!(m.n_edges(), 5);
    assert_eq!(m.vertex_edge_count(0), 3);
    assert_eq!(m.vertex_face_count(0), 2);
    assert_eq!(m.vertex_face_count(1), 1);
    for t in 0..m.vertex_edge_count(1) {
        let e = m.vertex_edge(1, t);
        let (u, w) = m.edge_vertices(e);
        assert!(u == 1 || w == 1);
        assert!(u < w);
    }
    let mut found_diagonal = false;
    for i in 0..m.n_edges() {
        let (u, w) = m.edge_vertices(i);
        if (u, w) == (0, 2) {
            found_diagonal = true;
            assert_eq!(m.edge_face_count(i), 2);
            assert_eq!(m.edge_face(i, 0), 0);
            assert_eq!(m.edge_face(i, 1), 1);
        }
    }
    assert!(found_diagonal);
    for t in 0..m.vertex_face_count(3) {
        let k = m.vertex_face(3, t);
        let (a, b, c) = m.face_vertices(k);
        assert!(a == 3 || b == 3 || c == 3);
    }
}

#[test]
fn shared_vertex_data_carrier() {
    let data = SharedVertexMeshData { vertices: fvec(&TRI_VS), faces: TRI_FS.to_vec() };
    let m: TriMesh<F> = TriMesh::from_vertices_and_faces(&data.vertices, &data.faces);
    assert_eq!(m.n_vertices(), 3);
    assert_eq!(m.n_faces(), 1);
    let (p1, p2, p3) = m.face_positions(0);
    assert_eq!(p1.x.0, 0.0);
    assert_eq!(p2.x.0, 1.0);
    assert_eq!(p3.y.0, 1.0);
}

#[test]
fn isolated_vertex_row() {
    // A vertex no face touches still gets a diagonal entry (zero) and a
    // zero mass entry.
    let vs = [0.0, 0.0, 0.0, 1.0, 0.0, 0.0, 0.0, 1.0, 0.0, 5.0, 5.0, 5.0];
    let m = mesh(&vs, &TRI_FS);
    let lap = m.laplace_matrix().unwrap();
    approx(get(&lap, 3, 3).unwrap(), 0.0);
    assert_eq!(get(&lap, 3, 0), None);
    let mass = m.mass_matrix();
    assert_eq!(mass.len(), 4);
    approx(mass[3].0, 0.0);
}
