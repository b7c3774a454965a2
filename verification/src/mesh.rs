use vstd::prelude::*;
use crate::geom::Vec3;
use crate::scalar::Scalar;

verus! {

/// The error conditions of the crate.
#[derive(Clone, Copy, PartialEq, Eq, Structural, Debug)]
pub enum MeshError {
    /// Malformed construction arrays: a length that is not a multiple of 3,
    /// or a face index out of range of the vertex count.
    InvalidInput,
    /// An edge with more than two incident faces, or a face that does not
    /// resolve to three distinct vertices where the traversal needs one.
    MalformedTopology,
}

/// A triangular face, holding the indices of its three vertices.
#[derive(Clone, Copy, PartialEq, Eq, Structural, Debug)]
pub struct Face {
    pub a: usize,
    pub b: usize,
    pub c: usize,
}

/// An undirected edge, held canonically with `u < w`.
#[derive(Clone, Copy, PartialEq, Eq, Structural, Debug)]
pub struct Edge {
    pub u: usize,
    pub w: usize,
}

/// A mesh in raw shared-vertex form: a flat coordinate array (consecutive
/// `(x, y, z)` triples) and a flat triangle-index array (consecutive
/// vertex-index triples), as a file reader hands them over.
pub struct SharedVertexMeshData<S> {
    pub vertices: Vec<S>,
    pub faces: Vec<usize>,
}

/// Whether vertex `v` is one of the three vertices of face `f`.
pub open spec fn vertex_in_face(v: int, f: Face) -> bool {
    f.a as int == v || f.b as int == v || f.c as int == v
}

/// Whether both endpoints of edge `e` are vertices of face `f`. Since a
/// triangle's vertices are pairwise connected by its sides, this says
/// exactly that `e` is a side of `f`.
pub open spec fn edge_in_face(e: Edge, f: Face) -> bool {
    vertex_in_face(e.u as int, f) && vertex_in_face(e.w as int, f)
}

/// Whether edge `e` joins the two vertices `x` and `y` (in either order).
pub open spec fn edge_connects(e: Edge, x: int, y: int) -> bool {
    (e.u as int == x && e.w as int == y) || (e.u as int == y && e.w as int == x)
}

/// Whether vertex `v` is an endpoint of edge `e`.
pub open spec fn edge_has_vertex(e: Edge, v: int) -> bool {
    e.u as int == v || e.w as int == v
}

/// Whether some edge of the sequence joins `x` and `y`.
pub open spec fn seq_has_edge(es: Seq<Edge>, x: int, y: int) -> bool {
    exists|i: int| 0 <= i < es.len() && edge_connects(#[trigger] es[i], x, y)
}

/// Whether edge `e` is a side of some face of the sequence.
pub open spec fn edge_from_some_face(e: Edge, fs: Seq<Face>) -> bool {
    exists|k: int| 0 <= k < fs.len() && edge_in_face(e, #[trigger] fs[k])
}

/// All three vertex indices of `f` are below the vertex count `n`.
pub open spec fn face_valid(f: Face, n: nat) -> bool {
    (f.a as nat) < n && (f.b as nat) < n && (f.c as nat) < n
}

/// The edge is canonical (`u < w`) and its endpoints are below `n`.
pub open spec fn edge_valid(e: Edge, n: nat) -> bool {
    e.u < e.w && (e.w as nat) < n
}

/// Whether `x` occurs in the list `l`.
pub open spec fn in_list(l: Seq<usize>, x: int) -> bool {
    exists|t: int| 0 <= t < l.len() && #[trigger] l[t] as int == x
}

/// The list is strictly increasing (hence free of duplicates).
pub open spec fn strictly_increasing(l: Seq<usize>) -> bool {
    forall|t1: int, t2: int| 0 <= t1 < t2 < l.len() ==> #[trigger] l[t1] < #[trigger] l[t2]
}

/// Validity of raw construction input: both lengths are multiples of 3 and
/// every face index is below the vertex count.
pub open spec fn valid_arrays<T>(vs: Seq<T>, fs: Seq<usize>) -> bool {
    &&& vs.len() % 3 == 0
    &&& fs.len() % 3 == 0
    &&& forall|j: int| 0 <= j < fs.len() ==> (#[trigger] fs[j] as int) < vs.len() as int / 3
}

/// The coordinate triple at position `i` of a flat scalar array.
pub open spec fn position_triple<T>(vs: Seq<T>, i: int) -> Vec3<T> {
    Vec3 { x: vs[3 * i], y: vs[3 * i + 1], z: vs[3 * i + 2] }
}

/// The index triple at position `k` of a flat face-index array.
pub open spec fn face_triple(fs: Seq<usize>, k: int) -> Face {
    Face { a: fs[3 * k], b: fs[3 * k + 1], c: fs[3 * k + 2] }
}

/// A triangle mesh in shared-vertex form: one position per vertex, faces as
/// vertex-index triples, and the derived connectivity tables the operators
/// traverse — the unique undirected edges, and, for each edge and each
/// vertex, the sorted lists of incident elements.
pub struct TriMesh<S> {
    /// One 3D position per vertex; the vertex handles are the indices here.
    pub positions: Vec<Vec3<S>>,
    /// The faces, each a triple of vertex indices.
    pub faces: Vec<Face>,
    /// The undirected edges derived from the faces, canonical and distinct.
    pub edges: Vec<Edge>,
    /// For each edge, the sorted list of indices of its incident faces.
    pub edge_faces: Vec<Vec<usize>>,
    /// For each vertex, the sorted list of indices of its incident edges.
    pub vertex_edges: Vec<Vec<usize>>,
    /// For each vertex, the sorted list of indices of its incident faces.
    pub vertex_faces: Vec<Vec<usize>>,
}

impl<S> TriMesh<S> {
    /// The number of vertices.
    pub open spec fn n(self) -> nat {
        self.positions@.len()
    }

    /// Whether some edge of the mesh joins vertices `x` and `y`.
    pub open spec fn has_edge(self, x: int, y: int) -> bool {
        seq_has_edge(self.edges@, x, y)
    }

    /// Every face holds three in-range vertex indices.
    pub open spec fn faces_wf(self) -> bool {
        forall|k: int| 0 <= k < self.faces@.len() ==> face_valid(#[trigger] self.faces@[k], self.n())
    }

    /// The edge table is canonical, duplicate-free, and holds exactly the
    /// sides of the faces: every edge lies in some face, and any two
    /// distinct vertices sharing a face are joined by some listed edge.
    pub open spec fn edges_wf(self) -> bool {
        &&& forall|i: int| 0 <= i < self.edges@.len() ==> edge_valid(#[trigger] self.edges@[i], self.n())
        &&& forall|i: int, j: int| 0 <= i < j < self.edges@.len() ==> self.edges@[i] != self.edges@[j]
        &&& forall|i: int| 0 <= i < self.edges@.len() ==> edge_from_some_face(#[trigger] self.edges@[i], self.faces@)
        &&& forall|k: int, x: int, y: int|
            0 <= k < self.faces@.len() && #[trigger] vertex_in_face(x, self.faces@[k])
                && #[trigger] vertex_in_face(y, self.faces@[k]) && x != y ==> self.has_edge(x, y)
    }

    /// `edge_faces` lists, for each edge, exactly the faces it lies in,
    /// sorted.
    pub open spec fn edge_faces_wf(self) -> bool {
        &&& self.edge_faces@.len() == self.edges@.len()
        &&& forall|i: int| 0 <= i < self.edges@.len() ==> strictly_increasing(#[trigger] self.edge_faces@[i]@)
        &&& forall|i: int, t: int|
            0 <= i < self.edges@.len() && 0 <= t < self.edge_faces@[i]@.len() ==> {
                &&& (#[trigger] self.edge_faces@[i]@[t] as int) < self.faces@.len()
                &&& edge_in_face(self.edges@[i], self.faces@[self.edge_faces@[i]@[t] as int])
            }
        &&& forall|i: int, k: int|
            0 <= i < self.edges@.len() && 0 <= k < self.faces@.len()
                && edge_in_face(#[trigger] self.edges@[i], #[trigger] self.faces@[k])
                ==> in_list(self.edge_faces@[i]@, k)
    }

    /// `vertex_edges` lists, for each vertex, exactly the edges it ends,
    /// sorted.
    pub open spec fn vertex_edges_wf(self) -> bool {
        &&& self.vertex_edges@.len() == self.n()
        &&& forall|v: int| 0 <= v < self.n() ==> strictly_increasing(#[trigger] self.vertex_edges@[v]@)
        &&& forall|v: int, t: int|
            0 <= v < self.n() && 0 <= t < self.vertex_edges@[v]@.len() ==> {
                &&& (#[trigger] self.vertex_edges@[v]@[t] as int) < self.edges@.len()
                &&& edge_has_vertex(self.edges@[self.vertex_edges@[v]@[t] as int], v)
            }
        &&& forall|v: int, i: int|
            0 <= v < self.n() && 0 <= i < self.edges@.len()
                && edge_has_vertex(#[trigger] self.edges@[i], v)
                ==> in_list(#[trigger] self.vertex_edges@[v]@, i)
    }

    /// `vertex_faces` lists, for each vertex, exactly the faces it lies in,
    /// sorted.
    pub open spec fn vertex_faces_wf(self) -> bool {
        &&& self.vertex_faces@.len() == self.n()
        &&& forall|v: int| 0 <= v < self.n() ==> strictly_increasing(#[trigger] self.vertex_faces@[v]@)
        &&& forall|v: int, t: int|
            0 <= v < self.n() && 0 <= t < self.vertex_faces@[v]@.len() ==> {
                &&& (#[trigger] self.vertex_faces@[v]@[t] as int) < self.faces@.len()
                &&& vertex_in_face(v, self.faces@[self.vertex_faces@[v]@[t] as int])
            }
        &&& forall|v: int, k: int|
            0 <= v < self.n() && 0 <= k < self.faces@.len()
                && vertex_in_face(v, #[trigger] self.faces@[k])
                ==> in_list(#[trigger] self.vertex_faces@[v]@, k)
    }

    /// Well-formedness: the invariant every constructed mesh satisfies and
    /// every operator requires.
    pub open spec fn wf(self) -> bool {
        &&& self.faces_wf()
        &&& self.edges_wf()
        &&& self.edge_faces_wf()
        &&& self.vertex_edges_wf()
        &&& self.vertex_faces_wf()
    }

    /// The mesh holds exactly the positions and faces read off the flat
    /// input arrays, in input order.
    pub open spec fn constructed_from(self, vs: Seq<S>, fs: Seq<usize>) -> bool {
        &&& self.n() == vs.len() / 3
        &&& self.faces@.len() == fs.len() / 3
        &&& forall|i: int| 0 <= i < self.n() ==> #[trigger] self.positions@[i] == position_triple(vs, i)
        &&& forall|k: int| 0 <= k < self.faces@.len() ==> #[trigger] self.faces@[k] == face_triple(fs, k)
    }
}

/// Construction from a flat shared-vertex representation: consecutive
/// coordinate triples and consecutive vertex-index triples.
pub trait FromSharedVertex: Sized {
    /// The scalar type of the vertex coordinates.
    type ScalarType;

    /// What the built value holds of its input arrays; each implementing
    /// type says here exactly what its construction establishes.
    spec fn built_from(self, vs: Seq<Self::ScalarType>, fs: Seq<usize>) -> bool;

    /// Builds the mesh, which the caller must hand valid arrays: lengths
    /// that are multiples of 3 and face indices below the vertex count.
    fn from_vertices_and_faces(vertices: &[Self::ScalarType], faces: &[usize]) -> (r: Self)
        requires
            valid_arrays(vertices@, faces@),
        ensures
            r.built_from(vertices@, faces@),
    ;
}

impl<S: Scalar> FromSharedVertex for TriMesh<S> {
    type ScalarType = S;

    open spec fn built_from(self, vs: Seq<S>, fs: Seq<usize>) -> bool {
        self.wf() && self.constructed_from(vs, fs)
    }

    fn from_vertices_and_faces(vertices: &[S], faces: &[usize]) -> (r: Self) {
        let r = TriMesh::<S>::try_from_vertices_and_faces(vertices, faces);
        match r {
            Ok(m) => m,
            Err(_) => vstd::pervasive::unreached(),
        }
    }
}

/// Reads the flat coordinate array into one `Vec3` per vertex.
fn build_positions<S: Scalar>(vertices: &[S]) -> (r: Vec<Vec3<S>>)
    requires
        vertices@.len() % 3 == 0,
    ensures
        r@.len() == vertices@.len() / 3,
        forall|i: int| 0 <= i < r@.len() ==> #[trigger] r@[i] == position_triple(vertices@, i),
{
    let n = vertices.len() / 3;
    let mut out: Vec<Vec3<S>> = Vec::new();
    let mut i: usize = 0;
    while i < n
        invariant
            i <= n,
            n == vertices@.len() / 3,
            vertices@.len() % 3 == 0,
            vertices@.len() <= usize::MAX,
            out@.len() == i,
            forall|j: int| 0 <= j < i ==> #[trigger] out@[j] == position_triple(vertices@, j),
        decreases n - i,
    {
        proof {
            assert(vertices@.len() as int == 3 * (n as int) + (vertices@.len() as int) % 3);
            assert(3 * (i as int) + 2 < vertices@.len() as int);
        }
        let p = Vec3 { x: vertices[3 * i], y: vertices[3 * i + 1], z: vertices[3 * i + 2] };
        out.push(p);
        i += 1;
    }
    out
}

/// Reads the flat index array into one `Face` per triple, rejecting any
/// index at or above the vertex count `nv`.
fn build_faces(face_idx: &[usize], nv: usize) -> (r: Result<Vec<Face>, MeshError>)
    requires
        face_idx@.len() % 3 == 0,
    ensures
        match r {
            Ok(fs) => {
                &&& forall|j: int| 0 <= j < face_idx@.len() ==> (#[trigger] face_idx@[j] as nat) < nv
                &&& fs@.len() == face_idx@.len() / 3
                &&& forall|k: int| 0 <= k < fs@.len() ==> #[trigger] fs@[k] == face_triple(face_idx@, k)
            },
            Err(e) => {
                &&& e == MeshError::InvalidInput
                &&& exists|j: int| 0 <= j < face_idx@.len() && (#[trigger] face_idx@[j] as nat) >= nv
            },
        },
{
    let m = face_idx.len() / 3;
    let mut out: Vec<Face> = Vec::new();
    let mut k: usize = 0;
    while k < m
        invariant
            k <= m,
            m == face_idx@.len() / 3,
            face_idx@.len() % 3 == 0,
            face_idx@.len() <= usize::MAX,
            out@.len() == k,
            forall|j: int| 0 <= j < 3 * k ==> (#[trigger] face_idx@[j] as nat) < nv,
            forall|k2: int| 0 <= k2 < k ==> #[trigger] out@[k2] == face_triple(face_idx@, k2),
        decreases m - k,
    {
        proof {
            assert(face_idx@.len() as int == 3 * (m as int) + (face_idx@.len() as int) % 3);
            assert(3 * (k as int) + 2 < face_idx@.len() as int);
        }
        let a = face_idx[3 * k];
        let b = face_idx[3 * k + 1];
        let c = face_idx[3 * k + 2];
        if a >= nv || b >= nv || c >= nv {
            return Err(MeshError::InvalidInput);
        }
        out.push(Face { a, b, c });
        k += 1;
    }
    Ok(out)
}

/// Linear scan for an edge joining `x` and `y`.
fn edge_position(edges: &Vec<Edge>, x: usize, y: usize) -> (r: Option<usize>)
    ensures
        match r {
            Some(i) => (i as int) < edges@.len() && edge_connects(edges@[i as int], x as int, y as int),
            None => forall|i: int| 0 <= i < edges@.len() ==> !edge_connects(#[trigger] edges@[i], x as int, y as int),
        },
{
    let mut i: usize = 0;
    while i < edges.len()
        invariant
            i <= edges@.len(),
            forall|j: int| 0 <= j < i ==> !edge_connects(#[trigger] edges@[j], x as int, y as int),
        decreases edges@.len() - i,
    {
        let e = edges[i];
        if (e.u == x && e.w == y) || (e.u == y && e.w == x) {
            return Some(i);
        }
        i += 1;
    }
    None
}

/// An edge joining `x` and `y` joins `y` and `x`.
proof fn lemma_seq_has_edge_sym(es: Seq<Edge>, x: int, y: int)
    requires
        seq_has_edge(es, x, y),
    ensures
        seq_has_edge(es, y, x),
{
    let i = choose|i: int| 0 <= i < es.len() && edge_connects(#[trigger] es[i], x, y);
    assert(edge_connects(es[i], y, x));
}

/// Derives the unique canonical edges of the face list.
fn build_edges(faces: &Vec<Face>, nv: usize) -> (r: Vec<Edge>)
    requires
        forall|k: int| 0 <= k < faces@.len() ==> face_valid(#[trigger] faces@[k], nv as nat),
    ensures
        forall|i: int| 0 <= i < r@.len() ==> edge_valid(#[trigger] r@[i], nv as nat),
        forall|i: int, j: int| 0 <= i < j < r@.len() ==> r@[i] != r@[j],
        forall|i: int| 0 <= i < r@.len() ==> edge_from_some_face(#[trigger] r@[i], faces@),
        forall|k: int, x: int, y: int|
            0 <= k < faces@.len() && #[trigger] vertex_in_face(x, faces@[k])
                && #[trigger] vertex_in_face(y, faces@[k]) && x != y ==> seq_has_edge(r@, x, y),
{
    let mut edges: Vec<Edge> = Vec::new();
    let mut k: usize = 0;
    while k < faces.len()
        invariant
            k <= faces@.len(),
            forall|k2: int| 0 <= k2 < faces@.len() ==> face_valid(#[trigger] faces@[k2], nv as nat),
            forall|i: int| 0 <= i < edges@.len() ==> edge_valid(#[trigger] edges@[i], nv as nat),
            forall|i: int, j: int| 0 <= i < j < edges@.len() ==> edges@[i] != edges@[j],
            forall|i: int| 0 <= i < edges@.len() ==> edge_from_some_face(#[trigger] edges@[i], faces@),
            forall|k2: int, x: int, y: int|
                0 <= k2 < k && #[trigger] vertex_in_face(x, faces@[k2])
                    && #[trigger] vertex_in_face(y, faces@[k2]) && x != y ==> seq_has_edge(edges@, x, y),
        decreases faces@.len() - k,
    {
        let f = faces[k];
        if f.a != f.b {
            add_face_side(&mut edges, f.a, f.b, nv, faces, k);
        }
        if f.b != f.c {
            add_face_side(&mut edges, f.b, f.c, nv, faces, k);
        }
        if f.c != f.a {
            add_face_side(&mut edges, f.c, f.a, nv, faces, k);
        }
        proof {
            let fk = faces@[k as int];
            let va = fk.a as int;
            let vb = fk.b as int;
            let vc = fk.c as int;
            assert forall|x: int, y: int|
                vertex_in_face(x, fk) && vertex_in_face(y, fk) && x != y
                    implies seq_has_edge(edges@, x, y) by {
                if (x == va && y == vb) || (x == vb && y == va) {
                    assert(seq_has_edge(edges@, va, vb));
                    lemma_seq_has_edge_sym(edges@, va, vb);
                } else if (x == vb && y == vc) || (x == vc && y == vb) {
                    assert(seq_has_edge(edges@, vb, vc));
                    lemma_seq_has_edge_sym(edges@, vb, vc);
                } else {
                    assert((x == vc && y == va) || (x == va && y == vc));
                    assert(seq_has_edge(edges@, vc, va));
                    lemma_seq_has_edge_sym(edges@, vc, va);
                }
            }
        }
        k += 1;
    }
    edges
}

/// Adds one side of face `k` to the edge list, preserving the edge-table
/// invariants.
fn add_face_side(edges: &mut Vec<Edge>, x: usize, y: usize, nv: usize, faces: &Vec<Face>, k: usize)
    requires
        x != y,
        (k as int) < faces@.len(),
        vertex_in_face(x as int, faces@[k as int]),
        vertex_in_face(y as int, faces@[k as int]),
        forall|k2: int| 0 <= k2 < faces@.len() ==> face_valid(#[trigger] faces@[k2], nv as nat),
        forall|i: int| 0 <= i < old(edges)@.len() ==> edge_valid(#[trigger] old(edges)@[i], nv as nat),
        forall|i: int, j: int| 0 <= i < j < old(edges)@.len() ==> old(edges)@[i] != old(edges)@[j],
        forall|i: int| 0 <= i < old(edges)@.len() ==> edge_from_some_face(#[trigger] old(edges)@[i], faces@),
    ensures
        forall|i: int| 0 <= i < final(edges)@.len() ==> edge_valid(#[trigger] final(edges)@[i], nv as nat),
        forall|i: int, j: int| 0 <= i < j < final(edges)@.len() ==> final(edges)@[i] != final(edges)@[j],
        forall|i: int| 0 <= i < final(edges)@.len() ==> edge_from_some_face(#[trigger] final(edges)@[i], faces@),
        seq_has_edge(final(edges)@, x as int, y as int),
        forall|x2: int, y2: int| seq_has_edge(old(edges)@, x2, y2) ==> seq_has_edge(final(edges)@, x2, y2),
{
    proof {
        let fk = faces@[k as int];
        assert(face_valid(fk, nv as nat));
        assert((x as nat) < nv && (y as nat) < nv);
    }
    let ghost old_edges = edges@;
    let found = edge_position(edges, x, y);
    match found {
        Some(i) => {
            proof {
                assert(edge_connects(edges@[i as int], x as int, y as int));
            }
        },
        None => {
            let e = if x < y {
                Edge { u: x, w: y }
            } else {
                Edge { u: y, w: x }
            };
            edges.push(e);
            proof {
                let last = edges@.len() - 1;
                assert(edges@[last] == e);
                assert(edge_connects(edges@[last], x as int, y as int));
                assert(edge_valid(e, nv as nat));
                assert(edge_in_face(e, faces@[k as int]));
                assert(edge_from_some_face(e, faces@));
                assert forall|i: int, j: int| 0 <= i < j < edges@.len()
                    implies edges@[i] != edges@[j] by {
                    if j == last {
                        assert(edge_connects(edges@[i], e.u as int, e.w as int) ==> false);
                    }
                }
                assert forall|x2: int, y2: int| seq_has_edge(old_edges, x2, y2)
                    implies seq_has_edge(edges@, x2, y2) by {
                    let i = choose|i: int| 0 <= i < old_edges.len() && edge_connects(#[trigger] old_edges[i], x2, y2);
                    assert(edge_connects(edges@[i], x2, y2));
                }
            }
        },
    }
}

/// Executable test for `vertex_in_face`.
fn face_contains(f: &Face, v: usize) -> (r: bool)
    ensures
        r == vertex_in_face(v as int, *f),
{
    f.a == v || f.b == v || f.c == v
}

/// The sorted list of indices of the faces edge `e` lies in.
fn faces_incident_to_edge(e: &Edge, faces: &Vec<Face>) -> (r: Vec<usize>)
    ensures
        strictly_increasing(r@),
        forall|t: int| 0 <= t < r@.len() ==> {
            &&& (#[trigger] r@[t] as int) < faces@.len()
            &&& edge_in_face(*e, faces@[r@[t] as int])
        },
        forall|k: int| 0 <= k < faces@.len() && edge_in_face(*e, #[trigger] faces@[k]) ==> in_list(r@, k),
{
    let mut out: Vec<usize> = Vec::new();
    let mut k: usize = 0;
    while k < faces.len()
        invariant
            k <= faces@.len(),
            forall|t: int| 0 <= t < out@.len() ==> (#[trigger] out@[t] as int) < k,
            forall|t: int| 0 <= t < out@.len() ==> edge_in_face(*e, faces@[#[trigger] out@[t] as int]),
            strictly_increasing(out@),
            forall|k2: int| 0 <= k2 < k && edge_in_face(*e, #[trigger] faces@[k2]) ==> in_list(out@, k2),
        decreases faces@.len() - k,
    {
        let f = &faces[k];
        let ghost prev = out@;
        let hit_u = face_contains(f, e.u);
        let hit_w = face_contains(f, e.w);
        if hit_u && hit_w {
            out.push(k);
        }
        proof {
            assert forall|k2: int| 0 <= k2 < k + 1 && edge_in_face(*e, #[trigger] faces@[k2])
                implies in_list(out@, k2) by {
                if k2 == k as int {
                    assert(out@[out@.len() - 1] as int == k2);
                } else {
                    let t = choose|t: int| 0 <= t < prev.len() && #[trigger] prev[t] as int == k2;
                    assert(out@[t] as int == k2);
                }
            }
        }
        k += 1;
    }
    out
}

/// The sorted list of indices of the edges vertex `v` ends.
fn edges_incident_to_vertex(v: usize, edges: &Vec<Edge>) -> (r: Vec<usize>)
    ensures
        strictly_increasing(r@),
        forall|t: int| 0 <= t < r@.len() ==> {
            &&& (#[trigger] r@[t] as int) < edges@.len()
            &&& edge_has_vertex(edges@[r@[t] as int], v as int)
        },
        forall|i: int| 0 <= i < edges@.len() && edge_has_vertex(#[trigger] edges@[i], v as int) ==> in_list(r@, i),
{
    let mut out: Vec<usize> = Vec::new();
    let mut i: usize = 0;
    while i < edges.len()
        invariant
            i <= edges@.len(),
            forall|t: int| 0 <= t < out@.len() ==> (#[trigger] out@[t] as int) < i,
            forall|t: int| 0 <= t < out@.len() ==> edge_has_vertex(edges@[#[trigger] out@[t] as int], v as int),
            strictly_increasing(out@),
            forall|i2: int| 0 <= i2 < i && edge_has_vertex(#[trigger] edges@[i2], v as int) ==> in_list(out@, i2),
        decreases edges@.len() - i,
    {
        let e = edges[i];
        let ghost prev = out@;
        if e.u == v || e.w == v {
            out.push(i);
        }
        proof {
            assert forall|i2: int| 0 <= i2 < i + 1 && edge_has_vertex(#[trigger] edges@[i2], v as int)
                implies in_list(out@, i2) by {
                if i2 == i as int {
                    assert(out@[out@.len() - 1] as int == i2);
                } else {
                    let t = choose|t: int| 0 <= t < prev.len() && #[trigger] prev[t] as int == i2;
                    assert(out@[t] as int == i2);
                }
            }
        }
        i += 1;
    }
    out
}

/// The sorted list of indices of the faces vertex `v` lies in.
fn faces_incident_to_vertex(v: usize, faces: &Vec<Face>) -> (r: Vec<usize>)
    ensures
        strictly_increasing(r@),
        forall|t: int| 0 <= t < r@.len() ==> {
            &&& (#[trigger] r@[t] as int) < faces@.len()
            &&& vertex_in_face(v as int, faces@[r@[t] as int])
        },
        forall|k: int| 0 <= k < faces@.len() && vertex_in_face(v as int, #[trigger] faces@[k]) ==> in_list(r@, k),
{
    let mut out: Vec<usize> = Vec::new();
    let mut k: usize = 0;
    while k < faces.len()
        invariant
            k <= faces@.len(),
            forall|t: int| 0 <= t < out@.len() ==> (#[trigger] out@[t] as int) < k,
            forall|t: int| 0 <= t < out@.len() ==> vertex_in_face(v as int, faces@[#[trigger] out@[t] as int]),
            strictly_increasing(out@),
            forall|k2: int| 0 <= k2 < k && vertex_in_face(v as int, #[trigger] faces@[k2]) ==> in_list(out@, k2),
        decreases faces@.len() - k,
    {
        let f = &faces[k];
        let ghost prev = out@;
        if face_contains(f, v) {
            out.push(k);
        }
        proof {
            assert forall|k2: int| 0 <= k2 < k + 1 && vertex_in_face(v as int, #[trigger] faces@[k2])
                implies in_list(out@, k2) by {
                if k2 == k as int {
                    assert(out@[out@.len() - 1] as int == k2);
                } else {
                    let t = choose|t: int| 0 <= t < prev.len() && #[trigger] prev[t] as int == k2;
                    assert(out@[t] as int == k2);
                }
            }
        }
        k += 1;
    }
    out
}

impl<S: Scalar> TriMesh<S> {
    /// Builds a mesh from a flat coordinate array (consecutive `(x, y, z)`
    /// triples) and a flat triangle-index array (consecutive vertex-index
    /// triples, 0-based).
    ///
    /// Fails with `InvalidInput` exactly when one of the lengths is not a
    /// multiple of 3 or a face index is out of range; no further validation
    /// is performed, so an index-valid but malformed mesh is accepted and
    /// surfaces later, in the operators.
    pub fn try_from_vertices_and_faces(vertices: &[S], faces: &[usize]) -> (r: Result<TriMesh<S>, MeshError>)
        ensures
            match r {
                Ok(m) => {
                    &&& valid_arrays(vertices@, faces@)
                    &&& m.wf()
                    &&& m.constructed_from(vertices@, faces@)
                },
                Err(e) => {
                    &&& e == MeshError::InvalidInput
                    &&& !valid_arrays(vertices@, faces@)
                },
            },
    {
        if vertices.len() % 3 != 0 || faces.len() % 3 != 0 {
            return Err(MeshError::InvalidInput);
        }
        let positions = build_positions(vertices);
        let nv = positions.len();
        let face_list = match build_faces(faces, nv) {
            Ok(fs) => fs,
            Err(e) => {
                return Err(e);
            },
        };
        proof {
            assert forall|k: int| 0 <= k < face_list@.len()
                implies face_valid(#[trigger] face_list@[k], nv as nat) by {
                assert(face_list@[k] == face_triple(faces@, k));
                assert((faces@[3 * k] as nat) < nv);
                assert((faces@[3 * k + 1] as nat) < nv);
                assert((faces@[3 * k + 2] as nat) < nv);
            }
        }
        let edges = build_edges(&face_list, nv);

        let mut edge_faces: Vec<Vec<usize>> = Vec::new();
        let mut i: usize = 0;
        while i < edges.len()
            invariant
                i <= edges@.len(),
                edge_faces@.len() == i,
                forall|i2: int| 0 <= i2 < i ==> strictly_increasing(#[trigger] edge_faces@[i2]@),
                forall|i2: int, t: int| 0 <= i2 < i && 0 <= t < edge_faces@[i2]@.len() ==> {
                    &&& (#[trigger] edge_faces@[i2]@[t] as int) < face_list@.len()
                    &&& edge_in_face(edges@[i2], face_list@[edge_faces@[i2]@[t] as int])
                },
                forall|i2: int, k: int|
                    0 <= i2 < i && 0 <= k < face_list@.len()
                        && edge_in_face(#[trigger] edges@[i2], #[trigger] face_list@[k])
                        ==> in_list(edge_faces@[i2]@, k),
            decreases edges@.len() - i,
        {
            let l = faces_incident_to_edge(&edges[i], &face_list);
            edge_faces.push(l);
            i += 1;
        }

        let mut vertex_edges: Vec<Vec<usize>> = Vec::new();
        let mut v: usize = 0;
        while v < nv
            invariant
                v <= nv,
                vertex_edges@.len() == v,
                forall|v2: int| 0 <= v2 < v ==> strictly_increasing(#[trigger] vertex_edges@[v2]@),
                forall|v2: int, t: int| 0 <= v2 < v && 0 <= t < vertex_edges@[v2]@.len() ==> {
                    &&& (#[trigger] vertex_edges@[v2]@[t] as int) < edges@.len()
                    &&& edge_has_vertex(edges@[vertex_edges@[v2]@[t] as int], v2)
                },
                forall|v2: int, i2: int|
                    0 <= v2 < v && 0 <= i2 < edges@.len()
                        && edge_has_vertex(#[trigger] edges@[i2], v2)
                        ==> in_list(#[trigger] vertex_edges@[v2]@, i2),
            decreases nv - v,
        {
            let l = edges_incident_to_vertex(v, &edges);
            vertex_edges.push(l);
            v += 1;
        }

        let mut vertex_faces: Vec<Vec<usize>> = Vec::new();
        let mut v2: usize = 0;
        while v2 < nv
            invariant
                v2 <= nv,
                vertex_faces@.len() == v2,
                forall|v3: int| 0 <= v3 < v2 ==> strictly_increasing(#[trigger] vertex_faces@[v3]@),
                forall|v3: int, t: int| 0 <= v3 < v2 && 0 <= t < vertex_faces@[v3]@.len() ==> {
                    &&& (#[trigger] vertex_faces@[v3]@[t] as int) < face_list@.len()
                    &&& vertex_in_face(v3, face_list@[vertex_faces@[v3]@[t] as int])
                },
                forall|v3: int, k: int|
                    0 <= v3 < v2 && 0 <= k < face_list@.len()
                        && vertex_in_face(v3, #[trigger] face_list@[k])
                        ==> in_list(#[trigger] vertex_faces@[v3]@, k),
            decreases nv - v2,
        {
            let l = faces_incident_to_vertex(v2, &face_list);
            vertex_faces.push(l);
            v2 += 1;
        }

        let m = TriMesh {
            positions,
            faces: face_list,
            edges,
            edge_faces,
            vertex_edges,
            vertex_faces,
        };
        proof {
            assert(m.faces_wf());
            assert(m.edges_wf());
            assert(m.edge_faces_wf());
            assert(m.vertex_edges_wf());
            assert(m.vertex_faces_wf());
            assert(m.constructed_from(vertices@, faces@));
            assert(valid_arrays(vertices@, faces@));
        }
        Ok(m)
    }

    /// The number of vertices.
    pub fn n_vertices(&self) -> (r: usize)
        ensures
            r == self.n(),
    {
        self.positions.len()
    }

    /// The number of faces.
    pub fn n_faces(&self) -> (r: usize)
        ensures
            r == self.faces@.len(),
    {
        self.faces.len()
    }

    /// The number of derived undirected edges.
    pub fn n_edges(&self) -> (r: usize)
        ensures
            r == self.edges@.len(),
    {
        self.edges.len()
    }

    /// The stored position of vertex `v`.
    pub fn vertex_position(&self, v: usize) -> (r: Vec3<S>)
        requires
            (v as int) < self.n(),
        ensures
            r == self.positions@[v as int],
    {
        self.positions[v]
    }

    /// The three vertex indices of face `k`.
    pub fn face_vertices(&self, k: usize) -> (r: (usize, usize, usize))
        requires
            (k as int) < self.faces@.len(),
        ensures
            r.0 == self.faces@[k as int].a,
            r.1 == self.faces@[k as int].b,
            r.2 == self.faces@[k as int].c,
    {
        let f = &self.faces[k];
        (f.a, f.b, f.c)
    }

    /// The three stored vertex positions of face `k`.
    pub fn face_positions(&self, k: usize) -> (r: (Vec3<S>, Vec3<S>, Vec3<S>))
        requires
            self.wf(),
            (k as int) < self.faces@.len(),
        ensures
            r.0 == self.positions@[self.faces@[k as int].a as int],
            r.1 == self.positions@[self.faces@[k as int].b as int],
            r.2 == self.positions@[self.faces@[k as int].c as int],
    {
        let f = &self.faces[k];
        (self.positions[f.a], self.positions[f.b], self.positions[f.c])
    }

    /// The two endpoint vertex indices of edge `i`, in canonical order.
    pub fn edge_vertices(&self, i: usize) -> (r: (usize, usize))
        requires
            (i as int) < self.edges@.len(),
        ensures
            r.0 == self.edges@[i as int].u,
            r.1 == self.edges@[i as int].w,
    {
        let e = &self.edges[i];
        (e.u, e.w)
    }

    /// The number of faces incident to edge `i` (1 on a boundary edge, 2
    /// on an interior edge of a manifold mesh).
    pub fn edge_face_count(&self, i: usize) -> (r: usize)
        requires
            self.edge_faces@.len() == self.edges@.len(),
            (i as int) < self.edges@.len(),
        ensures
            r == self.edge_faces@[i as int]@.len(),
    {
        self.edge_faces[i].len()
    }

    /// The index of the `t`-th face incident to edge `i`.
    pub fn edge_face(&self, i: usize, t: usize) -> (r: usize)
        requires
            self.edge_faces@.len() == self.edges@.len(),
            (i as int) < self.edges@.len(),
            (t as int) < self.edge_faces@[i as int]@.len(),
        ensures
            r == self.edge_faces@[i as int]@[t as int],
    {
        self.edge_faces[i][t]
    }

    /// The number of edges incident to vertex `v`.
    pub fn vertex_edge_count(&self, v: usize) -> (r: usize)
        requires
            self.vertex_edges@.len() == self.n(),
            (v as int) < self.n(),
        ensures
            r == self.vertex_edges@[v as int]@.len(),
    {
        self.vertex_edges[v].len()
    }

    /// The index of the `t`-th edge incident to vertex `v`.
    pub fn vertex_edge(&self, v: usize, t: usize) -> (r: usize)
        requires
            self.vertex_edges@.len() == self.n(),
            (v as int) < self.n(),
            (t as int) < self.vertex_edges@[v as int]@.len(),
        ensures
            r == self.vertex_edges@[v as int]@[t as int],
    {
        self.vertex_edges[v][t]
    }

    /// The number of faces incident to vertex `v`.
    pub fn vertex_face_count(&self, v: usize) -> (r: usize)
        requires
            self.vertex_faces@.len() == self.n(),
            (v as int) < self.n(),
        ensures
            r == self.vertex_faces@[v as int]@.len(),
    {
        self.vertex_faces[v].len()
    }

    /// The index of the `t`-th face incident to vertex `v`.
    pub fn vertex_face(&self, v: usize, t: usize) -> (r: usize)
        requires
            self.vertex_faces@.len() == self.n(),
            (v as int) < self.n(),
            (t as int) < self.vertex_faces@[v as int]@.len(),
        ensures
            r == self.vertex_faces@[v as int]@[t as int],
    {
        self.vertex_faces[v][t]
    }
}

/// CONSTRUCTION ROUND-TRIP LAW. A mesh built from flat vertex and face
/// arrays re-enumerates exactly its input: the vertex count is a third of
/// the coordinate count, the face count a third of the index count, and
/// the stored positions and face index triples are the input triples, in
/// input order.
pub proof fn lemma_construction_round_trip<S>(m: TriMesh<S>, vs: Seq<S>, fs: Seq<usize>)
    requires
        valid_arrays(vs, fs),
        m.constructed_from(vs, fs),
    ensures
        m.n() == vs.len() / 3,
        m.faces@.len() == fs.len() / 3,
        forall|v: int|
            0 <= v < m.n() ==> #[trigger] m.positions@[v] == (Vec3 {
                x: vs[3 * v],
                y: vs[3 * v + 1],
                z: vs[3 * v + 2],
            }),
        forall|k: int|
            0 <= k < m.faces@.len() ==> #[trigger] m.faces@[k] == (Face {
                a: fs[3 * k],
                b: fs[3 * k + 1],
                c: fs[3 * k + 2],
            }),
{
}

} // verus!
