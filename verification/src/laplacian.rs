use vstd::prelude::*;
use crate::geom::{opposite_angle, opposite_angle_s, triangle_area, triangle_area_s};
use crate::mesh::{edge_connects, edge_has_vertex, edge_valid, in_list, Edge, Face, MeshError, TriMesh};
use crate::scalar::Scalar;

verus! {

/// One entry of the sparse Laplacian map: the weight at key `(row, col)`.
/// Keys absent from the entry list are implicit zeros.
#[derive(Clone, Copy)]
pub struct LapEntry<S> {
    pub row: usize,
    pub col: usize,
    pub val: S,
}

/// The finite map an entry list denotes; a later entry for the same key
/// would win, though the assembly never writes a key twice.
pub open spec fn entries_map<S>(s: Seq<LapEntry<S>>) -> Map<(int, int), S>
    decreases s.len(),
{
    if s.len() == 0 {
        Map::empty()
    } else {
        entries_map(s.drop_last()).insert((s.last().row as int, s.last().col as int), s.last().val)
    }
}

/// The endpoint of `e` that is not `v` (assuming `v` is an endpoint).
pub open spec fn edge_other(e: Edge, v: int) -> int {
    if e.u as int == v {
        e.w as int
    } else {
        e.u as int
    }
}

/// Whether face `f` has a vertex equal to neither `x` nor `y`.
pub open spec fn third_ok(f: Face, x: int, y: int) -> bool {
    ||| (f.a as int != x && f.a as int != y)
    ||| (f.b as int != x && f.b as int != y)
    ||| (f.c as int != x && f.c as int != y)
}

/// The first vertex of `f` (in `a`, `b`, `c` order) equal to neither `x`
/// nor `y`; `c` if there is none.
pub open spec fn third_vertex(f: Face, x: int, y: int) -> int {
    if f.a as int != x && f.a as int != y {
        f.a as int
    } else if f.b as int != x && f.b as int != y {
        f.b as int
    } else {
        f.c as int
    }
}

/// The cotangent contribution of face `f` to the weight of edge `e`: the
/// cotangent (computed as `1 / tan`) of the interior angle at the face's
/// third vertex, opposite the edge. The edge endpoints are taken in
/// canonical order, so both directed traversals of an edge see the same
/// value.
pub open spec fn cot_term<S: Scalar>(m: TriMesh<S>, e: Edge, f: Face) -> S {
    let p1 = m.positions@[e.u as int];
    let p2 = m.positions@[e.w as int];
    let p3 = m.positions@[third_vertex(f, e.u as int, e.w as int)];
    S::one_s().div_s(opposite_angle_s(p1, p2, p3).tan_s())
}

/// The fold, in list order, of the cotangent contributions of the faces
/// listed in `fl` to edge `e`, starting from zero.
pub open spec fn face_cot_sum<S: Scalar>(m: TriMesh<S>, e: Edge, fl: Seq<usize>) -> S
    decreases fl.len(),
{
    if fl.len() == 0 {
        S::zero_s()
    } else {
        face_cot_sum(m, e, fl.drop_last()).add_s(cot_term(m, e, m.faces@[fl.last() as int]))
    }
}

/// The weight of edge `i`: the summed cotangent contributions of its one
/// or two incident faces, divided by two. A boundary edge (one incident
/// face) uses only that face's cotangent, halved; it is not compensated.
pub open spec fn edge_weight<S: Scalar>(m: TriMesh<S>, i: int) -> S {
    face_cot_sum(m, m.edges@[i], m.edge_faces@[i]@).div_s(S::two_s())
}

/// The fold, in list order, of the weights of the edges listed in `el`,
/// starting from zero.
pub open spec fn row_weight_sum<S: Scalar>(m: TriMesh<S>, el: Seq<usize>) -> S
    decreases el.len(),
{
    if el.len() == 0 {
        S::zero_s()
    } else {
        row_weight_sum(m, el.drop_last()).add_s(edge_weight(m, el.last() as int))
    }
}

/// The diagonal entry of row `v`: the negated sum of the weights of the
/// edges incident to `v`, in incidence-list order.
pub open spec fn diagonal_value<S: Scalar>(m: TriMesh<S>, v: int) -> S {
    row_weight_sum(m, m.vertex_edges@[v]@).neg_s()
}

/// The off-diagonal entries of row `v`, one per incident edge, in
/// incidence-list order.
pub open spec fn row_off_entries<S: Scalar>(m: TriMesh<S>, v: int) -> Seq<LapEntry<S>> {
    Seq::new(
        m.vertex_edges@[v]@.len(),
        |t: int| LapEntry {
            row: v as usize,
            col: edge_other(m.edges@[m.vertex_edges@[v]@[t] as int], v) as usize,
            val: edge_weight(m, m.vertex_edges@[v]@[t] as int),
        },
    )
}

/// Row `v` of the assembly: its off-diagonal entries followed by its
/// diagonal entry.
pub open spec fn row_entries<S: Scalar>(m: TriMesh<S>, v: int) -> Seq<LapEntry<S>> {
    row_off_entries(m, v).push(
        LapEntry { row: v as usize, col: v as usize, val: diagonal_value(m, v) },
    )
}

/// The concatenation of the rows of all vertices below `v`.
pub open spec fn entries_up_to<S: Scalar>(m: TriMesh<S>, v: int) -> Seq<LapEntry<S>>
    decreases v,
{
    if v <= 0 {
        Seq::empty()
    } else {
        entries_up_to(m, v - 1) + row_entries(m, v - 1)
    }
}

/// The full entry list of the Laplacian assembly, row by row in vertex
/// enumeration order.
pub open spec fn laplace_entries<S: Scalar>(m: TriMesh<S>) -> Seq<LapEntry<S>> {
    entries_up_to(m, m.n() as int)
}

/// Edge `i` can be traversed: at most two incident faces, and every
/// incident face has a third vertex distinct from both endpoints.
pub open spec fn edge_ok<S>(m: TriMesh<S>, i: int) -> bool {
    &&& m.edge_faces@[i]@.len() <= 2
    &&& forall|t: int| 0 <= t < m.edge_faces@[i]@.len() ==> third_ok(
        m.faces@[#[trigger] m.edge_faces@[i]@[t] as int],
        m.edges@[i].u as int,
        m.edges@[i].w as int,
    )
}

/// The topology is malformed for the Laplacian traversal: some edge has
/// more than two incident faces, or an incident face without a distinct
/// third vertex.
pub open spec fn malformed<S>(m: TriMesh<S>) -> bool {
    exists|i: int| 0 <= i < m.edges@.len() && !edge_ok(m, i)
}

/// Vertex `j` is reached from vertex `i` along some edge of `i`'s
/// incidence list.
pub open spec fn is_neighbor<S>(m: TriMesh<S>, i: int, j: int) -> bool {
    exists|t: int|
        0 <= t < m.vertex_edges@[i]@.len() && j == edge_other(
            m.edges@[#[trigger] m.vertex_edges@[i]@[t] as int],
            i,
        )
}

/// The index of the edge joining `i` and `j` (meaningful when
/// `m.has_edge(i, j)`; unique since the edge table is duplicate-free).
pub open spec fn edge_index<S>(m: TriMesh<S>, i: int, j: int) -> int {
    choose|t: int| 0 <= t < m.edges@.len() && edge_connects(#[trigger] m.edges@[t], i, j)
}

/// The operator interface a mesh type offers: Laplacian assembly and mass
/// lumping, each pinned to an exact per-type specification. The library's
/// own shared-vertex mesh implements it; the specification members name,
/// for each implementing type, precisely what the two assemblies return.
pub trait Laplacian {
    /// The scalar type of the computed weights and areas.
    type ScalarType: Scalar;

    /// The mesh is fit for operator assembly (well-formed connectivity).
    spec fn operator_ready(&self) -> bool;

    /// The topology defeats the Laplacian traversal: an edge with more
    /// than two incident faces, or an incident face without a third
    /// distinct vertex.
    spec fn malformed_topology(&self) -> bool;

    /// The exact entry list the Laplacian assembly returns.
    spec fn laplacian_entries(&self) -> Seq<LapEntry<Self::ScalarType>>;

    /// The exact mass vector the barycentric lumping returns.
    spec fn mass_entries(&self) -> Seq<Self::ScalarType>;

    /// Assembles the sparse cotangent Laplacian; fails exactly on a
    /// malformed topology.
    fn laplace_matrix(&self) -> (r: Result<Vec<LapEntry<Self::ScalarType>>, MeshError>)
        requires
            self.operator_ready(),
        ensures
            match r {
                Ok(ents) => !self.malformed_topology() && ents@ == self.laplacian_entries(),
                Err(e) => self.malformed_topology() && e == MeshError::MalformedTopology,
            },
    ;

    /// Assembles the barycentric (lumped) mass vector.
    fn mass_matrix(&self) -> (r: Vec<Self::ScalarType>)
        requires
            self.operator_ready(),
        ensures
            r@ == self.mass_entries(),
    ;
}

impl<S: Scalar> Laplacian for TriMesh<S> {
    type ScalarType = S;

    open spec fn operator_ready(&self) -> bool {
        self.wf()
    }

    open spec fn malformed_topology(&self) -> bool {
        malformed(*self)
    }

    open spec fn laplacian_entries(&self) -> Seq<LapEntry<S>> {
        laplace_entries(*self)
    }

    open spec fn mass_entries(&self) -> Seq<S> {
        Seq::new(self.n(), |v: int| mass_entry(*self, v))
    }

    /// Assembles the sparse cotangent Laplacian.
    ///
    /// For every vertex `v1` in enumeration order, and every edge of `v1`
    /// in incidence order, the weight of the edge to the opposite vertex
    /// `v2` is the cotangent of the angle opposite the edge, summed over
    /// the edge's one or two incident faces and halved; it is recorded at
    /// key `(v1, v2)`, and the diagonal entry `(v1, v1)` is the negated sum
    /// of the row. The returned entry list is pinned exactly by
    /// [`laplace_entries`]; a degenerate triangle makes its weight
    /// non-finite, which is recorded as-is, not clamped.
    ///
    /// Fails with `MalformedTopology` exactly when some edge has more than
    /// two incident faces or an incident face without a third distinct
    /// vertex.
    #[verifier::loop_isolation(false)]
    #[verifier::rlimit(60)]
    fn laplace_matrix(&self) -> (r: Result<Vec<LapEntry<S>>, MeshError>) {
        let nv = self.positions.len();
        let mut out: Vec<LapEntry<S>> = Vec::new();
        let mut v1: usize = 0;
        proof {
            assert(out@ =~= entries_up_to(*self, 0));
        }
        while v1 < nv
            invariant
                v1 <= nv,
                out@ == entries_up_to(*self, v1 as int),
                forall|v2: int, t: int|
                    0 <= v2 < v1 && 0 <= t < self.vertex_edges@[v2]@.len() ==> edge_ok(
                        *self,
                        #[trigger] self.vertex_edges@[v2]@[t] as int,
                    ),
            decreases nv - v1,
        {
            let el = &self.vertex_edges[v1];
            let deg = el.len();
            let mut outer = S::zero();
            let mut t: usize = 0;
            proof {
                assert(out@ =~= entries_up_to(*self, v1 as int) + row_off_entries(*self, v1 as int).take(0));
                assert(el@.take(0) =~= Seq::<usize>::empty());
            }
            while t < deg
                invariant
                    t <= deg,
                    out@ == entries_up_to(*self, v1 as int) + row_off_entries(*self, v1 as int).take(t as int),
                    outer == row_weight_sum(*self, el@.take(t as int)),
                    forall|t2: int| 0 <= t2 < t ==> edge_ok(*self, #[trigger] el@[t2] as int),
                decreases deg - t,
            {
                let ei = el[t];
                let e = self.edges[ei];
                let v2 = if e.u == v1 {
                    e.w
                } else {
                    e.u
                };
                let fl = &self.edge_faces[ei];
                let nf = fl.len();
                if nf > 2 {
                    proof {
                        assert(!edge_ok(*self, ei as int));
                        assert(malformed(*self));
                    }
                    return Err(MeshError::MalformedTopology);
                }
                let eu = e.u;
                let ew = e.w;
                let mut inner = S::zero();
                let mut s2: usize = 0;
                proof {
                    assert(fl@.take(0) =~= Seq::<usize>::empty());
                }
                while s2 < nf
                    invariant
                        s2 <= nf,
                        inner == face_cot_sum(*self, e, fl@.take(s2 as int)),
                        forall|s3: int| 0 <= s3 < s2 ==> third_ok(
                            self.faces@[#[trigger] fl@[s3] as int],
                            eu as int,
                            ew as int,
                        ),
                    decreases nf - s2,
                {
                    let fidx = fl[s2];
                    let f = self.faces[fidx];
                    let v3 = if f.a != eu && f.a != ew {
                        f.a
                    } else if f.b != eu && f.b != ew {
                        f.b
                    } else if f.c != eu && f.c != ew {
                        f.c
                    } else {
                        proof {
                            assert(!third_ok(f, eu as int, ew as int));
                            assert(!edge_ok(*self, ei as int));
                            assert(malformed(*self));
                        }
                        return Err(MeshError::MalformedTopology);
                    };
                    proof {
                        assert(v3 as int == third_vertex(f, eu as int, ew as int));
                    }
                    let p1 = &self.positions[eu];
                    let p2 = &self.positions[ew];
                    let p3 = &self.positions[v3];
                    let ang = opposite_angle(p1, p2, p3);
                    let cot = S::one().div(ang.tan());
                    proof {
                        assert(cot == cot_term(*self, e, f));
                    }
                    inner = inner.add(cot);
                    proof {
                        assert(fl@.take(s2 as int + 1).drop_last() =~= fl@.take(s2 as int));
                        assert(fl@.take(s2 as int + 1).last() == fl@[s2 as int]);
                    }
                    s2 += 1;
                }
                proof {
                    assert(fl@.take(nf as int) =~= fl@);
                    assert(edge_ok(*self, ei as int));
                }
                let w = inner.div(S::two());
                proof {
                    assert(w == edge_weight(*self, ei as int));
                }
                out.push(LapEntry { row: v1, col: v2, val: w });
                proof {
                    let row_off = row_off_entries(*self, v1 as int);
                    assert(row_off[t as int] == (LapEntry { row: v1, col: v2, val: w }));
                    assert(out@ =~= entries_up_to(*self, v1 as int) + row_off.take(t as int + 1));
                }
                outer = outer.add(w);
                proof {
                    assert(el@.take(t as int + 1).drop_last() =~= el@.take(t as int));
                    assert(el@.take(t as int + 1).last() == el@[t as int]);
                    assert(outer == row_weight_sum(*self, el@.take(t as int + 1)));
                }
                t += 1;
            }
            let d = outer.neg();
            proof {
                assert(el@.take(deg as int) =~= el@);
                assert(d == diagonal_value(*self, v1 as int));
            }
            out.push(LapEntry { row: v1, col: v1, val: d });
            proof {
                assert(row_off_entries(*self, v1 as int).take(deg as int) =~= row_off_entries(
                    *self,
                    v1 as int,
                ));
                assert(out@ =~= entries_up_to(*self, v1 as int) + row_entries(*self, v1 as int));
                assert(out@ == entries_up_to(*self, v1 as int + 1));
            }
            v1 += 1;
        }
        proof {
            assert forall|i: int| 0 <= i < self.edges@.len() implies edge_ok(*self, i) by {
                let e = self.edges@[i];
                assert(edge_has_vertex(e, e.u as int));
                assert(in_list(self.vertex_edges@[e.u as int]@, i));
                let t = choose|t: int|
                    0 <= t < self.vertex_edges@[e.u as int]@.len()
                        && #[trigger] self.vertex_edges@[e.u as int]@[t] as int == i;
                assert(edge_ok(*self, self.vertex_edges@[e.u as int]@[t] as int));
            }
            assert(!malformed(*self));
        }
        Ok(out)
    }

    /// Assembles the barycentric (lumped) mass vector: for every vertex in
    /// enumeration order, one third of the summed areas of its incident
    /// faces. Every face thus contributes one third of its area to each of
    /// its three vertices.
    #[verifier::loop_isolation(false)]
    fn mass_matrix(&self) -> (r: Vec<S>) {
        let nv = self.positions.len();
        let mut out: Vec<S> = Vec::new();
        let mut v: usize = 0;
        while v < nv
            invariant
                v <= nv,
                out@.len() == v,
                forall|v2: int| 0 <= v2 < v ==> #[trigger] out@[v2] == mass_entry(*self, v2),
            decreases nv - v,
        {
            let fl = &self.vertex_faces[v];
            let nf = fl.len();
            let mut area = S::zero();
            let mut s: usize = 0;
            proof {
                assert(fl@.take(0) =~= Seq::<usize>::empty());
            }
            while s < nf
                invariant
                    s <= nf,
                    area == area_sum(*self, fl@.take(s as int)),
                decreases nf - s,
            {
                let fidx = fl[s];
                let f = self.faces[fidx];
                let p1 = &self.positions[f.a];
                let p2 = &self.positions[f.b];
                let p3 = &self.positions[f.c];
                let a = triangle_area(p1, p2, p3);
                proof {
                    assert(a == face_area_term(*self, fl@[s as int] as int));
                }
                area = area.add(a);
                proof {
                    assert(fl@.take(s as int + 1).drop_last() =~= fl@.take(s as int));
                    assert(fl@.take(s as int + 1).last() == fl@[s as int]);
                }
                s += 1;
            }
            proof {
                assert(fl@.take(nf as int) =~= fl@);
            }
            let entry = area.div(S::three());
            proof {
                assert(entry == mass_entry(*self, v as int));
            }
            out.push(entry);
            v += 1;
        }
        proof {
            assert(out@ =~= Seq::new(self.n(), |v2: int| mass_entry(*self, v2)));
        }
        out
    }
}

/// The area of face `k`, from its three stored vertex positions.
pub open spec fn face_area_term<S: Scalar>(m: TriMesh<S>, k: int) -> S {
    let f = m.faces@[k];
    triangle_area_s(
        m.positions@[f.a as int],
        m.positions@[f.b as int],
        m.positions@[f.c as int],
    )
}

/// The fold, in list order, of the areas of the faces listed in `fl`,
/// starting from zero.
pub open spec fn area_sum<S: Scalar>(m: TriMesh<S>, fl: Seq<usize>) -> S
    decreases fl.len(),
{
    if fl.len() == 0 {
        S::zero_s()
    } else {
        area_sum(m, fl.drop_last()).add_s(face_area_term(m, fl.last() as int))
    }
}

/// The per-vertex mass: one third of the summed areas of the vertex's
/// incident faces.
pub open spec fn mass_entry<S: Scalar>(m: TriMesh<S>, v: int) -> S {
    area_sum(m, m.vertex_faces@[v]@).div_s(S::three_s())
}

/// Assembles the sparse cotangent Laplacian of the mesh; see
/// [`TriMesh::laplace_matrix`].
pub fn mesh_laplacian<S: Scalar>(mesh: TriMesh<S>) -> (r: Result<Vec<LapEntry<S>>, MeshError>)
    requires
        mesh.wf(),
    ensures
        match r {
            Ok(ents) => !malformed(mesh) && ents@ == laplace_entries(mesh),
            Err(e) => malformed(mesh) && e == MeshError::MalformedTopology,
        },
{
    mesh.laplace_matrix()
}

/// Looks a key up in an entry list, as the map the list denotes.
#[verifier::loop_isolation(false)]
pub fn laplace_get<S: Scalar>(entries: &Vec<LapEntry<S>>, i: usize, j: usize) -> (r: Option<S>)
    ensures
        match r {
            Some(v) => entries_map(entries@).dom().contains((i as int, j as int))
                && entries_map(entries@)[(i as int, j as int)] == v,
            None => !entries_map(entries@).dom().contains((i as int, j as int)),
        },
{
    let ghost key = (i as int, j as int);
    let mut t: usize = entries.len();
    proof {
        assert(entries@.take(t as int) =~= entries@);
    }
    while t > 0
        invariant
            t <= entries@.len(),
            entries_map(entries@).dom().contains(key) == entries_map(
                entries@.take(t as int),
            ).dom().contains(key),
            entries_map(entries@.take(t as int)).dom().contains(key) ==> entries_map(entries@)[key]
                == entries_map(entries@.take(t as int))[key],
        decreases t,
    {
        t -= 1;
        let en = entries[t];
        proof {
            assert(en == entries@[t as int]);
            let x = entries@[t as int];
            assert(entries@.take(t as int + 1).drop_last() =~= entries@.take(t as int));
            assert(entries@.take(t as int + 1).last() == x);
            assert(entries_map(entries@.take(t as int + 1)) == entries_map(
                entries@.take(t as int),
            ).insert((x.row as int, x.col as int), x.val));
        }
        if en.row == i && en.col == j {
            proof {
                assert(entries_map(entries@.take(t as int + 1)).dom().contains(key));
                assert(entries_map(entries@.take(t as int + 1))[key] == en.val);
            }
            return Some(en.val);
        }
        proof {
            assert(((en.row as int, en.col as int)) != key);
        }
    }
    proof {
        assert(entries@.take(0) =~= Seq::<LapEntry<S>>::empty());
    }
    None
}

/// A mesh's vertex count fits in `usize` (it is the length of a `Vec`).
proof fn lemma_n_bounded<S>(m: TriMesh<S>)
    ensures
        m.n() <= usize::MAX,
{
    assert(m.positions.len() == m.n());
}

/// The map of a concatenation: keys are the union, and entries of the
/// second list win (they are inserted later).
proof fn lemma_entries_map_append<S>(s1: Seq<LapEntry<S>>, s2: Seq<LapEntry<S>>)
    ensures
        forall|key: (int, int)|
            #[trigger] entries_map(s1 + s2).dom().contains(key) <==> (entries_map(s1).dom().contains(
                key,
            ) || entries_map(s2).dom().contains(key)),
        forall|key: (int, int)|
            entries_map(s2).dom().contains(key) ==> #[trigger] entries_map(s1 + s2)[key]
                == entries_map(s2)[key],
        forall|key: (int, int)|
            !entries_map(s2).dom().contains(key) && entries_map(s1).dom().contains(key)
                ==> #[trigger] entries_map(s1 + s2)[key] == entries_map(s1)[key],
    decreases s2.len(),
{
    if s2.len() == 0 {
        assert(s1 + s2 =~= s1);
    } else {
        lemma_entries_map_append(s1, s2.drop_last());
        let x = s2.last();
        assert((s1 + s2).drop_last() =~= s1 + s2.drop_last());
        assert((s1 + s2).last() == x);
        assert(entries_map(s1 + s2) == entries_map(s1 + s2.drop_last()).insert(
            (x.row as int, x.col as int),
            x.val,
        ));
        assert(entries_map(s2) == entries_map(s2.drop_last()).insert(
            (x.row as int, x.col as int),
            x.val,
        ));
    }
}

/// Two distinct edges of one vertex's incidence list lead to distinct
/// opposite vertices.
proof fn lemma_neighbor_cols_distinct<S>(m: TriMesh<S>, v: int, t1: int, t2: int)
    requires
        m.wf(),
        0 <= v < m.n(),
        0 <= t1 < m.vertex_edges@[v]@.len(),
        0 <= t2 < m.vertex_edges@[v]@.len(),
        t1 != t2,
    ensures
        edge_other(m.edges@[m.vertex_edges@[v]@[t1] as int], v) != edge_other(
            m.edges@[m.vertex_edges@[v]@[t2] as int],
            v,
        ),
{
    let l = m.vertex_edges@[v]@;
    let i1 = l[t1] as int;
    let i2 = l[t2] as int;
    if t1 < t2 {
        assert(l[t1] < l[t2]);
    } else {
        assert(l[t2] < l[t1]);
    }
    let e1 = m.edges@[i1];
    let e2 = m.edges@[i2];
    if i1 < i2 {
        assert(e1 != e2);
    } else {
        assert(e2 != e1);
    }
    assert(edge_has_vertex(e1, v));
    assert(edge_has_vertex(e2, v));
    assert(edge_valid(e1, m.n()));
    assert(edge_valid(e2, m.n()));
}

/// An edge never leads from a vertex back to itself.
proof fn lemma_edge_other_not_self<S>(m: TriMesh<S>, v: int, i: int)
    requires
        m.wf(),
        0 <= i < m.edges@.len(),
        edge_has_vertex(m.edges@[i], v),
    ensures
        edge_other(m.edges@[i], v) != v,
        0 <= edge_other(m.edges@[i], v) < m.n(),
        0 <= v < m.n(),
{
    assert(edge_valid(m.edges@[i], m.n()));
}

/// The map of the first `s` off-diagonal entries of row `v`.
proof fn lemma_row_off_map<S: Scalar>(m: TriMesh<S>, v: int, s: int)
    requires
        m.wf(),
        0 <= v < m.n(),
        0 <= s <= m.vertex_edges@[v]@.len(),
    ensures
        ({
            let mp = entries_map(row_off_entries(m, v).take(s));
            &&& forall|key: (int, int)|
                #[trigger] mp.dom().contains(key) <==> (key.0 == v && exists|t: int|
                    0 <= t < s && key.1 == edge_other(
                        m.edges@[#[trigger] m.vertex_edges@[v]@[t] as int],
                        v,
                    ))
            &&& forall|t: int|
                0 <= t < s ==> mp[
                    (
                        v,
                        edge_other(m.edges@[#[trigger] m.vertex_edges@[v]@[t] as int], v),
                    )
                ] == edge_weight(m, m.vertex_edges@[v]@[t] as int)
        }),
    decreases s,
{
    lemma_n_bounded(m);
    let ro = row_off_entries(m, v);
    let l = m.vertex_edges@[v]@;
    if s == 0 {
        assert(ro.take(0) =~= Seq::<LapEntry<S>>::empty());
    } else {
        lemma_row_off_map(m, v, s - 1);
        assert(ro.take(s).drop_last() =~= ro.take(s - 1));
        assert(ro.take(s).last() == ro[s - 1]);
        let x = ro[s - 1];
        assert(entries_map(ro.take(s)) == entries_map(ro.take(s - 1)).insert(
            (x.row as int, x.col as int),
            x.val,
        ));
        lemma_edge_other_not_self(m, v, l[s - 1] as int);
        let newcol = edge_other(m.edges@[l[s - 1] as int], v);
        assert(x.row as int == v);
        assert(x.col as int == newcol);
        let mp = entries_map(ro.take(s));
        let mp0 = entries_map(ro.take(s - 1));
        assert forall|key: (int, int)| #[trigger] mp.dom().contains(key) implies (key.0 == v
            && exists|t: int|
                0 <= t < s && key.1 == edge_other(
                    m.edges@[#[trigger] m.vertex_edges@[v]@[t] as int],
                    v,
                )) by {
            if key == (v, newcol) {
                assert(0 <= s - 1 < s && key.1 == edge_other(
                    m.edges@[m.vertex_edges@[v]@[s - 1] as int],
                    v,
                ));
            } else {
                assert(mp0.dom().contains(key));
                let t = choose|t: int|
                    0 <= t < s - 1 && key.1 == edge_other(
                        m.edges@[#[trigger] m.vertex_edges@[v]@[t] as int],
                        v,
                    );
                assert(0 <= t < s && key.1 == edge_other(
                    m.edges@[m.vertex_edges@[v]@[t] as int],
                    v,
                ));
            }
        }
        assert forall|key: (int, int)|
            (key.0 == v && exists|t: int|
                0 <= t < s && key.1 == edge_other(
                    m.edges@[#[trigger] m.vertex_edges@[v]@[t] as int],
                    v,
                )) implies #[trigger] mp.dom().contains(key) by {
            let t = choose|t: int|
                0 <= t < s && key.1 == edge_other(
                    m.edges@[#[trigger] m.vertex_edges@[v]@[t] as int],
                    v,
                );
            if t == s - 1 {
                assert(key == (v, newcol));
            } else {
                assert(mp0.dom().contains(key));
            }
        }
        assert forall|t: int| 0 <= t < s implies mp[
            (v, edge_other(m.edges@[#[trigger] m.vertex_edges@[v]@[t] as int], v))
        ] == edge_weight(m, m.vertex_edges@[v]@[t] as int) by {
            if t == s - 1 {
            } else {
                lemma_neighbor_cols_distinct(m, v, t, s - 1);
            }
        }
    }
}

/// The map of one full row: the off-diagonal entries, one per incident
/// edge, and the diagonal entry.
proof fn lemma_row_map<S: Scalar>(m: TriMesh<S>, v: int)
    requires
        m.wf(),
        0 <= v < m.n(),
    ensures
        ({
            let mp = entries_map(row_entries(m, v));
            &&& forall|key: (int, int)|
                #[trigger] mp.dom().contains(key) <==> (key.0 == v && (key.1 == v || is_neighbor(
                    m,
                    v,
                    key.1,
                )))
            &&& mp[(v, v)] == diagonal_value(m, v)
            &&& forall|t: int|
                0 <= t < m.vertex_edges@[v]@.len() ==> mp[
                    (
                        v,
                        edge_other(m.edges@[#[trigger] m.vertex_edges@[v]@[t] as int], v),
                    )
                ] == edge_weight(m, m.vertex_edges@[v]@[t] as int)
        }),
{
    lemma_n_bounded(m);
    let deg = m.vertex_edges@[v]@.len() as int;
    lemma_row_off_map(m, v, deg);
    let ro = row_off_entries(m, v);
    assert(ro.take(deg) =~= ro);
    let re = row_entries(m, v);
    let d = LapEntry { row: v as usize, col: v as usize, val: diagonal_value(m, v) };
    assert(re.drop_last() =~= ro);
    assert(re.last() == d);
    assert(entries_map(re) == entries_map(ro).insert((d.row as int, d.col as int), d.val));
    assert(d.row as int == v);
    assert(d.col as int == v);
    let mp = entries_map(re);
    let mp0 = entries_map(ro);
    assert forall|t: int| 0 <= t < deg implies (v,
        edge_other(m.edges@[#[trigger] m.vertex_edges@[v]@[t] as int], v)) != (v, v) by {
        lemma_edge_other_not_self(m, v, m.vertex_edges@[v]@[t] as int);
    }
    assert forall|key: (int, int)| #[trigger] mp.dom().contains(key) implies (key.0 == v && (key.1
        == v || is_neighbor(m, v, key.1))) by {
        if key != (v, v) {
            assert(mp0.dom().contains(key));
        }
    }
    assert forall|key: (int, int)|
        (key.0 == v && (key.1 == v || is_neighbor(m, v, key.1))) implies #[trigger] mp.dom().contains(
        key,
    ) by {
        if key.1 != v {
            assert(mp0.dom().contains(key));
        }
    }
}

/// The map of the rows of all vertices below `v`.
proof fn lemma_entries_map_up_to<S: Scalar>(m: TriMesh<S>, v: int)
    requires
        m.wf(),
        0 <= v <= m.n(),
    ensures
        ({
            let mp = entries_map(entries_up_to(m, v));
            &&& forall|key: (int, int)|
                #[trigger] mp.dom().contains(key) <==> (0 <= key.0 < v && (key.1 == key.0
                    || is_neighbor(m, key.0, key.1)))
            &&& forall|i: int| 0 <= i < v ==> mp[(i, i)] == diagonal_value(m, i)
            &&& forall|i: int, t: int|
                0 <= i < v && 0 <= t < m.vertex_edges@[i]@.len() ==> mp[
                    (
                        i,
                        edge_other(m.edges@[#[trigger] m.vertex_edges@[i]@[t] as int], i),
                    )
                ] == edge_weight(m, m.vertex_edges@[i]@[t] as int)
        }),
    decreases v,
{
    if v == 0 {
        assert(entries_up_to(m, 0) =~= Seq::<LapEntry<S>>::empty());
    } else {
        lemma_entries_map_up_to(m, v - 1);
        lemma_row_map(m, v - 1);
        lemma_entries_map_append(entries_up_to(m, v - 1), row_entries(m, v - 1));
        let mp = entries_map(entries_up_to(m, v));
        let prev = entries_map(entries_up_to(m, v - 1));
        let rowm = entries_map(row_entries(m, v - 1));
        assert forall|key: (int, int)| #[trigger] mp.dom().contains(key) implies (0 <= key.0 < v && (
        key.1 == key.0 || is_neighbor(m, key.0, key.1))) by {
            if prev.dom().contains(key) {
            } else {
                assert(rowm.dom().contains(key));
            }
        }
        assert forall|key: (int, int)|
            (0 <= key.0 < v && (key.1 == key.0 || is_neighbor(m, key.0, key.1)))
                implies #[trigger] mp.dom().contains(key) by {
            if key.0 == v - 1 {
                assert(rowm.dom().contains(key));
            } else {
                assert(prev.dom().contains(key));
            }
        }
        assert forall|i: int| 0 <= i < v implies mp[(i, i)] == diagonal_value(m, i) by {
            if i == v - 1 {
                assert(rowm.dom().contains((i, i)));
            } else {
                assert(!rowm.dom().contains((i, i)));
                assert(prev.dom().contains((i, i)));
            }
        }
        assert forall|i: int, t: int|
            0 <= i < v && 0 <= t < m.vertex_edges@[i]@.len() implies mp[
            (i, edge_other(m.edges@[#[trigger] m.vertex_edges@[i]@[t] as int], i))
        ] == edge_weight(m, m.vertex_edges@[i]@[t] as int) by {
            let key = (i, edge_other(m.edges@[m.vertex_edges@[i]@[t] as int], i));
            if i == v - 1 {
                assert(rowm.dom().contains(key));
            } else {
                assert(!rowm.dom().contains(key));
                assert(is_neighbor(m, i, key.1));
                assert(prev.dom().contains(key));
            }
        }
    }
}

/// SYMMETRY LAW. For any two vertices joined by an edge, the assembled map
/// holds both directed keys, and both carry exactly the weight of that
/// edge: the off-diagonal part of the Laplacian is symmetric, entry for
/// entry, because each weight is computed from the edge's canonical
/// endpoint order whichever endpoint the traversal starts from.
pub proof fn lemma_laplacian_symmetry<S: Scalar>(m: TriMesh<S>, x: int, y: int)
    requires
        m.wf(),
        m.has_edge(x, y),
    ensures
        ({
            let mp = entries_map(laplace_entries(m));
            &&& x != y
            &&& mp.dom().contains((x, y))
            &&& mp.dom().contains((y, x))
            &&& mp[(x, y)] == edge_weight(m, edge_index(m, x, y))
            &&& mp[(y, x)] == edge_weight(m, edge_index(m, x, y))
            &&& mp[(x, y)] == mp[(y, x)]
        }),
{
    lemma_entries_map_up_to(m, m.n() as int);
    let i0 = edge_index(m, x, y);
    assert(0 <= i0 < m.edges@.len() && edge_connects(m.edges@[i0], x, y));
    let e = m.edges@[i0];
    assert(edge_valid(e, m.n()));
    assert(edge_has_vertex(e, x));
    assert(edge_has_vertex(e, y));
    assert(in_list(m.vertex_edges@[x]@, i0));
    assert(in_list(m.vertex_edges@[y]@, i0));
    let tx = choose|t: int|
        0 <= t < m.vertex_edges@[x]@.len() && #[trigger] m.vertex_edges@[x]@[t] as int == i0;
    let ty = choose|t: int|
        0 <= t < m.vertex_edges@[y]@.len() && #[trigger] m.vertex_edges@[y]@[t] as int == i0;
    assert(edge_other(m.edges@[m.vertex_edges@[x]@[tx] as int], x) == y);
    assert(edge_other(m.edges@[m.vertex_edges@[y]@[ty] as int], y) == x);
    assert(is_neighbor(m, x, y));
    assert(is_neighbor(m, y, x));
}

/// ROW LAW. In the assembled map, row `v` holds one off-diagonal entry per
/// incident edge, carrying that edge's weight, and its diagonal entry is
/// the negation of the sum, in incidence order, of exactly those weights —
/// the exact-arithmetic form of the zero row-sum of the cotangent
/// Laplacian.
pub proof fn lemma_laplacian_row_structure<S: Scalar>(m: TriMesh<S>, v: int)
    requires
        m.wf(),
        0 <= v < m.n(),
    ensures
        ({
            let mp = entries_map(laplace_entries(m));
            &&& mp.dom().contains((v, v))
            &&& mp[(v, v)] == row_weight_sum(m, m.vertex_edges@[v]@).neg_s()
            &&& forall|t: int|
                0 <= t < m.vertex_edges@[v]@.len() ==> mp[
                    (
                        v,
                        edge_other(m.edges@[#[trigger] m.vertex_edges@[v]@[t] as int], v),
                    )
                ] == edge_weight(m, m.vertex_edges@[v]@[t] as int)
        }),
{
    lemma_entries_map_up_to(m, m.n() as int);
    assert(laplace_entries(m) == entries_up_to(m, m.n() as int));
    let mp = entries_map(laplace_entries(m));
    assert(mp.dom().contains((v, v)));
    assert(mp[(v, v)] == diagonal_value(m, v));
    assert forall|t: int| 0 <= t < m.vertex_edges@[v]@.len() implies mp[
        (v, edge_other(m.edges@[#[trigger] m.vertex_edges@[v]@[t] as int], v))
    ] == edge_weight(m, m.vertex_edges@[v]@[t] as int) by {
    }
}

/// KEY LAW. The assembled map holds exactly one diagonal key per vertex
/// and the two directed keys of each edge, and nothing else.
pub proof fn lemma_laplacian_keys<S: Scalar>(m: TriMesh<S>, x: int, y: int)
    requires
        m.wf(),
    ensures
        entries_map(laplace_entries(m)).dom().contains((x, y)) <==> ((0 <= x < m.n() && x == y)
            || m.has_edge(x, y)),
{
    lemma_entries_map_up_to(m, m.n() as int);
    if entries_map(laplace_entries(m)).dom().contains((x, y)) && x != y {
        assert(is_neighbor(m, x, y));
        let t = choose|t: int|
            0 <= t < m.vertex_edges@[x]@.len() && y == edge_other(
                m.edges@[#[trigger] m.vertex_edges@[x]@[t] as int],
                x,
            );
        let i = m.vertex_edges@[x]@[t] as int;
        assert(edge_has_vertex(m.edges@[i], x));
        assert(edge_connects(m.edges@[i], x, y));
        assert(m.has_edge(x, y));
    }
    if m.has_edge(x, y) {
        let i0 = choose|t: int|
            0 <= t < m.edges@.len() && edge_connects(#[trigger] m.edges@[t], x, y);
        let e = m.edges@[i0];
        assert(edge_valid(e, m.n()));
        assert(edge_has_vertex(e, x));
        assert(in_list(m.vertex_edges@[x]@, i0));
        let tx = choose|t: int|
            0 <= t < m.vertex_edges@[x]@.len() && #[trigger] m.vertex_edges@[x]@[t] as int == i0;
        assert(edge_other(m.edges@[m.vertex_edges@[x]@[tx] as int], x) == y);
        assert(is_neighbor(m, x, y));
        assert(0 <= x < m.n());
    }
}

/// Rows of `entries_up_to(m, v)` lie below `v`, and no key repeats.
proof fn lemma_up_to_unique<S: Scalar>(m: TriMesh<S>, v: int)
    requires
        m.wf(),
        0 <= v <= m.n(),
    ensures
        forall|p: int|
            0 <= p < entries_up_to(m, v).len() ==> (#[trigger] entries_up_to(m, v)[p].row as int)
                < v,
        forall|p: int, q: int|
            0 <= p < q < entries_up_to(m, v).len() ==> ((entries_up_to(m, v)[p].row,
            entries_up_to(m, v)[p].col) != (entries_up_to(m, v)[q].row, entries_up_to(m, v)[q].col)),
    decreases v,
{
    lemma_n_bounded(m);
    if v == 0 {
    } else {
        lemma_up_to_unique(m, v - 1);
        let prev = entries_up_to(m, v - 1);
        let row = row_entries(m, v - 1);
        let cur = entries_up_to(m, v);
        let deg = m.vertex_edges@[v - 1]@.len() as int;
        assert(cur == prev + row);
        assert forall|t: int| 0 <= t < row.len() implies (#[trigger] row[t].row as int) == v - 1 by {
        }
        assert forall|t1: int, t2: int| 0 <= t1 < t2 < row.len() implies row[t1].col != row[
            t2
        ].col by {
            if t2 < deg {
                lemma_neighbor_cols_distinct(m, v - 1, t1, t2);
            } else {
                lemma_edge_other_not_self(m, v - 1, m.vertex_edges@[v - 1]@[t1] as int);
            }
        }
        assert forall|p: int, q: int| 0 <= p < q < cur.len() implies ((cur[p].row, cur[p].col) != (
        cur[q].row, cur[q].col)) by {
            if q < prev.len() {
                assert(cur[p] == prev[p] && cur[q] == prev[q]);
            } else if p < prev.len() {
                assert(cur[p] == prev[p] && cur[q] == row[q - prev.len()]);
                assert((cur[p].row as int) < v - 1);
            } else {
                assert(cur[p] == row[p - prev.len()] && cur[q] == row[q - prev.len()]);
            }
        }
    }
}

/// UNIQUE-KEY LAW. No key appears twice in the assembled entry list: the
/// sparse Laplacian is a map, each ordered vertex pair written once.
pub proof fn lemma_laplacian_keys_unique<S: Scalar>(m: TriMesh<S>, p: int, q: int)
    requires
        m.wf(),
        0 <= p < q < laplace_entries(m).len(),
    ensures
        (laplace_entries(m)[p].row, laplace_entries(m)[p].col) != (laplace_entries(m)[q].row,
        laplace_entries(m)[q].col),
{
    lemma_up_to_unique(m, m.n() as int);
}

} // verus!
