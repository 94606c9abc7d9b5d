use vstd::prelude::*;
use std::collections::BTreeSet;
use vstd::std_specs::btree::spec_btree_keys_iter;
use vstd::std_specs::cmp::OrdSpec;
use vstd::std_specs::iter::IteratorSpec;

verus! {

broadcast use vstd::std_specs::btree::group_btree_axioms, vstd::laws_cmp::group_laws_cmp;

/// A triangle given by the positions of its three corners in a vertex list.
#[derive(Clone, Copy, PartialEq, Eq, Structural, Debug)]
pub struct RefTriangle(pub usize, pub usize, pub usize);

impl RefTriangle {
    pub fn new(indices: (usize, usize, usize)) -> (r: Self)
        ensures
            r == RefTriangle(indices.0, indices.1, indices.2),
    {
        RefTriangle(indices.0, indices.1, indices.2)
    }
}

/// An edge given by the positions of its two ends in a vertex list, the
/// smaller first.
#[derive(Clone, Copy, PartialEq, Eq, Structural, PartialOrd, Ord, Debug)]
pub struct RefEdge(pub usize, pub usize);

/// Why a mesh was refused.
#[derive(Clone, Copy, PartialEq, Eq, Structural, Debug)]
pub enum MeshError {
    /// The triangle at this position names a vertex that does not exist.
    VertexIndexOutOfRange(usize),
    /// There is not exactly one triple of normals for each triangle.
    NormalCountMismatch,
    /// There is not exactly one triple of colors for each triangle.
    ColorCountMismatch,
}

/// The edge between two vertices, ends in increasing order.
pub open spec fn canonical(a: usize, b: usize) -> RefEdge {
    if a <= b {
        RefEdge(a, b)
    } else {
        RefEdge(b, a)
    }
}

/// `e` is one of the three edges of `t`.
pub open spec fn edge_of(t: RefTriangle, e: RefEdge) -> bool {
    e == canonical(t.0, t.1) || e == canonical(t.0, t.2) || e == canonical(t.1, t.2)
}

/// `e` is an edge of one of the triangles.
pub open spec fn mesh_edge(tris: Seq<RefTriangle>, e: RefEdge) -> bool {
    exists|j: int| 0 <= j < tris.len() && edge_of(#[trigger] tris[j], e)
}

pub open spec fn edge_before(a: RefEdge, b: RefEdge) -> bool {
    a.0 < b.0 || (a.0 == b.0 && a.1 < b.1)
}

/// One triple of `c` for each of `n` triangles.
pub open spec fn uniform_colors<C>(c: C, n: nat) -> Seq<(C, C, C)> {
    Seq::new(n, |i: int| (c, c, c))
}

/// Strictly increasing, so free of repeats.
pub open spec fn edges_sorted(s: Seq<RefEdge>) -> bool {
    forall|i: int, j: int| 0 <= i < j < s.len() ==> edge_before(#[trigger] s[i], #[trigger] s[j])
}

/// Every corner of every triangle is a position in a list of `n` vertices.
pub open spec fn indices_valid(tris: Seq<RefTriangle>, n: int) -> bool {
    forall|j: int| 0 <= j < tris.len() ==> (#[trigger] tris[j]).0 < n && tris[j].1 < n && tris[j].2 < n
}

/// Vertex positions, triangles over them, and for each triangle a normal and
/// a color for each corner; with the set of its edges, for wireframes.
#[derive(Clone)]
pub struct Mesh<V, N, C> {
    vertices: Vec<V>,
    triangles: Vec<RefTriangle>,
    normals: Vec<(N, N, N)>,
    vertex_colors: Vec<(C, C, C)>,
    edge_cache: Vec<RefEdge>,
}

fn canonical_exec(a: usize, b: usize) -> (r: RefEdge)
    ensures
        r == canonical(a, b),
{
    if a <= b {
        RefEdge(a, b)
    } else {
        RefEdge(b, a)
    }
}

impl<V, N, C> Mesh<V, N, C> {
    pub closed spec fn vertices_view(&self) -> Seq<V> {
        self.vertices@
    }

    pub closed spec fn triangles_view(&self) -> Seq<RefTriangle> {
        self.triangles@
    }

    pub closed spec fn normals_view(&self) -> Seq<(N, N, N)> {
        self.normals@
    }

    pub closed spec fn colors_view(&self) -> Seq<(C, C, C)> {
        self.vertex_colors@
    }

    pub closed spec fn edges_view(&self) -> Seq<RefEdge> {
        self.edge_cache@
    }

    pub open spec fn wf(&self) -> bool {
        &&& indices_valid(self.triangles_view(), self.vertices_view().len() as int)
        &&& self.normals_view().len() == self.triangles_view().len()
        &&& self.colors_view().len() == self.triangles_view().len()
        &&& edges_sorted(self.edges_view())
        &&& forall|e: RefEdge| self.edges_view().contains(e) <==> mesh_edge(self.triangles_view(), e)
    }

    /// Builds a mesh, or refuses one whose triangles name missing vertices,
    /// or that lacks a triple of normals or of colors for some triangle.
    pub fn new(
        vertices: Vec<V>,
        triangles: Vec<RefTriangle>,
        normals: Vec<(N, N, N)>,
        vertex_colors: Option<Vec<(C, C, C)>>,
        default_color: C,
    ) -> (r: Result<Self, MeshError>)
        where
            C: Copy,
        ensures
            r is Ok <==> indices_valid(triangles@, vertices@.len() as int) && normals@.len()
                == triangles@.len() && (vertex_colors matches Some(v) ==> v@.len() == triangles@.len()),
            r matches Err(MeshError::VertexIndexOutOfRange(j)) ==> {
                &&& j < triangles@.len()
                &&& !(triangles@[j as int].0 < vertices@.len() && triangles@[j as int].1 < vertices@.len()
                    && triangles@[j as int].2 < vertices@.len())
                &&& forall|k: int| 0 <= k < j ==> (#[trigger] triangles@[k]).0 < vertices@.len()
                    && triangles@[k].1 < vertices@.len() && triangles@[k].2 < vertices@.len()
            },
            r matches Err(MeshError::NormalCountMismatch) ==> indices_valid(triangles@,
                vertices@.len() as int) && normals@.len() != triangles@.len(),
            r matches Err(MeshError::ColorCountMismatch) ==> indices_valid(triangles@,
                vertices@.len() as int) && normals@.len() == triangles@.len() && (
                vertex_colors matches Some(v) && v@.len() != triangles@.len()),
            r matches Ok(m) ==> {
                &&& m.wf()
                &&& m.vertices_view() == vertices@
                &&& m.triangles_view() == triangles@
                &&& m.normals_view() == normals@
                &&& m.colors_view() == match vertex_colors {
                    Some(v) => v@,
                    None => uniform_colors(default_color, triangles@.len()),
                }
            },
    {
        let n = vertices.len();
        let mut j: usize = 0;
        while j < triangles.len()
            invariant
                j <= triangles@.len(),
                n == vertices@.len(),
                forall|k: int| 0 <= k < j ==> (#[trigger] triangles@[k]).0 < n && triangles@[k].1 < n
                    && triangles@[k].2 < n,
            decreases triangles@.len() - j,
        {
            let t = triangles[j];
            if t.0 >= n || t.1 >= n || t.2 >= n {
                return Err(MeshError::VertexIndexOutOfRange(j));
            }
            j += 1;
        }
        if normals.len() != triangles.len() {
            return Err(MeshError::NormalCountMismatch);
        }
        let vertex_colors = match vertex_colors {
            Some(v) => {
                if v.len() != triangles.len() {
                    return Err(MeshError::ColorCountMismatch);
                }
                v
            },
            None => {
                let mut v: Vec<(C, C, C)> = Vec::new();
                let mut k: usize = 0;
                while k < triangles.len()
                    invariant
                        k <= triangles@.len(),
                        v@ == uniform_colors(default_color, k as nat),
                    decreases triangles@.len() - k,
                {
                    v.push((default_color, default_color, default_color));
                    k += 1;
                    proof {
                        assert(v@ =~= uniform_colors(default_color, k as nat));
                    }
                }
                v
            },
        };
        let edge_cache = Self::build_edges(&triangles);
        Ok(Mesh { vertices, triangles, normals, vertex_colors, edge_cache })
    }

    /// The edges of the triangles, each once, in increasing order: gathered
    /// in a `BTreeSet` of index pairs, then read back in its order.
    fn build_edges(triangles: &Vec<RefTriangle>) -> (r: Vec<RefEdge>)
        ensures
            edges_sorted(r@),
            forall|e: RefEdge| r@.contains(e) <==> mesh_edge(triangles@, e),
    {
        let mut set: BTreeSet<(usize, usize)> = BTreeSet::new();
        let mut i: usize = 0;
        while i < triangles.len()
            invariant
                i <= triangles@.len(),
                forall|x: (usize, usize)| set@.contains(x) <==> mesh_edge(triangles@.subrange(0,
                    i as int), RefEdge(x.0, x.1)),
            decreases triangles@.len() - i,
        {
            let t = triangles[i];
            let ghost before = set@;
            let e0 = canonical_exec(t.0, t.1);
            let e1 = canonical_exec(t.0, t.2);
            let e2 = canonical_exec(t.1, t.2);
            set.insert((e0.0, e0.1));
            set.insert((e1.0, e1.1));
            set.insert((e2.0, e2.1));
            proof {
                let pre = triangles@.subrange(0, i as int);
                let next = triangles@.subrange(0, i + 1);
                assert forall|x: (usize, usize)| set@.contains(x) <==> mesh_edge(next, RefEdge(x.0,
                    x.1)) by {
                    let e = RefEdge(x.0, x.1);
                    if mesh_edge(next, e) {
                        let k = choose|k: int| 0 <= k < next.len() && edge_of(#[trigger] next[k], e);
                        if k < i {
                            assert(pre[k] == next[k]);
                            assert(mesh_edge(pre, e));
                        } else {
                            assert(next[k] == t);
                        }
                    }
                    if set@.contains(x) && !edge_of(t, e) {
                        assert(before.contains(x));
                        let k = choose|k: int| 0 <= k < pre.len() && edge_of(#[trigger] pre[k], e);
                        assert(next[k] == pre[k]);
                    }
                    if edge_of(t, e) {
                        assert(next[i as int] == t);
                    }
                }
            }
            i += 1;
        }
        proof {
            assert(triangles@.subrange(0, triangles@.len() as int) =~= triangles@);
        }
        let mut edges: Vec<RefEdge> = Vec::new();
        let ghost keys = spec_btree_keys_iter(&set).remaining();
        for x in it: set.iter()
            invariant
                it.seq() == keys,
                edges@.len() == it.index(),
                forall|j: int| 0 <= j < it.index() ==> #[trigger] edges@[j] == RefEdge(keys[j].0,
                    keys[j].1),
        {
            edges.push(RefEdge(x.0, x.1));
        }
        proof {
            assert(keys.len() == edges@.len());
            vstd::std_specs::btree::axiom_spec_btree_keys_iter(&set);
            assert(vstd::laws_cmp::obeys_cmp::<&(usize, usize)>());
            vstd::std_specs::btree::axiom_increasing_seq_meaning(keys);
            let ks = keys.unref();
            assert forall|a: int, b: int| 0 <= a < b < edges@.len() implies edge_before(
                #[trigger] edges@[a], #[trigger] edges@[b]) by {
                assert(<&(usize, usize) as OrdSpec>::cmp_spec(&keys[a], &keys[b]) is Less);
                assert(<(usize, usize) as OrdSpec>::cmp_spec(&*keys[a], &*keys[b]) is Less);
                assert(ks[a] == *keys[a] && ks[b] == *keys[b]);
            }
            assert forall|e: RefEdge| edges@.contains(e) <==> mesh_edge(triangles@, e) by {
                let x = (e.0, e.1);
                if edges@.contains(e) {
                    let j = choose|j: int| 0 <= j < edges@.len() && edges@[j] == e;
                    assert(ks[j] == *keys[j]);
                    assert(ks.contains(ks[j]));
                    assert(ks.to_set().contains(x));
                }
                if mesh_edge(triangles@, e) {
                    assert(set@.contains(x));
                    assert(ks.to_set().contains(x));
                    assert(ks.contains(x));
                    let j = choose|j: int| 0 <= j < ks.len() && ks[j] == x;
                    assert(edges@[j] == e);
                }
            }
        }
        edges
    }

    pub fn vertex_count(&self) -> (r: usize)
        ensures
            r == self.vertices_view().len(),
    {
        self.vertices.len()
    }

    pub fn triangle_count(&self) -> (r: usize)
        ensures
            r == self.triangles_view().len(),
    {
        self.triangles.len()
    }

    pub fn vertices(&self) -> (r: &Vec<V>)
        ensures
            r@ == self.vertices_view(),
    {
        &self.vertices
    }

    pub fn triangles(&self) -> (r: &Vec<RefTriangle>)
        ensures
            r@ == self.triangles_view(),
    {
        &self.triangles
    }

    pub fn normals(&self) -> (r: &Vec<(N, N, N)>)
        ensures
            r@ == self.normals_view(),
    {
        &self.normals
    }

    pub fn vertex_colors(&self) -> (r: &Vec<(C, C, C)>)
        ensures
            r@ == self.colors_view(),
    {
        &self.vertex_colors
    }

    /// The edges of the mesh, each once, in increasing order.
    pub fn edges(&self) -> (r: &Vec<RefEdge>)
        ensures
            r@ == self.edges_view(),
    {
        &self.edge_cache
    }
}

impl<V: Copy, N: Copy, C: Copy> Mesh<V, N, C> {
    /// Triangle `i` with its corners looked up: positions, normals, colors.
    pub fn triangle(&self, i: usize) -> (r: ((V, V, V), (N, N, N), (C, C, C)))
        requires
            self.wf(),
            i < self.triangles_view().len(),
        ensures
            ({
                let t = self.triangles_view()[i as int];
                let v = self.vertices_view();
                r == ((v[t.0 as int], v[t.1 as int], v[t.2 as int]), self.normals_view()[i as int],
                    self.colors_view()[i as int])
            }),
    {
        let t = self.triangles[i];
        (
            (self.vertices[t.0], self.vertices[t.1], self.vertices[t.2]),
            self.normals[i],
            self.vertex_colors[i],
        )
    }

    /// Edge `i` with its ends looked up.
    pub fn edge(&self, i: usize) -> (r: (V, V))
        requires
            self.wf(),
            i < self.edges_view().len(),
        ensures
            r == (self.vertices_view()[self.edges_view()[i as int].0 as int],
                self.vertices_view()[self.edges_view()[i as int].1 as int]),
    {
        let e = self.edge_cache[i];
        proof {
            assert(self.edges_view().contains(e));
            let j = choose|j: int| 0 <= j < self.triangles_view().len() && edge_of(
                #[trigger] self.triangles_view()[j], e);
            assert(indices_valid(self.triangles_view(), self.vertices_view().len() as int));
            let t = self.triangles_view()[j];
            assert(t.0 < self.vertices_view().len() && t.1 < self.vertices_view().len() && t.2
                < self.vertices_view().len());
        }
        (self.vertices[e.0], self.vertices[e.1])
    }
}

} // verus!
