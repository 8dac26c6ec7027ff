use vstd::prelude::*;

verus! {

/// A vertex record. Its anchor is one halfedge that starts at the vertex,
/// or `None` for a vertex that no face uses.
#[derive(Clone, Copy, Debug, PartialEq, Eq, Structural)]
pub struct Vertex {
    pub halfedge: Option<usize>,
}

/// An undirected edge, represented by one of its halfedges.
#[derive(Clone, Copy, Debug, PartialEq, Eq, Structural)]
pub struct Edge {
    pub halfedge: usize,
}

/// A face: the anchor of its boundary loop, and whether it is a synthetic
/// boundary face rather than an input triangle.
#[derive(Clone, Copy, Debug, PartialEq, Eq, Structural)]
pub struct Face {
    pub halfedge: usize,
    pub boundary: bool,
}

/// A directed edge of one face. `twin` is the halfedge running the other way
/// along the same edge, `None` on the mesh boundary.
#[derive(Clone, Copy, Debug, PartialEq, Eq, Structural)]
pub struct Halfedge {
    pub twin: Option<usize>,
    pub next: usize,
    pub origin: usize,
    pub edge: usize,
    pub face: usize,
}

/// The abstract content of a mesh: the four record arenas and the positions.
pub struct MeshView<P> {
    pub positions: Seq<P>,
    pub vertices: Seq<Vertex>,
    pub edges: Seq<Edge>,
    pub faces: Seq<Face>,
    pub halfedges: Seq<Halfedge>,
}

/// The halfedge that follows `h` in its triangle when the halfedges of face
/// `f` are `3f`, `3f + 1` and `3f + 2`.
pub open spec fn corner_next(h: int) -> int {
    3 * (h / 3) + (h % 3 + 1) % 3
}

impl<P> MeshView<P> {
    pub open spec fn origin(self, h: int) -> usize {
        self.halfedges[h].origin
    }

    pub open spec fn next(self, h: int) -> usize {
        self.halfedges[h].next
    }

    pub open spec fn twin(self, h: int) -> Option<usize> {
        self.halfedges[h].twin
    }

    /// The vertex that `h` points to: where the next halfedge of its face starts.
    pub open spec fn dest(self, h: int) -> usize {
        self.origin(self.next(h) as int)
    }

    /// The halfedge before `h` in its triangle.
    pub open spec fn prev(self, h: int) -> usize {
        self.next(self.next(h) as int)
    }

    pub open spec fn is_halfedge(self, h: int) -> bool {
        0 <= h < self.halfedges.len()
    }

    /// The layout of a triangle mesh: face `f` owns halfedges `3f .. 3f + 3`,
    /// linked in that cyclic order, and every reference is in range.
    pub open spec fn wf_layout(self) -> bool {
        &&& self.vertices.len() == self.positions.len()
        &&& self.halfedges.len() == 3 * self.faces.len() < usize::MAX
        &&& forall|f: int|
            0 <= f < self.faces.len() ==> #[trigger] self.faces[f] == (Face {
                halfedge: (3 * f) as usize,
                boundary: false,
            })
        &&& forall|h: int|
            self.is_halfedge(h) ==> {
                &&& #[trigger] self.halfedges[h].next == corner_next(h)
                &&& self.halfedges[h].face == h / 3
                &&& self.halfedges[h].origin < self.vertices.len()
                &&& self.halfedges[h].edge < self.edges.len()
            }
    }

    /// Twins run the opposite way along the same pair of vertices, in pairs.
    pub open spec fn wf_twins(self) -> bool {
        &&& forall|h: int|
            #![trigger self.twin(h)]
            self.is_halfedge(h) && self.twin(h) is Some ==> {
                let g = self.twin(h)->Some_0 as int;
                &&& self.is_halfedge(g)
                &&& self.twin(g) == Some(h as usize)
                &&& self.origin(g) == self.dest(h)
                &&& self.dest(g) == self.origin(h)
            }
        &&& forall|h: int, g: int|
            #![trigger self.twin(h), self.origin(g)]
            self.is_halfedge(h) && self.twin(h) is None && self.is_halfedge(g) ==> !(
            self.origin(g) == self.dest(h) && self.dest(g) == self.origin(h))
        &&& forall|h: int, g: int|
            self.is_halfedge(h) && self.is_halfedge(g) && #[trigger] self.origin(h)
                == #[trigger] self.origin(g) && self.dest(h) == self.dest(g) ==> h == g
        &&& forall|h: int| self.is_halfedge(h) ==> #[trigger] self.origin(h) != self.dest(h)
    }

    /// Each anchor starts at its own vertex; a vertex without one starts no halfedge.
    pub open spec fn wf_anchors(self) -> bool {
        forall|v: int|
            0 <= v < self.vertices.len() ==> {
                let a = #[trigger] self.vertices[v].halfedge;
                &&& a is Some ==> self.is_halfedge(a->Some_0 as int) && self.origin(
                    a->Some_0 as int,
                ) == v
                &&& a is None ==> forall|h: int|
                    self.is_halfedge(h) ==> #[trigger] self.origin(h) != v
            }
    }

    /// Each edge is shared by a halfedge and its twin, and names one of them.
    pub open spec fn wf_edges(self) -> bool {
        &&& forall|e: int|
            0 <= e < self.edges.len() ==> {
                &&& self.is_halfedge(#[trigger] self.edges[e].halfedge as int)
                &&& self.halfedges[self.edges[e].halfedge as int].edge == e
            }
        &&& forall|h: int|
            self.is_halfedge(h) ==> {
                let r = self.edges[#[trigger] self.halfedges[h].edge as int].halfedge;
                r == h || self.twin(h) == Some(r)
            }
    }

    pub open spec fn wf(self) -> bool {
        &&& self.wf_layout()
        &&& self.wf_twins()
        &&& self.wf_anchors()
        &&& self.wf_edges()
    }
}

/// A half-edge mesh over positions of type `P`. Records refer to each other
/// by index into the arenas.
pub struct Mesh<P> {
    positions: Vec<P>,
    vertices: Vec<Vertex>,
    edges: Vec<Edge>,
    faces: Vec<Face>,
    halfedges: Vec<Halfedge>,
}

impl<P> View for Mesh<P> {
    type V = MeshView<P>;

    closed spec fn view(&self) -> MeshView<P> {
        MeshView {
            positions: self.positions@,
            vertices: self.vertices@,
            edges: self.edges@,
            faces: self.faces@,
            halfedges: self.halfedges@,
        }
    }
}

impl<P> Mesh<P> {
    pub(crate) fn from_parts(
        positions: Vec<P>,
        vertices: Vec<Vertex>,
        edges: Vec<Edge>,
        faces: Vec<Face>,
        halfedges: Vec<Halfedge>,
    ) -> (m: Mesh<P>)
        ensures
            m@ == (MeshView {
                positions: positions@,
                vertices: vertices@,
                edges: edges@,
                faces: faces@,
                halfedges: halfedges@,
            }),
    {
        Mesh { positions, vertices, edges, faces, halfedges }
    }

    pub fn num_vertices(&self) -> (r: usize)
        ensures
            r == self@.vertices.len(),
    {
        self.vertices.len()
    }

    pub fn num_edges(&self) -> (r: usize)
        ensures
            r == self@.edges.len(),
    {
        self.edges.len()
    }

    pub fn num_faces(&self) -> (r: usize)
        ensures
            r == self@.faces.len(),
    {
        self.faces.len()
    }

    pub fn num_halfedges(&self) -> (r: usize)
        ensures
            r == self@.halfedges.len(),
    {
        self.halfedges.len()
    }

    pub fn position(&self, v: usize) -> (r: &P)
        requires
            v < self@.positions.len(),
        ensures
            *r == self@.positions[v as int],
    {
        &self.positions[v]
    }

    pub fn vertex(&self, v: usize) -> (r: Vertex)
        requires
            v < self@.vertices.len(),
        ensures
            r == self@.vertices[v as int],
    {
        self.vertices[v]
    }

    pub fn edge(&self, e: usize) -> (r: Edge)
        requires
            e < self@.edges.len(),
        ensures
            r == self@.edges[e as int],
    {
        self.edges[e]
    }

    pub fn face(&self, f: usize) -> (r: Face)
        requires
            f < self@.faces.len(),
        ensures
            r == self@.faces[f as int],
    {
        self.faces[f]
    }

    pub fn halfedge(&self, h: usize) -> (r: Halfedge)
        requires
            h < self@.halfedges.len(),
        ensures
            r == self@.halfedges[h as int],
    {
        self.halfedges[h]
    }
}

} // verus!
