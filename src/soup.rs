use vstd::prelude::*;

use crate::mesh::{corner_next, Face, MeshView};

verus! {

/// Why a triangle list cannot become a half-edge mesh.
#[derive(Clone, Copy, Debug, PartialEq, Eq, Structural)]
pub enum BuildError {
    /// A triangle names a point that does not exist.
    InvalidIndex,
    /// A triangle names the same point twice.
    DegenerateTriangle,
    /// Two triangles run along the same edge in the same direction.
    NonManifoldEdge,
}

/// The point at which halfedge `h` of a triangle list starts: corner `h % 3`
/// of triangle `h / 3`.
pub open spec fn corner(tris: Seq<[usize; 3]>, h: int) -> usize {
    tris[h / 3]@[h % 3]
}

/// The point at which halfedge `h` of a triangle list ends.
pub open spec fn corner_dest(tris: Seq<[usize; 3]>, h: int) -> usize {
    corner(tris, corner_next(h))
}

/// Whether one of the first `count` halfedges runs from `a` straight to `b`.
pub open spec fn directed_before(tris: Seq<[usize; 3]>, count: int, a: usize, b: usize) -> bool {
    exists|h: int| 0 <= h < count && #[trigger] corner(tris, h) == a && corner_dest(tris, h) == b
}

/// Whether some triangle of the list runs from `a` straight to `b`.
pub open spec fn has_directed(tris: Seq<[usize; 3]>, a: usize, b: usize) -> bool {
    directed_before(tris, 3 * tris.len() as int, a, b)
}

/// What is wrong with triangle `i`, given that the ones before it are sound:
/// a missing point first, then a repeated one, then a directed edge that an
/// earlier triangle already has.
pub open spec fn triangle_error(n: int, tris: Seq<[usize; 3]>, i: int) -> Option<BuildError> {
    let t = tris[i]@;
    if !(t[0] < n && t[1] < n && t[2] < n) {
        Some(BuildError::InvalidIndex)
    } else if t[0] == t[1] || t[1] == t[2] || t[2] == t[0] {
        Some(BuildError::DegenerateTriangle)
    } else if directed_before(tris, 3 * i, t[0], t[1]) || directed_before(tris, 3 * i, t[1], t[2])
        || directed_before(tris, 3 * i, t[2], t[0]) {
        Some(BuildError::NonManifoldEdge)
    } else {
        None
    }
}

/// The error of the first unsound triangle among the first `count`.
pub open spec fn error_upto(n: int, tris: Seq<[usize; 3]>, count: nat) -> Option<BuildError>
    decreases count,
{
    if count == 0 {
        None
    } else {
        match error_upto(n, tris, (count - 1) as nat) {
            Some(e) => Some(e),
            None => triangle_error(n, tris, count - 1),
        }
    }
}

/// The error that building a mesh over `n` points from `tris` reports, if any.
pub open spec fn build_error(n: int, tris: Seq<[usize; 3]>) -> Option<BuildError> {
    error_upto(n, tris, tris.len())
}

impl<P> MeshView<P> {
    /// The halfedge of `h`'s pair that was made first: the one its edge names.
    pub open spec fn representative(self, h: int) -> int {
        match self.twin(h) {
            Some(g) => if g < h {
                g as int
            } else {
                h
            },
            None => h,
        }
    }
}

/// `m` is the mesh built from `positions` and `tris`: one vertex per point,
/// one face per triangle, three halfedges per triangle in input order, twins
/// paired by reversed direction, vertex anchors on the first halfedge out of
/// each vertex, and one edge per vertex pair, numbered in order of discovery.
pub open spec fn built_from<P>(m: MeshView<P>, positions: Seq<P>, tris: Seq<[usize; 3]>) -> bool {
    &&& m.positions == positions
    &&& m.vertices.len() == positions.len()
    &&& m.faces.len() == tris.len()
    &&& m.halfedges.len() == 3 * tris.len()
    &&& forall|f: int|
        0 <= f < tris.len() ==> #[trigger] m.faces[f] == (Face {
            halfedge: (3 * f) as usize,
            boundary: false,
        })
    &&& forall|h: int|
        m.is_halfedge(h) ==> {
            &&& #[trigger] m.halfedges[h].origin == corner(tris, h)
            &&& m.halfedges[h].next == corner_next(h)
            &&& m.halfedges[h].face == h / 3
        }
    &&& forall|h: int|
        #![trigger m.twin(h)]
        m.is_halfedge(h) && m.twin(h) is Some ==> {
            let g = m.twin(h)->Some_0 as int;
            &&& m.is_halfedge(g)
            &&& corner(tris, g) == corner_dest(tris, h)
            &&& corner_dest(tris, g) == corner(tris, h)
        }
    &&& forall|h: int|
        #![trigger m.twin(h)]
        m.is_halfedge(h) && m.twin(h) is None ==> !has_directed(
            tris,
            corner_dest(tris, h),
            corner(tris, h),
        )
    &&& forall|v: int|
        0 <= v < m.vertices.len() ==> {
            let a = #[trigger] m.vertices[v].halfedge;
            &&& a is Some ==> {
                &&& m.is_halfedge(a->Some_0 as int)
                &&& corner(tris, a->Some_0 as int) == v
                &&& forall|g: int| 0 <= g < a->Some_0 ==> #[trigger] corner(tris, g) != v
            }
            &&& a is None ==> forall|h: int| m.is_halfedge(h) ==> #[trigger] corner(tris, h) != v
        }
    &&& forall|e: int|
        0 <= e < m.edges.len() ==> {
            &&& m.is_halfedge(#[trigger] m.edges[e].halfedge as int)
            &&& m.halfedges[m.edges[e].halfedge as int].edge == e
        }
    &&& forall|e1: int, e2: int|
        0 <= e1 < e2 < m.edges.len() ==> #[trigger] m.edges[e1].halfedge
            < #[trigger] m.edges[e2].halfedge
    &&& forall|h: int|
        m.is_halfedge(h) ==> {
            &&& #[trigger] m.halfedges[h].edge < m.edges.len()
            &&& m.edges[m.halfedges[h].edge as int].halfedge == m.representative(h)
        }
}

/// An error among the first `i` triangles is the error of any longer prefix.
pub proof fn lemma_error_persists(n: int, tris: Seq<[usize; 3]>, i: nat, j: nat)
    requires
        i <= j,
        error_upto(n, tris, i) is Some,
    ensures
        error_upto(n, tris, j) == error_upto(n, tris, i),
    decreases j,
{
    if i < j {
        lemma_error_persists(n, tris, i, (j - 1) as nat);
    }
}

/// Without an error among the first `count` triangles, each of them is sound.
pub proof fn lemma_sound_prefix(n: int, tris: Seq<[usize; 3]>, count: nat)
    requires
        error_upto(n, tris, count) is None,
    ensures
        forall|i: int| 0 <= i < count ==> #[trigger] triangle_error(n, tris, i) is None,
    decreases count,
{
    if count > 0 {
        lemma_sound_prefix(n, tris, (count - 1) as nat);
    }
}

/// Halfedge `h` is corner `h % 3` of triangle `h / 3`, and the next one is
/// the following corner of the same triangle.
pub proof fn lemma_halfedge_split(h: int)
    requires
        0 <= h,
    ensures
        h == 3 * (h / 3) + h % 3,
        0 <= h % 3 < 3,
        corner_next(h) / 3 == h / 3,
        corner_next(h) % 3 == (h % 3 + 1) % 3,
        0 <= corner_next(h) < 3 * (h / 3) + 3,
{
}

/// The corners of halfedge `h` are two corners of triangle `h / 3`.
pub proof fn lemma_corners_of(tris: Seq<[usize; 3]>, h: int)
    requires
        0 <= h < 3 * tris.len(),
    ensures
        h / 3 < tris.len(),
        corner(tris, h) == tris[h / 3]@[h % 3],
        corner_dest(tris, h) == tris[h / 3]@[(h % 3 + 1) % 3],
        0 <= corner_next(h) < 3 * tris.len(),
{
    lemma_halfedge_split(h);
}

/// Without an error among the first `count` triangles, no two of their
/// halfedges run between the same two points in the same direction.
pub proof fn lemma_directed_unique(n: int, tris: Seq<[usize; 3]>, count: nat)
    requires
        count <= tris.len(),
        error_upto(n, tris, count) is None,
    ensures
        forall|h: int, g: int|
            0 <= h < 3 * count && 0 <= g < 3 * count && #[trigger] corner(tris, h)
                == #[trigger] corner(tris, g) && corner_dest(tris, h) == corner_dest(tris, g)
                ==> h == g,
    decreases count,
{
    if count > 0 {
        let c = count - 1;
        lemma_directed_unique(n, tris, c as nat);
        assert(triangle_error(n, tris, c) is None);
        let t = tris[c]@;
        assert forall|h: int, g: int|
            0 <= h < 3 * count && 0 <= g < 3 * count && #[trigger] corner(tris, h)
                == #[trigger] corner(tris, g) && corner_dest(tris, h) == corner_dest(tris, g)
                implies h == g by {
            lemma_corners_of(tris, h);
            lemma_corners_of(tris, g);
            if h >= 3 * c && g < 3 * c {
                assert(directed_before(tris, 3 * c, corner(tris, h), corner_dest(tris, h)));
            } else if g >= 3 * c && h < 3 * c {
                assert(directed_before(tris, 3 * c, corner(tris, g), corner_dest(tris, g)));
            }
        }
    }
}

} // verus!
