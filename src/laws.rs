use vstd::prelude::*;

use crate::mesh::{corner_next, MeshView};
use crate::query::lemma_next;
use crate::soup::{
    build_error, built_from, corner, corner_dest, error_upto, has_directed, lemma_corners_of,
    lemma_directed_unique, lemma_sound_prefix, triangle_error, BuildError,
};

verus! {

/// In a mesh built from `tris`, the stored links agree with the corners of
/// the triangle list.
proof fn lemma_links<P>(m: MeshView<P>, positions: Seq<P>, tris: Seq<[usize; 3]>)
    requires
        built_from(m, positions, tris),
    ensures
        forall|h: int| m.is_halfedge(h) ==> #[trigger] m.origin(h) == corner(tris, h),
        forall|h: int| m.is_halfedge(h) ==> #[trigger] m.dest(h) == corner_dest(tris, h),
        forall|h: int| m.is_halfedge(h) ==> m.is_halfedge(#[trigger] m.next(h) as int),
{
    assert forall|h: int| m.is_halfedge(h) implies #[trigger] m.origin(h) == corner(tris, h) by {
        assert(m.halfedges[h].origin == corner(tris, h));
    }
    assert forall|h: int| m.is_halfedge(h) implies #[trigger] m.dest(h) == corner_dest(tris, h)
        && m.is_halfedge(m.next(h) as int) by {
        lemma_corners_of(tris, h);
        assert(m.halfedges[h].origin == corner(tris, h));
        assert(m.halfedges[h].next == corner_next(h));
        assert(m.halfedges[corner_next(h)].origin == corner(tris, corner_next(h)));
    }
    assert forall|h: int| m.is_halfedge(h) implies m.is_halfedge(#[trigger] m.next(h) as int) by {
        lemma_corners_of(tris, h);
        assert(m.halfedges[h].origin == corner(tris, h));
        assert(m.halfedges[h].next == corner_next(h));
        assert(m.halfedges[corner_next(h)].origin == corner(tris, corner_next(h)));
    }
}

/// Every halfedge of a sound triangle list joins two distinct points in range.
proof fn lemma_sound_corners(n: int, tris: Seq<[usize; 3]>)
    requires
        build_error(n, tris) is None,
    ensures
        forall|h: int|
            0 <= h < 3 * tris.len() ==> {
                &&& #[trigger] corner(tris, h) < n
                &&& corner_dest(tris, h) < n
                &&& corner(tris, h) != corner_dest(tris, h)
            },
{
    lemma_sound_prefix(n, tris, tris.len());
    assert forall|h: int| 0 <= h < 3 * tris.len() implies {
        &&& #[trigger] corner(tris, h) < n
        &&& corner_dest(tris, h) < n
        &&& corner(tris, h) != corner_dest(tris, h)
    } by {
        lemma_corners_of(tris, h);
        assert(triangle_error(n, tris, h / 3) is None);
    }
}

proof fn lemma_built_layout<P>(m: MeshView<P>, positions: Seq<P>, tris: Seq<[usize; 3]>)
    requires
        3 * tris.len() < usize::MAX,
        build_error(positions.len() as int, tris) is None,
        built_from(m, positions, tris),
    ensures
        m.wf_layout(),
{
    lemma_sound_corners(positions.len() as int, tris);
    assert forall|h: int| m.is_halfedge(h) implies {
        &&& #[trigger] m.halfedges[h].next == corner_next(h)
        &&& m.halfedges[h].face == h / 3
        &&& m.halfedges[h].origin < m.vertices.len()
        &&& m.halfedges[h].edge < m.edges.len()
    } by {
        assert(m.halfedges[h].origin == corner(tris, h));
        assert(corner(tris, h) < positions.len());
    }
}

proof fn lemma_built_twins<P>(m: MeshView<P>, positions: Seq<P>, tris: Seq<[usize; 3]>)
    requires
        build_error(positions.len() as int, tris) is None,
        built_from(m, positions, tris),
    ensures
        m.wf_twins(),
{
    let n = positions.len() as int;
    lemma_sound_corners(n, tris);
    lemma_directed_unique(n, tris, tris.len());
    lemma_links(m, positions, tris);
    assert forall|h: int|
        #![trigger m.twin(h)]
        m.is_halfedge(h) && m.twin(h) is Some implies {
            let g = m.twin(h)->Some_0 as int;
            &&& m.is_halfedge(g)
            &&& m.twin(g) == Some(h as usize)
            &&& m.origin(g) == m.dest(h)
            &&& m.dest(g) == m.origin(h)
        } by {
        let g = m.twin(h)->Some_0 as int;
        assert(m.origin(g) == corner(tris, g));
        assert(m.origin(h) == corner(tris, h));
        assert(m.dest(g) == corner_dest(tris, g));
        assert(m.dest(h) == corner_dest(tris, h));
        if m.twin(g) is None {
            assert(has_directed(tris, corner_dest(tris, g), corner(tris, g))) by {
                assert(corner(tris, h) == corner_dest(tris, g));
            }
        } else {
            let y = m.twin(g)->Some_0 as int;
            assert(corner(tris, y) == corner(tris, h));
        }
    }
    assert forall|h: int, g: int|
        #![trigger m.twin(h), m.origin(g)]
        m.is_halfedge(h) && m.twin(h) is None && m.is_halfedge(g) implies !(m.origin(g)
            == m.dest(h) && m.dest(g) == m.origin(h)) by {
        assert(m.origin(h) == corner(tris, h));
        assert(m.dest(h) == corner_dest(tris, h));
        assert(m.dest(g) == corner_dest(tris, g));
        if m.origin(g) == m.dest(h) && m.dest(g) == m.origin(h) {
            assert(has_directed(tris, corner_dest(tris, h), corner(tris, h))) by {
                assert(corner(tris, g) == corner_dest(tris, h));
            }
        }
    }
    assert forall|h: int, g: int|
        m.is_halfedge(h) && m.is_halfedge(g) && #[trigger] m.origin(h) == #[trigger] m.origin(g)
            && m.dest(h) == m.dest(g) implies h == g by {
        assert(m.dest(h) == corner_dest(tris, h));
        assert(m.dest(g) == corner_dest(tris, g));
        assert(corner(tris, h) == corner(tris, g));
    }
    assert forall|h: int| m.is_halfedge(h) implies #[trigger] m.origin(h) != m.dest(h) by {
        assert(m.dest(h) == corner_dest(tris, h));
        assert(corner(tris, h) != corner_dest(tris, h));
    }
}

proof fn lemma_built_anchors_edges<P>(m: MeshView<P>, positions: Seq<P>, tris: Seq<[usize; 3]>)
    requires
        built_from(m, positions, tris),
    ensures
        m.wf_anchors(),
        m.wf_edges(),
{
    lemma_links(m, positions, tris);
    assert forall|v: int| 0 <= v < m.vertices.len() implies {
        let a = #[trigger] m.vertices[v].halfedge;
        &&& a is Some ==> m.is_halfedge(a->Some_0 as int) && m.origin(a->Some_0 as int) == v
        &&& a is None ==> forall|h: int| m.is_halfedge(h) ==> #[trigger] m.origin(h) != v
    } by {
        let a = m.vertices[v].halfedge;
        if a is Some {
            assert(m.origin(a->Some_0 as int) == corner(tris, a->Some_0 as int));
        } else {
            assert forall|h: int| m.is_halfedge(h) implies #[trigger] m.origin(h) != v by {
                assert(corner(tris, h) != v);
            }
        }
    }
    assert forall|h: int| m.is_halfedge(h) implies {
        let r = m.edges[#[trigger] m.halfedges[h].edge as int].halfedge;
        r == h || m.twin(h) == Some(r)
    } by {
        assert(m.halfedges[h].edge < m.edges.len());
    }
}

/// A mesh that `build` returns is well formed: a triangle layout with every
/// reference in range, twins paired, anchors valid and edges shared by twins.
pub proof fn built_mesh_is_well_formed<P>(
    m: MeshView<P>,
    positions: Seq<P>,
    tris: Seq<[usize; 3]>,
)
    requires
        3 * tris.len() < usize::MAX,
        build_error(positions.len() as int, tris) is None,
        built_from(m, positions, tris),
    ensures
        m.wf(),
{
    lemma_built_layout(m, positions, tris);
    lemma_built_twins(m, positions, tris);
    lemma_built_anchors_edges(m, positions, tris);
}

/// Twin symmetry: in a built mesh, the twin of the twin of a halfedge is
/// the halfedge itself.
pub proof fn twin_symmetry<P>(m: MeshView<P>, positions: Seq<P>, tris: Seq<[usize; 3]>, h: int)
    requires
        3 * tris.len() < usize::MAX,
        build_error(positions.len() as int, tris) is None,
        built_from(m, positions, tris),
        m.is_halfedge(h),
        m.twin(h) is Some,
    ensures
        m.is_halfedge(m.twin(h)->Some_0 as int),
        m.twin(m.twin(h)->Some_0 as int) == Some(h as usize),
{
    built_mesh_is_well_formed(m, positions, tris);
}

/// Loop closure: in a built mesh, following `next` from the anchor of a
/// face comes back to it after exactly three steps, and no face has fewer
/// than three sides.
pub proof fn face_loop_closure<P>(m: MeshView<P>, positions: Seq<P>, tris: Seq<[usize; 3]>, f: int)
    requires
        3 * tris.len() < usize::MAX,
        build_error(positions.len() as int, tris) is None,
        built_from(m, positions, tris),
        0 <= f < m.faces.len(),
    ensures
        m.face_loop(f, 3),
        forall|d: nat| #[trigger] m.face_loop(f, d) ==> d == 3,
{
    built_mesh_is_well_formed(m, positions, tris);
    let h0 = m.faces[f].halfedge as int;
    assert(h0 == 3 * f);
    lemma_next(m, h0);
    assert(m.next_pow(h0, 0) == h0);
    assert(m.next_pow(h0, 1) == m.next(h0));
    assert(m.next_pow(h0, 2) == m.next(m.next(h0) as int));
    assert(m.next_pow(h0, 3) == h0);
    assert forall|d: nat| #[trigger] m.face_loop(f, d) implies d == 3 by {
        if d > 3 {
            assert(m.next_pow(h0, 3) == h0);
        }
    }
}

/// Edge cardinality: in a built mesh, the halfedges between two vertices
/// are one halfedge and at most its twin, and exactly these share its edge.
pub proof fn edge_cardinality<P>(
    m: MeshView<P>,
    positions: Seq<P>,
    tris: Seq<[usize; 3]>,
    h: int,
    g: int,
)
    requires
        3 * tris.len() < usize::MAX,
        build_error(positions.len() as int, tris) is None,
        built_from(m, positions, tris),
        m.is_halfedge(h),
        m.is_halfedge(g),
    ensures
        (m.origin(g) == m.origin(h) && m.dest(g) == m.dest(h)) || (m.origin(g) == m.dest(h)
            && m.dest(g) == m.origin(h)) <==> g == h || m.twin(h) == Some(g as usize),
        m.halfedges[g].edge == m.halfedges[h].edge <==> g == h || m.twin(h) == Some(g as usize),
{
    built_mesh_is_well_formed(m, positions, tris);
    if m.origin(g) == m.dest(h) && m.dest(g) == m.origin(h) {
        assert(m.twin(h) is Some);
    }
    let eh = m.halfedges[h].edge as int;
    let eg = m.halfedges[g].edge as int;
    assert(m.edges[eh].halfedge == m.representative(h));
    assert(m.edges[eg].halfedge == m.representative(g));
    if m.twin(h) == Some(g as usize) {
        assert(m.twin(g) == Some(h as usize));
        if eh != eg {
            if eh < eg {
                assert(m.edges[eh].halfedge < m.edges[eg].halfedge);
            } else {
                assert(m.edges[eg].halfedge < m.edges[eh].halfedge);
            }
        }
    }
    if eh == eg && g != h {
        if m.twin(g) is Some {
            let tg = m.twin(g)->Some_0 as int;
            assert(m.twin(tg) == Some(g as usize));
        }
    }
}

/// When every triangle names three distinct points that exist, the only
/// error that building can report is a shared directed edge.
proof fn lemma_only_shared_edges(n: int, tris: Seq<[usize; 3]>, count: nat)
    requires
        count <= tris.len(),
        forall|i: int|
            0 <= i < tris.len() ==> {
                let t = #[trigger] tris[i]@;
                &&& t[0] < n && t[1] < n && t[2] < n
                &&& t[0] != t[1] && t[1] != t[2] && t[2] != t[0]
            },
    ensures
        error_upto(n, tris, count) is None || error_upto(n, tris, count) == Some(
            BuildError::NonManifoldEdge,
        ),
    decreases count,
{
    if count > 0 {
        lemma_only_shared_edges(n, tris, (count - 1) as nat);
        let t = tris[count - 1]@;
    }
}

/// Edge cardinality, the failing side: when three halfedges of a triangle
/// list join the same two points, building it fails with `NonManifoldEdge`,
/// unless a triangle names a missing point or the same point twice.
pub proof fn third_halfedge_is_rejected(n: int, tris: Seq<[usize; 3]>, h1: int, h2: int, h3: int)
    requires
        forall|i: int|
            0 <= i < tris.len() ==> {
                let t = #[trigger] tris[i]@;
                &&& t[0] < n && t[1] < n && t[2] < n
                &&& t[0] != t[1] && t[1] != t[2] && t[2] != t[0]
            },
        0 <= h1 < 3 * tris.len(),
        0 <= h2 < 3 * tris.len(),
        0 <= h3 < 3 * tris.len(),
        h1 != h2 && h2 != h3 && h1 != h3,
        ({
            let a = corner(tris, h1);
            let b = corner_dest(tris, h1);
            &&& (corner(tris, h2) == a && corner_dest(tris, h2) == b) || (corner(tris, h2) == b
                && corner_dest(tris, h2) == a)
            &&& (corner(tris, h3) == a && corner_dest(tris, h3) == b) || (corner(tris, h3) == b
                && corner_dest(tris, h3) == a)
        }),
    ensures
        build_error(n, tris) == Some(BuildError::NonManifoldEdge),
{
    lemma_only_shared_edges(n, tris, tris.len());
    if build_error(n, tris) is None {
        lemma_directed_unique(n, tris, tris.len());
        let a = corner(tris, h1);
        let b = corner_dest(tris, h1);
        if corner(tris, h2) == a && corner_dest(tris, h2) == b {
            assert(h1 == h2);
        } else if corner(tris, h3) == a && corner_dest(tris, h3) == b {
            assert(h1 == h3);
        } else {
            assert(h2 == h3);
        }
    }
}

/// Anchor validity: in a built mesh, the anchor of a vertex starts at that
/// vertex.
pub proof fn anchor_validity<P>(m: MeshView<P>, positions: Seq<P>, tris: Seq<[usize; 3]>, v: int)
    requires
        3 * tris.len() < usize::MAX,
        build_error(positions.len() as int, tris) is None,
        built_from(m, positions, tris),
        0 <= v < m.vertices.len(),
        m.vertices[v].halfedge is Some,
    ensures
        m.is_halfedge(m.vertices[v].halfedge->Some_0 as int),
        m.origin(m.vertices[v].halfedge->Some_0 as int) == v,
{
    built_mesh_is_well_formed(m, positions, tris);
}

/// Boundary consistency: in a built mesh, a halfedge has no twin exactly
/// when no triangle of the list runs the other way along it.
pub proof fn boundary_consistency<P>(
    m: MeshView<P>,
    positions: Seq<P>,
    tris: Seq<[usize; 3]>,
    h: int,
)
    requires
        built_from(m, positions, tris),
        m.is_halfedge(h),
    ensures
        m.twin(h) is None <==> !has_directed(tris, m.dest(h), m.origin(h)),
{
    lemma_links(m, positions, tris);
    if m.twin(h) is Some {
        let g = m.twin(h)->Some_0 as int;
        assert(corner(tris, g) == corner_dest(tris, h));
    }
}

} // verus!
