use halfedge_mesh::{BuildError, Mesh};

fn points(n: usize) -> Vec<[f32; 3]> {
    (0..n).map(|i| [i as f32, (i * i) as f32, 0.0]).collect()
}

fn dest(m: &Mesh<[f32; 3]>, h: usize) -> usize {
    m.halfedge(m.halfedge(h).next).origin
}

#[test]
fn single_triangle_is_all_boundary() {
    let pos = vec![[0.0f32, 0.0, 0.0], [1.0, 0.0, 0.0], [0.0, 1.0, 0.0]];
    let m = Mesh::build(pos, &[[0, 1, 2]]).unwrap();
    assert_eq!(m.num_vertices(), 3);
    assert_eq!(m.num_edges(), 3);
    assert_eq!(m.num_faces(), 1);
    assert_eq!(m.num_halfedges(), 3);
    for h in 0..3 {
        assert_eq!(m.halfedge(h).twin, None);
    }
    for v in 0..3 {
        assert_eq!(m.degree(v), 2);
        assert!(m.on_boundary(v));
    }
}

#[test]
fn two_triangles_share_one_edge() {
    let m = Mesh::build(points(4), &[[0, 1, 2], [1, 3, 2]]).unwrap();
    assert_eq!(m.num_edges(), 5);
    let mut paired = 0;
    let mut boundary = 0;
    for e in 0..m.num_edges() {
        let h = m.edge(e).halfedge;
        match m.halfedge(h).twin {
            Some(g) => {
                paired += 1;
                assert_eq!(m.halfedge(g).twin, Some(h));
                let mut ends = [m.halfedge(h).origin, dest(&m, h)];
                ends.sort();
                assert_eq!(ends, [1, 2]);
            }
            None => boundary += 1,
        }
    }
    assert_eq!(paired, 1);
    assert_eq!(boundary, 4);
}

#[test]
fn repeated_index_is_degenerate() {
    let r = Mesh::build(points(3), &[[0, 0, 1]]);
    assert_eq!(r.err(), Some(BuildError::DegenerateTriangle));
}

#[test]
fn missing_point_is_invalid_index() {
    let r = Mesh::build(points(4), &[[0, 1, 2], [1, 5, 2]]);
    assert_eq!(r.err(), Some(BuildError::InvalidIndex));
}

#[test]
fn shared_directed_edge_is_non_manifold() {
    let r = Mesh::build(points(5), &[[0, 1, 2], [0, 1, 3], [0, 1, 4]]);
    assert_eq!(r.err(), Some(BuildError::NonManifoldEdge));
}

#[test]
fn second_face_on_same_direction_is_rejected() {
    let r = Mesh::build(points(4), &[[0, 1, 2], [1, 2, 3]]);
    assert_eq!(r.err(), Some(BuildError::NonManifoldEdge));
}

#[test]
fn first_unsound_triangle_decides_the_error() {
    let r = Mesh::build(points(4), &[[0, 1, 2], [0, 1, 3], [0, 9, 1]]);
    assert_eq!(r.err(), Some(BuildError::NonManifoldEdge));
    let r = Mesh::build(points(4), &[[0, 1, 1], [0, 9, 1]]);
    assert_eq!(r.err(), Some(BuildError::DegenerateTriangle));
    let r = Mesh::build(points(4), &[[0, 9, 9], [0, 1, 1]]);
    assert_eq!(r.err(), Some(BuildError::InvalidIndex));
}

#[test]
fn empty_triangle_list_gives_isolated_vertices() {
    let m = Mesh::build(points(2), &[]).unwrap();
    assert_eq!(m.num_vertices(), 2);
    assert_eq!(m.num_faces(), 0);
    assert_eq!(m.num_edges(), 0);
    assert_eq!(m.vertex(0).halfedge, None);
    assert_eq!(m.degree(1), 0);
    assert!(!m.on_boundary(1));
    assert!(m.neighbors(1).is_empty());
    assert!(m.outgoing(0).is_empty());
}

#[test]
fn records_follow_input_order() {
    let m = Mesh::build(points(4), &[[0, 1, 2], [1, 3, 2]]).unwrap();
    for f in 0..2 {
        let face = m.face(f);
        assert_eq!(face.halfedge, 3 * f);
        assert!(!face.boundary);
    }
    let origins: Vec<usize> = (0..6).map(|h| m.halfedge(h).origin).collect();
    assert_eq!(origins, vec![0, 1, 2, 1, 3, 2]);
    let nexts: Vec<usize> = (0..6).map(|h| m.halfedge(h).next).collect();
    assert_eq!(nexts, vec![1, 2, 0, 4, 5, 3]);
    let faces: Vec<usize> = (0..6).map(|h| m.halfedge(h).face).collect();
    assert_eq!(faces, vec![0, 0, 0, 1, 1, 1]);
    assert_eq!(m.halfedge(1).twin, Some(5));
    assert_eq!(m.halfedge(5).twin, Some(1));
    assert_eq!(m.halfedge(5).edge, m.halfedge(1).edge);
    let reps: Vec<usize> = (0..m.num_edges()).map(|e| m.edge(e).halfedge).collect();
    assert_eq!(reps, vec![0, 1, 2, 3, 4]);
    let anchors: Vec<Option<usize>> = (0..4).map(|v| m.vertex(v).halfedge).collect();
    assert_eq!(anchors, vec![Some(0), Some(1), Some(2), Some(4)]);
}

#[test]
fn positions_are_kept() {
    let pos = vec![[0.5f32, 1.5, 2.5], [3.0, 4.0, 5.0], [6.0, 7.0, 8.0]];
    let m = Mesh::build(pos.clone(), &[[2, 1, 0]]).unwrap();
    for v in 0..3 {
        assert_eq!(*m.position(v), pos[v]);
    }
}
