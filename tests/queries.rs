use halfedge_mesh::Mesh;

fn points(n: usize) -> Vec<[f32; 3]> {
    (0..n).map(|i| [i as f32, 0.0, (2 * i) as f32]).collect()
}

fn tetrahedron() -> Mesh<[f32; 3]> {
    Mesh::build(points(4), &[[0, 1, 2], [0, 2, 3], [0, 3, 1], [1, 3, 2]]).unwrap()
}

/// Six triangles round vertex 0, with the ring 1..=6.
fn hexagon() -> Mesh<[f32; 3]> {
    let tris = [[0, 1, 2], [0, 2, 3], [0, 3, 4], [0, 4, 5], [0, 5, 6], [0, 6, 1]];
    Mesh::build(points(7), &tris).unwrap()
}

/// A strip of four triangles over the points 0..=5: 0 1 2 on one row and
/// 3 4 5 on the other.
fn strip() -> Mesh<[f32; 3]> {
    let tris = [[0, 1, 3], [1, 4, 3], [1, 2, 4], [2, 5, 4]];
    Mesh::build(points(6), &tris).unwrap()
}

fn sorted(mut v: Vec<usize>) -> Vec<usize> {
    v.sort();
    v
}

#[test]
fn twins_of_twins_are_themselves() {
    for m in [tetrahedron(), hexagon(), strip()] {
        for h in 0..m.num_halfedges() {
            if let Some(g) = m.halfedge(h).twin {
                assert_eq!(m.halfedge(g).twin, Some(h));
                assert_eq!(m.halfedge(g).origin, m.dest(h));
                assert_eq!(m.dest(g), m.halfedge(h).origin);
            }
        }
    }
}

#[test]
fn face_loops_close_after_three_steps() {
    for m in [tetrahedron(), hexagon(), strip()] {
        for f in 0..m.num_faces() {
            assert_eq!(m.face_degree(f), 3);
            let h0 = m.face(f).halfedge;
            let mut h = h0;
            for step in 1..=3 {
                h = m.halfedge(h).next;
                assert_eq!(h == h0, step == 3);
            }
        }
    }
}

#[test]
fn face_vertices_follow_the_triangle() {
    let m = strip();
    assert_eq!(m.face_vertices(0), vec![0, 1, 3]);
    assert_eq!(m.face_vertices(3), vec![2, 5, 4]);
}

#[test]
fn each_vertex_pair_has_one_or_two_halfedges() {
    for m in [tetrahedron(), hexagon(), strip()] {
        for h in 0..m.num_halfedges() {
            let a = m.halfedge(h).origin;
            let b = m.dest(h);
            let mut same_pair = Vec::new();
            for g in 0..m.num_halfedges() {
                let (c, d) = (m.halfedge(g).origin, m.dest(g));
                if (c, d) == (a, b) || (c, d) == (b, a) {
                    same_pair.push(g);
                }
                let shares_edge = m.halfedge(g).edge == m.halfedge(h).edge;
                assert_eq!(shares_edge, g == h || m.halfedge(h).twin == Some(g));
            }
            let expected = match m.halfedge(h).twin {
                Some(g) => sorted(vec![h, g]),
                None => vec![h],
            };
            assert_eq!(sorted(same_pair), expected);
        }
    }
}

#[test]
fn anchors_start_at_their_vertex() {
    for m in [tetrahedron(), hexagon(), strip()] {
        for v in 0..m.num_vertices() {
            let h = m.vertex(v).halfedge.unwrap();
            assert_eq!(m.halfedge(h).origin, v);
        }
    }
}

#[test]
fn missing_twin_means_no_reverse_triangle_edge() {
    let tris = [[0, 1, 3], [1, 4, 3], [1, 2, 4], [2, 5, 4]];
    let m = strip();
    for h in 0..m.num_halfedges() {
        let (a, b) = (m.halfedge(h).origin, m.dest(h));
        let reverse_in_input = tris
            .iter()
            .any(|t| (0..3).any(|k| t[k] == b && t[(k + 1) % 3] == a));
        assert_eq!(m.halfedge(h).twin.is_none(), !reverse_in_input);
    }
}

#[test]
fn closed_surface_has_no_boundary() {
    let m = tetrahedron();
    assert_eq!(m.num_edges(), 6);
    for v in 0..4 {
        assert_eq!(m.degree(v), 3);
        assert!(!m.on_boundary(v));
        assert_eq!(m.outgoing(v).len(), 3);
        assert_eq!(m.vertex_faces(v).len(), 3);
    }
    assert_eq!(sorted(m.neighbors(0)), vec![1, 2, 3]);
    assert_eq!(sorted(m.vertex_faces(0)), vec![0, 1, 2]);
}

#[test]
fn interior_vertex_walks_its_whole_ring() {
    let m = hexagon();
    assert_eq!(m.degree(0), 6);
    assert!(!m.on_boundary(0));
    assert_eq!(sorted(m.neighbors(0)), vec![1, 2, 3, 4, 5, 6]);
    assert_eq!(sorted(m.vertex_faces(0)), vec![0, 1, 2, 3, 4, 5]);
    for h in m.outgoing(0) {
        assert_eq!(m.halfedge(h).origin, 0);
    }
    for v in 1..=6 {
        assert_eq!(m.degree(v), 3);
        assert!(m.on_boundary(v));
    }
}

#[test]
fn boundary_vertex_walks_both_ways() {
    let m = strip();
    // Vertex 1 meets faces 0, 1 and 2; its edges go to 0, 2, 3 and 4.
    assert_eq!(m.degree(1), 4);
    assert!(m.on_boundary(1));
    assert_eq!(sorted(m.neighbors(1)), vec![0, 2, 3, 4]);
    assert_eq!(sorted(m.vertex_faces(1)), vec![0, 1, 2]);
    assert_eq!(m.outgoing(1).len(), 3);
    // Vertex 4 meets faces 1, 2 and 3.
    assert_eq!(m.degree(4), 4);
    assert_eq!(sorted(m.neighbors(4)), vec![1, 2, 3, 5]);
    // Corners.
    assert_eq!(m.degree(0), 2);
    assert_eq!(sorted(m.neighbors(0)), vec![1, 3]);
    assert_eq!(m.degree(5), 2);
    assert_eq!(sorted(m.neighbors(5)), vec![2, 4]);
}

#[test]
fn boundary_walk_starting_mid_fan() {
    // The anchor of vertex 2 is halfedge 2 (2 -> 0); turning forward from it
    // stops at once, so the rest of the fan is found turning backward.
    let m = Mesh::build(points(4), &[[0, 1, 2], [2, 1, 3]]).unwrap();
    assert_eq!(m.vertex(2).halfedge, Some(2));
    assert_eq!(m.degree(2), 3);
    assert!(m.on_boundary(2));
    assert_eq!(sorted(m.neighbors(2)), vec![0, 1, 3]);
    assert_eq!(m.outgoing(2), vec![2, 3]);
}

#[test]
fn pinched_vertex_walks_one_fan() {
    // Two triangles that meet only at vertex 0: the walk from its anchor
    // sees the fan of the first triangle alone.
    let m = Mesh::build(points(5), &[[0, 1, 2], [0, 3, 4]]).unwrap();
    assert_eq!(m.degree(0), 2);
    assert!(m.on_boundary(0));
    assert_eq!(sorted(m.neighbors(0)), vec![1, 2]);
    assert_eq!(m.vertex_faces(0), vec![0]);
}

#[test]
fn queries_repeat_on_an_unchanged_mesh() {
    let m = strip();
    for v in 0..m.num_vertices() {
        assert_eq!(m.degree(v), m.degree(v));
        assert_eq!(m.on_boundary(v), m.on_boundary(v));
        assert_eq!(m.neighbors(v), m.neighbors(v));
    }
    for f in 0..m.num_faces() {
        assert_eq!(m.face_vertices(f), m.face_vertices(f));
        assert_eq!(m.face_degree(f), m.face_degree(f));
    }
}

#[test]
fn coincident_points_are_accepted() {
    let pos = vec![[0.0f32, 0.0, 0.0]; 3];
    let m = Mesh::build(pos, &[[0, 1, 2]]).unwrap();
    assert_eq!(m.num_faces(), 1);
    assert_eq!(m.degree(0), 2);
}
