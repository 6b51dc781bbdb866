use navmesh::nav::{NavBuildError, NavMesh};
use navmesh::vector::{Vec2, Vec3};

/// An L-shaped floor of three squares, two triangles each. On the mesh's
/// lattice, three times as fine as that of the positions, the squares have
/// the side 30, and vertex 4, at (30, 30), is the corner round which the
/// floor reaches.
fn l_shaped_floor() -> NavMesh {
    let positions = vec![
        Vec3::new(0, 0, 0),
        Vec3::new(10, 0, 0),
        Vec3::new(20, 0, 0),
        Vec3::new(0, 0, 10),
        Vec3::new(10, 0, 10),
        Vec3::new(20, 0, 10),
        Vec3::new(0, 0, 20),
        Vec3::new(10, 0, 20),
    ];
    let indices: Vec<usize> = vec![0, 3, 4, 0, 4, 1, 1, 4, 5, 1, 5, 2, 3, 6, 7, 3, 7, 4];
    NavMesh::build(&positions, &indices).unwrap()
}

/// One triangle, with its corners at (0, 3, 0), (0, 6, 30) and (30, 9, 0) of
/// the mesh's lattice.
fn one_triangle() -> NavMesh {
    let positions = vec![Vec3::new(0, 1, 0), Vec3::new(0, 2, 10), Vec3::new(10, 3, 0)];
    let indices: Vec<usize> = vec![0, 1, 2];
    NavMesh::build(&positions, &indices).unwrap()
}

#[test]
fn build_keeps_corners_and_places_vertices_on_the_finer_lattice() {
    let mesh = l_shaped_floor();
    assert_eq!(mesh.vertices.len(), 8);
    assert_eq!(mesh.faces.len(), 6);
    assert_eq!(mesh.edges.len(), 18);
    assert_eq!(mesh.vertices[5].position, Vec3::new(60, 0, 30));
    let corners: Vec<usize> = mesh.edges.iter().map(|e| e.vertex).collect();
    assert_eq!(corners, vec![0, 3, 4, 0, 4, 1, 1, 4, 5, 1, 5, 2, 3, 6, 7, 3, 7, 4]);
}

#[test]
fn build_lays_edges_out_by_face() {
    let mesh = l_shaped_floor();
    for (f, face) in mesh.faces.iter().enumerate() {
        assert_eq!(face.start_edge, 3 * f);
    }
    for (e, edge) in mesh.edges.iter().enumerate() {
        assert_eq!(edge.face, e / 3);
        assert_eq!(edge.next, 3 * (e / 3) + (e + 1) % 3);
        assert_eq!(edge.prev, 3 * (e / 3) + (e + 2) % 3);
    }
}

#[test]
fn build_of_no_triangles_is_empty() {
    let positions = vec![Vec3::new(1, 2, 3)];
    let indices: Vec<usize> = vec![];
    let mesh = NavMesh::build(&positions, &indices).unwrap();
    assert_eq!(mesh.vertices.len(), 1);
    assert_eq!(mesh.edges.len(), 0);
    assert_eq!(mesh.faces.len(), 0);
    assert_eq!(mesh.vertices[0].outgoing_edge, 0);
    assert_eq!(mesh.vertices[0].outgoing_barrier, None);
}

#[test]
fn three_steps_of_next_close_every_face() {
    let mesh = l_shaped_floor();
    for face in mesh.faces.iter() {
        let e0 = face.start_edge;
        let e1 = mesh.edges[e0].next;
        let e2 = mesh.edges[e1].next;
        assert_eq!(mesh.edges[e2].next, e0);
        assert!(e0 != e1 && e1 != e2 && e2 != e0);
        let round = mesh.iter_edge_loop(e0);
        let indices: Vec<usize> = round.iter().map(|(idx, _)| *idx).collect();
        assert_eq!(indices, vec![e0, e1, e2]);
    }
}

#[test]
fn twins_are_the_edges_that_run_the_other_way() {
    let mesh = l_shaped_floor();
    let twins: Vec<Option<usize>> = mesh.edges.iter().map(|e| e.twin).collect();
    assert_eq!(
        twins,
        vec![
            None,
            Some(17),
            Some(3),
            Some(2),
            Some(6),
            None,
            Some(4),
            None,
            Some(9),
            Some(8),
            None,
            None,
            None,
            None,
            Some(15),
            Some(14),
            None,
            Some(1),
        ]
    );
}

#[test]
fn twin_relation_is_symmetric() {
    let mesh = l_shaped_floor();
    for (e, edge) in mesh.edges.iter().enumerate() {
        if let Some(t) = edge.twin {
            assert_eq!(mesh.edges[t].twin, Some(e));
            assert_eq!(mesh.edges[t].vertex, mesh.edges[edge.next].vertex);
            assert_eq!(mesh.edges[mesh.edges[t].next].vertex, edge.vertex);
        }
    }
}

#[test]
fn every_vertex_records_its_one_barrier() {
    let mesh = l_shaped_floor();
    let barriers: Vec<Option<usize>> = mesh.vertices.iter().map(|v| v.outgoing_barrier).collect();
    assert_eq!(
        barriers,
        vec![Some(0), Some(5), Some(11), Some(12), Some(7), Some(10), Some(13), Some(16)]
    );
    for (v, vertex) in mesh.vertices.iter().enumerate() {
        let b = vertex.outgoing_barrier.unwrap();
        assert_eq!(mesh.edges[b].twin, None);
        assert_eq!(mesh.edges[b].vertex, v);
        for (e, edge) in mesh.edges.iter().enumerate() {
            if edge.vertex == v && edge.twin.is_none() {
                assert_eq!(e, b);
            }
        }
    }
}

#[test]
fn inner_vertex_records_no_barrier() {
    // A fan of four triangles round vertex 0, which lies inside.
    let positions = vec![
        Vec3::new(0, 0, 0),
        Vec3::new(10, 0, 0),
        Vec3::new(0, 0, -10),
        Vec3::new(-10, 0, 0),
        Vec3::new(0, 0, 10),
    ];
    let indices: Vec<usize> = vec![0, 1, 2, 0, 2, 3, 0, 3, 4, 0, 4, 1];
    let mesh = NavMesh::build(&positions, &indices).unwrap();
    assert_eq!(mesh.vertices[0].outgoing_barrier, None);
    assert_eq!(mesh.vertices[0].outgoing_edge, 0);
    assert_eq!(mesh.vertices[1].outgoing_barrier, Some(1));
    for (e, edge) in mesh.edges.iter().enumerate() {
        if edge.vertex == 0 {
            assert!(edge.twin.is_some(), "edge {} leaves the inner vertex", e);
        }
    }
}

#[test]
fn every_vertex_records_its_first_outgoing_edge() {
    let mesh = l_shaped_floor();
    let first: Vec<usize> = mesh.vertices.iter().map(|v| v.outgoing_edge).collect();
    assert_eq!(first, vec![0, 5, 11, 1, 2, 8, 13, 14]);
}

#[test]
fn duplicated_half_edge_is_refused() {
    // Two coincident triangles with the same winding.
    let positions = vec![Vec3::new(0, 0, 0), Vec3::new(0, 0, 10), Vec3::new(10, 0, 0)];
    let indices: Vec<usize> = vec![0, 1, 2, 0, 1, 2];
    let result = NavMesh::build(&positions, &indices);
    assert_eq!(result.err(), Some(NavBuildError::DuplicateHalfEdge { first: 0, second: 3 }));
}

#[test]
fn duplicated_half_edge_names_the_first_clash() {
    // Triangle 2 repeats the edge 2 -> 0 of triangle 0 as its second edge.
    let positions = vec![
        Vec3::new(0, 0, 0),
        Vec3::new(0, 0, 10),
        Vec3::new(10, 0, 0),
        Vec3::new(10, 0, 10),
        Vec3::new(5, 0, -5),
    ];
    let indices: Vec<usize> = vec![0, 1, 2, 2, 1, 3, 4, 2, 0];
    let result = NavMesh::build(&positions, &indices);
    assert_eq!(result.err(), Some(NavBuildError::DuplicateHalfEdge { first: 2, second: 7 }));
}

#[test]
fn vertex_with_two_barriers_is_refused() {
    // Two triangles that share nothing but vertex 0.
    let positions = vec![
        Vec3::new(0, 0, 0),
        Vec3::new(0, 0, 10),
        Vec3::new(10, 0, 0),
        Vec3::new(0, 0, -10),
        Vec3::new(-10, 0, 0),
    ];
    let indices: Vec<usize> = vec![0, 1, 2, 0, 3, 4];
    let result = NavMesh::build(&positions, &indices);
    assert_eq!(
        result.err(),
        Some(NavBuildError::MultipleBarriers { vertex: 0, first: 0, second: 3 })
    );
}

#[test]
fn duplicates_come_before_barriers() {
    // The bow tie of the test above, with its second triangle given twice.
    let positions = vec![
        Vec3::new(0, 0, 0),
        Vec3::new(0, 0, 10),
        Vec3::new(10, 0, 0),
        Vec3::new(0, 0, -10),
        Vec3::new(-10, 0, 0),
    ];
    let indices: Vec<usize> = vec![0, 1, 2, 0, 3, 4, 0, 3, 4];
    let result = NavMesh::build(&positions, &indices);
    assert_eq!(result.err(), Some(NavBuildError::DuplicateHalfEdge { first: 3, second: 6 }));
}

#[test]
fn faces_hold_plane_and_centre() {
    let mesh = one_triangle();
    let face = mesh.faces[0];
    // (0, 3, 30) x (30, 6, 0) = (3 * 0 - 30 * 6, 30 * 30 - 0 * 0, 0 * 6 - 3 * 30)
    assert_eq!(face.plane.normal, Vec3::new(-180, 900, -90));
    // (-180, 900, -90) . (0, 3, 0)
    assert_eq!(face.plane.length, 2700);
    // The mean of (0, 3, 0), (0, 6, 30), (30, 9, 0).
    assert_eq!(face.center, Vec3::new(10, 6, 10));
    let floor = l_shaped_floor();
    assert_eq!(floor.faces[0].center, Vec3::new(10, 0, 20));
    assert_eq!(floor.faces[1].center, Vec3::new(20, 0, 10));
}

#[test]
fn edge_loop_lists_edges_and_vertices() {
    let mesh = l_shaped_floor();
    let round = mesh.iter_edge_loop(7);
    assert_eq!(round.len(), 3);
    assert_eq!(round[0].0, 7);
    assert_eq!(round[1].0, 8);
    assert_eq!(round[2].0, 6);
    assert_eq!(round[0].1.vertex, 4);
    assert_eq!(round[1].1.vertex, 5);
    assert_eq!(round[2].1.vertex, 1);
    assert_eq!(round[2].1.twin, Some(4));
    let corners = mesh.iter_edge_loop_vertices(7);
    assert_eq!(corners.len(), 3);
    assert_eq!(corners[0].0, 4);
    assert_eq!(corners[1].0, 5);
    assert_eq!(corners[2].0, 1);
    assert_eq!(corners[1].1.position, Vec3::new(60, 0, 30));
    assert_eq!(corners[2].1.outgoing_barrier, Some(5));
}

#[test]
fn edge_positions() {
    let mesh = one_triangle();
    assert_eq!(mesh.edge_vertex_positions(0), (Vec3::new(0, 3, 0), Vec3::new(0, 6, 30)));
    assert_eq!(mesh.edge_vertex_positions(1), (Vec3::new(0, 6, 30), Vec3::new(30, 9, 0)));
    assert_eq!(mesh.edge_vertex_positions(2), (Vec3::new(30, 9, 0), Vec3::new(0, 3, 0)));
    assert_eq!(mesh.projected_edge_vertex_positions(1), (Vec2::new(0, 30), Vec2::new(30, 0)));
}

#[test]
fn edge_normals_point_out_of_the_face() {
    let mesh = one_triangle();
    assert_eq!(mesh.projected_edge_normal(0), Vec2::new(-30, 0));
    assert_eq!(mesh.projected_edge_normal(1), Vec2::new(30, 30));
    assert_eq!(mesh.projected_edge_normal(2), Vec2::new(0, -30));
    // The centre of the face is inside every edge.
    let inside = Vec2::new(9, 9);
    for e in 0..3 {
        let (start, _) = mesh.projected_edge_vertex_positions(e);
        assert!(mesh.projected_edge_normal(e).dot(inside.minus(start)) < 0);
    }
}

#[test]
fn distance_is_positive_outside_and_negative_inside() {
    let mesh = one_triangle();
    // From the edge 0, of length 30 and with the outward direction (-30, 0).
    let outside = mesh.distance_to_projected_edge(0, Vec2::new(-9, 12));
    assert_eq!(outside.numerator, 270);
    assert_eq!(outside.length_squared, 900);
    let inside = mesh.distance_to_projected_edge(0, Vec2::new(6, 12));
    assert_eq!(inside.numerator, -180);
    let on_line = mesh.distance_to_projected_edge(0, Vec2::new(0, 120));
    assert_eq!(on_line.numerator, 0);
    // From the slanted edge, of length sqrt(1800): (30, 30) . ((24, 24) - (0, 30)) = 540.
    let slanted = mesh.distance_to_projected_edge(1, Vec2::new(24, 24));
    assert_eq!(slanted.numerator, 540);
    assert_eq!(slanted.length_squared, 1800);
}

#[test]
fn distances_compare_exactly() {
    let mesh = one_triangle();
    // 9 from the edge of length 30, against 540 / sqrt(1800) = 12.7 from the slanted edge.
    let three = mesh.distance_to_projected_edge(0, Vec2::new(-9, 12));
    let slanted = mesh.distance_to_projected_edge(1, Vec2::new(24, 24));
    assert!(three.is_less_than(slanted));
    assert!(!slanted.is_less_than(three));
    assert!(!three.is_less_than(three));
    // 15 from the edge of length 30 is farther than 12.7.
    let five = mesh.distance_to_projected_edge(0, Vec2::new(-15, 12));
    assert!(slanted.is_less_than(five));
    // Negative distances come before positive ones, and the more negative first.
    let inside = mesh.distance_to_projected_edge(0, Vec2::new(6, 12));
    let deeper = mesh.distance_to_projected_edge(0, Vec2::new(12, 12));
    assert!(inside.is_less_than(three));
    assert!(!three.is_less_than(inside));
    assert!(deeper.is_less_than(inside));
    assert!(!inside.is_less_than(deeper));
}

#[test]
fn loop_contains_points_of_the_triangle() {
    let mesh = one_triangle();
    assert!(mesh.projected_edge_loop_contains(0, Vec2::new(9, 9)));
    assert!(mesh.projected_edge_loop_contains(0, Vec2::new(0, 0)));
    assert!(mesh.projected_edge_loop_contains(0, Vec2::new(15, 15)));
    assert!(mesh.projected_edge_loop_contains(1, Vec2::new(9, 9)));
    assert!(!mesh.projected_edge_loop_contains(0, Vec2::new(18, 15)));
    assert!(!mesh.projected_edge_loop_contains(0, Vec2::new(-3, 9)));
    assert!(!mesh.projected_edge_loop_contains(0, Vec2::new(9, -3)));
}

#[test]
fn every_centre_lies_in_its_face() {
    let mesh = l_shaped_floor();
    for face in mesh.faces.iter() {
        assert!(mesh.projected_edge_loop_contains(face.start_edge, face.center.to_xz()));
    }
    let single = one_triangle();
    assert!(single.projected_edge_loop_contains(0, single.faces[0].center.to_xz()));
}

#[test]
fn centre_of_a_sliver_lies_in_it() {
    // Twice the area of this triangle is 9 on the mesh's lattice: it is half a step high.
    let positions = vec![Vec3::new(0, 0, 0), Vec3::new(3, 0, 1), Vec3::new(4, 0, 1)];
    let indices: Vec<usize> = vec![0, 1, 2];
    let mesh = NavMesh::build(&positions, &indices).unwrap();
    assert_eq!(mesh.vertices[1].position, Vec3::new(9, 0, 3));
    assert_eq!(mesh.faces[0].center, Vec3::new(7, 0, 2));
    assert!(mesh.projected_edge_loop_contains(0, Vec2::new(7, 2)));
    // The centre lies strictly inside: one step off it towards each side is outside.
    assert!(!mesh.projected_edge_loop_contains(0, Vec2::new(7, 3)));
    assert!(!mesh.projected_edge_loop_contains(0, Vec2::new(7, 1)));
}

#[test]
fn centre_of_a_face_without_area_lies_on_it() {
    // Three corners in one line.
    let positions = vec![Vec3::new(0, 0, 0), Vec3::new(2, 0, 1), Vec3::new(4, 0, 2)];
    let indices: Vec<usize> = vec![0, 1, 2];
    let mesh = NavMesh::build(&positions, &indices).unwrap();
    assert_eq!(mesh.faces[0].center, Vec3::new(6, 0, 3));
    assert!(mesh.projected_edge_loop_contains(0, Vec2::new(6, 3)));
}

#[test]
fn centre_of_a_clockwise_face_is_outside_every_edge() {
    // The corners of the single triangle, in the other order.
    let positions = vec![Vec3::new(0, 1, 0), Vec3::new(10, 3, 0), Vec3::new(0, 2, 10)];
    let indices: Vec<usize> = vec![0, 1, 2];
    let mesh = NavMesh::build(&positions, &indices).unwrap();
    let centre = mesh.faces[0].center.to_xz();
    assert_eq!(centre, Vec2::new(10, 10));
    assert!(!mesh.projected_edge_loop_contains(0, centre));
    for e in 0..3 {
        assert!(mesh.distance_to_projected_edge(e, centre).numerator > 0);
    }
}

#[test]
fn incoming_barrier_is_found_round_the_corner() {
    let mesh = l_shaped_floor();
    // Round vertex 4 the walk passes the edges 6, 3 and 1 before it meets the barrier 16.
    assert_eq!(mesh.incoming_barrier(7), 16);
    // Round vertex 1: past the edges 4 and 8 to the barrier 11.
    assert_eq!(mesh.incoming_barrier(5), 11);
    // In the corners of the floor the edge before the barrier is itself a barrier.
    assert_eq!(mesh.incoming_barrier(13), 12);
    assert_eq!(mesh.incoming_barrier(0), 5);
    for vertex in mesh.vertices.iter() {
        let outgoing = vertex.outgoing_barrier.unwrap();
        let incoming = mesh.incoming_barrier(outgoing);
        assert_eq!(mesh.edges[incoming].twin, None);
        assert_eq!(mesh.edges[mesh.edges[incoming].next].vertex, mesh.edges[outgoing].vertex);
    }
}
