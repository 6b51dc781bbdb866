use navmesh::nav::NavMesh;
use navmesh::player_controller::{
    get_approx_nearest_nav_face,
    projected_plane_rejection,
    slide_player_along_barriers,
    transition_player_across_edges,
};
use navmesh::util::{intersect_plane, plane_is_in_reach};
use navmesh::vector::{Plane, Vec2, Vec3};

/// An L-shaped floor of three squares, two triangles each. On the mesh's
/// lattice, three times as fine as that of the positions, the squares have
/// the side 30, and vertex 4, at (30, 30), is the corner round which the
/// floor reaches.
fn floor_round_a_corner() -> NavMesh {
    let positions = vec![
        Vec3::new(0, 0, 0),
        Vec3::new(10, 0, 0),
        Vec3::new(20, 0, 0),
        Vec3::new(0, 0, 10),
        Vec3::new(10, 0, 10),
        Vec3::new(20, 0, 10),
        Vec3::new(0, 0, 20),
        Vec3::new(10, 0, 20),
    ];
    let indices: Vec<usize> = vec![0, 3, 4, 0, 4, 1, 1, 4, 5, 1, 5, 2, 3, 6, 7, 3, 7, 4];
    NavMesh::build(&positions, &indices).unwrap()
}

/// One triangle whose third edge, from (30, 0) to (0, 0) on the mesh's
/// lattice, runs along the x axis.
fn triangle_on_the_x_axis() -> NavMesh {
    let positions = vec![Vec3::new(0, 0, 0), Vec3::new(5, 0, 10), Vec3::new(10, 0, 0)];
    let indices: Vec<usize> = vec![0, 1, 2];
    NavMesh::build(&positions, &indices).unwrap()
}

/// One right triangle with its right angle at the origin and its legs, of
/// the length 30 on the mesh's lattice, along the axes.
fn room_corner() -> NavMesh {
    let positions = vec![Vec3::new(0, 0, 0), Vec3::new(0, 0, 10), Vec3::new(10, 0, 0)];
    let indices: Vec<usize> = vec![0, 1, 2];
    NavMesh::build(&positions, &indices).unwrap()
}

/// A square that is folded along its diagonal. On the mesh's lattice its
/// side is 30 and the diagonal runs from (0, 0) to (30, 30): face 0, towards
/// (0, 30), rises to the height 15 there; face 1, towards (30, 0), rises to
/// the height 30 there.
fn folded_square() -> NavMesh {
    let positions = vec![
        Vec3::new(0, 0, 0),
        Vec3::new(10, 10, 0),
        Vec3::new(0, 5, 10),
        Vec3::new(10, 10, 10),
    ];
    let indices: Vec<usize> = vec![0, 2, 3, 0, 3, 1];
    NavMesh::build(&positions, &indices).unwrap()
}

#[test]
fn rejection_is_zero_inside_the_wall() {
    let start = Vec2::new(10, 0);
    let end = Vec2::new(0, 0);
    assert_eq!(projected_plane_rejection(start, end, Vec2::new(6, 3)), Vec2::zero());
    assert_eq!(projected_plane_rejection(start, end, Vec2::new(6, 0)), Vec2::zero());
    assert_eq!(projected_plane_rejection(start, end, Vec2::new(-50, 0)), Vec2::zero());
}

#[test]
fn rejection_cancels_what_crosses_an_axis_wall() {
    let start = Vec2::new(10, 0);
    let end = Vec2::new(0, 0);
    assert_eq!(projected_plane_rejection(start, end, Vec2::new(6, -3)), Vec2::new(0, 3));
    assert_eq!(projected_plane_rejection(start, end, Vec2::new(-40, -1)), Vec2::new(0, 1));
    // A wall along the other axis, from (0, 0) to (0, 10): outside is where x is negative.
    let up = Vec2::new(0, 10);
    assert_eq!(projected_plane_rejection(end, up, Vec2::new(-7, 4)), Vec2::new(7, 0));
    assert_eq!(projected_plane_rejection(end, up, Vec2::new(7, 4)), Vec2::zero());
}

#[test]
fn rejection_from_a_slanted_wall() {
    // The wall from (0, 10) to (10, 0) has the outward direction (10, 10).
    let start = Vec2::new(0, 10);
    let end = Vec2::new(10, 0);
    // (8, 8) lies 60 / 200 of the normal beyond the wall: back by (3, 3), onto the wall.
    assert_eq!(projected_plane_rejection(start, end, Vec2::new(8, 8)), Vec2::new(-3, -3));
    // (6, 5) lies 10 / 200 of the normal beyond: half a step, rounded away from zero.
    assert_eq!(projected_plane_rejection(start, end, Vec2::new(6, 5)), Vec2::new(-1, -1));
}

#[test]
fn rejected_point_is_never_beyond_the_wall() {
    let start = Vec2::new(0, 0);
    let end = Vec2::new(5, 10);
    let normal = end.minus(start).perp();
    for x in -12..12 {
        for y in -12..12 {
            let point = Vec2::new(x, y);
            let back = projected_plane_rejection(start, end, point);
            let landed = point.plus(back);
            let depth = normal.dot(landed.minus(start));
            assert!(depth <= 0, "{:?} lands beyond the wall at {:?}", point, landed);
            if normal.dot(point.minus(start)) > 0 {
                assert!(depth > -15, "{:?} lands far behind the wall at {:?}", point, landed);
            } else {
                assert_eq!(back, Vec2::zero());
            }
        }
    }
}

#[test]
fn rejection_of_a_wall_without_length_is_zero() {
    let corner = Vec2::new(4, 4);
    assert_eq!(projected_plane_rejection(corner, corner, Vec2::new(9, -9)), Vec2::zero());
}

#[test]
fn slide_without_movement_stays() {
    let mesh = floor_round_a_corner();
    for face in 0..mesh.faces.len() {
        for start in [Vec2::new(9, 9), Vec2::new(-21, 120), Vec2::new(30, 30)] {
            assert_eq!(slide_player_along_barriers(&mesh, face, start, Vec2::zero()), start);
        }
    }
}

#[test]
fn slide_inside_the_face_moves_freely() {
    let mesh = triangle_on_the_x_axis();
    let end = slide_player_along_barriers(&mesh, 0, Vec2::new(15, 6), Vec2::new(3, 9));
    assert_eq!(end, Vec2::new(18, 15));
}

#[test]
fn slide_along_a_straight_barrier() {
    let mesh = triangle_on_the_x_axis();
    // The movement would end at (18, -9), nine steps beyond the barrier along the x axis.
    let end = slide_player_along_barriers(&mesh, 0, Vec2::new(15, 6), Vec2::new(3, -15));
    assert_eq!(end, Vec2::new(18, 0));
    // Again from there: the agent slides along the barrier.
    let again = slide_player_along_barriers(&mesh, 0, end, Vec2::new(3, -15));
    assert_eq!(again, Vec2::new(21, 0));
}

#[test]
fn slide_into_a_room_corner_ends_in_the_corner() {
    let mesh = room_corner();
    let end = slide_player_along_barriers(&mesh, 0, Vec2::new(9, 9), Vec2::new(-15, -15));
    assert_eq!(end, Vec2::new(0, 0));
    let skew = slide_player_along_barriers(&mesh, 0, Vec2::new(9, 6), Vec2::new(-12, -27));
    assert_eq!(skew, Vec2::new(0, 0));
}

#[test]
fn slide_along_one_wall_of_a_room_corner() {
    let mesh = room_corner();
    // Beyond the wall along the z axis only: the movement along that wall stays.
    let end = slide_player_along_barriers(&mesh, 0, Vec2::new(9, 9), Vec2::new(-15, 6));
    assert_eq!(end, Vec2::new(0, 15));
}

#[test]
fn slide_round_a_convex_corner_takes_the_smaller_correction() {
    let mesh = floor_round_a_corner();
    // From face 1 to (33, 36): 3 beyond the barrier that ends at the corner,
    // 6 beyond the barrier that starts there. Only the 3 are taken back.
    let end = slide_player_along_barriers(&mesh, 1, Vec2::new(27, 24), Vec2::new(6, 12));
    assert_eq!(end, Vec2::new(30, 36));
    // To (39, 33): 9 beyond the one, 3 beyond the other. Only the 3 are taken back.
    let other = slide_player_along_barriers(&mesh, 1, Vec2::new(27, 24), Vec2::new(12, 9));
    assert_eq!(other, Vec2::new(39, 30));
}

#[test]
fn slide_round_a_convex_corner_on_equal_depths_takes_the_outgoing_barrier() {
    let mesh = floor_round_a_corner();
    // To (36, 36): 6 beyond both barriers.
    let end = slide_player_along_barriers(&mesh, 1, Vec2::new(27, 24), Vec2::new(9, 12));
    assert_eq!(end, Vec2::new(36, 30));
}

#[test]
fn slide_past_a_convex_corner_is_free_beside_it() {
    let mesh = floor_round_a_corner();
    // (36, 27) is beyond the barrier that ends at the corner, but not beyond the other.
    let end = slide_player_along_barriers(&mesh, 1, Vec2::new(27, 24), Vec2::new(9, 3));
    assert_eq!(end, Vec2::new(36, 27));
}

#[test]
fn transition_stays_inside_the_face() {
    let mesh = folded_square();
    assert_eq!(transition_player_across_edges(&mesh, 1, Vec2::new(18, 6)), 1);
    assert_eq!(transition_player_across_edges(&mesh, 0, Vec2::new(6, 18)), 0);
}

#[test]
fn transition_crosses_an_inner_edge() {
    let mesh = folded_square();
    assert_eq!(transition_player_across_edges(&mesh, 1, Vec2::new(12, 24)), 0);
    assert_eq!(transition_player_across_edges(&mesh, 0, Vec2::new(24, 12)), 1);
    // On the shared edge the agent is handed over.
    assert_eq!(transition_player_across_edges(&mesh, 1, Vec2::new(15, 15)), 0);
    assert_eq!(transition_player_across_edges(&mesh, 0, Vec2::new(15, 15)), 1);
}

#[test]
fn transition_does_not_cross_barriers() {
    let mesh = folded_square();
    // Beyond the barrier along the x axis, and inside the shared edge.
    assert_eq!(transition_player_across_edges(&mesh, 1, Vec2::new(18, -6)), 1);
    let single = triangle_on_the_x_axis();
    assert_eq!(transition_player_across_edges(&single, 0, Vec2::new(18, -9)), 0);
}

#[test]
fn transition_takes_the_nearest_crossed_edge() {
    let mesh = floor_round_a_corner();
    // From face 1, (30, 36) lies on the line of the edge 4 and beyond that of the edge 3.
    assert_eq!(transition_player_across_edges(&mesh, 1, Vec2::new(30, 36)), 2);
    // (36, 42) lies 6 beyond the edge 4 and 180 / sqrt(1800) = 4.24 beyond the edge 3.
    assert_eq!(transition_player_across_edges(&mesh, 1, Vec2::new(36, 42)), 0);
    // (36, 39) lies 6 beyond the edge 4 and 90 / sqrt(1800) = 2.12 beyond the edge 3.
    assert_eq!(transition_player_across_edges(&mesh, 1, Vec2::new(36, 39)), 0);
    // (33, 39) lies 3 beyond the edge 4 and 180 / sqrt(1800) = 4.24 beyond the edge 3.
    assert_eq!(transition_player_across_edges(&mesh, 1, Vec2::new(33, 39)), 2);
}

#[test]
fn transition_on_equal_distances_takes_the_first_edge() {
    let mesh = floor_round_a_corner();
    // The corner (30, 30) lies on the lines of both inner edges of face 1, edge 3 before edge 4.
    assert_eq!(transition_player_across_edges(&mesh, 1, Vec2::new(30, 30)), 0);
    // And of both inner edges of face 0, edge 1 before edge 2.
    assert_eq!(transition_player_across_edges(&mesh, 0, Vec2::new(30, 30)), 5);
}

#[test]
fn nearest_face_by_centre_or_by_vertex() {
    let mesh = floor_round_a_corner();
    // At the centre of face 1.
    assert_eq!(get_approx_nearest_nav_face(&mesh, Vec3::new(20, 0, 10)), 1);
    // Next to vertex 0, whose first outgoing edge belongs to face 0.
    assert_eq!(get_approx_nearest_nav_face(&mesh, Vec3::new(3, 0, 6)), 0);
    // Next to vertex 2, whose first outgoing edge is the edge 11 of face 3.
    assert_eq!(get_approx_nearest_nav_face(&mesh, Vec3::new(63, 0, -3)), 3);
    // At the centre of face 4, far above it: the centre is still nearer than any vertex.
    assert_eq!(get_approx_nearest_nav_face(&mesh, Vec3::new(10, 120, 50)), 4);
}

#[test]
fn nearest_face_on_equal_distances() {
    let mesh = floor_round_a_corner();
    // (30, 30) is vertex 4 itself: no centre is nearer, and its first edge lies in face 0.
    assert_eq!(get_approx_nearest_nav_face(&mesh, Vec3::new(30, 0, 30)), 0);
    // (15, 15) is as far from the centres (10, 20) and (20, 10): the first of them is taken.
    assert_eq!(get_approx_nearest_nav_face(&mesh, Vec3::new(15, 0, 15)), 0);
}

#[test]
fn line_meets_plane() {
    let plane = Plane::from_points(Vec3::new(0, 0, 0), Vec3::new(0, 5, 10), Vec3::new(10, 10, 10));
    let up = Vec3::new(0, 1, 0);
    let down = Vec3::new(0, -1, 0);
    assert_eq!(intersect_plane(plane, Vec3::new(4, 0, 8), up), Some(Vec3::new(4, 6, 8)));
    assert_eq!(intersect_plane(plane, Vec3::new(4, 0, 8), down), Some(Vec3::new(4, 6, 8)));
    assert_eq!(intersect_plane(plane, Vec3::new(4, 90, 8), down), Some(Vec3::new(4, 6, 8)));
    assert_eq!(intersect_plane(plane, Vec3::new(4, 6, 8), up), Some(Vec3::new(4, 6, 8)));
    // A longer direction gives the same point.
    assert_eq!(intersect_plane(plane, Vec3::new(4, 0, 8), Vec3::new(0, 7, 0)), Some(Vec3::new(4, 6, 8)));
}

#[test]
fn line_meets_plane_between_lattice_points() {
    let plane = Plane::from_points(Vec3::new(0, 0, 0), Vec3::new(0, 5, 10), Vec3::new(10, 10, 10));
    let up = Vec3::new(0, 1, 0);
    // Over (5, 8) the plane is at the height 6.5, over (5, 6) at 5.5, over (1, 0) at 0.5.
    assert_eq!(intersect_plane(plane, Vec3::new(5, 0, 8), up), Some(Vec3::new(5, 7, 8)));
    assert_eq!(intersect_plane(plane, Vec3::new(5, 0, 6), up), Some(Vec3::new(5, 6, 6)));
    assert_eq!(intersect_plane(plane, Vec3::new(-1, 0, 0), up), Some(Vec3::new(-1, -1, 0)));
    // Over (1, 2) it is at 1.5 exactly; over (2, 2) at 2.
    assert_eq!(intersect_plane(plane, Vec3::new(2, 0, 2), up), Some(Vec3::new(2, 2, 2)));
}

#[test]
fn slanted_line_meets_plane() {
    // The plane x = 5.
    let plane = Plane { normal: Vec3::new(1, 0, 0), length: 5 };
    let met = intersect_plane(plane, Vec3::new(0, 0, 0), Vec3::new(1, 50, 0));
    assert_eq!(met, Some(Vec3::new(5, 250, 0)));
    let back = intersect_plane(plane, Vec3::new(9, 1, 1), Vec3::new(2, 0, -1));
    assert_eq!(back, Some(Vec3::new(5, 1, 3)));
}

#[test]
fn line_along_the_plane_meets_nothing() {
    let floor = Plane { normal: Vec3::new(0, 1, 0), length: 0 };
    assert_eq!(intersect_plane(floor, Vec3::new(1, 2, 3), Vec3::new(1, 0, 0)), None);
    assert_eq!(intersect_plane(floor, Vec3::new(1, 0, 3), Vec3::new(1, 0, 1)), None);
    let wall = Plane::from_points(Vec3::new(0, 0, 0), Vec3::new(0, 10, 0), Vec3::new(10, 0, 0));
    assert_eq!(intersect_plane(wall, Vec3::new(4, 0, 8), Vec3::new(0, 1, 0)), None);
}

#[test]
fn line_nearly_along_the_plane_meets_nothing() {
    let plane = Plane { normal: Vec3::new(1, 0, 0), length: 5 };
    // The sine of the angle is 1 / sqrt(1 + 200^2), below one hundredth.
    assert_eq!(intersect_plane(plane, Vec3::new(0, 0, 0), Vec3::new(1, 200, 0)), None);
    // At 1 / sqrt(1 + 99^2) it is just above.
    assert_eq!(
        intersect_plane(plane, Vec3::new(0, 0, 0), Vec3::new(1, 99, 0)),
        Some(Vec3::new(5, 495, 0))
    );
    // At 1 / sqrt(1 + 100^2) it is just below.
    assert_eq!(intersect_plane(plane, Vec3::new(0, 0, 0), Vec3::new(1, 100, 0)), None);
    assert_eq!(intersect_plane(plane, Vec3::new(0, 0, 0), Vec3::new(-1, 0, 100)), None);
}

#[test]
fn line_without_direction_meets_nothing() {
    let plane = Plane { normal: Vec3::new(0, 1, 0), length: 3 };
    assert_eq!(intersect_plane(plane, Vec3::new(1, 2, 3), Vec3::zero()), None);
    let no_plane = Plane { normal: Vec3::zero(), length: 0 };
    assert_eq!(intersect_plane(no_plane, Vec3::new(1, 2, 3), Vec3::new(0, 1, 0)), None);
}

#[test]
fn barriers_of_a_single_triangle() {
    let mesh = room_corner();
    // Each edge is a barrier, and each corner is concave: the edge, then the pair at its start.
    let barriers = navmesh::player_controller::barriers_around_face(&mesh, 0);
    assert_eq!(
        barriers,
        vec![
            (0, false),
            (2, true),
            (0, true),
            (1, false),
            (0, true),
            (1, true),
            (2, false),
            (1, true),
            (2, true),
        ]
    );
}

#[test]
fn barriers_round_a_face_at_a_convex_corner() {
    let mesh = floor_round_a_corner();
    // Face 1: the corner at vertex 0 is concave, that at vertex 4 convex, and at
    // vertex 1 the two barriers lie in one line. Only the edge 5 is itself a barrier.
    let barriers = navmesh::player_controller::barriers_around_face(&mesh, 1);
    assert_eq!(barriers, vec![(5, true), (0, true), (5, false), (11, true), (5, true)]);
    // Face 5: at vertex 3 the barriers 0 and 12 lie in one line, the edge 16 is a barrier
    // and starts in a concave corner, and the corner at vertex 4 is convex.
    let other = navmesh::player_controller::barriers_around_face(&mesh, 5);
    assert_eq!(other, vec![(0, true), (12, true), (16, false), (13, true), (16, true)]);
}

#[test]
fn plane_in_reach_of_the_intersection() {
    // The plane x = 1/2 holds no lattice point, and is in reach all the same.
    let half = Plane { normal: Vec3::new(2, 0, 0), length: 1 };
    assert!(plane_is_in_reach(&half));
    // From x = 7 the step is -6.5, from x = -7 it is 7.5: each is rounded away from zero.
    let along_x = Vec3::new(1, 0, 0);
    assert_eq!(intersect_plane(half, Vec3::new(7, 1, 1), along_x), Some(Vec3::new(0, 1, 1)));
    assert_eq!(intersect_plane(half, Vec3::new(-7, 1, 1), along_x), Some(Vec3::new(1, 1, 1)));
    // The length may be as large as the limit of points times the normal's coordinates.
    let limit = navmesh::vector::POINT_LIMIT as i128;
    assert!(plane_is_in_reach(&Plane { normal: Vec3::new(2, -1, 0), length: 3 * limit }));
    assert!(plane_is_in_reach(&Plane { normal: Vec3::new(2, -1, 0), length: -3 * limit }));
    assert!(!plane_is_in_reach(&Plane { normal: Vec3::new(2, -1, 0), length: 3 * limit + 1 }));
    assert!(!plane_is_in_reach(&Plane { normal: Vec3::zero(), length: 1 }));
    assert!(plane_is_in_reach(&Plane { normal: Vec3::zero(), length: 0 }));
    // A normal beyond the limit of normals is out of reach.
    let long = navmesh::util::NORMAL_LIMIT;
    assert!(plane_is_in_reach(&Plane { normal: Vec3::new(long, 0, 0), length: 0 }));
    assert!(!plane_is_in_reach(&Plane { normal: Vec3::new(long + 1, 0, 0), length: 0 }));
}

/// Whether `point` is beyond none of the barriers against which a movement is
/// held at the edge `edge`, the barrier `but` left aside.
fn step_is_clear(nav: &NavMesh, edge: usize, point: Vec2, but: Option<usize>) -> bool {
    let beyond = |barrier: usize| {
        Some(barrier) != but && nav.distance_to_projected_edge(barrier, point).numerator > 0
    };
    if nav.edges[edge].twin.is_none() && beyond(edge) {
        return false;
    }
    match nav.vertices[nav.edges[edge].vertex].outgoing_barrier {
        None => true,
        Some(outgoing) => !beyond(outgoing) && !beyond(nav.incoming_barrier(outgoing)),
    }
}

#[test]
fn straight_barrier_alone_holds_the_movement() {
    let mesh = triangle_on_the_x_axis();
    let start = Vec2::new(15, 6);
    let delta = Vec2::new(3, -15);
    let (wall_start, wall_end) = mesh.projected_edge_vertex_positions(2);
    let aimed = start.plus(delta);
    let held = aimed.plus(projected_plane_rejection(wall_start, wall_end, aimed));
    // Neither where the movement aims nor where the barrier holds it is any other barrier crossed.
    for edge in 0..3 {
        assert!(step_is_clear(&mesh, edge, aimed, Some(2)));
        assert!(step_is_clear(&mesh, edge, held, Some(2)));
    }
    assert!(mesh.distance_to_projected_edge(2, aimed).numerator > 0);
    let end = slide_player_along_barriers(&mesh, 0, start, delta);
    assert_eq!(end, held);
    assert_eq!(mesh.distance_to_projected_edge(2, end).numerator, 0);
    // What runs along the barrier stays.
    assert_eq!(end.x, start.x + delta.x);
}

#[test]
fn slanted_barrier_alone_holds_the_movement_within_a_step() {
    let mesh = triangle_on_the_x_axis();
    // Towards the edge 1, from (15, 30) to (30, 0), with the outward direction (30, 15).
    let start = Vec2::new(17, 10);
    let delta = Vec2::new(10, 4);
    let (wall_start, wall_end) = mesh.projected_edge_vertex_positions(1);
    let aimed = start.plus(delta);
    let held = aimed.plus(projected_plane_rejection(wall_start, wall_end, aimed));
    for edge in 0..3 {
        assert!(step_is_clear(&mesh, edge, aimed, Some(1)));
        assert!(step_is_clear(&mesh, edge, held, Some(1)));
    }
    // (30, 15) . ((27, 14) - (15, 30)) = 120 of 1125: back by (3.2, 1.6), rounded to (4, 2).
    assert_eq!(mesh.distance_to_projected_edge(1, aimed).numerator, 120);
    assert_eq!(held, Vec2::new(23, 12));
    let end = slide_player_along_barriers(&mesh, 0, start, delta);
    assert_eq!(end, held);
    let behind = mesh.distance_to_projected_edge(1, end).numerator;
    assert!(behind <= 0 && behind > -45);
}

#[test]
fn convex_corner_alone_holds_the_movement() {
    let mesh = floor_round_a_corner();
    let start = Vec2::new(27, 24);
    let delta = Vec2::new(6, 12);
    let aimed = start.plus(delta);
    // The edge 4 of face 1 starts at the convex corner, and has a twin.
    assert_eq!(mesh.edges[4].vertex, 4);
    assert!(mesh.edges[4].twin.is_some());
    let end = slide_player_along_barriers(&mesh, 1, start, delta);
    assert!(step_is_clear(&mesh, 3, aimed, None));
    assert!(step_is_clear(&mesh, 5, end, None));
    // The barrier 16 ends at the corner and is the nearer: it alone holds the movement.
    let (wall_start, wall_end) = mesh.projected_edge_vertex_positions(16);
    assert_eq!(end, aimed.plus(projected_plane_rejection(wall_start, wall_end, aimed)));
    assert_eq!(end, Vec2::new(30, 36));
}

#[test]
fn room_corner_alone_holds_the_movement() {
    let mesh = room_corner();
    let start = Vec2::new(9, 9);
    let delta = Vec2::new(-15, -15);
    let aimed = start.plus(delta);
    // The edge 0 starts in the corner at the origin; the barrier 2 ends there.
    assert_eq!(mesh.incoming_barrier(0), 2);
    assert!(mesh.distance_to_projected_edge(0, aimed).numerator > 0);
    assert!(mesh.distance_to_projected_edge(2, aimed).numerator > 0);
    let corner = mesh.projected_edge_vertex_positions(0).0;
    assert!(step_is_clear(&mesh, 1, corner, None));
    assert!(step_is_clear(&mesh, 2, corner, None));
    assert_eq!(slide_player_along_barriers(&mesh, 0, start, delta), corner);
}
