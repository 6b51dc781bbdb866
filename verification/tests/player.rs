use navmesh::nav::NavMesh;
use navmesh::player_controller::{PlayerController, Stride};
use navmesh::vector::{Vec2, Vec3};

/// A square that is folded along its diagonal. On the mesh's lattice, three
/// times as fine as that of the positions, its side is 30 and the diagonal
/// runs from (0, 0) to (30, 30): face 0, towards (0, 30), rises to the height
/// 15 there; face 1, towards (30, 0), rises to the height 30 there.
fn folded_square() -> NavMesh {
    let positions = vec![
        Vec3::new(0, 0, 0),
        Vec3::new(10, 10, 0),
        Vec3::new(0, 5, 10),
        Vec3::new(10, 10, 10),
    ];
    let indices: Vec<usize> = vec![0, 2, 3, 0, 3, 1];
    NavMesh::build(&positions, &indices).unwrap()
}

/// A square in the plane x = 0: seen from above it is a line.
fn upright_square() -> NavMesh {
    let positions = vec![
        Vec3::new(0, 0, 0),
        Vec3::new(0, 10, 0),
        Vec3::new(0, 0, 10),
        Vec3::new(0, 10, 10),
    ];
    let indices: Vec<usize> = vec![0, 2, 3, 0, 3, 1];
    NavMesh::build(&positions, &indices).unwrap()
}

fn stride() -> Stride {
    Stride {
        forward: Vec3::new(0, 3, -9),
        right: Vec3::new(6, 0, 0),
        ground_forward: Vec2::new(-6, 18),
        ground_right: Vec2::new(3, 0),
        player_height: 6,
    }
}

#[test]
fn new_player_stands_still_on_the_ground() {
    let player = PlayerController::new();
    assert!(!player.go_forward);
    assert!(!player.go_backward);
    assert!(!player.go_left);
    assert!(!player.go_right);
    assert!(!player.go_fast);
    assert!(!player.fly_mode);
    assert_eq!(player.nav_face(), None);
}

#[test]
fn toggle_fly_mode_forgets_the_face() {
    let mut player = PlayerController::new();
    player.set_face(3);
    player.go_left = true;
    assert_eq!(player.nav_face(), Some(3));
    player.toggle_fly_mode();
    assert!(player.fly_mode);
    assert_eq!(player.nav_face(), None);
    assert!(player.go_left);
    player.set_face(4);
    player.toggle_fly_mode();
    assert!(!player.fly_mode);
    assert_eq!(player.nav_face(), Some(4));
    assert!(player.go_left);
}

#[test]
fn flight_follows_the_intent() {
    let mesh = folded_square();
    let mut player = PlayerController::new();
    player.toggle_fly_mode();
    let at = Vec3::new(300, 150, -60);
    assert_eq!(player.update(at, &stride(), &mesh), at);
    player.go_forward = true;
    assert_eq!(player.update(at, &stride(), &mesh), Vec3::new(300, 153, -69));
    player.go_right = true;
    assert_eq!(player.update(at, &stride(), &mesh), Vec3::new(306, 153, -69));
    player.go_fast = true;
    assert_eq!(player.update(at, &stride(), &mesh), Vec3::new(312, 156, -78));
    player.go_forward = false;
    player.go_backward = true;
    player.go_right = false;
    player.go_left = true;
    assert_eq!(player.update(at, &stride(), &mesh), Vec3::new(288, 144, -42));
    assert_eq!(player.nav_face(), None);
    assert!(player.fly_mode);
}

#[test]
fn opposed_intents_cancel() {
    let mesh = folded_square();
    let mut player = PlayerController::new();
    player.toggle_fly_mode();
    player.go_forward = true;
    player.go_backward = true;
    player.go_left = true;
    let at = Vec3::new(3, 6, 9);
    assert_eq!(player.update(at, &stride(), &mesh), Vec3::new(-3, 6, 9));
}

#[test]
fn walk_crosses_onto_the_neighbouring_face() {
    let mesh = folded_square();
    let mut player = PlayerController::new();
    player.set_face(1);
    player.go_forward = true;
    // From (18, 6) on face 1 by (-6, 18) to (12, 24) on face 0, whose plane is at the height 18 there.
    let at = player.update(Vec3::new(18, 24, 6), &stride(), &mesh);
    assert_eq!(player.nav_face(), Some(0));
    assert_eq!(at, Vec3::new(12, 24, 24));
    let plane = mesh.faces[0].plane;
    assert_eq!(plane.normal.dot(at.minus(Vec3::from_y(6))), plane.length);
}

#[test]
fn walk_within_the_face_follows_its_plane() {
    let mesh = folded_square();
    let mut player = PlayerController::new();
    player.set_face(1);
    player.go_right = true;
    // Face 1 lies in the plane y = x.
    let at = player.update(Vec3::new(18, 24, 6), &stride(), &mesh);
    assert_eq!(player.nav_face(), Some(1));
    assert_eq!(at, Vec3::new(21, 27, 6));
    player.go_fast = true;
    let faster = player.update(at, &stride(), &mesh);
    assert_eq!(faster, Vec3::new(27, 33, 6));
}

#[test]
fn walk_is_held_back_by_barriers() {
    let mesh = folded_square();
    let mut player = PlayerController::new();
    player.set_face(1);
    player.go_backward = true;
    // From (18, 6) by (6, -18) to (24, -12): twelve steps beyond the barrier along the x axis.
    let at = player.update(Vec3::new(18, 24, 6), &stride(), &mesh);
    assert_eq!(at, Vec3::new(24, 30, 0));
    assert_eq!(player.nav_face(), Some(1));
}

#[test]
fn standing_still_keeps_place_and_face() {
    let mesh = folded_square();
    let mut player = PlayerController::new();
    player.set_face(1);
    let at = player.update(Vec3::new(18, 24, 6), &stride(), &mesh);
    assert_eq!(at, Vec3::new(18, 24, 6));
    assert_eq!(player.nav_face(), Some(1));
}

#[test]
fn first_walk_finds_a_face() {
    let mesh = folded_square();
    let mut player = PlayerController::new();
    // The feet are at (10, 15, 20), at the centre of face 0.
    let at = player.update(Vec3::new(10, 21, 20), &stride(), &mesh);
    assert_eq!(player.nav_face(), Some(0));
    assert_eq!(at, Vec3::new(10, 21, 20));
    // After a flight the face is found again, here by the vertex at (30, 30, 0).
    player.toggle_fly_mode();
    player.toggle_fly_mode();
    assert_eq!(player.nav_face(), None);
    let landed = player.update(Vec3::new(30, 36, 3), &stride(), &mesh);
    assert_eq!(player.nav_face(), Some(1));
    assert_eq!(landed, Vec3::new(30, 36, 3));
}

#[test]
fn upright_face_keeps_the_height() {
    let mesh = upright_square();
    let mut player = PlayerController::new();
    player.set_face(0);
    let at = player.update(Vec3::new(0, 99, 12), &stride(), &mesh);
    assert_eq!(at, Vec3::new(0, 99, 12));
}

#[test]
fn flight_ends_at_the_border_of_the_lattice() {
    let mesh = folded_square();
    let mut player = PlayerController::new();
    player.toggle_fly_mode();
    player.go_right = true;
    let limit = navmesh::vector::COORD_LIMIT;
    // Five steps short of the border the stride of 6 would take the agent beyond it.
    let near = Vec3::new(limit - 5, 0, 0);
    assert_eq!(player.update(near, &stride(), &mesh), near);
    // Six steps short it reaches the border.
    let short = Vec3::new(limit - 6, 0, 0);
    assert_eq!(player.update(short, &stride(), &mesh), Vec3::new(limit, 0, 0));
    player.go_right = false;
    player.go_left = true;
    assert_eq!(player.update(Vec3::new(limit, 0, 0), &stride(), &mesh), short);
}

#[test]
fn walk_that_would_rise_out_of_the_lattice_is_not_made() {
    // A level floor of side 30, at the height 600000 of the mesh's lattice.
    let positions = vec![
        Vec3::new(0, 200000, 0),
        Vec3::new(10, 200000, 0),
        Vec3::new(0, 200000, 10),
        Vec3::new(10, 200000, 10),
    ];
    let indices: Vec<usize> = vec![0, 2, 3, 0, 3, 1];
    let mesh = NavMesh::build(&positions, &indices).unwrap();
    let mut player = PlayerController::new();
    player.go_right = true;
    let tall = Stride {
        forward: Vec3::zero(),
        right: Vec3::zero(),
        ground_forward: Vec2::zero(),
        ground_right: Vec2::new(1, 0),
        player_height: 500000,
    };
    // An agent of the height 500000 would stand at 1100000, beyond the lattice.
    let at = Vec3::new(15, 1000000, 9);
    assert_eq!(player.update(at, &tall, &mesh), at);
    assert_eq!(player.nav_face(), None);
    // One of the height 400000 stands at 1000000.
    let short = Stride { player_height: 400000, ..tall };
    assert_eq!(player.update(at, &short, &mesh), Vec3::new(16, 1000000, 9));
    assert_eq!(player.nav_face(), Some(1));
}
