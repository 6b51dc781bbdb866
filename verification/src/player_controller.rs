//! Moving an agent over the navigation mesh: sliding along barriers, the
//! hand-over from face to face, and the per-frame state of the agent.

use vstd::prelude::*;
use crate::arith::{
    abs,
    div_away,
    div_away_exec,
    lemma_div_away_brackets,
    lemma_div_away_exact,
    lemma_div_away_within,
    lemma_product_bounds,
};
use crate::nav::{
    distance_less,
    EdgeDistance,
    NavFaceID,
    NavMesh,
    next_in_triangle,
    LENGTH_SQUARED_LIMIT,
    NUMERATOR_LIMIT,
};
use crate::util::{
    intersect_plane,
    intersection,
    lemma_intersection_within,
    lemma_vertical_intersection_is_on_plane,
};
use crate::vector::{
    lemma_dot2_bounds,
    lemma_norm_sq2_bounds,
    Point2,
    Point3,
    Vec2,
    Vec3,
    COORD_LIMIT,
    POINT_LIMIT,
};

verus! {

/// The larger of the magnitudes of a vector's two coordinates.
pub open spec fn reach(p: Point2) -> int {
    if abs(p.x) >= abs(p.y) {
        abs(p.x)
    } else {
        abs(p.y)
    }
}

/// The displacement that takes a point which lies `depth / |normal|` beyond
/// a wall back onto the wall, against the wall's outward `normal`: it is
/// `-normal * depth / |normal|^2`, each coordinate rounded away from zero.
/// A point that is not beyond the wall stays where it is.
pub open spec fn push_back(normal: Point2, depth: int) -> Point2 {
    if depth > 0 && normal.norm_sq() > 0 {
        Point2 {
            x: -div_away(normal.x * depth, normal.norm_sq()),
            y: -div_away(normal.y * depth, normal.norm_sq()),
        }
    } else {
        Point2::zero()
    }
}

/// The outward normal of the wall from `wall_start` to `wall_end`, as long
/// as the wall.
pub open spec fn wall_normal(wall_start: Point2, wall_end: Point2) -> Point2 {
    wall_end.minus(wall_start).perp()
}

/// How far `point` lies beyond the wall, multiplied by the wall's length.
pub open spec fn wall_depth(wall_start: Point2, wall_end: Point2, point: Point2) -> int {
    wall_normal(wall_start, wall_end).dot(point.minus(wall_start))
}

/// The displacement that removes from a movement to `point` what would cross
/// the wall from `wall_start` to `wall_end`, and leaves the movement along
/// the wall as it is.
pub open spec fn rejection(wall_start: Point2, wall_end: Point2, point: Point2) -> Point2 {
    push_back(wall_normal(wall_start, wall_end), wall_depth(wall_start, wall_end, point))
}

/// A push back is no longer, in either coordinate, than the depth it answers.
pub proof fn lemma_push_back_within_depth(normal: Point2, depth: int)
    ensures
        push_back(normal, depth).within(abs(depth)),
{
    if depth > 0 && normal.norm_sq() > 0 {
        let d = normal.norm_sq();
        assert(-(depth * d) <= normal.x * depth <= depth * d) by (nonlinear_arith)
            requires
                depth > 0,
                d == normal.x * normal.x + normal.y * normal.y,
        ;
        assert(-(depth * d) <= normal.y * depth <= depth * d) by (nonlinear_arith)
            requires
                depth > 0,
                d == normal.x * normal.x + normal.y * normal.y,
        ;
        lemma_div_away_within(normal.x * depth, d, depth);
        lemma_div_away_within(normal.y * depth, d, depth);
    }
}

/// The push back of a point that lies at `offset` from a point of the wall
/// is no longer, in either coordinate, than the sum of the magnitudes of the
/// offset's coordinates.
pub proof fn lemma_push_back_within_offset(normal: Point2, offset: Point2)
    ensures
        push_back(normal, normal.dot(offset)).within(abs(offset.x) + abs(offset.y)),
{
    let depth = normal.dot(offset);
    if depth > 0 && normal.norm_sq() > 0 {
        let d = normal.norm_sq();
        let q = abs(offset.x) + abs(offset.y);
        assert(-(q * d) <= normal.x * depth <= q * d) by (nonlinear_arith)
            requires
                depth == normal.x * offset.x + normal.y * offset.y,
                d == normal.x * normal.x + normal.y * normal.y,
                q == abs(offset.x) + abs(offset.y),
        ;
        assert(-(q * d) <= normal.y * depth <= q * d) by (nonlinear_arith)
            requires
                depth == normal.x * offset.x + normal.y * offset.y,
                d == normal.x * normal.x + normal.y * normal.y,
                q == abs(offset.x) + abs(offset.y),
        ;
        lemma_div_away_within(normal.x * depth, d, q);
        lemma_div_away_within(normal.y * depth, d, q);
    }
}

/// Computes the push back against `normal` of a point that lies
/// `depth / |normal|` beyond a wall.
fn push_back_exec(normal: Vec2, depth: i128) -> (r: Vec2)
    requires
        normal@.within(2 * COORD_LIMIT),
        -NUMERATOR_LIMIT <= depth <= NUMERATOR_LIMIT,
    ensures
        r@ == push_back(normal@, depth as int),
{
    let length_squared = normal.length_squared();
    if depth > 0 && length_squared > 0 {
        proof {
            lemma_norm_sq2_bounds(normal@, 2 * COORD_LIMIT);
            lemma_product_bounds(
                normal.x as int,
                depth as int,
                2 * COORD_LIMIT,
                NUMERATOR_LIMIT as int,
            );
            lemma_product_bounds(
                normal.y as int,
                depth as int,
                2 * COORD_LIMIT,
                NUMERATOR_LIMIT as int,
            );
            lemma_push_back_within_depth(normal@, depth as int);
            assert(2 * ((2 * COORD_LIMIT) * (2 * COORD_LIMIT)) <= LENGTH_SQUARED_LIMIT)
                by (nonlinear_arith);
            assert((2 * COORD_LIMIT) * NUMERATOR_LIMIT <= 0x1_0000_0000_0000_0000_0000_0000)
                by (nonlinear_arith);
        }
        let x = div_away_exec((normal.x as i128) * depth, length_squared);
        let y = div_away_exec((normal.y as i128) * depth, length_squared);
        Vec2 { x: (-x) as i64, y: (-y) as i64 }
    } else {
        Vec2 { x: 0, y: 0 }
    }
}

/// The displacement that removes from a movement to `point` what would cross
/// the wall from `wall_start` to `wall_end`.
pub fn projected_plane_rejection(wall_start: Vec2, wall_end: Vec2, point: Vec2) -> (r: Vec2)
    requires
        wall_start@.within(COORD_LIMIT as int),
        wall_end@.within(COORD_LIMIT as int),
        point@.within(POINT_LIMIT as int),
    ensures
        r@ == rejection(wall_start@, wall_end@, point@),
        r@.within(abs(point.x - wall_start.x) + abs(point.y - wall_start.y)),
{
    let wall_diff = wall_end.minus(wall_start);
    let normal = wall_diff.perp();
    let offset = point.minus(wall_start);
    proof {
        lemma_dot2_bounds(normal@, offset@, 2 * COORD_LIMIT, POINT_LIMIT + COORD_LIMIT);
        assert(2 * ((2 * COORD_LIMIT) * (POINT_LIMIT + COORD_LIMIT)) <= NUMERATOR_LIMIT)
            by (nonlinear_arith);
        lemma_push_back_within_offset(normal@, offset@);
    }
    let distance = normal.dot(offset);
    push_back_exec(normal, distance)
}

proof fn lemma_axis_push_with(c: int, depth: int, d: int, q: int)
    by (nonlinear_arith)
    requires
        c > 0,
        depth > 0,
        d > 0,
        c * depth >= 0 ==> c * depth <= q * d < c * depth + d,
    ensures
        (c * c) * depth <= (c * q) * d < (c * c) * depth + c * d,
{
}

proof fn lemma_axis_push_against(c: int, depth: int, d: int, q: int)
    by (nonlinear_arith)
    requires
        c < 0,
        depth > 0,
        d > 0,
        c * depth <= 0 ==> c * depth - d < q * d <= c * depth,
    ensures
        (c * c) * depth <= (c * q) * d < (c * c) * depth + (-c) * d,
{
}

/// Along one axis, the push back `q` that answers the depth `depth` against
/// the normal's coordinate `c` covers that coordinate's share of the depth,
/// and exceeds it by less than one lattice step.
proof fn lemma_axis_push(c: int, depth: int, d: int, q: int)
    requires
        depth > 0,
        d > 0,
        c * depth >= 0 ==> c * depth <= q * d < c * depth + d,
        c * depth <= 0 ==> c * depth - d < q * d <= c * depth,
    ensures
        (c * c) * depth <= (c * q) * d <= (c * c) * depth + abs(c) * d,
        c != 0 ==> (c * q) * d < (c * c) * depth + abs(c) * d,
{
    if c > 0 {
        lemma_axis_push_with(c, depth, d, q);
    } else if c < 0 {
        lemma_axis_push_against(c, depth, d, q);
    } else {
        assert((c * c) * depth == 0 && (c * q) * d == 0 && abs(c) * d == 0) by (nonlinear_arith)
            requires
                c == 0,
        ;
    }
}

/// A movement that a wall has held back does not end beyond the wall, and
/// ends less than one lattice step in each coordinate behind the wall's line
/// where it would have crossed it.
pub proof fn lemma_rejection_clears_wall(wall_start: Point2, wall_end: Point2, point: Point2)
    ensures
        wall_depth(wall_start, wall_end, point.plus(rejection(wall_start, wall_end, point))) <= 0,
        wall_depth(wall_start, wall_end, point) > 0 ==> wall_depth(
            wall_start,
            wall_end,
            point.plus(rejection(wall_start, wall_end, point)),
        ) > -(abs(wall_normal(wall_start, wall_end).x) + abs(wall_normal(wall_start, wall_end).y)),
{
    let w = wall_normal(wall_start, wall_end);
    let depth = wall_depth(wall_start, wall_end, point);
    let d = w.norm_sq();
    let back = rejection(wall_start, wall_end, point);
    let landed = point.plus(back);
    assert(wall_depth(wall_start, wall_end, landed) == depth + w.dot(back)) by (nonlinear_arith)
        requires
            depth == w.dot(point.minus(wall_start)),
            landed == point.plus(back),
            wall_depth(wall_start, wall_end, landed) == w.dot(landed.minus(wall_start)),
    ;
    if depth > 0 {
        assert(d > 0) by (nonlinear_arith)
            requires
                depth == w.x * (point.x - wall_start.x) + w.y * (point.y - wall_start.y),
                depth > 0,
                d == w.x * w.x + w.y * w.y,
        ;
        let qx = div_away(w.x * depth, d);
        let qy = div_away(w.y * depth, d);
        lemma_div_away_brackets(w.x * depth, d);
        lemma_div_away_brackets(w.y * depth, d);
        lemma_axis_push(w.x, depth, d, qx);
        lemma_axis_push(w.y, depth, d, qy);
        assert(w.dot(back) == -(w.x * qx + w.y * qy)) by (nonlinear_arith)
            requires
                back.x == -qx,
                back.y == -qy,
        ;
        assert(w.x != 0 || w.y != 0) by (nonlinear_arith)
            requires
                d == w.x * w.x + w.y * w.y,
                d > 0,
        ;
        assert(depth <= w.x * qx + w.y * qy < depth + abs(w.x) + abs(w.y)) by (nonlinear_arith)
            requires
                (w.x * w.x) * depth <= (w.x * qx) * d <= (w.x * w.x) * depth + abs(w.x) * d,
                (w.y * w.y) * depth <= (w.y * qy) * d <= (w.y * w.y) * depth + abs(w.y) * d,
                (w.x * qx) * d < (w.x * w.x) * depth + abs(w.x) * d || (w.y * qy) * d < (w.y
                    * w.y) * depth + abs(w.y) * d,
                d == w.x * w.x + w.y * w.y,
                d > 0,
        ;
    }
}

/// A movement that would cross a wall which runs along the first axis ends
/// exactly on the wall's line, and keeps its coordinate along the wall.
pub proof fn lemma_rejection_on_axis_wall(wall_start: Point2, wall_end: Point2, point: Point2)
    requires
        wall_start.y == wall_end.y,
        wall_depth(wall_start, wall_end, point) > 0,
    ensures
        rejection(wall_start, wall_end, point).x == 0,
        point.plus(rejection(wall_start, wall_end, point)).y == wall_start.y,
{
    let w = wall_normal(wall_start, wall_end);
    let length = wall_end.x - wall_start.x;
    let depth = wall_depth(wall_start, wall_end, point);
    let d = w.norm_sq();
    assert(depth == length * (point.y - wall_start.y)) by (nonlinear_arith)
        requires
            depth == w.x * (point.x - wall_start.x) + w.y * (point.y - wall_start.y),
            w.x == 0,
            w.y == length,
    ;
    assert(d == length * length) by (nonlinear_arith)
        requires
            d == w.x * w.x + w.y * w.y,
            w.x == 0,
            w.y == length,
    ;
    assert(d > 0) by (nonlinear_arith)
        requires
            depth == length * (point.y - wall_start.y),
            depth > 0,
            d == length * length,
    ;
    assert(w.y * depth == (point.y - wall_start.y) * d) by (nonlinear_arith)
        requires
            w.y == length,
            depth == length * (point.y - wall_start.y),
            d == length * length,
    ;
    assert(w.x * depth == 0) by (nonlinear_arith)
        requires
            w.x == 0,
    ;
    lemma_div_away_exact(point.y - wall_start.y, d);
    lemma_div_away_brackets(0, d);
}

/// A movement that would cross a wall which runs along the second axis ends
/// exactly on the wall's line, and keeps its coordinate along the wall.
pub proof fn lemma_rejection_on_upright_wall(wall_start: Point2, wall_end: Point2, point: Point2)
    requires
        wall_start.x == wall_end.x,
        wall_depth(wall_start, wall_end, point) > 0,
    ensures
        rejection(wall_start, wall_end, point).y == 0,
        point.plus(rejection(wall_start, wall_end, point)).x == wall_start.x,
{
    let w = wall_normal(wall_start, wall_end);
    let length = wall_end.y - wall_start.y;
    let depth = wall_depth(wall_start, wall_end, point);
    let d = w.norm_sq();
    assert(depth == (-length) * (point.x - wall_start.x)) by (nonlinear_arith)
        requires
            depth == w.x * (point.x - wall_start.x) + w.y * (point.y - wall_start.y),
            w.x == -length,
            w.y == 0,
    ;
    assert(d == length * length) by (nonlinear_arith)
        requires
            d == w.x * w.x + w.y * w.y,
            w.x == -length,
            w.y == 0,
    ;
    assert(d > 0) by (nonlinear_arith)
        requires
            depth == (-length) * (point.x - wall_start.x),
            depth > 0,
            d == length * length,
    ;
    assert(w.x * depth == (point.x - wall_start.x) * d) by (nonlinear_arith)
        requires
            w.x == -length,
            depth == (-length) * (point.x - wall_start.x),
            d == length * length,
    ;
    assert(w.y * depth == 0) by (nonlinear_arith)
        requires
            w.y == 0,
    ;
    lemma_div_away_exact(point.x - wall_start.x, d);
    lemma_div_away_brackets(0, d);
}

/// In a corner of a room whose walls run along the two axes, a movement that
/// would end beyond both walls ends exactly in the corner: held back first
/// by the wall that ends in the corner, along the first axis, and then by
/// the wall that starts there, along the second.
pub proof fn lemma_slide_into_axis_corner(
    wall_start: Point2,
    corner: Point2,
    wall_end: Point2,
    point: Point2,
)
    requires
        wall_start.y == corner.y,
        corner.x == wall_end.x,
        wall_depth(wall_start, corner, point) > 0,
        wall_depth(corner, wall_end, point) > 0,
    ensures
        ({
            let first = point.plus(rejection(wall_start, corner, point));
            first.plus(rejection(corner, wall_end, first)) == corner
        }),
{
    lemma_rejection_on_axis_wall(wall_start, corner, point);
    let first = point.plus(rejection(wall_start, corner, point));
    let normal = wall_normal(corner, wall_end);
    assert(wall_depth(corner, wall_end, first) == wall_depth(corner, wall_end, point))
        by (nonlinear_arith)
        requires
            first.x == point.x,
            normal.y == 0,
            wall_depth(corner, wall_end, first) == normal.x * (first.x - corner.x) + normal.y * (
            first.y - corner.y),
            wall_depth(corner, wall_end, point) == normal.x * (point.x - corner.x) + normal.y * (
            point.y - corner.y),
    ;
    lemma_rejection_on_upright_wall(corner, wall_end, first);
}

/// In a corner of a room whose walls run along the two axes, a movement that
/// would end beyond both walls ends exactly in the corner: held back first
/// by the wall that ends in the corner, along the second axis, and then by
/// the wall that starts there, along the first.
pub proof fn lemma_slide_into_upright_corner(
    wall_start: Point2,
    corner: Point2,
    wall_end: Point2,
    point: Point2,
)
    requires
        wall_start.x == corner.x,
        corner.y == wall_end.y,
        wall_depth(wall_start, corner, point) > 0,
        wall_depth(corner, wall_end, point) > 0,
    ensures
        ({
            let first = point.plus(rejection(wall_start, corner, point));
            first.plus(rejection(corner, wall_end, first)) == corner
        }),
{
    lemma_rejection_on_upright_wall(wall_start, corner, point);
    let first = point.plus(rejection(wall_start, corner, point));
    let normal = wall_normal(corner, wall_end);
    assert(wall_depth(corner, wall_end, first) == wall_depth(corner, wall_end, point))
        by (nonlinear_arith)
        requires
            first.y == point.y,
            normal.x == 0,
            wall_depth(corner, wall_end, first) == normal.x * (first.x - corner.x) + normal.y * (
            first.y - corner.y),
            wall_depth(corner, wall_end, point) == normal.x * (point.x - corner.x) + normal.y * (
            point.y - corner.y),
    ;
    lemma_rejection_on_axis_wall(corner, wall_end, first);
}

/// Largest magnitude of a coordinate of a movement after it has been slid
/// along the barriers of a face.
pub const SLIDE_LIMIT: i64 = 59047 * COORD_LIMIT;

/// Whether the two barriers that meet at a corner, the one that ends there
/// with outward normal `incoming_normal` and the one that starts there with
/// outward normal `outgoing_normal`, close the walkable side in like the
/// walls in a corner of a room, or lie in one line. At a convex corner the
/// walkable side reaches round the corner, as round the corner of a pillar.
pub open spec fn corner_is_concave(incoming_normal: Point2, outgoing_normal: Point2) -> bool {
    incoming_normal.perp().dot(outgoing_normal) <= 0
}

/// The displacement that takes a point which lies at `offset` from a convex
/// corner, beyond both of its barriers, back behind the nearer of the two.
pub open spec fn convex_correction(
    incoming_normal: Point2,
    outgoing_normal: Point2,
    offset: Point2,
) -> Point2 {
    let incoming_depth = incoming_normal.dot(offset);
    let outgoing_depth = outgoing_normal.dot(offset);
    if incoming_depth >= 0 && outgoing_depth >= 0 {
        if distance_less(
            incoming_depth,
            incoming_normal.norm_sq(),
            outgoing_depth,
            outgoing_normal.norm_sq(),
        ) {
            push_back(incoming_normal, incoming_depth)
        } else {
            push_back(outgoing_normal, outgoing_depth)
        }
    } else {
        Point2::zero()
    }
}

/// The movement `delta` from `start` after it has been held back by the
/// barrier `e`.
pub open spec fn slide_along_barrier(nav: &NavMesh, e: int, start: Point2, delta: Point2) -> Point2 {
    delta.plus(rejection(nav.projected_start(e), nav.projected_end(e), start.plus(delta)))
}

/// The movement `delta` from `start` after it has been held back by the two
/// barriers that meet at `vertex`, if there are any.
pub open spec fn slide_past_corner(
    nav: &NavMesh,
    vertex: int,
    start: Point2,
    delta: Point2,
) -> Point2 {
    match nav.vertices[vertex].outgoing_barrier {
        None => delta,
        Some(outgoing) => {
            let incoming = nav.incoming_barrier_of(outgoing as int);
            let incoming_normal = nav.edge_normal(incoming);
            let outgoing_normal = nav.edge_normal(outgoing as int);
            if corner_is_concave(incoming_normal, outgoing_normal) {
                slide_along_barrier(
                    nav,
                    outgoing as int,
                    start,
                    slide_along_barrier(nav, incoming, start, delta),
                )
            } else {
                delta.plus(
                    convex_correction(
                        incoming_normal,
                        outgoing_normal,
                        start.plus(delta).minus(nav.vertices[vertex].position@.to_xz()),
                    ),
                )
            }
        },
    }
}

/// The movement `delta` from `start` after it has been held back by edge
/// `e`, where that is a barrier, and by the corner at which `e` starts.
pub open spec fn slide_past_edge(nav: &NavMesh, e: int, start: Point2, delta: Point2) -> Point2 {
    let cleared = if nav.edges[e].twin is None {
        slide_along_barrier(nav, e, start, delta)
    } else {
        delta
    };
    slide_past_corner(nav, nav.edges[e].vertex as int, start, cleared)
}

/// Where a movement by `delta` from `start` ends on face `face`: the
/// movement is held back by the three edges of the face in turn.
pub open spec fn slide(nav: &NavMesh, face: int, start: Point2, delta: Point2) -> Point2 {
    if delta == Point2::zero() {
        start
    } else {
        let e0 = nav.faces[face].start_edge as int;
        let e1 = next_in_triangle(e0);
        let e2 = next_in_triangle(e1);
        start.plus(
            slide_past_edge(
                nav,
                e2,
                start,
                slide_past_edge(nav, e1, start, slide_past_edge(nav, e0, start, delta)),
            ),
        )
    }
}

/// The barriers at a convex corner both have a length.
proof fn lemma_convex_corner_has_normals(incoming_normal: Point2, outgoing_normal: Point2)
    requires
        !corner_is_concave(incoming_normal, outgoing_normal),
    ensures
        incoming_normal.norm_sq() > 0,
        outgoing_normal.norm_sq() > 0,
{
    assert(incoming_normal.norm_sq() > 0) by (nonlinear_arith)
        requires
            (-incoming_normal.y) * outgoing_normal.x + incoming_normal.x * outgoing_normal.y > 0,
    ;
    assert(outgoing_normal.norm_sq() > 0) by (nonlinear_arith)
        requires
            (-incoming_normal.y) * outgoing_normal.x + incoming_normal.x * outgoing_normal.y > 0,
    ;
}

/// Holds the movement `delta` from `start_pos` back by the barrier `edge_idx`.
fn slide_along_barrier_exec(nav: &NavMesh, edge_idx: usize, start_pos: Vec2, delta: Vec2) -> (r:
    Vec2)
    requires
        nav.wf(),
        edge_idx < nav.edges.len(),
        start_pos@.within(COORD_LIMIT as int),
        delta@.within(19681 * COORD_LIMIT),
    ensures
        r@ == slide_along_barrier(nav, edge_idx as int, start_pos@, delta@),
        r@.within(3 * reach(delta@) + 4 * COORD_LIMIT),
{
    let (va, vb) = nav.projected_edge_vertex_positions(edge_idx);
    proof {
        nav.lemma_edge_ends_within(edge_idx as int);
    }
    let rejected = projected_plane_rejection(va, vb, start_pos.plus(delta));
    delta.plus(rejected)
}

/// Whether the barriers `incoming` and `outgoing` form a concave corner.
fn corner_is_concave_exec(nav: &NavMesh, incoming: usize, outgoing: usize) -> (r: bool)
    requires
        nav.wf(),
        incoming < nav.edges.len(),
        outgoing < nav.edges.len(),
    ensures
        r == corner_is_concave(nav.edge_normal(incoming as int), nav.edge_normal(outgoing as int)),
{
    let incoming_normal = nav.projected_edge_normal(incoming);
    let outgoing_normal = nav.projected_edge_normal(outgoing);
    proof {
        lemma_dot2_bounds(
            incoming_normal@.perp(),
            outgoing_normal@,
            2 * COORD_LIMIT,
            2 * COORD_LIMIT,
        );
    }
    incoming_normal.perp().dot(outgoing_normal) <= 0
}

/// Computes the displacement that takes a point which lies at `offset` from
/// a convex corner, beyond both of its barriers, back behind the nearer of
/// the two.
fn convex_correction_exec(incoming_normal: Vec2, outgoing_normal: Vec2, offset: Vec2) -> (r: Vec2)
    requires
        incoming_normal@.within(2 * COORD_LIMIT),
        outgoing_normal@.within(2 * COORD_LIMIT),
        !corner_is_concave(incoming_normal@, outgoing_normal@),
        offset@.within(6561 * COORD_LIMIT),
    ensures
        r@ == convex_correction(incoming_normal@, outgoing_normal@, offset@),
        r@.within(abs(offset.x as int) + abs(offset.y as int)),
{
    proof {
        lemma_convex_corner_has_normals(incoming_normal@, outgoing_normal@);
        lemma_norm_sq2_bounds(incoming_normal@, 2 * COORD_LIMIT);
        lemma_norm_sq2_bounds(outgoing_normal@, 2 * COORD_LIMIT);
        lemma_dot2_bounds(incoming_normal@, offset@, 2 * COORD_LIMIT, 6561 * COORD_LIMIT);
        lemma_dot2_bounds(outgoing_normal@, offset@, 2 * COORD_LIMIT, 6561 * COORD_LIMIT);
        assert(2 * ((2 * COORD_LIMIT) * (6561 * COORD_LIMIT)) <= NUMERATOR_LIMIT)
            by (nonlinear_arith);
        assert(2 * ((2 * COORD_LIMIT) * (2 * COORD_LIMIT)) <= LENGTH_SQUARED_LIMIT)
            by (nonlinear_arith);
        lemma_push_back_within_offset(incoming_normal@, offset@);
        lemma_push_back_within_offset(outgoing_normal@, offset@);
    }
    let incoming_dist = incoming_normal.dot(offset);
    let outgoing_dist = outgoing_normal.dot(offset);

    // If endpoint is outside *both* barriers, then adjust by the least required distance
    // Just enough to allow this test to pass again
    if incoming_dist >= 0 && outgoing_dist >= 0 {
        let incoming = EdgeDistance {
            numerator: incoming_dist,
            length_squared: incoming_normal.length_squared(),
        };
        let outgoing = EdgeDistance {
            numerator: outgoing_dist,
            length_squared: outgoing_normal.length_squared(),
        };
        if incoming.is_less_than(outgoing) {
            push_back_exec(incoming_normal, incoming_dist)
        } else {
            push_back_exec(outgoing_normal, outgoing_dist)
        }
    } else {
        Vec2::zero()
    }
}

/// Holds the movement `delta` from `start_pos` back by the two barriers of a
/// concave corner, by the one that ends in the corner first.
fn slide_into_concave_corner(
    nav: &NavMesh,
    incoming: usize,
    outgoing: usize,
    start_pos: Vec2,
    delta: Vec2,
) -> (r: Vec2)
    requires
        nav.wf(),
        incoming < nav.edges.len(),
        outgoing < nav.edges.len(),
        start_pos@.within(COORD_LIMIT as int),
        delta@.within(6559 * COORD_LIMIT),
    ensures
        r@ == slide_along_barrier(
            nav,
            outgoing as int,
            start_pos@,
            slide_along_barrier(nav, incoming as int, start_pos@, delta@),
        ),
        r@.within(9 * reach(delta@) + 16 * COORD_LIMIT),
{
    let first = slide_along_barrier_exec(nav, incoming, start_pos, delta);
    slide_along_barrier_exec(nav, outgoing, start_pos, first)
}

/// Holds the movement `delta` from `start_pos` back by the nearer of the two
/// barriers of the convex corner at `corner`, where it would end beyond both.
fn slide_round_convex_corner(
    nav: &NavMesh,
    incoming: usize,
    outgoing: usize,
    corner: Vec2,
    start_pos: Vec2,
    delta: Vec2,
) -> (r: Vec2)
    requires
        nav.wf(),
        incoming < nav.edges.len(),
        outgoing < nav.edges.len(),
        !corner_is_concave(nav.edge_normal(incoming as int), nav.edge_normal(outgoing as int)),
        corner@.within(COORD_LIMIT as int),
        start_pos@.within(COORD_LIMIT as int),
        delta@.within(6559 * COORD_LIMIT),
    ensures
        r@ == delta@.plus(
            convex_correction(
                nav.edge_normal(incoming as int),
                nav.edge_normal(outgoing as int),
                start_pos@.plus(delta@).minus(corner@),
            ),
        ),
        r@.within(3 * reach(delta@) + 4 * COORD_LIMIT),
{
    let incoming_normal = nav.projected_edge_normal(incoming);
    let outgoing_normal = nav.projected_edge_normal(outgoing);
    let end_pos = start_pos.plus(delta);
    let vertex_delta = end_pos.minus(corner);
    let correction = convex_correction_exec(incoming_normal, outgoing_normal, vertex_delta);
    delta.plus(correction)
}

/// Holds the movement `delta` from `start_pos` back by the two barriers that
/// meet at the vertex `vertex_idx`, if there are any.
fn slide_past_corner_exec(nav: &NavMesh, vertex_idx: usize, start_pos: Vec2, delta: Vec2) -> (r:
    Vec2)
    requires
        nav.wf(),
        vertex_idx < nav.vertices.len(),
        start_pos@.within(COORD_LIMIT as int),
        delta@.within(6559 * COORD_LIMIT),
    ensures
        r@ == slide_past_corner(nav, vertex_idx as int, start_pos@, delta@),
        r@.within(9 * reach(delta@) + 16 * COORD_LIMIT),
{
    let vertex = nav.vertices[vertex_idx];
    let outgoing_barrier_idx = match vertex.outgoing_barrier {
        None => {
            return delta;
        },
        Some(idx) => idx,
    };
    proof {
        nav.lemma_outgoing_barrier_is_barrier(vertex_idx as int);
    }
    let incoming_barrier_idx = nav.incoming_barrier(outgoing_barrier_idx);

    // Test concavity - if vertex is concave then collide with barriers as planes
    if corner_is_concave_exec(nav, incoming_barrier_idx, outgoing_barrier_idx) {
        slide_into_concave_corner(
            nav,
            incoming_barrier_idx,
            outgoing_barrier_idx,
            start_pos,
            delta,
        )
    } else {
        // Vertex is convex
        slide_round_convex_corner(
            nav,
            incoming_barrier_idx,
            outgoing_barrier_idx,
            vertex.position.to_xz(),
            start_pos,
            delta,
        )
    }
}

/// Holds the movement `delta` from `start_pos` back by the edge `edge_idx`,
/// where that is a barrier, and by the corner at which that edge starts.
fn slide_past_edge_exec(nav: &NavMesh, edge_idx: usize, start_pos: Vec2, delta: Vec2) -> (r: Vec2)
    requires
        nav.wf(),
        edge_idx < nav.edges.len(),
        start_pos@.within(COORD_LIMIT as int),
        delta@.within(2185 * COORD_LIMIT),
    ensures
        r@ == slide_past_edge(nav, edge_idx as int, start_pos@, delta@),
        r@.within(27 * reach(delta@) + 52 * COORD_LIMIT),
{
    let edge = nav.edges[edge_idx];
    let mut delta = delta;
    // If this edge is a barrier, resolve collision
    if edge.twin.is_none() {
        delta = slide_along_barrier_exec(nav, edge_idx, start_pos, delta);
    }
    // Find any barriers connected to this edge's vertex
    slide_past_corner_exec(nav, edge.vertex, start_pos, delta)
}

/// Resolves a movement by `delta` from `start_pos` on the face
/// `current_face_idx`: what of the movement would cross a barrier of the
/// face, or of a corner of the face, is removed, and the movement along the
/// barrier stays. Returns where the movement ends.
pub fn slide_player_along_barriers(
    nav: &NavMesh,
    current_face_idx: NavFaceID,
    start_pos: Vec2,
    delta: Vec2,
) -> (r: Vec2)
    requires
        nav.wf(),
        current_face_idx < nav.faces.len(),
        start_pos@.within(COORD_LIMIT as int),
        delta@.within(COORD_LIMIT as int),
    ensures
        r@ == slide(nav, current_face_idx as int, start_pos@, delta@),
        delta@ == Point2::zero() ==> r == start_pos,
        r@.minus(start_pos@).within(SLIDE_LIMIT as int),
        r@.within(POINT_LIMIT as int),
{
    if delta.is_zero() {
        return start_pos;
    }
    let start_edge = nav.faces[current_face_idx].start_edge;
    let edges = nav.iter_edge_loop(start_edge);
    proof {
        nav.lemma_face_loop_closes(current_face_idx as int);
    }
    let e0 = edges[0].0;
    let e1 = edges[1].0;
    let e2 = edges[2].0;
    assert(e0 == start_edge);
    assert(e1 == next_in_triangle(e0 as int));
    assert(e2 == next_in_triangle(e1 as int));
    let first = slide_past_edge_exec(nav, e0, start_pos, delta);
    assert(first@.within(79 * COORD_LIMIT));
    let second = slide_past_edge_exec(nav, e1, start_pos, first);
    assert(second@.within(2185 * COORD_LIMIT));
    let third = slide_past_edge_exec(nav, e2, start_pos, second);
    assert(third@.within(59047 * COORD_LIMIT));
    start_pos.plus(third)
}

/// An agent that intends no movement stays where it is, whatever the face.
pub proof fn lemma_slide_without_movement(nav: &NavMesh, face: int, start: Point2)
    ensures
        slide(nav, face, start, Point2::zero()) == start,
{
}

/// A movement that would cross a barrier which runs along one of the two
/// axes ends exactly on the barrier's line: what of the movement crosses the
/// barrier is taken back, and what runs along the barrier stays.
pub proof fn lemma_axis_barrier_holds_agent(nav: &NavMesh, e: int, start: Point2, delta: Point2)
    requires
        nav.edge_offset(e, start.plus(delta)) > 0,
        nav.projected_start(e).y == nav.projected_end(e).y || nav.projected_start(e).x
            == nav.projected_end(e).x,
    ensures
        ({
            let landed = start.plus(slide_along_barrier(nav, e, start, delta));
            if nav.projected_start(e).y == nav.projected_end(e).y {
                landed.x == start.x + delta.x && landed.y == nav.projected_start(e).y
            } else {
                landed.y == start.y + delta.y && landed.x == nav.projected_start(e).x
            }
        }),
{
    let from = nav.projected_start(e);
    let to = nav.projected_end(e);
    let point = start.plus(delta);
    if from.y == to.y {
        lemma_rejection_on_axis_wall(from, to, point);
    } else {
        lemma_rejection_on_upright_wall(from, to, point);
    }
}

/// An agent that walks into a concave corner whose barriers run along the
/// two axes, and would end beyond both barriers, ends exactly in the corner.
pub proof fn lemma_room_corner_stops_agent(nav: &NavMesh, vertex: int, start: Point2, delta: Point2)
    requires
        nav.wf(),
        0 <= vertex < nav.vertices.len(),
        nav.vertices[vertex].outgoing_barrier is Some,
        ({
            let outgoing = nav.vertices[vertex].outgoing_barrier->0 as int;
            let incoming = nav.incoming_barrier_of(outgoing);
            let corner = nav.vertices[vertex].position@.to_xz();
            let along_first = nav.projected_start(incoming).y == corner.y && corner.x
                == nav.projected_end(outgoing).x;
            let along_second = nav.projected_start(incoming).x == corner.x && corner.y
                == nav.projected_end(outgoing).y;
            &&& along_first || along_second
            &&& corner_is_concave(nav.edge_normal(incoming), nav.edge_normal(outgoing))
            &&& nav.edge_offset(incoming, start.plus(delta)) > 0
            &&& nav.edge_offset(outgoing, start.plus(delta)) > 0
        }),
    ensures
        start.plus(slide_past_corner(nav, vertex, start, delta))
            == nav.vertices[vertex].position@.to_xz(),
{
    let outgoing = nav.vertices[vertex].outgoing_barrier->0 as int;
    nav.lemma_outgoing_barrier_is_barrier(vertex);
    nav.lemma_incoming_barrier_ends_at_corner(outgoing);
    let incoming = nav.incoming_barrier_of(outgoing);
    let corner = nav.vertices[vertex].position@.to_xz();
    let from = nav.projected_start(incoming);
    let to = nav.projected_end(outgoing);
    let point = start.plus(delta);
    if from.y == corner.y && corner.x == to.x {
        lemma_slide_into_axis_corner(from, corner, to, point);
    } else {
        lemma_slide_into_upright_corner(from, corner, to, point);
    }
}

/// At a convex corner a movement that would end beyond both barriers is held
/// back by the nearer of the two alone, and by the barrier that starts at
/// the corner where both are as near. A movement that would not end beyond
/// both is not held back at all.
pub proof fn lemma_convex_corner_yields_to_nearer_barrier(
    nav: &NavMesh,
    vertex: int,
    start: Point2,
    delta: Point2,
)
    requires
        nav.wf(),
        0 <= vertex < nav.vertices.len(),
        nav.vertices[vertex].outgoing_barrier is Some,
        !corner_is_concave(
            nav.edge_normal(nav.incoming_barrier_of(nav.vertices[vertex].outgoing_barrier->0 as int)),
            nav.edge_normal(nav.vertices[vertex].outgoing_barrier->0 as int),
        ),
    ensures
        ({
            let outgoing = nav.vertices[vertex].outgoing_barrier->0 as int;
            let incoming = nav.incoming_barrier_of(outgoing);
            let point = start.plus(delta);
            let beyond_both = nav.edge_offset(incoming, point) >= 0 && nav.edge_offset(
                outgoing,
                point,
            ) >= 0;
            slide_past_corner(nav, vertex, start, delta) == (if !beyond_both {
                delta
            } else if crossed_nearer(nav, incoming, outgoing, point) {
                slide_along_barrier(nav, incoming, start, delta)
            } else {
                slide_along_barrier(nav, outgoing, start, delta)
            })
        }),
{
    let outgoing = nav.vertices[vertex].outgoing_barrier->0 as int;
    nav.lemma_outgoing_barrier_is_barrier(vertex);
    nav.lemma_incoming_barrier_ends_at_corner(outgoing);
    let incoming = nav.incoming_barrier_of(outgoing);
    let corner = nav.vertices[vertex].position@.to_xz();
    let from = nav.projected_start(incoming);
    let point = start.plus(delta);
    let incoming_normal = nav.edge_normal(incoming);
    let outgoing_normal = nav.edge_normal(outgoing);
    let offset = point.minus(corner);
    assert(incoming_normal.dot(offset) == nav.edge_offset(incoming, point)) by (nonlinear_arith)
        requires
            incoming_normal == corner.minus(from).perp(),
            offset == point.minus(corner),
            nav.edge_offset(incoming, point) == incoming_normal.dot(point.minus(from)),
    ;
    lemma_convex_corner_has_normals(incoming_normal, outgoing_normal);
}

/// Whether `point` is beyond none of the barriers against which a movement
/// is held at the edge `e` of its face, the barrier `but` left aside: not
/// beyond `e` itself, where it is a barrier, and not beyond the two
/// barriers that meet at the vertex where `e` starts.
pub open spec fn step_is_clear(nav: &NavMesh, e: int, point: Point2, but: int) -> bool {
    &&& nav.edges[e].twin is None && e != but ==> nav.edge_offset(e, point) <= 0
    &&& match nav.vertices[nav.edges[e].vertex as int].outgoing_barrier {
        None => true,
        Some(outgoing) => {
            let incoming = nav.incoming_barrier_of(outgoing as int);
            &&& outgoing != but ==> nav.edge_offset(outgoing as int, point) <= 0
            &&& incoming != but ==> nav.edge_offset(incoming, point) <= 0
        },
    }
}

/// Whether `point` is beyond none of the barriers against which a movement
/// on `face` is held, the barrier `but` left aside.
pub open spec fn face_is_clear(nav: &NavMesh, face: int, point: Point2, but: int) -> bool {
    &&& step_is_clear(nav, 3 * face, point, but)
    &&& step_is_clear(nav, 3 * face + 1, point, but)
    &&& step_is_clear(nav, 3 * face + 2, point, but)
}

/// A movement that is the movement `delta`, as it is or as the barrier `e`
/// holds it back, stays one of these two where it is held against a barrier
/// `b` that neither of them crosses, or against `e` itself. Once `e` has
/// held it back, it stays so.
proof fn lemma_barrier_keeps_to(
    nav: &NavMesh,
    b: int,
    e: int,
    start: Point2,
    delta: Point2,
    d: Point2,
)
    requires
        d == delta || d == slide_along_barrier(nav, e, start, delta),
        b != e ==> nav.edge_offset(b, start.plus(delta)) <= 0 && nav.edge_offset(
            b,
            start.plus(slide_along_barrier(nav, e, start, delta)),
        ) <= 0,
    ensures
        ({
            let held = slide_along_barrier(nav, e, start, delta);
            let r = slide_along_barrier(nav, b, start, d);
            &&& r == delta || r == held
            &&& b == e ==> r == held
            &&& d == held ==> r == held
        }),
{
    let held = slide_along_barrier(nav, e, start, delta);
    let from = nav.projected_start(e);
    let to = nav.projected_end(e);
    let point = start.plus(delta);
    lemma_rejection_clears_wall(from, to, point);
    assert(start.plus(held) == point.plus(rejection(from, to, point)));
    assert(nav.edge_offset(e, start.plus(held)) == wall_depth(from, to, start.plus(held)));
    assert(nav.edge_offset(b, start.plus(d)) == wall_depth(
        nav.projected_start(b),
        nav.projected_end(b),
        start.plus(d),
    ));
}

/// A movement that is the movement `delta`, as it is or as the barrier `e`
/// holds it back, stays one of these two at an edge of the face where
/// neither of them is beyond a barrier other than `e`. At the edge `e`
/// itself the barrier holds it back, and once held back, it stays so.
proof fn lemma_step_keeps_to(
    nav: &NavMesh,
    edge: int,
    e: int,
    start: Point2,
    delta: Point2,
    d: Point2,
)
    requires
        nav.wf(),
        0 <= edge < nav.edges.len(),
        d == delta || d == slide_along_barrier(nav, e, start, delta),
        step_is_clear(nav, edge, start.plus(delta), e),
        step_is_clear(nav, edge, start.plus(slide_along_barrier(nav, e, start, delta)), e),
    ensures
        ({
            let held = slide_along_barrier(nav, e, start, delta);
            let r = slide_past_edge(nav, edge, start, d);
            &&& r == delta || r == held
            &&& edge == e && nav.edges[e].twin is None ==> r == held
            &&& d == held ==> r == held
        }),
{
    let held = slide_along_barrier(nav, e, start, delta);
    let cleared = if nav.edges[edge].twin is None {
        slide_along_barrier(nav, edge, start, d)
    } else {
        d
    };
    if nav.edges[edge].twin is None {
        lemma_barrier_keeps_to(nav, edge, e, start, delta, d);
    }
    let vertex = nav.edges[edge].vertex as int;
    if nav.vertices[vertex].outgoing_barrier is Some {
        let outgoing = nav.vertices[vertex].outgoing_barrier->0 as int;
        let incoming = nav.incoming_barrier_of(outgoing);
        nav.lemma_outgoing_barrier_is_barrier(vertex);
        nav.lemma_incoming_barrier_ends_at_corner(outgoing);
        lemma_barrier_keeps_to(nav, incoming, e, start, delta, cleared);
        lemma_barrier_keeps_to(nav, outgoing, e, start, delta, cleared);
        if corner_is_concave(nav.edge_normal(incoming), nav.edge_normal(outgoing)) {
            let first = slide_along_barrier(nav, incoming, start, cleared);
            lemma_barrier_keeps_to(nav, outgoing, e, start, delta, first);
        } else {
            lemma_convex_corner_yields_to_nearer_barrier(nav, vertex, start, cleared);
        }
    }
}

/// Where a movement on a face would cross one barrier `e` of the face, and
/// neither the movement as it is nor the movement as that barrier holds it
/// back is beyond any other barrier of the face or of its corners, the
/// agent slides along that one barrier: the movement ends where the barrier
/// alone holds it back, not beyond the barrier and less than one lattice
/// step in each coordinate behind its line. A movement that is beyond no
/// barrier at all ends where it was meant to end. (An agent that does not
/// move at all stays where it is, wherever that is.)
pub proof fn lemma_slide_along_one_barrier(
    nav: &NavMesh,
    face: int,
    e: int,
    start: Point2,
    delta: Point2,
)
    requires
        nav.wf(),
        0 <= face < nav.faces.len(),
        3 * face <= e < 3 * face + 3,
        nav.edges[e].twin is None,
        delta != Point2::zero(),
        face_is_clear(nav, face, start.plus(delta), e),
        face_is_clear(nav, face, start.plus(slide_along_barrier(nav, e, start, delta)), e),
    ensures
        slide(nav, face, start, delta) == start.plus(slide_along_barrier(nav, e, start, delta)),
        slide(nav, face, start, delta) == start.plus(delta).plus(
            rejection(nav.projected_start(e), nav.projected_end(e), start.plus(delta)),
        ),
        nav.edge_offset(e, slide(nav, face, start, delta)) <= 0,
        nav.edge_offset(e, start.plus(delta)) > 0 ==> nav.edge_offset(
            e,
            slide(nav, face, start, delta),
        ) > -(abs(nav.edge_normal(e).x) + abs(nav.edge_normal(e).y)),
        nav.edge_offset(e, start.plus(delta)) <= 0 ==> slide(nav, face, start, delta)
            == start.plus(delta),
{
    nav.lemma_face_loop_closes(face);
    let held = slide_along_barrier(nav, e, start, delta);
    let from = nav.projected_start(e);
    let to = nav.projected_end(e);
    let point = start.plus(delta);
    lemma_rejection_clears_wall(from, to, point);
    assert(start.plus(held) == point.plus(rejection(from, to, point)));
    assert(nav.edge_offset(e, start.plus(held)) == wall_depth(from, to, start.plus(held)));
    assert(nav.edge_normal(e) == wall_normal(from, to));
    let e0 = 3 * face;
    let e1 = e0 + 1;
    let e2 = e0 + 2;
    let first = slide_past_edge(nav, e0, start, delta);
    lemma_step_keeps_to(nav, e0, e, start, delta, delta);
    let second = slide_past_edge(nav, e1, start, first);
    lemma_step_keeps_to(nav, e1, e, start, delta, first);
    let third = slide_past_edge(nav, e2, start, second);
    lemma_step_keeps_to(nav, e2, e, start, delta, second);
    assert(third == held);
}

/// A movement on a face that crosses a barrier which runs along one of the
/// two axes, where nothing else holds it back, ends exactly on the barrier's
/// line: what of the movement crosses the barrier is taken back, and what
/// runs along the barrier stays.
pub proof fn lemma_slide_along_axis_barrier(
    nav: &NavMesh,
    face: int,
    e: int,
    start: Point2,
    delta: Point2,
)
    requires
        nav.wf(),
        0 <= face < nav.faces.len(),
        3 * face <= e < 3 * face + 3,
        nav.edges[e].twin is None,
        delta != Point2::zero(),
        nav.edge_offset(e, start.plus(delta)) > 0,
        nav.projected_start(e).y == nav.projected_end(e).y || nav.projected_start(e).x
            == nav.projected_end(e).x,
        face_is_clear(nav, face, start.plus(delta), e),
        face_is_clear(nav, face, start.plus(slide_along_barrier(nav, e, start, delta)), e),
    ensures
        nav.edge_offset(e, slide(nav, face, start, delta)) == 0,
        ({
            let landed = slide(nav, face, start, delta);
            if nav.projected_start(e).y == nav.projected_end(e).y {
                landed.x == start.x + delta.x && landed.y == nav.projected_start(e).y
            } else {
                landed.y == start.y + delta.y && landed.x == nav.projected_start(e).x
            }
        }),
{
    lemma_slide_along_one_barrier(nav, face, e, start, delta);
    lemma_axis_barrier_holds_agent(nav, e, start, delta);
    let landed = slide(nav, face, start, delta);
    let from = nav.projected_start(e);
    let to = nav.projected_end(e);
    assert(nav.edge_offset(e, landed) == 0) by (nonlinear_arith)
        requires
            nav.edge_offset(e, landed) == (-(to.y - from.y)) * (landed.x - from.x) + (to.x
                - from.x) * (landed.y - from.y),
            (from.y == to.y && landed.y == from.y) || (from.x == to.x && landed.x == from.x),
    ;
}

/// A movement that is beyond the barrier `b` nowhere is not held back by it.
proof fn lemma_clear_barrier_is_free(nav: &NavMesh, b: int, start: Point2, d: Point2)
    requires
        nav.edge_offset(b, start.plus(d)) <= 0,
    ensures
        slide_along_barrier(nav, b, start, d) == d,
{
    assert(nav.edge_offset(b, start.plus(d)) == wall_depth(
        nav.projected_start(b),
        nav.projected_end(b),
        start.plus(d),
    ));
}

/// A movement that is beyond none of the barriers against which it is held
/// at an edge of its face passes that edge as it is.
pub proof fn lemma_clear_step_is_free(nav: &NavMesh, edge: int, start: Point2, d: Point2)
    requires
        nav.wf(),
        0 <= edge < nav.edges.len(),
        step_is_clear(nav, edge, start.plus(d), -1),
    ensures
        slide_past_edge(nav, edge, start, d) == d,
{
    if nav.edges[edge].twin is None {
        lemma_clear_barrier_is_free(nav, edge, start, d);
    }
    let vertex = nav.edges[edge].vertex as int;
    if nav.vertices[vertex].outgoing_barrier is Some {
        let outgoing = nav.vertices[vertex].outgoing_barrier->0 as int;
        let incoming = nav.incoming_barrier_of(outgoing);
        nav.lemma_outgoing_barrier_is_barrier(vertex);
        nav.lemma_incoming_barrier_ends_at_corner(outgoing);
        lemma_clear_barrier_is_free(nav, incoming, start, d);
        lemma_clear_barrier_is_free(nav, outgoing, start, d);
        if !corner_is_concave(nav.edge_normal(incoming), nav.edge_normal(outgoing)) {
            lemma_convex_corner_yields_to_nearer_barrier(nav, vertex, start, d);
        }
    }
}

/// Where a movement on a face is held back at one edge of the face alone,
/// the edge `3 * face + k`, it ends where that edge and its corner leave
/// it: where the movement as it is is beyond none of the barriers against
/// which it is held at the edges before, and the movement as it is held
/// back at that edge is beyond none of those at the edges after.
pub proof fn lemma_slide_is_held_at_one_edge(
    nav: &NavMesh,
    face: int,
    k: int,
    start: Point2,
    delta: Point2,
)
    requires
        nav.wf(),
        0 <= face < nav.faces.len(),
        0 <= k < 3,
        delta != Point2::zero(),
        forall|j: int|
            0 <= j < k ==> #[trigger] step_is_clear(nav, 3 * face + j, start.plus(delta), -1),
        forall|j: int|
            k < j < 3 ==> #[trigger] step_is_clear(
                nav,
                3 * face + j,
                start.plus(slide_past_edge(nav, 3 * face + k, start, delta)),
                -1,
            ),
    ensures
        slide(nav, face, start, delta) == start.plus(
            slide_past_edge(nav, 3 * face + k, start, delta),
        ),
{
    nav.lemma_face_loop_closes(face);
    let e0 = 3 * face;
    let held = slide_past_edge(nav, e0 + k, start, delta);
    if k == 0 {
        assert(step_is_clear(nav, e0 + 1, start.plus(held), -1));
        assert(step_is_clear(nav, e0 + 2, start.plus(held), -1));
        lemma_clear_step_is_free(nav, e0 + 1, start, held);
        lemma_clear_step_is_free(nav, e0 + 2, start, held);
    } else if k == 1 {
        assert(step_is_clear(nav, e0 + 0, start.plus(delta), -1));
        assert(step_is_clear(nav, e0 + 2, start.plus(held), -1));
        lemma_clear_step_is_free(nav, e0, start, delta);
        lemma_clear_step_is_free(nav, e0 + 2, start, held);
    } else {
        assert(step_is_clear(nav, e0 + 0, start.plus(delta), -1));
        assert(step_is_clear(nav, e0 + 1, start.plus(delta), -1));
        lemma_clear_step_is_free(nav, e0, start, delta);
        lemma_clear_step_is_free(nav, e0 + 1, start, delta);
    }
}

/// Where a movement on a face would end beyond both barriers of a convex
/// corner of the face, and nothing else holds it back, the agent yields to
/// the nearer of the two barriers alone: the movement ends where that one
/// barrier holds it back, and is not stopped at the corner. It yields to the
/// barrier that starts at the corner where both are as near.
pub proof fn lemma_slide_round_convex_corner(
    nav: &NavMesh,
    face: int,
    k: int,
    start: Point2,
    delta: Point2,
)
    requires
        nav.wf(),
        0 <= face < nav.faces.len(),
        0 <= k < 3,
        delta != Point2::zero(),
        nav.edges[3 * face + k].twin is Some,
        nav.vertices[nav.edges[3 * face + k].vertex as int].outgoing_barrier is Some,
        ({
            let vertex = nav.edges[3 * face + k].vertex as int;
            let outgoing = nav.vertices[vertex].outgoing_barrier->0 as int;
            let incoming = nav.incoming_barrier_of(outgoing);
            &&& !corner_is_concave(nav.edge_normal(incoming), nav.edge_normal(outgoing))
            &&& nav.edge_offset(incoming, start.plus(delta)) >= 0
            &&& nav.edge_offset(outgoing, start.plus(delta)) >= 0
        }),
        forall|j: int|
            0 <= j < k ==> #[trigger] step_is_clear(nav, 3 * face + j, start.plus(delta), -1),
        forall|j: int|
            k < j < 3 ==> #[trigger] step_is_clear(
                nav,
                3 * face + j,
                start.plus(slide_past_edge(nav, 3 * face + k, start, delta)),
                -1,
            ),
    ensures
        ({
            let vertex = nav.edges[3 * face + k].vertex as int;
            let outgoing = nav.vertices[vertex].outgoing_barrier->0 as int;
            let incoming = nav.incoming_barrier_of(outgoing);
            let nearer = if crossed_nearer(nav, incoming, outgoing, start.plus(delta)) {
                incoming
            } else {
                outgoing
            };
            &&& slide(nav, face, start, delta) == start.plus(
                slide_along_barrier(nav, nearer, start, delta),
            )
            &&& nav.edge_offset(nearer, slide(nav, face, start, delta)) <= 0
        }),
{
    let vertex = nav.edges[3 * face + k].vertex as int;
    let outgoing = nav.vertices[vertex].outgoing_barrier->0 as int;
    let incoming = nav.incoming_barrier_of(outgoing);
    let point = start.plus(delta);
    let nearer = if crossed_nearer(nav, incoming, outgoing, point) {
        incoming
    } else {
        outgoing
    };
    lemma_slide_is_held_at_one_edge(nav, face, k, start, delta);
    lemma_convex_corner_yields_to_nearer_barrier(nav, vertex, start, delta);
    let from = nav.projected_start(nearer);
    let to = nav.projected_end(nearer);
    lemma_rejection_clears_wall(from, to, point);
    let held = slide_along_barrier(nav, nearer, start, delta);
    assert(start.plus(held) == point.plus(rejection(from, to, point)));
    assert(nav.edge_offset(nearer, start.plus(held)) == wall_depth(from, to, start.plus(held)));
}

/// A point on the line of a wall is not beyond the wall: the wall does not
/// hold back a movement that ends where the wall starts.
proof fn lemma_wall_start_is_not_held(wall_start: Point2, wall_end: Point2)
    ensures
        rejection(wall_start, wall_end, wall_start) == Point2::zero(),
{
    let w = wall_normal(wall_start, wall_end);
    assert(w.dot(wall_start.minus(wall_start)) == 0) by (nonlinear_arith)
        requires
            wall_start.minus(wall_start) == Point2::zero(),
    ;
}

/// Where a movement on a face would end beyond both barriers of a concave
/// corner of the face whose barriers run along the two axes, the one that
/// starts at the corner being the edge `3 * face + k` of the face, and
/// nothing else holds the movement back, the agent ends exactly in the
/// corner.
pub proof fn lemma_slide_into_room_corner(
    nav: &NavMesh,
    face: int,
    k: int,
    start: Point2,
    delta: Point2,
)
    requires
        nav.wf(),
        0 <= face < nav.faces.len(),
        0 <= k < 3,
        delta != Point2::zero(),
        nav.edges[3 * face + k].twin is None,
        ({
            let outgoing = 3 * face + k;
            let incoming = nav.incoming_barrier_of(outgoing);
            let corner = nav.projected_start(outgoing);
            let along_first = nav.projected_start(incoming).y == corner.y && corner.x
                == nav.projected_end(outgoing).x;
            let along_second = nav.projected_start(incoming).x == corner.x && corner.y
                == nav.projected_end(outgoing).y;
            &&& along_first || along_second
            &&& corner_is_concave(nav.edge_normal(incoming), nav.edge_normal(outgoing))
            &&& nav.edge_offset(incoming, start.plus(delta)) > 0
            &&& nav.edge_offset(outgoing, start.plus(delta)) > 0
        }),
        forall|j: int|
            0 <= j < k ==> #[trigger] step_is_clear(nav, 3 * face + j, start.plus(delta), -1),
        forall|j: int|
            k < j < 3 ==> #[trigger] step_is_clear(
                nav,
                3 * face + j,
                nav.projected_start(3 * face + k),
                -1,
            ),
    ensures
        slide(nav, face, start, delta) == nav.projected_start(3 * face + k),
{
    nav.lemma_face_loop_closes(face);
    let outgoing = 3 * face + k;
    let vertex = nav.edges[outgoing].vertex as int;
    nav.lemma_outgoing_barrier_unique(vertex, outgoing);
    nav.lemma_incoming_barrier_ends_at_corner(outgoing);
    let incoming = nav.incoming_barrier_of(outgoing);
    let corner = nav.projected_start(outgoing);
    let from = nav.projected_start(incoming);
    let to = nav.projected_end(outgoing);
    let point = start.plus(delta);
    assert(nav.projected_end(incoming) == corner);
    // Held back by the barrier that starts at the corner, the movement ends on its line.
    let first = point.plus(rejection(corner, to, point));
    // Held back by the barrier that ends at the corner, it ends in the corner.
    let second = first.plus(rejection(from, corner, first));
    let w_in = wall_normal(from, corner);
    if from.y == corner.y && corner.x == to.x {
        lemma_rejection_on_upright_wall(corner, to, point);
        assert(wall_depth(from, corner, first) == wall_depth(from, corner, point))
            by (nonlinear_arith)
            requires
                first.y == point.y,
                w_in.x == 0,
                wall_depth(from, corner, first) == w_in.x * (first.x - from.x) + w_in.y * (first.y
                    - from.y),
                wall_depth(from, corner, point) == w_in.x * (point.x - from.x) + w_in.y * (point.y
                    - from.y),
        ;
        lemma_rejection_on_axis_wall(from, corner, first);
    } else {
        lemma_rejection_on_axis_wall(corner, to, point);
        assert(wall_depth(from, corner, first) == wall_depth(from, corner, point))
            by (nonlinear_arith)
            requires
                first.x == point.x,
                w_in.y == 0,
                wall_depth(from, corner, first) == w_in.x * (first.x - from.x) + w_in.y * (first.y
                    - from.y),
                wall_depth(from, corner, point) == w_in.x * (point.x - from.x) + w_in.y * (point.y
                    - from.y),
        ;
        lemma_rejection_on_upright_wall(from, corner, first);
    }
    assert(second == corner);
    lemma_wall_start_is_not_held(corner, to);
    let cleared = slide_along_barrier(nav, outgoing, start, delta);
    assert(start.plus(cleared) == first);
    let inside = slide_along_barrier(nav, incoming, start, cleared);
    assert(start.plus(inside) == second);
    let held = slide_along_barrier(nav, outgoing, start, inside);
    assert(held == inside);
    assert(slide_past_edge(nav, outgoing, start, delta) == held);
    assert(start.plus(held) == corner);
    lemma_slide_is_held_at_one_edge(nav, face, k, start, delta);
}

/// The barriers that hold an agent back at the edge `e` of its face: `e`
/// itself where it is a barrier, marked `false`, and then the two barriers
/// that meet at the vertex where `e` starts, where they form a concave
/// corner, each marked `true`.
pub open spec fn barriers_at_edge(nav: &NavMesh, e: int) -> Seq<(usize, bool)> {
    let own = if nav.edges[e].twin is None {
        seq![(e as usize, false)]
    } else {
        Seq::<(usize, bool)>::empty()
    };
    match nav.vertices[nav.edges[e].vertex as int].outgoing_barrier {
        None => own,
        Some(outgoing) => {
            let incoming = nav.incoming_barrier_of(outgoing as int);
            if corner_is_concave(nav.edge_normal(incoming), nav.edge_normal(outgoing as int)) {
                own + seq![(incoming as usize, true), (outgoing, true)]
            } else {
                own
            }
        },
    }
}

/// The barriers that hold an agent on `face` back, edge by edge.
pub open spec fn barriers_round_face(nav: &NavMesh, face: int) -> Seq<(usize, bool)> {
    let e0 = nav.faces[face].start_edge as int;
    let e1 = next_in_triangle(e0);
    let e2 = next_in_triangle(e1);
    barriers_at_edge(nav, e0) + barriers_at_edge(nav, e1) + barriers_at_edge(nav, e2)
}

/// Appends to `out` the barriers that hold an agent back at the edge
/// `edge_idx` of its face.
fn push_barriers_at_edge(nav: &NavMesh, edge_idx: usize, out: &mut Vec<(usize, bool)>)
    requires
        nav.wf(),
        edge_idx < nav.edges.len(),
        forall|k: int| 0 <= k < old(out).len() ==> (#[trigger] old(out)[k]).0 < nav.edges.len(),
    ensures
        final(out)@ == old(out)@ + barriers_at_edge(nav, edge_idx as int),
        forall|k: int| 0 <= k < final(out).len() ==> (#[trigger] final(out)[k]).0 < nav.edges.len(),
{
    let edge = nav.edges[edge_idx];
    if edge.twin.is_none() {
        out.push((edge_idx, false));
    }
    let vertex = nav.vertices[edge.vertex];
    match vertex.outgoing_barrier {
        None => {},
        Some(outgoing_barrier_idx) => {
            proof {
                nav.lemma_outgoing_barrier_is_barrier(edge.vertex as int);
            }
            let incoming_barrier_idx = nav.incoming_barrier(outgoing_barrier_idx);
            if corner_is_concave_exec(nav, incoming_barrier_idx, outgoing_barrier_idx) {
                out.push((incoming_barrier_idx, true));
                out.push((outgoing_barrier_idx, true));
            }
        },
    }
}

/// Lists the barriers that hold an agent on the face `face_idx` back, in the
/// order in which a movement is held against them: each edge of the face
/// that is a barrier, marked `false`, and after it the two barriers of the
/// concave corner at which that edge starts, marked `true`.
pub fn barriers_around_face(nav: &NavMesh, face_idx: NavFaceID) -> (r: Vec<(usize, bool)>)
    requires
        nav.wf(),
        face_idx < nav.faces.len(),
    ensures
        r@ == barriers_round_face(nav, face_idx as int),
        forall|i: int| 0 <= i < r.len() ==> (#[trigger] r[i]).0 < nav.edges.len(),
{
    let start_edge = nav.faces[face_idx].start_edge;
    let edges = nav.iter_edge_loop(start_edge);
    proof {
        nav.lemma_face_loop_closes(face_idx as int);
    }
    let e0 = edges[0].0;
    let e1 = edges[1].0;
    let e2 = edges[2].0;
    let mut out: Vec<(usize, bool)> = Vec::new();
    push_barriers_at_edge(nav, e0, &mut out);
    push_barriers_at_edge(nav, e1, &mut out);
    push_barriers_at_edge(nav, e2, &mut out);
    out
}

/// Whether `position` has reached or crossed the edge `e`, and `e` has a
/// length and leads to a neighbouring face.
pub open spec fn can_cross(nav: &NavMesh, e: int, position: Point2) -> bool {
    &&& nav.edges[e].twin is Some
    &&& nav.edge_normal(e).norm_sq() > 0
    &&& nav.edge_offset(e, position) >= 0
}

/// Whether `position` is nearer to the line of edge `e` than to that of
/// edge `other`.
pub open spec fn crossed_nearer(nav: &NavMesh, e: int, other: int, position: Point2) -> bool {
    distance_less(
        nav.edge_offset(e, position),
        nav.edge_normal(e).norm_sq(),
        nav.edge_offset(other, position),
        nav.edge_normal(other).norm_sq(),
    )
}

/// The better of the crossing found so far and the edge `e`: `e` where it
/// can be crossed and is nearer than `best`, else `best`.
pub open spec fn nearer_crossing(
    nav: &NavMesh,
    best: Option<int>,
    e: int,
    position: Point2,
) -> Option<int> {
    if can_cross(nav, e, position) && (best is None || crossed_nearer(
        nav,
        e,
        best->0,
        position,
    )) {
        Some(e)
    } else {
        best
    }
}

/// The edge of `face` across which an agent at `position` leaves the face:
/// of the edges with a twin that `position` has reached or crossed, the
/// nearest, and of several equally near the first.
pub open spec fn transition_edge(nav: &NavMesh, face: int, position: Point2) -> Option<int> {
    let e0 = nav.faces[face].start_edge as int;
    let e1 = next_in_triangle(e0);
    let e2 = next_in_triangle(e1);
    nearer_crossing(
        nav,
        nearer_crossing(nav, nearer_crossing(nav, None, e0, position), e1, position),
        e2,
        position,
    )
}

/// The face on which an agent at `position` stands that stood on `face`.
pub open spec fn transition(nav: &NavMesh, face: int, position: Point2) -> int {
    match transition_edge(nav, face, position) {
        Some(e) => nav.edges[nav.edges[e].twin->0 as int].face as int,
        None => face,
    }
}

/// Whether `best` holds the edge `e` together with the distance of
/// `position` from it, and `e` can be crossed.
spec fn holds_crossing(
    nav: &NavMesh,
    best: Option<(usize, EdgeDistance)>,
    e: Option<int>,
    position: Point2,
) -> bool {
    match best {
        None => e is None,
        Some((edge_idx, distance)) => {
            &&& e == Some(edge_idx as int)
            &&& edge_idx < nav.edges.len()
            &&& can_cross(nav, edge_idx as int, position)
            &&& distance.numerator == nav.edge_offset(edge_idx as int, position)
            &&& distance.length_squared == nav.edge_normal(edge_idx as int).norm_sq()
            &&& distance.wf()
        },
    }
}

fn nearer_crossing_exec(
    nav: &NavMesh,
    best: Option<(usize, EdgeDistance)>,
    Ghost(best_edge): Ghost<Option<int>>,
    edge_idx: usize,
    position: Vec2,
) -> (r: Option<(usize, EdgeDistance)>)
    requires
        nav.wf(),
        edge_idx < nav.edges.len(),
        position@.within(POINT_LIMIT as int),
        holds_crossing(nav, best, best_edge, position@),
    ensures
        holds_crossing(
            nav,
            r,
            nearer_crossing(nav, best_edge, edge_idx as int, position@),
            position@,
        ),
{
    if nav.edges[edge_idx].twin.is_none() {
        return best;
    }
    let dist = nav.distance_to_projected_edge(edge_idx, position);
    if dist.length_squared == 0 || dist.numerator < 0 {
        return best;
    }
    match best {
        None => Some((edge_idx, dist)),
        Some((_, best_dist)) => {
            if dist.is_less_than(best_dist) {
                Some((edge_idx, dist))
            } else {
                best
            }
        },
    }
}

/// The face on which an agent stands after a movement that began on the
/// face `current_face_idx` and ended at `position`: the face beyond the
/// nearest edge with a twin that `position` has reached or crossed, or the
/// same face where there is no such edge.
pub fn transition_player_across_edges(
    nav: &NavMesh,
    current_face_idx: NavFaceID,
    position: Vec2,
) -> (r: NavFaceID)
    requires
        nav.wf(),
        current_face_idx < nav.faces.len(),
        position@.within(POINT_LIMIT as int),
    ensures
        r == transition(nav, current_face_idx as int, position@),
        r < nav.faces.len(),
{
    let start_edge = nav.faces[current_face_idx].start_edge;
    let edges = nav.iter_edge_loop(start_edge);
    proof {
        nav.lemma_face_loop_closes(current_face_idx as int);
    }
    let e0 = edges[0].0;
    let e1 = edges[1].0;
    let e2 = edges[2].0;

    // Find nearest edge to transition across
    let ghost none: Option<int> = None;
    let ghost after0 = nearer_crossing(nav, none, e0 as int, position@);
    let ghost after1 = nearer_crossing(nav, after0, e1 as int, position@);
    let best0 = nearer_crossing_exec(nav, None, Ghost(none), e0, position);
    let best1 = nearer_crossing_exec(nav, best0, Ghost(after0), e1, position);
    let transition_edge = nearer_crossing_exec(nav, best1, Ghost(after1), e2, position);
    match transition_edge {
        Some((edge_idx, _)) => {
            proof {
                nav.lemma_twin_symmetric(edge_idx as int);
            }
            let twin_idx = match nav.edges[edge_idx].twin {
                Some(twin_idx) => twin_idx,
                None => edge_idx,
            };
            nav.edges[twin_idx].face
        },
        None => current_face_idx,
    }
}

/// An agent that is strictly inside its face, seen from above, stays on it.
pub proof fn lemma_agent_inside_stays_on_face(nav: &NavMesh, face: int, position: Point2)
    requires
        nav.wf(),
        0 <= face < nav.faces.len(),
        forall|i: int|
            0 <= i < 3 ==> nav.edge_offset(#[trigger] NavMesh::edge_loop(3 * face)[i], position) < 0,
    ensures
        transition(nav, face, position) == face,
{
    nav.lemma_face_loop_closes(face);
}

/// Distances that are not negative are ordered: what is nearer than a
/// second that is not farther than a third is nearer than the third, and
/// what is not farther than a second that is not farther than a third is not
/// farther than the third.
proof fn lemma_distance_order(n1: int, d1: int, n2: int, d2: int, n3: int, d3: int)
    ensures
        n1 >= 0 && n2 >= 0 && n3 >= 0 && d1 > 0 && d2 > 0 && d3 > 0 ==> {
            &&& distance_less(n1, d1, n2, d2) && !distance_less(n3, d3, n2, d2) ==> distance_less(
                n1,
                d1,
                n3,
                d3,
            )
            &&& !distance_less(n2, d2, n1, d1) && !distance_less(n3, d3, n2, d2) ==> !distance_less(
                n3,
                d3,
                n1,
                d1,
            )
        },
{
    if n1 >= 0 && n2 >= 0 && n3 >= 0 && d1 > 0 && d2 > 0 && d3 > 0 {
        let a = n1 * n1;
        let b = n2 * n2;
        let c = n3 * n3;
        assert(a >= 0 && b >= 0 && c >= 0) by (nonlinear_arith)
            requires
                a == n1 * n1,
                b == n2 * n2,
                c == n3 * n3,
        ;
        assert(a * d2 < b * d1 && b * d3 <= c * d2 ==> a * d3 < c * d1) by (nonlinear_arith)
            requires
                a >= 0,
                b >= 0,
                c >= 0,
                d1 > 0,
                d2 > 0,
                d3 > 0,
        ;
        assert(a * d2 <= b * d1 && b * d3 <= c * d2 ==> a * d3 <= c * d1) by (nonlinear_arith)
            requires
                a >= 0,
                b >= 0,
                c >= 0,
                d1 > 0,
                d2 > 0,
                d3 > 0,
        ;
    }
}

/// An agent that leaves its face leaves it across an edge of that face which
/// has a twin, and which it has reached or crossed; it arrives on the face of
/// that twin. No other such edge is nearer to the agent, and every such edge
/// that comes before it round the face is farther. An agent that has reached
/// or crossed no such edge stays on its face.
pub proof fn lemma_transition_crosses_an_edge(nav: &NavMesh, face: int, position: Point2)
    requires
        nav.wf(),
        0 <= face < nav.faces.len(),
    ensures
        match transition_edge(nav, face, position) {
            Some(e) => {
                &&& 0 <= e < nav.edges.len()
                &&& nav.edges[e].face == face
                &&& can_cross(nav, e, position)
                &&& transition(nav, face, position) == nav.edges[nav.edges[e].twin->0 as int].face
                &&& forall|i: int|
                    0 <= i < 3 && can_cross(nav, #[trigger] NavMesh::edge_loop(3 * face)[i], position)
                        ==> !crossed_nearer(nav, NavMesh::edge_loop(3 * face)[i], e, position)
                &&& forall|i: int|
                    0 <= i < e - 3 * face && can_cross(
                        nav,
                        #[trigger] NavMesh::edge_loop(3 * face)[i],
                        position,
                    ) ==> crossed_nearer(nav, e, NavMesh::edge_loop(3 * face)[i], position)
            },
            None => {
                &&& transition(nav, face, position) == face
                &&& forall|i: int|
                    0 <= i < 3 ==> !can_cross(
                        nav,
                        #[trigger] NavMesh::edge_loop(3 * face)[i],
                        position,
                    )
            },
        },
{
    nav.lemma_face_loop_closes(face);
    let e0 = 3 * face;
    let e1 = e0 + 1;
    let e2 = e0 + 2;
    lemma_distance_order(
        nav.edge_offset(e0, position),
        nav.edge_normal(e0).norm_sq(),
        nav.edge_offset(e1, position),
        nav.edge_normal(e1).norm_sq(),
        nav.edge_offset(e2, position),
        nav.edge_normal(e2).norm_sq(),
    );
    lemma_distance_order(
        nav.edge_offset(e0, position),
        nav.edge_normal(e0).norm_sq(),
        nav.edge_offset(e2, position),
        nav.edge_normal(e2).norm_sq(),
        nav.edge_offset(e1, position),
        nav.edge_normal(e1).norm_sq(),
    );
    lemma_distance_order(
        nav.edge_offset(e1, position),
        nav.edge_normal(e1).norm_sq(),
        nav.edge_offset(e0, position),
        nav.edge_normal(e0).norm_sq(),
        nav.edge_offset(e2, position),
        nav.edge_normal(e2).norm_sq(),
    );
    lemma_distance_order(
        nav.edge_offset(e1, position),
        nav.edge_normal(e1).norm_sq(),
        nav.edge_offset(e2, position),
        nav.edge_normal(e2).norm_sq(),
        nav.edge_offset(e0, position),
        nav.edge_normal(e0).norm_sq(),
    );
    lemma_distance_order(
        nav.edge_offset(e2, position),
        nav.edge_normal(e2).norm_sq(),
        nav.edge_offset(e0, position),
        nav.edge_normal(e0).norm_sq(),
        nav.edge_offset(e1, position),
        nav.edge_normal(e1).norm_sq(),
    );
    lemma_distance_order(
        nav.edge_offset(e2, position),
        nav.edge_normal(e2).norm_sq(),
        nav.edge_offset(e1, position),
        nav.edge_normal(e1).norm_sq(),
        nav.edge_offset(e0, position),
        nav.edge_normal(e0).norm_sq(),
    );
}

/// The square of the distance between two points.
pub open spec fn distance_squared(a: Point3, b: Point3) -> int {
    a.minus(b).norm_sq()
}

/// The first of the first `upto` points that is nearest to `pos`.
pub open spec fn nearest_of(points: Seq<Vec3>, pos: Point3, upto: int) -> int
    decreases upto,
{
    if upto <= 1 {
        0
    } else {
        let best = nearest_of(points, pos, upto - 1);
        if distance_squared(points[upto - 1]@, pos) < distance_squared(points[best]@, pos) {
            upto - 1
        } else {
            best
        }
    }
}

/// The centre of each face.
pub open spec fn centers(nav: &NavMesh) -> Seq<Vec3> {
    Seq::new(nav.faces.len() as nat, |f: int| nav.faces[f].center)
}

/// The face to start from at `pos`: the face whose centre is nearest, where
/// that centre is nearer than the nearest vertex, and else the face of the
/// first edge that leaves the nearest vertex.
pub open spec fn approx_nearest_face(nav: &NavMesh, pos: Point3) -> int {
    let vertex = nearest_of(nav.positions(), pos, nav.vertices.len() as int);
    let face = nearest_of(centers(nav), pos, nav.faces.len() as int);
    if distance_squared(nav.faces[face].center@, pos) < distance_squared(
        nav.vertices[vertex].position@,
        pos,
    ) {
        face
    } else {
        nav.edges[nav.vertices[vertex].outgoing_edge as int].face as int
    }
}

/// Among the first `upto` points, the one that `nearest_of` names is as near
/// to `pos` as any, and nearer than every one before it.
pub proof fn lemma_nearest_of_is_first_nearest(points: Seq<Vec3>, pos: Point3, upto: int)
    requires
        1 <= upto <= points.len(),
    ensures
        0 <= nearest_of(points, pos, upto) < upto,
        forall|i: int|
            0 <= i < upto ==> distance_squared(points[nearest_of(points, pos, upto)]@, pos)
                <= distance_squared(#[trigger] points[i]@, pos),
        forall|i: int|
            0 <= i < nearest_of(points, pos, upto) ==> distance_squared(
                points[nearest_of(points, pos, upto)]@,
                pos,
            ) < distance_squared(#[trigger] points[i]@, pos),
    decreases upto,
{
    if upto > 1 {
        lemma_nearest_of_is_first_nearest(points, pos, upto - 1);
    }
}

fn distance_squared_exec(a: Vec3, b: Vec3) -> (r: i128)
    requires
        a@.within(COORD_LIMIT as int),
        b@.within(POINT_LIMIT as int),
    ensures
        r == distance_squared(a@, b@),
{
    a.minus(b).length_squared()
}

/// Finds a face to start from at `pos`, by the nearest centre of a face and
/// the nearest vertex.
pub fn get_approx_nearest_nav_face(nav: &NavMesh, pos: Vec3) -> (r: NavFaceID)
    requires
        nav.wf(),
        nav.vertices.len() > 0,
        nav.faces.len() > 0,
        pos@.within(POINT_LIMIT as int),
    ensures
        r == approx_nearest_face(nav, pos@),
        r < nav.faces.len(),
{
    let ghost positions = nav.positions();
    let mut nearest_vertex: usize = 0;
    let mut vertex_dist = distance_squared_exec(nav.vertices[0].position, pos);
    let mut v: usize = 1;
    while v < nav.vertices.len()
        invariant
            nav.wf(),
            pos@.within(POINT_LIMIT as int),
            positions == nav.positions(),
            1 <= v <= nav.vertices.len(),
            nearest_vertex == nearest_of(positions, pos@, v as int),
            nearest_vertex < v,
            vertex_dist == distance_squared(nav.vertices[nearest_vertex as int].position@, pos@),
        decreases nav.vertices.len() - v,
    {
        let dist = distance_squared_exec(nav.vertices[v].position, pos);
        if dist < vertex_dist {
            nearest_vertex = v;
            vertex_dist = dist;
        }
        v += 1;
    }
    let ghost face_centers = centers(nav);
    let mut nearest_face_id: usize = 0;
    proof {
        nav.lemma_center_within(0);
    }
    let mut face_dist = distance_squared_exec(nav.faces[0].center, pos);
    let mut f: usize = 1;
    while f < nav.faces.len()
        invariant
            nav.wf(),
            pos@.within(POINT_LIMIT as int),
            face_centers == centers(nav),
            1 <= f <= nav.faces.len(),
            nearest_face_id == nearest_of(face_centers, pos@, f as int),
            nearest_face_id < f,
            face_dist == distance_squared(nav.faces[nearest_face_id as int].center@, pos@),
        decreases nav.faces.len() - f,
    {
        proof {
            nav.lemma_center_within(f as int);
        }
        let dist = distance_squared_exec(nav.faces[f].center, pos);
        if dist < face_dist {
            nearest_face_id = f;
            face_dist = dist;
        }
        f += 1;
    }
    if face_dist < vertex_dist {
        nearest_face_id
    } else {
        proof {
            nav.lemma_outgoing_edge_is_edge(nearest_vertex as int);
        }
        nav.edges[nav.vertices[nearest_vertex].outgoing_edge].face
    }
}

/// Largest magnitude of a coordinate of a stride: two to the power 17.
pub const STRIDE_LIMIT: i64 = 0x2_0000;

/// How far one frame carries the agent at its ordinary speed, in lattice
/// steps, and how high its eyes are above the ground.
#[derive(Clone, Copy, Debug)]
pub struct Stride {
    /// One frame's flight straight ahead.
    pub forward: Vec3,
    /// One frame's flight to the right.
    pub right: Vec3,
    /// One frame's walk straight ahead, seen from above.
    pub ground_forward: Vec2,
    /// One frame's walk to the right, seen from above.
    pub ground_right: Vec2,
    /// The height of the agent's position above the ground it stands on.
    pub player_height: i64,
}

impl Stride {
    /// Whether every stride is within the limit of strides, and the height
    /// within the limit of the mesh.
    pub open spec fn wf(&self) -> bool {
        &&& self.forward@.within(STRIDE_LIMIT as int)
        &&& self.right@.within(STRIDE_LIMIT as int)
        &&& self.ground_forward@.within(STRIDE_LIMIT as int)
        &&& self.ground_right@.within(STRIDE_LIMIT as int)
        &&& -COORD_LIMIT <= self.player_height <= COORD_LIMIT
    }
}

/// The agent: what it intends, whether it flies or walks, and the face it
/// walks on.
#[derive(Debug)]
pub struct PlayerController {
    pub go_forward: bool,
    pub go_backward: bool,
    pub go_left: bool,
    pub go_right: bool,
    pub go_fast: bool,
    /// Whether the agent flies.
    pub fly_mode: bool,
    /// The face that the agent walks on, once it has walked.
    pub current_nav_face: Option<NavFaceID>,
}

/// The stride `step`, taken where the agent intends to go `with` it, taken
/// back where it intends to go `against` it, and not taken where it intends
/// both or neither.
pub open spec fn taken2(with: bool, against: bool, step: Point2) -> Point2 {
    if with && !against {
        step
    } else if against && !with {
        Point2::zero().minus(step)
    } else {
        Point2::zero()
    }
}

/// The stride `step`, taken where the agent intends to go `with` it, taken
/// back where it intends to go `against` it, and not taken where it intends
/// both or neither.
pub open spec fn taken3(with: bool, against: bool, step: Point3) -> Point3 {
    if with && !against {
        step
    } else if against && !with {
        Point3::zero().minus(step)
    } else {
        Point3::zero()
    }
}

/// How many strides a frame covers: two where the agent goes fast.
pub open spec fn pace(go_fast: bool) -> int {
    if go_fast {
        2
    } else {
        1
    }
}

/// Where an agent stands on `face` whose feet are over or under `feet`: on
/// the point of the face's plane there, raised by `player_height`. Where
/// that plane is too steep to have such a point, the agent keeps the height
/// `previous_height`.
pub open spec fn standing_position(
    nav: &NavMesh,
    face: int,
    feet: Point2,
    previous_height: int,
    player_height: int,
) -> Point3 {
    match intersection(nav.faces[face].plane@, feet.to_x0z(), Point3 { x: 0, y: 1, z: 0 }) {
        Some(ground) => ground.plus(Point3 { x: 0, y: player_height, z: 0 }),
        None => Point3 { x: feet.x, y: previous_height, z: feet.y },
    }
}

/// Where an agent is that set out from `from` for `to`: at `to`, unless `to`
/// lies beyond the lattice.
pub open spec fn kept_in_lattice(from: Point3, to: Point3) -> Point3 {
    if to.within(COORD_LIMIT as int) {
        to
    } else {
        from
    }
}

/// An agent that is put on a face stands over or under the point at which
/// its feet were put, and, where the face is not too steep, at its height
/// above a point within half a lattice step of the face's plane.
pub proof fn lemma_standing_position_is_on_face(
    nav: &NavMesh,
    face: int,
    feet: Point2,
    previous_height: int,
    player_height: int,
)
    ensures
        ({
            let plane = nav.faces[face].plane@;
            let stands = standing_position(nav, face, feet, previous_height, player_height);
            let ground = stands.minus(Point3 { x: 0, y: player_height, z: 0 });
            &&& stands.to_xz() == feet
            &&& intersection(plane, feet.to_x0z(), Point3 { x: 0, y: 1, z: 0 }) is Some ==> -abs(
                plane.normal.y,
            ) <= 2 * (plane.normal.dot(ground) - plane.length) <= abs(plane.normal.y)
        }),
{
    let plane = nav.faces[face].plane@;
    if intersection(plane, feet.to_x0z(), Point3 { x: 0, y: 1, z: 0 }) is Some {
        lemma_vertical_intersection_is_on_plane(plane, feet.to_x0z());
    }
}

fn taken2_exec(with: bool, against: bool, step: Vec2) -> (r: Vec2)
    requires
        step@.within(STRIDE_LIMIT as int),
    ensures
        r@ == taken2(with, against, step@),
        r@.within(STRIDE_LIMIT as int),
{
    let mut taken = Vec2::zero();
    if with {
        taken = taken.plus(step);
    }
    if against {
        taken = taken.minus(step);
    }
    taken
}

fn taken3_exec(with: bool, against: bool, step: Vec3) -> (r: Vec3)
    requires
        step@.within(STRIDE_LIMIT as int),
    ensures
        r@ == taken3(with, against, step@),
        r@.within(STRIDE_LIMIT as int),
{
    let mut taken = Vec3::zero();
    if with {
        taken = taken.plus(step);
    }
    if against {
        taken = taken.minus(step);
    }
    taken
}

/// Puts an agent on `face` whose feet are over or under `feet`.
fn stand_on(
    nav: &NavMesh,
    face: NavFaceID,
    feet: Vec2,
    previous_height: i64,
    player_height: i64,
) -> (r: Vec3)
    requires
        nav.wf(),
        face < nav.faces.len(),
        feet@.within(POINT_LIMIT as int),
        -COORD_LIMIT <= player_height <= COORD_LIMIT,
    ensures
        r@ == standing_position(
            nav,
            face as int,
            feet@,
            previous_height as int,
            player_height as int,
        ),
{
    let face_plane = nav.faces[face].plane;
    proof {
        nav.lemma_face_plane_is_anchored(face as int);
    }
    match intersect_plane(face_plane, feet.to_x0z(), Vec3::from_y(1)) {
        Some(pos_3d) => {
            proof {
                lemma_intersection_within(face_plane@, feet@.to_x0z(), Point3 { x: 0, y: 1, z: 0 });
            }
            pos_3d.plus(Vec3::from_y(player_height))
        },
        None => Vec3 { x: feet.x, y: previous_height, z: feet.y },
    }
}

impl PlayerController {
    /// Whether the face that the agent walks on is a face of `nav`.
    pub open spec fn wf(&self, nav: &NavMesh) -> bool {
        self.current_nav_face is Some ==> self.current_nav_face->0 < nav.faces.len()
    }

    /// The movement that the agent intends in flight, in one frame.
    pub open spec fn flight(&self, stride: &Stride) -> Point3 {
        taken3(self.go_forward, self.go_backward, stride.forward@).plus(
            taken3(self.go_right, self.go_left, stride.right@),
        ).scaled(pace(self.go_fast))
    }

    /// The movement that the agent intends on the ground, in one frame.
    pub open spec fn walk(&self, stride: &Stride) -> Point2 {
        taken2(self.go_forward, self.go_backward, stride.ground_forward@).plus(
            taken2(self.go_right, self.go_left, stride.ground_right@),
        ).scaled(pace(self.go_fast))
    }

    /// Computes the movement that the agent intends in flight, in one frame.
    fn flight_exec(&self, stride: &Stride) -> (r: Vec3)
        requires
            stride.wf(),
        ensures
            r@ == self.flight(stride),
            r@.within(4 * STRIDE_LIMIT),
    {
        let ahead = taken3_exec(self.go_forward, self.go_backward, stride.forward);
        let aside = taken3_exec(self.go_right, self.go_left, stride.right);
        let camera_delta = ahead.plus(aside);
        if self.go_fast {
            camera_delta.plus(camera_delta)
        } else {
            camera_delta
        }
    }

    /// Computes the movement that the agent intends on the ground, in one frame.
    fn walk_exec(&self, stride: &Stride) -> (r: Vec2)
        requires
            stride.wf(),
        ensures
            r@ == self.walk(stride),
            r@.within(4 * STRIDE_LIMIT),
    {
        let ahead = taken2_exec(self.go_forward, self.go_backward, stride.ground_forward);
        let aside = taken2_exec(self.go_right, self.go_left, stride.ground_right);
        let camera_delta = ahead.plus(aside);
        if self.go_fast {
            camera_delta.plus(camera_delta)
        } else {
            camera_delta
        }
    }

    /// The face from which a frame on the ground starts: the face the agent
    /// walks on, or else one near the agent's feet.
    pub open spec fn starting_face(&self, nav: &NavMesh, position: Point3, stride: &Stride) -> int {
        match self.current_nav_face {
            Some(face) => face as int,
            None => approx_nearest_face(
                nav,
                position.minus(Point3 { x: 0, y: stride.player_height as int, z: 0 }),
            ),
        }
    }

    /// Where the agent's feet are after a frame on the ground, seen from above.
    pub open spec fn walked_to(&self, nav: &NavMesh, position: Point3, stride: &Stride) -> Point2 {
        slide(nav, self.starting_face(nav, position, stride), position.to_xz(), self.walk(stride))
    }

    /// The face that the agent walks on after a frame on the ground.
    pub open spec fn walked_onto(&self, nav: &NavMesh, position: Point3, stride: &Stride) -> int {
        transition(
            nav,
            self.starting_face(nav, position, stride),
            self.walked_to(nav, position, stride),
        )
    }

    /// Where the agent is after a frame on the ground: at its height above
    /// the face it has walked onto.
    pub open spec fn walked_position(
        &self,
        nav: &NavMesh,
        position: Point3,
        stride: &Stride,
    ) -> Point3 {
        standing_position(
            nav,
            self.walked_onto(nav, position, stride),
            self.walked_to(nav, position, stride),
            position.y,
            stride.player_height as int,
        )
    }

    /// An agent that stands still, on the ground, on no face yet.
    pub fn new() -> (r: PlayerController)
        ensures
            !r.go_forward,
            !r.go_backward,
            !r.go_left,
            !r.go_right,
            !r.go_fast,
            !r.fly_mode,
            r.current_nav_face is None,
    {
        PlayerController {
            go_forward: false,
            go_backward: false,
            go_left: false,
            go_right: false,
            go_fast: false,
            fly_mode: false,
            current_nav_face: None,
        }
    }

    /// The face that the agent walks on, once it has walked.
    pub fn nav_face(&self) -> (r: Option<NavFaceID>)
        ensures
            r == self.current_nav_face,
    {
        self.current_nav_face
    }

    /// Puts the agent on the face `face`.
    pub fn set_face(&mut self, face: NavFaceID)
        ensures
            final(self).current_nav_face == Some(face),
            final(self).fly_mode == old(self).fly_mode,
            final(self).same_intent(old(self)),
    {
        self.current_nav_face = Some(face);
    }

    /// Whether two agents intend the same.
    pub open spec fn same_intent(&self, other: &PlayerController) -> bool {
        &&& self.go_forward == other.go_forward
        &&& self.go_backward == other.go_backward
        &&& self.go_left == other.go_left
        &&& self.go_right == other.go_right
        &&& self.go_fast == other.go_fast
    }

    /// Takes off where the agent walks, and lands where it flies. An agent
    /// that takes off forgets the face it walked on.
    pub fn toggle_fly_mode(&mut self)
        ensures
            final(self).fly_mode == !old(self).fly_mode,
            final(self).current_nav_face == (if old(self).fly_mode {
                old(self).current_nav_face
            } else {
                None
            }),
            final(self).same_intent(old(self)),
    {
        self.fly_mode = !self.fly_mode;

        if self.fly_mode {
            self.current_nav_face = None;
        }
    }

    /// Moves the agent by one frame from `position`, and returns where it is
    /// then.
    ///
    /// In flight the agent moves freely by what it intends. On the ground
    /// what it intends is slid along the barriers of its face, the agent is
    /// handed over to the face it has walked onto, and it is put at its
    /// height above that face.
    ///
    /// A frame that would take the agent out of the lattice is not made: the
    /// agent keeps its place and the face it had, and an agent that had no
    /// face yet has none after such a frame.
    pub fn update(&mut self, position: Vec3, stride: &Stride, nav_mesh: &NavMesh) -> (r: Vec3)
        requires
            stride.wf(),
            position@.within(COORD_LIMIT as int),
            !old(self).fly_mode ==> {
                &&& nav_mesh.wf()
                &&& old(self).wf(nav_mesh)
                &&& old(self).current_nav_face is None ==> nav_mesh.vertices.len() > 0
                    && nav_mesh.faces.len() > 0
            },
        ensures
            final(self).same_intent(old(self)),
            final(self).fly_mode == old(self).fly_mode,
            !old(self).fly_mode ==> final(self).wf(nav_mesh),
            r@.within(COORD_LIMIT as int),
            old(self).fly_mode ==> {
                &&& r@ == kept_in_lattice(position@, position@.plus(old(self).flight(stride)))
                &&& final(self).current_nav_face == old(self).current_nav_face
            },
            !old(self).fly_mode ==> {
                &&& r@ == kept_in_lattice(
                    position@,
                    old(self).walked_position(nav_mesh, position@, stride),
                )
                &&& final(self).current_nav_face == (if old(self).walked_position(
                    nav_mesh,
                    position@,
                    stride,
                ).within(COORD_LIMIT as int) {
                    Some(old(self).walked_onto(nav_mesh, position@, stride) as usize)
                } else {
                    old(self).current_nav_face
                })
            },
    {
        if self.fly_mode {
            let camera_delta = self.flight_exec(stride);
            let moved = position.plus(camera_delta);
            if moved.is_within(COORD_LIMIT) {
                moved
            } else {
                position
            }
        } else {
            let face_idx = match self.current_nav_face {
                Some(face_idx) => face_idx,
                None => get_approx_nearest_nav_face(
                    nav_mesh,
                    position.minus(Vec3::from_y(stride.player_height)),
                ),
            };
            let camera_delta = self.walk_exec(stride);
            let new_pos_2d = slide_player_along_barriers(
                nav_mesh,
                face_idx,
                position.to_xz(),
                camera_delta,
            );
            let new_face_idx = transition_player_across_edges(nav_mesh, face_idx, new_pos_2d);
            let moved = stand_on(
                nav_mesh,
                new_face_idx,
                new_pos_2d,
                position.y,
                stride.player_height,
            );
            if moved.is_within(COORD_LIMIT) {
                self.current_nav_face = Some(new_face_idx);
                moved
            } else {
                position
            }
        }
    }
}

} // verus!
