//! Where a line meets a plane.

use vstd::prelude::*;
use crate::arith::{
    abs,
    div_nearest,
    div_nearest_exec,
    lemma_div_nearest_brackets,
    lemma_div_nearest_exact,
    lemma_div_nearest_within,
    lemma_product_bounds,
    lemma_square_bounds,
    product_less,
};
use crate::vector::{
    lemma_dot3_bounds,
    lemma_dot_in_cube,
    lemma_norm_sq3_bounds,
    Plane,
    PlaneModel,
    Point3,
    Vec3,
    POINT_LIMIT,
};

verus! {

/// Largest magnitude of a coordinate of the normal of a plane that
/// [`intersect_plane`] accepts: two to the power 43. The normal of the plane
/// through three points of a mesh is within it.
pub const NORMAL_LIMIT: i64 = 0x800_0000_0000;

/// Largest magnitude of a coordinate of the direction of a line that
/// [`intersect_plane`] accepts: two to the power 16.
pub const DIRECTION_LIMIT: i64 = 0x1_0000;

/// Largest magnitude of the inner product of a plane's normal and a line's
/// direction.
pub const ALONG_LIMIT: i128 = 0x1800_0000_0000_0000;

/// Largest magnitude of the inner product of a plane's normal and the
/// displacement between two points.
pub const GAP_LIMIT: i128 = 0xC_0000_0000_0000_0000_0000;

/// Whether the line's direction makes with the plane an angle whose sine is
/// below one hundredth: `|n . d| < 0.01 * |n| * |d|`, stated in squares.
pub open spec fn nearly_parallel(normal: Point3, direction: Point3) -> bool {
    10000 * (normal.dot(direction) * normal.dot(direction)) < normal.norm_sq()
        * direction.norm_sq()
}

/// `n / d` rounded to the nearest integer, for a divisor of either sign.
pub open spec fn quotient_nearest(n: int, d: int) -> int {
    if d > 0 {
        div_nearest(n, d)
    } else {
        div_nearest(-n, -d)
    }
}

/// The point at which the line through `line_point` along `line_direction`
/// meets the plane, each coordinate rounded to the nearest lattice step.
/// There is none where the line is nearly parallel to the plane, nor where
/// the plane has no normal or the line no direction.
pub open spec fn intersection(
    plane: PlaneModel,
    line_point: Point3,
    line_direction: Point3,
) -> Option<Point3> {
    let along = plane.normal.dot(line_direction);
    let gap = plane.length - plane.normal.dot(line_point);
    if along == 0 || nearly_parallel(plane.normal, line_direction) {
        None
    } else {
        Some(
            Point3 {
                x: line_point.x + quotient_nearest(line_direction.x * gap, along),
                y: line_point.y + quotient_nearest(line_direction.y * gap, along),
                z: line_point.z + quotient_nearest(line_direction.z * gap, along),
            },
        )
    }
}

/// A point of the cube that a plane meets lies, measured along the plane's
/// normal, at most two sides of the cube from the plane.
proof fn lemma_gap_is_short(plane: PlaneModel, p: Point3)
    requires
        plane.meets_cube(POINT_LIMIT as int),
        p.within(POINT_LIMIT as int),
    ensures
        abs(plane.length - plane.normal.dot(p)) <= (abs(plane.normal.x) + abs(plane.normal.y)
            + abs(plane.normal.z)) * (2 * POINT_LIMIT),
{
    let s = abs(plane.normal.x) + abs(plane.normal.y) + abs(plane.normal.z);
    lemma_dot_in_cube(plane.normal, p, POINT_LIMIT as int);
    assert(s * (2 * POINT_LIMIT) == s * POINT_LIMIT + s * POINT_LIMIT) by (nonlinear_arith);
}

/// Where `x * x <= y * y` and `y` is not negative, `|x| <= y`.
proof fn lemma_square_root_order(x: int, y: int)
    by (nonlinear_arith)
    requires
        x * x <= y * y,
        0 <= y,
    ensures
        -y <= x <= y,
{
}

/// A product of two squares is the square of the product.
proof fn lemma_square_of_product(a: int, b: int)
    by (nonlinear_arith)
    ensures
        (a * b) * (a * b) == (a * a) * (b * b),
{
}

/// The square of a sum of three is at most three times the sum of the squares.
proof fn lemma_sum_square(a: int, b: int, c: int)
    by (nonlinear_arith)
    ensures
        (a + b + c) * (a + b + c) <= 3 * (a * a + b * b + c * c),
{
}

/// Multiplying by something that is not negative keeps an order.
proof fn lemma_scale_order(a: int, b: int, k: int)
    by (nonlinear_arith)
    requires
        a <= b,
        0 <= k,
    ensures
        a * k <= b * k,
        k * a <= k * b,
{
}

/// The step from the line's point to where the line meets the plane is, in
/// each coordinate, at most 174 times `far`, where the line is not nearly
/// parallel to the plane and the line's point lies `gap / |normal|` from the
/// plane, with `gap` at most `far` times the sum of the magnitudes of the
/// normal's coordinates.
proof fn lemma_step_is_short(normal: Point3, direction: Point3, gap: int, far: int, c: int)
    requires
        !nearly_parallel(normal, direction),
        abs(gap) <= (abs(normal.x) + abs(normal.y) + abs(normal.z)) * far,
        0 <= far,
        c == direction.x || c == direction.y || c == direction.z,
    ensures
        -(174 * far * abs(normal.dot(direction))) <= c * gap <= 174 * far * abs(
            normal.dot(direction),
        ),
{
    let along = normal.dot(direction);
    let s = abs(normal.x) + abs(normal.y) + abs(normal.z);
    assert(0 <= s * far) by (nonlinear_arith)
        requires
            0 <= s,
            0 <= far,
    ;
    lemma_square_bounds(gap, s * far);
    let gap2 = gap * gap;
    let s2 = s * s;
    let far2 = far * far;
    let n2 = normal.norm_sq();
    let d2 = direction.norm_sq();
    let along2 = along * along;
    let c2 = c * c;
    lemma_square_of_product(s, far);
    lemma_sum_square(abs(normal.x), abs(normal.y), abs(normal.z));
    assert(abs(normal.x) * abs(normal.x) == normal.x * normal.x) by (nonlinear_arith);
    assert(abs(normal.y) * abs(normal.y) == normal.y * normal.y) by (nonlinear_arith);
    assert(abs(normal.z) * abs(normal.z) == normal.z * normal.z) by (nonlinear_arith);
    assert(0 <= c2 <= d2) by (nonlinear_arith)
        requires
            c == direction.x || c == direction.y || c == direction.z,
            c2 == c * c,
            d2 == direction.x * direction.x + direction.y * direction.y + direction.z
                * direction.z,
    ;
    assert(0 <= far2) by (nonlinear_arith)
        requires
            far2 == far * far,
    ;
    assert(0 <= gap2) by (nonlinear_arith)
        requires
            gap2 == gap * gap,
    ;
    assert(0 <= n2) by (nonlinear_arith)
        requires
            n2 == normal.x * normal.x + normal.y * normal.y + normal.z * normal.z,
    ;
    // c2 * gap2 <= d2 * gap2 <= d2 * (s2 * far2) <= d2 * (3 * n2 * far2) <= 30000 * along2 * far2
    lemma_scale_order(c2, d2, gap2);
    lemma_scale_order(gap2, s2 * far2, d2);
    lemma_scale_order(s2, 3 * n2, far2);
    lemma_scale_order(s2 * far2, (3 * n2) * far2, d2);
    lemma_scale_order(n2 * d2, 10000 * along2, 3 * far2);
    assert(d2 * ((3 * n2) * far2) == (n2 * d2) * (3 * far2)) by (nonlinear_arith);
    assert((10000 * along2) * (3 * far2) == 30000 * (along2 * far2)) by (nonlinear_arith);
    lemma_square_of_product(c, gap);
    let bound = 174 * far * abs(along);
    assert(bound * bound == 30276 * (along2 * far2)) by (nonlinear_arith)
        requires
            bound == 174 * far * abs(along),
            along2 == along * along,
            far2 == far * far,
    ;
    assert(0 <= along2 * far2) by (nonlinear_arith)
        requires
            along2 == along * along,
            far2 == far * far,
    ;
    assert(0 <= bound) by (nonlinear_arith)
        requires
            bound == 174 * far * abs(along),
            0 <= far,
    ;
    lemma_square_root_order(c * gap, bound);
}

/// Whether `plane` is one that [`intersect_plane`] accepts: whether its
/// normal is within the limit of normals, and it meets the cube of the points
/// within the limit of points.
pub fn plane_is_in_reach(plane: &Plane) -> (r: bool)
    ensures
        r == (plane.normal@.within(NORMAL_LIMIT as int) && plane@.meets_cube(POINT_LIMIT as int)),
{
    if !plane.normal.is_within(NORMAL_LIMIT) {
        return false;
    }
    let x: i128 = if plane.normal.x >= 0 {
        plane.normal.x as i128
    } else {
        -(plane.normal.x as i128)
    };
    let y: i128 = if plane.normal.y >= 0 {
        plane.normal.y as i128
    } else {
        -(plane.normal.y as i128)
    };
    let z: i128 = if plane.normal.z >= 0 {
        plane.normal.z as i128
    } else {
        -(plane.normal.z as i128)
    };
    proof {
        lemma_product_bounds(x + y + z, POINT_LIMIT as int, 3 * NORMAL_LIMIT, POINT_LIMIT as int);
        assert((3 * NORMAL_LIMIT) * POINT_LIMIT == 0x6_0000_0000_0000_0000_0000) by (nonlinear_arith);
    }
    let reach: i128 = (x + y + z) * (POINT_LIMIT as i128);
    -reach <= plane.length && plane.length <= reach
}

/// Finds where the line through `line_point` along `line_direction` meets
/// `plane`.
///
/// Returns `None` where the line is nearly parallel to the plane: where its
/// direction makes with the plane an angle whose sine is below one
/// hundredth. The plane must meet the cube of the points within the limit of
/// points: its length must be at most that limit times the sum of the
/// magnitudes of its normal's coordinates.
pub fn intersect_plane(plane: Plane, line_point: Vec3, line_direction: Vec3) -> (r: Option<Vec3>)
    requires
        plane.normal@.within(NORMAL_LIMIT as int),
        plane@.meets_cube(POINT_LIMIT as int),
        line_point@.within(POINT_LIMIT as int),
        line_direction@.within(DIRECTION_LIMIT as int),
    ensures
        match r {
            Some(p) => intersection(plane@, line_point@, line_direction@) == Some(p@),
            None => intersection(plane@, line_point@, line_direction@) is None,
        },
{
    proof {
        lemma_dot3_bounds(plane.normal@, line_direction@, NORMAL_LIMIT as int, DIRECTION_LIMIT as int);
        lemma_dot3_bounds(plane.normal@, line_point@, NORMAL_LIMIT as int, POINT_LIMIT as int);
        lemma_gap_is_short(plane@, line_point@);
        lemma_product_bounds(
            abs(plane.normal.x as int) + abs(plane.normal.y as int) + abs(plane.normal.z as int),
            2 * POINT_LIMIT,
            3 * NORMAL_LIMIT,
            2 * POINT_LIMIT,
        );
        assert((3 * NORMAL_LIMIT) * (2 * POINT_LIMIT) == GAP_LIMIT) by (nonlinear_arith);
        lemma_norm_sq3_bounds(plane.normal@, NORMAL_LIMIT as int);
        lemma_norm_sq3_bounds(line_direction@, DIRECTION_LIMIT as int);
        assert(NORMAL_LIMIT * DIRECTION_LIMIT == 0x800_0000_0000_0000) by (nonlinear_arith);
        assert(NORMAL_LIMIT * POINT_LIMIT == 0x2_0000_0000_0000_0000_0000) by (nonlinear_arith);
        assert(NORMAL_LIMIT * NORMAL_LIMIT == 0x40_0000_0000_0000_0000_0000) by (nonlinear_arith);
        assert(DIRECTION_LIMIT * DIRECTION_LIMIT == 0x1_0000_0000) by (nonlinear_arith);
    }
    let along: i128 = plane.normal.dot(line_direction);
    if along == 0 {
        return None;
    }
    // nearly parallel to the plane
    proof {
        lemma_square_bounds(along as int, ALONG_LIMIT as int);
    }
    let along_squared: u128 = (along * along) as u128;
    let normal_squared: u128 = plane.normal.length_squared() as u128;
    let direction_squared: u64 = line_direction.length_squared() as u64;
    if product_less(along_squared, 10000, normal_squared, direction_squared) {
        assert(10000 * (along * along) == (along * along) * 10000) by (nonlinear_arith);
        return None;
    }
    assert(!nearly_parallel(plane.normal@, line_direction@)) by {
        assert(10000 * (along * along) == (along * along) * 10000) by (nonlinear_arith);
    }
    let gap: i128 = plane.length - plane.normal.dot(line_point);
    proof {
        lemma_step_is_short(
            plane.normal@,
            line_direction@,
            gap as int,
            2 * POINT_LIMIT,
            line_direction.x as int,
        );
        lemma_step_is_short(
            plane.normal@,
            line_direction@,
            gap as int,
            2 * POINT_LIMIT,
            line_direction.y as int,
        );
        lemma_step_is_short(
            plane.normal@,
            line_direction@,
            gap as int,
            2 * POINT_LIMIT,
            line_direction.z as int,
        );
    }
    let x = step_along(line_direction.x, gap, along);
    let y = step_along(line_direction.y, gap, along);
    let z = step_along(line_direction.z, gap, along);
    Some(Vec3 { x: line_point.x + x, y: line_point.y + y, z: line_point.z + z })
}

/// Largest step from a line's point to where the line meets a plane.
pub const STEP_LIMIT: i64 = 348 * POINT_LIMIT;

/// Computes `c * gap / along`, rounded to the nearest.
fn step_along(c: i64, gap: i128, along: i128) -> (r: i64)
    requires
        along != 0,
        -ALONG_LIMIT <= along <= ALONG_LIMIT,
        -DIRECTION_LIMIT <= c <= DIRECTION_LIMIT,
        -GAP_LIMIT <= gap <= GAP_LIMIT,
        -(174 * (2 * POINT_LIMIT) * abs(along as int)) <= c * gap <= 174 * (2 * POINT_LIMIT) * abs(
            along as int,
        ),
    ensures
        r == quotient_nearest(c * gap, along as int),
        -STEP_LIMIT <= r <= STEP_LIMIT,
{
    proof {
        lemma_product_bounds(
            c as int,
            gap as int,
            DIRECTION_LIMIT as int,
            GAP_LIMIT as int,
        );
        assert(DIRECTION_LIMIT * GAP_LIMIT == 0xC_0000_0000_0000_0000_0000_0000)
            by (nonlinear_arith);
        assert(174 * (2 * POINT_LIMIT) * abs(along as int) == (348 * POINT_LIMIT) * abs(
            along as int,
        )) by (nonlinear_arith);
    }
    let numerator: i128 = (c as i128) * gap;
    if along > 0 {
        proof {
            lemma_div_nearest_within(numerator as int, along as int, 348 * POINT_LIMIT);
        }
        div_nearest_exec(numerator, along) as i64
    } else {
        proof {
            lemma_div_nearest_within(-numerator as int, -along as int, 348 * POINT_LIMIT);
        }
        div_nearest_exec(-numerator, -along) as i64
    }
}

/// Where a line meets a plane, it does so within the limit of steps of the
/// line's point.
pub proof fn lemma_intersection_within(plane: PlaneModel, line_point: Point3, line_direction: Point3)
    requires
        plane.normal.within(NORMAL_LIMIT as int),
        plane.meets_cube(POINT_LIMIT as int),
        line_point.within(POINT_LIMIT as int),
        line_direction.within(DIRECTION_LIMIT as int),
        intersection(plane, line_point, line_direction) is Some,
    ensures
        intersection(plane, line_point, line_direction)->0.minus(line_point).within(
            STEP_LIMIT as int,
        ),
{
    let along = plane.normal.dot(line_direction);
    let gap = plane.length - plane.normal.dot(line_point);
    lemma_gap_is_short(plane, line_point);
    lemma_step_is_short(plane.normal, line_direction, gap, 2 * POINT_LIMIT, line_direction.x);
    lemma_step_is_short(plane.normal, line_direction, gap, 2 * POINT_LIMIT, line_direction.y);
    lemma_step_is_short(plane.normal, line_direction, gap, 2 * POINT_LIMIT, line_direction.z);
    lemma_quotient_within(line_direction.x * gap, along);
    lemma_quotient_within(line_direction.y * gap, along);
    lemma_quotient_within(line_direction.z * gap, along);
}

/// A quotient is within the limit of steps where its dividend is within
/// that limit times the divisor.
proof fn lemma_quotient_within(n: int, d: int)
    requires
        d != 0,
        -(174 * (2 * POINT_LIMIT) * abs(d)) <= n <= 174 * (2 * POINT_LIMIT) * abs(d),
    ensures
        -STEP_LIMIT <= quotient_nearest(n, d) <= STEP_LIMIT,
{
    assert(174 * (2 * POINT_LIMIT) * abs(d) == (348 * POINT_LIMIT) * abs(d)) by (nonlinear_arith);
    if d > 0 {
        lemma_div_nearest_within(n, d, 348 * POINT_LIMIT);
    } else {
        lemma_div_nearest_within(-n, -d, 348 * POINT_LIMIT);
    }
}

/// Where the vertical line through a point meets a plane, it does so
/// straight above or below the point, and within half a lattice step of the
/// plane, measured along the vertical.
pub proof fn lemma_vertical_intersection_is_on_plane(plane: PlaneModel, line_point: Point3)
    requires
        intersection(plane, line_point, Point3 { x: 0, y: 1, z: 0 }) is Some,
    ensures
        ({
            let met = intersection(plane, line_point, Point3 { x: 0, y: 1, z: 0 })->0;
            &&& met.x == line_point.x
            &&& met.z == line_point.z
            &&& -abs(plane.normal.y) <= 2 * (plane.normal.dot(met) - plane.length) <= abs(
                plane.normal.y,
            )
        }),
{
    let up = Point3 { x: 0, y: 1, z: 0 };
    let along = plane.normal.dot(up);
    let gap = plane.length - plane.normal.dot(line_point);
    let met = intersection(plane, line_point, up)->0;
    assert(along == plane.normal.y) by (nonlinear_arith)
        requires
            along == plane.normal.x * 0 + plane.normal.y * 1 + plane.normal.z * 0,
    ;
    assert(0 * gap == 0 && 1 * gap == gap) by (nonlinear_arith);
    let rise = quotient_nearest(gap, along);
    if along > 0 {
        lemma_div_nearest_exact(0, along);
        lemma_div_nearest_brackets(gap, along);
    } else {
        lemma_div_nearest_exact(0, -along);
        lemma_div_nearest_brackets(-gap, -along);
    }
    assert(0 * along == 0 && 0 * (-along) == 0) by (nonlinear_arith);
    assert(plane.normal.dot(met) - plane.length == plane.normal.y * rise - gap)
        by (nonlinear_arith)
        requires
            met.x == line_point.x,
            met.y == line_point.y + rise,
            met.z == line_point.z,
            gap == plane.length - plane.normal.dot(line_point),
    ;
    assert(plane.normal.y * rise == rise * along) by (nonlinear_arith)
        requires
            along == plane.normal.y,
    ;
    assert(rise * along == -(rise * (-along))) by (nonlinear_arith);
}

} // verus!
