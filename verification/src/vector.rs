//! Lattice vectors in the plane and in space, and planes through lattice points.
//!
//! Every coordinate is an integer number of lattice steps. The horizontal
//! plane is spanned by `x` and `z`; `y` points up. What would need a square
//! root (a unit normal, a distance) is held unnormalised, so that every
//! comparison made on it is exact.

use vstd::prelude::*;
use crate::arith::{abs, lemma_product_bounds, lemma_square_bounds};

verus! {

/// Largest magnitude of a coordinate of a mesh vertex: two to the power 20.
pub const COORD_LIMIT: i64 = 0x10_0000;

/// Largest magnitude of a coordinate of a point that is tested against the
/// mesh: two to the power 38.
pub const POINT_LIMIT: i64 = 0x40_0000_0000;

/// Largest magnitude of a coordinate on which the vector operations work:
/// two to the power 61.
pub const COMPONENT_LIMIT: i64 = 0x2000_0000_0000_0000;

/// A point or a displacement of the horizontal plane, with unbounded
/// coordinates: the mathematical value of a [`Vec2`].
pub struct Point2 {
    pub x: int,
    pub y: int,
}

/// A point or a displacement in space, with unbounded coordinates: the
/// mathematical value of a [`Vec3`].
pub struct Point3 {
    pub x: int,
    pub y: int,
    pub z: int,
}

/// A lattice vector of the horizontal plane. Its `y` is the `z` of space.
#[derive(Clone, Copy, Debug, PartialEq, Eq, Structural)]
pub struct Vec2 {
    pub x: i64,
    pub y: i64,
}

/// A lattice vector in space.
#[derive(Clone, Copy, Debug, PartialEq, Eq, Structural)]
pub struct Vec3 {
    pub x: i64,
    pub y: i64,
    pub z: i64,
}

impl View for Vec2 {
    type V = Point2;

    open spec fn view(&self) -> Point2 {
        Point2 { x: self.x as int, y: self.y as int }
    }
}

impl View for Vec3 {
    type V = Point3;

    open spec fn view(&self) -> Point3 {
        Point3 { x: self.x as int, y: self.y as int, z: self.z as int }
    }
}

impl Point2 {
    /// The origin.
    pub open spec fn zero() -> Point2 {
        Point2 { x: 0, y: 0 }
    }

    /// The sum of two displacements.
    pub open spec fn plus(self, other: Point2) -> Point2 {
        Point2 { x: self.x + other.x, y: self.y + other.y }
    }

    /// The displacement from `other` to `self`.
    pub open spec fn minus(self, other: Point2) -> Point2 {
        Point2 { x: self.x - other.x, y: self.y - other.y }
    }

    /// The vector multiplied by an integer.
    pub open spec fn scaled(self, k: int) -> Point2 {
        Point2 { x: self.x * k, y: self.y * k }
    }

    /// The vector turned by a quarter turn, from the `x` axis towards the `y` axis.
    pub open spec fn perp(self) -> Point2 {
        Point2 { x: -self.y, y: self.x }
    }

    /// The inner product.
    pub open spec fn dot(self, other: Point2) -> int {
        self.x * other.x + self.y * other.y
    }

    /// The square of the Euclidean length.
    pub open spec fn norm_sq(self) -> int {
        self.x * self.x + self.y * self.y
    }

    /// Whether no coordinate exceeds `limit` in magnitude.
    pub open spec fn within(self, limit: int) -> bool {
        &&& -limit <= self.x <= limit
        &&& -limit <= self.y <= limit
    }

    /// The point of space above or below which `self` lies, at height zero.
    pub open spec fn to_x0z(self) -> Point3 {
        Point3 { x: self.x, y: 0, z: self.y }
    }
}

impl Point3 {
    /// The origin.
    pub open spec fn zero() -> Point3 {
        Point3 { x: 0, y: 0, z: 0 }
    }

    /// The sum of two displacements.
    pub open spec fn plus(self, other: Point3) -> Point3 {
        Point3 { x: self.x + other.x, y: self.y + other.y, z: self.z + other.z }
    }

    /// The displacement from `other` to `self`.
    pub open spec fn minus(self, other: Point3) -> Point3 {
        Point3 { x: self.x - other.x, y: self.y - other.y, z: self.z - other.z }
    }

    /// The vector multiplied by an integer.
    pub open spec fn scaled(self, k: int) -> Point3 {
        Point3 { x: self.x * k, y: self.y * k, z: self.z * k }
    }

    /// The inner product.
    pub open spec fn dot(self, other: Point3) -> int {
        self.x * other.x + self.y * other.y + self.z * other.z
    }

    /// The vector product.
    pub open spec fn cross(self, other: Point3) -> Point3 {
        Point3 {
            x: self.y * other.z - self.z * other.y,
            y: self.z * other.x - self.x * other.z,
            z: self.x * other.y - self.y * other.x,
        }
    }

    /// The square of the Euclidean length.
    pub open spec fn norm_sq(self) -> int {
        self.x * self.x + self.y * self.y + self.z * self.z
    }

    /// Whether no coordinate exceeds `limit` in magnitude.
    pub open spec fn within(self, limit: int) -> bool {
        &&& -limit <= self.x <= limit
        &&& -limit <= self.y <= limit
        &&& -limit <= self.z <= limit
    }

    /// The projection onto the horizontal plane: the height is dropped.
    pub open spec fn to_xz(self) -> Point2 {
        Point2 { x: self.x, y: self.z }
    }
}

/// The inner product of two bounded plane vectors is bounded.
pub proof fn lemma_dot2_bounds(a: Point2, b: Point2, ma: int, mb: int)
    requires
        a.within(ma),
        b.within(mb),
    ensures
        -(2 * (ma * mb)) <= a.dot(b) <= 2 * (ma * mb),
{
    lemma_product_bounds(a.x, b.x, ma, mb);
    lemma_product_bounds(a.y, b.y, ma, mb);
}

/// The squared length of a bounded plane vector is bounded.
pub proof fn lemma_norm_sq2_bounds(a: Point2, ma: int)
    requires
        a.within(ma),
    ensures
        0 <= a.norm_sq() <= 2 * (ma * ma),
        a.norm_sq() == 0 <==> a == Point2::zero(),
{
    lemma_square_bounds(a.x, ma);
    lemma_square_bounds(a.y, ma);
    assert(a.x * a.x + a.y * a.y == 0 <==> (a.x == 0 && a.y == 0)) by (nonlinear_arith);
}

/// The inner product of two bounded space vectors is bounded.
pub proof fn lemma_dot3_bounds(a: Point3, b: Point3, ma: int, mb: int)
    requires
        a.within(ma),
        b.within(mb),
    ensures
        -(3 * (ma * mb)) <= a.dot(b) <= 3 * (ma * mb),
{
    lemma_product_bounds(a.x, b.x, ma, mb);
    lemma_product_bounds(a.y, b.y, ma, mb);
    lemma_product_bounds(a.z, b.z, ma, mb);
}

/// The squared length of a bounded space vector is bounded.
pub proof fn lemma_norm_sq3_bounds(a: Point3, ma: int)
    requires
        a.within(ma),
    ensures
        0 <= a.norm_sq() <= 3 * (ma * ma),
{
    lemma_square_bounds(a.x, ma);
    lemma_square_bounds(a.y, ma);
    lemma_square_bounds(a.z, ma);
}

/// The vector product of two bounded space vectors is bounded.
pub proof fn lemma_cross_bounds(a: Point3, b: Point3, ma: int, mb: int)
    requires
        a.within(ma),
        b.within(mb),
    ensures
        a.cross(b).within(2 * (ma * mb)),
{
    lemma_product_bounds(a.y, b.z, ma, mb);
    lemma_product_bounds(a.z, b.y, ma, mb);
    lemma_product_bounds(a.z, b.x, ma, mb);
    lemma_product_bounds(a.x, b.z, ma, mb);
    lemma_product_bounds(a.x, b.y, ma, mb);
    lemma_product_bounds(a.y, b.x, ma, mb);
}

impl Vec2 {
    /// The vector with the given coordinates.
    pub fn new(x: i64, y: i64) -> (r: Vec2)
        ensures
            r.x == x,
            r.y == y,
    {
        Vec2 { x, y }
    }

    /// The zero vector.
    pub fn zero() -> (r: Vec2)
        ensures
            r@ == Point2::zero(),
    {
        Vec2 { x: 0, y: 0 }
    }

    /// Whether both coordinates are zero.
    pub fn is_zero(self) -> (r: bool)
        ensures
            r == (self@ == Point2::zero()),
    {
        self.x == 0 && self.y == 0
    }

    /// Whether no coordinate exceeds `limit` in magnitude.
    pub fn is_within(self, limit: i64) -> (r: bool)
        requires
            0 <= limit,
        ensures
            r == self@.within(limit as int),
    {
        -limit <= self.x && self.x <= limit && -limit <= self.y && self.y <= limit
    }

    /// The sum of two vectors.
    pub fn plus(self, other: Vec2) -> (r: Vec2)
        requires
            self@.within(COMPONENT_LIMIT as int),
            other@.within(COMPONENT_LIMIT as int),
        ensures
            r@ == self@.plus(other@),
    {
        Vec2 { x: self.x + other.x, y: self.y + other.y }
    }

    /// The difference of two vectors.
    pub fn minus(self, other: Vec2) -> (r: Vec2)
        requires
            self@.within(COMPONENT_LIMIT as int),
            other@.within(COMPONENT_LIMIT as int),
        ensures
            r@ == self@.minus(other@),
    {
        Vec2 { x: self.x - other.x, y: self.y - other.y }
    }

    /// The vector turned by a quarter turn, from the `x` axis towards the `y` axis.
    pub fn perp(self) -> (r: Vec2)
        requires
            self@.within(COMPONENT_LIMIT as int),
        ensures
            r@ == self@.perp(),
    {
        Vec2 { x: -self.y, y: self.x }
    }

    /// The inner product of two vectors.
    pub fn dot(self, other: Vec2) -> (r: i128)
        requires
            self@.within(COMPONENT_LIMIT as int),
            other@.within(COMPONENT_LIMIT as int),
        ensures
            r == self@.dot(other@),
    {
        proof {
            lemma_product_bounds(
                self.x as int,
                other.x as int,
                COMPONENT_LIMIT as int,
                COMPONENT_LIMIT as int,
            );
            lemma_product_bounds(
                self.y as int,
                other.y as int,
                COMPONENT_LIMIT as int,
                COMPONENT_LIMIT as int,
            );
        }
        (self.x as i128) * (other.x as i128) + (self.y as i128) * (other.y as i128)
    }

    /// The square of the Euclidean length.
    pub fn length_squared(self) -> (r: i128)
        requires
            self@.within(COMPONENT_LIMIT as int),
        ensures
            r == self@.norm_sq(),
            r >= 0,
    {
        proof {
            lemma_square_bounds(self.x as int, COMPONENT_LIMIT as int);
            lemma_square_bounds(self.y as int, COMPONENT_LIMIT as int);
        }
        (self.x as i128) * (self.x as i128) + (self.y as i128) * (self.y as i128)
    }

    /// The point of space above or below which `self` lies, at height zero.
    pub fn to_x0z(self) -> (r: Vec3)
        ensures
            r@ == self@.to_x0z(),
    {
        Vec3 { x: self.x, y: 0, z: self.y }
    }
}

/// Each product in the vector product of two vectors within two to the power
/// 30 is within two to the power 60.
proof fn lemma_cross_products(a: Point3, b: Point3)
    requires
        a.within(0x4000_0000),
        b.within(0x4000_0000),
    ensures
        -0x1000_0000_0000_0000 <= a.y * b.z <= 0x1000_0000_0000_0000,
        -0x1000_0000_0000_0000 <= a.z * b.y <= 0x1000_0000_0000_0000,
        -0x1000_0000_0000_0000 <= a.z * b.x <= 0x1000_0000_0000_0000,
        -0x1000_0000_0000_0000 <= a.x * b.z <= 0x1000_0000_0000_0000,
        -0x1000_0000_0000_0000 <= a.x * b.y <= 0x1000_0000_0000_0000,
        -0x1000_0000_0000_0000 <= a.y * b.x <= 0x1000_0000_0000_0000,
{
    lemma_product_bounds(a.y, b.z, 0x4000_0000, 0x4000_0000);
    lemma_product_bounds(a.z, b.y, 0x4000_0000, 0x4000_0000);
    lemma_product_bounds(a.z, b.x, 0x4000_0000, 0x4000_0000);
    lemma_product_bounds(a.x, b.z, 0x4000_0000, 0x4000_0000);
    lemma_product_bounds(a.x, b.y, 0x4000_0000, 0x4000_0000);
    lemma_product_bounds(a.y, b.x, 0x4000_0000, 0x4000_0000);
}

impl Vec3 {
    /// The vector with the given coordinates.
    pub fn new(x: i64, y: i64, z: i64) -> (r: Vec3)
        ensures
            r.x == x,
            r.y == y,
            r.z == z,
    {
        Vec3 { x, y, z }
    }

    /// The zero vector.
    pub fn zero() -> (r: Vec3)
        ensures
            r@ == Point3::zero(),
    {
        Vec3 { x: 0, y: 0, z: 0 }
    }

    /// The vertical vector of the given height.
    pub fn from_y(y: i64) -> (r: Vec3)
        ensures
            r@ == (Point3 { x: 0, y: y as int, z: 0 }),
    {
        Vec3 { x: 0, y, z: 0 }
    }

    /// Whether no coordinate exceeds `limit` in magnitude.
    pub fn is_within(self, limit: i64) -> (r: bool)
        requires
            0 <= limit,
        ensures
            r == self@.within(limit as int),
    {
        -limit <= self.x && self.x <= limit && -limit <= self.y && self.y <= limit && -limit
            <= self.z && self.z <= limit
    }

    /// The sum of two vectors.
    pub fn plus(self, other: Vec3) -> (r: Vec3)
        requires
            self@.within(COMPONENT_LIMIT as int),
            other@.within(COMPONENT_LIMIT as int),
        ensures
            r@ == self@.plus(other@),
    {
        Vec3 { x: self.x + other.x, y: self.y + other.y, z: self.z + other.z }
    }

    /// The difference of two vectors.
    pub fn minus(self, other: Vec3) -> (r: Vec3)
        requires
            self@.within(COMPONENT_LIMIT as int),
            other@.within(COMPONENT_LIMIT as int),
        ensures
            r@ == self@.minus(other@),
    {
        Vec3 { x: self.x - other.x, y: self.y - other.y, z: self.z - other.z }
    }

    /// The projection onto the horizontal plane: the height is dropped.
    pub fn to_xz(self) -> (r: Vec2)
        ensures
            r@ == self@.to_xz(),
    {
        Vec2 { x: self.x, y: self.z }
    }

    /// The inner product of two vectors.
    pub fn dot(self, other: Vec3) -> (r: i128)
        requires
            self@.within(COMPONENT_LIMIT as int),
            other@.within(COMPONENT_LIMIT as int),
        ensures
            r == self@.dot(other@),
    {
        proof {
            lemma_product_bounds(
                self.x as int,
                other.x as int,
                COMPONENT_LIMIT as int,
                COMPONENT_LIMIT as int,
            );
            lemma_product_bounds(
                self.y as int,
                other.y as int,
                COMPONENT_LIMIT as int,
                COMPONENT_LIMIT as int,
            );
            lemma_product_bounds(
                self.z as int,
                other.z as int,
                COMPONENT_LIMIT as int,
                COMPONENT_LIMIT as int,
            );
        }
        (self.x as i128) * (other.x as i128) + (self.y as i128) * (other.y as i128) + (
        self.z as i128) * (other.z as i128)
    }

    /// The square of the Euclidean length.
    pub fn length_squared(self) -> (r: i128)
        requires
            self@.within(COMPONENT_LIMIT as int),
        ensures
            r == self@.norm_sq(),
            r >= 0,
    {
        proof {
            lemma_square_bounds(self.x as int, COMPONENT_LIMIT as int);
            lemma_square_bounds(self.y as int, COMPONENT_LIMIT as int);
            lemma_square_bounds(self.z as int, COMPONENT_LIMIT as int);
        }
        (self.x as i128) * (self.x as i128) + (self.y as i128) * (self.y as i128) + (
        self.z as i128) * (self.z as i128)
    }

    /// The vector product of two vectors.
    pub fn cross(self, other: Vec3) -> (r: Vec3)
        requires
            self@.within(0x4000_0000),
            other@.within(0x4000_0000),
        ensures
            r@ == self@.cross(other@),
    {
        proof {
            lemma_cross_products(self@, other@);
        }
        Vec3 {
            x: self.y * other.z - self.z * other.y,
            y: self.z * other.x - self.x * other.z,
            z: self.x * other.y - self.y * other.x,
        }
    }
}

/// The mathematical value of a [`Plane`]: the points `p` with
/// `normal . p == length`.
pub struct PlaneModel {
    pub normal: Point3,
    pub length: int,
}

impl PlaneModel {
    /// Whether the point lies on the plane.
    pub open spec fn contains(self, p: Point3) -> bool {
        self.normal.dot(p) == self.length
    }

    /// Whether the plane meets the cube of the points of which no coordinate
    /// exceeds `limit` in magnitude: whether the plane's length is, in
    /// magnitude, at most `limit` times the sum of the magnitudes of the
    /// normal's coordinates.
    pub open spec fn meets_cube(self, limit: int) -> bool {
        abs(self.length) <= (abs(self.normal.x) + abs(self.normal.y) + abs(self.normal.z)) * limit
    }

    /// The plane through three points. Its normal is the vector product of
    /// the two sides that leave the first point, so its length is twice the
    /// area of the triangle.
    pub open spec fn through(a: Point3, b: Point3, c: Point3) -> PlaneModel {
        let normal = b.minus(a).cross(c.minus(a));
        PlaneModel { normal, length: normal.dot(a) }
    }
}

/// A plane in space, held as a normal that is not normalised and the inner
/// product of that normal with any point of the plane.
#[derive(Clone, Copy, Debug, PartialEq, Eq, Structural)]
pub struct Plane {
    pub normal: Vec3,
    pub length: i128,
}

impl View for Plane {
    type V = PlaneModel;

    open spec fn view(&self) -> PlaneModel {
        PlaneModel { normal: self.normal@, length: self.length as int }
    }
}

/// The inner product of a vector with a point of a cube is, in magnitude, at
/// most the cube's half side times the sum of the magnitudes of the vector's
/// coordinates.
pub proof fn lemma_dot_in_cube(normal: Point3, p: Point3, limit: int)
    requires
        p.within(limit),
    ensures
        abs(normal.dot(p)) <= (abs(normal.x) + abs(normal.y) + abs(normal.z)) * limit,
{
    lemma_product_bounds(normal.x, p.x, abs(normal.x), limit);
    lemma_product_bounds(normal.y, p.y, abs(normal.y), limit);
    lemma_product_bounds(normal.z, p.z, abs(normal.z), limit);
    assert((abs(normal.x) + abs(normal.y) + abs(normal.z)) * limit == abs(normal.x) * limit + abs(
        normal.y,
    ) * limit + abs(normal.z) * limit) by (nonlinear_arith);
}

/// The plane through three mesh points has a normal within two to the power
/// 43, and passes through the first of the points.
pub proof fn lemma_plane_through_bounds(a: Point3, b: Point3, c: Point3)
    requires
        a.within(COORD_LIMIT as int),
        b.within(COORD_LIMIT as int),
        c.within(COORD_LIMIT as int),
    ensures
        PlaneModel::through(a, b, c).normal.within(0x800_0000_0000),
        -0x1_8000_0000_0000_0000 <= PlaneModel::through(a, b, c).length <= 0x1_8000_0000_0000_0000,
        PlaneModel::through(a, b, c).contains(a),
        PlaneModel::through(a, b, c).meets_cube(COORD_LIMIT as int),
{
    lemma_dot_in_cube(b.minus(a).cross(c.minus(a)), a, COORD_LIMIT as int);
    let u = b.minus(a);
    let v = c.minus(a);
    lemma_cross_bounds(u, v, 0x20_0000, 0x20_0000);
    lemma_dot3_bounds(u.cross(v), a, 0x800_0000_0000, COORD_LIMIT as int);
}

impl Plane {
    /// The plane through three points of the mesh.
    pub fn from_points(a: Vec3, b: Vec3, c: Vec3) -> (r: Plane)
        requires
            a@.within(COORD_LIMIT as int),
            b@.within(COORD_LIMIT as int),
            c@.within(COORD_LIMIT as int),
        ensures
            r@ == PlaneModel::through(a@, b@, c@),
    {
        let normal = b.minus(a).cross(c.minus(a));
        proof {
            lemma_plane_through_bounds(a@, b@, c@);
        }
        Plane { normal, length: normal.dot(a) }
    }
}

} // verus!
