//! The navigation mesh: a half-edge graph over a triangulated walkable
//! surface, built once from triangle data and read-only afterwards.
//!
//! The three half-edges of face `f` are the edges `3 * f`, `3 * f + 1` and
//! `3 * f + 2`, in the order of the triangle's corners. Faces wind
//! counter-clockwise as seen from above, so that the quarter turn of an
//! edge's direction points out of its face.
//!
//! The mesh is held on a lattice three times as fine as the lattice of the
//! positions from which it is built: a vertex lies at three times the
//! position given for it. So the mean of the three corners of a face is a
//! point of the mesh's lattice, and the centre of a face is that mean itself.

use vstd::prelude::*;
use vstd::set_lib::{lemma_int_range, lemma_len_subset, set_int_range};
use std::collections::HashMap;
use std::collections::HashSet;
use crate::arith::{
    lemma_square_bounds,
    product_less,
    WORD,
};
use crate::vector::{
    lemma_dot2_bounds,
    lemma_dot_in_cube,
    lemma_norm_sq2_bounds,
    lemma_plane_through_bounds,
    Plane,
    PlaneModel,
    Point2,
    Point3,
    Vec2,
    Vec3,
    COORD_LIMIT,
    POINT_LIMIT,
};

verus! {

pub type NavFaceID = usize;

pub type NavEdgeID = usize;

pub type NavVertexID = usize;

/// A corner of the mesh.
#[derive(Clone, Copy, Debug)]
pub struct NavVertex {
    /// Where the vertex lies, in steps of the mesh's lattice.
    pub position: Vec3,
    /// The first half-edge that leaves this vertex, or 0 where none does.
    pub outgoing_edge: NavEdgeID,
    /// The half-edge without a twin that leaves this vertex, if there is one.
    pub outgoing_barrier: Option<NavEdgeID>,
}

/// One directed side of a triangle.
#[derive(Clone, Copy, Debug)]
pub struct NavHalfEdge {
    /// The vertex that the edge leaves.
    pub vertex: NavVertexID,
    pub next: NavEdgeID,
    pub prev: NavEdgeID,
    /// The edge of the neighbouring triangle that runs the other way; `None`
    /// on the boundary of the walkable surface.
    pub twin: Option<NavEdgeID>,
    pub face: NavFaceID,
}

/// One triangle of the mesh.
#[derive(Clone, Copy, Debug)]
pub struct NavFace {
    pub start_edge: NavEdgeID,
    pub plane: Plane,
    /// The mean of the three corners.
    pub center: Vec3,
}

#[derive(Debug)]
pub struct NavMesh {
    pub vertices: Vec<NavVertex>,
    pub edges: Vec<NavHalfEdge>,
    pub faces: Vec<NavFace>,
}

/// Why triangle data is no manifold surface with boundary.
#[derive(Clone, Copy, Debug, PartialEq, Eq)]
pub enum NavBuildError {
    /// Two half-edges run from the same vertex to the same vertex.
    DuplicateHalfEdge { first: NavEdgeID, second: NavEdgeID },
    /// Two half-edges without a twin leave the same vertex.
    MultipleBarriers { vertex: NavVertexID, first: NavEdgeID, second: NavEdgeID },
}

/// The edge that follows `e` round its triangle.
pub open spec fn next_in_triangle(e: int) -> int {
    if e % 3 == 2 {
        e - 2
    } else {
        e + 1
    }
}

/// The edge that precedes `e` round its triangle.
pub open spec fn prev_in_triangle(e: int) -> int {
    if e % 3 == 0 {
        e + 2
    } else {
        e - 1
    }
}

/// The vertex at which edge `e` ends, where `origins` lists the vertex at
/// which each edge starts.
pub open spec fn pair_dest(origins: Seq<usize>, e: int) -> usize {
    origins[next_in_triangle(e)]
}

/// Whether two edges run from the same vertex to the same vertex.
pub open spec fn same_pair(origins: Seq<usize>, e1: int, e2: int) -> bool {
    origins[e1] == origins[e2] && pair_dest(origins, e1) == pair_dest(origins, e2)
}

/// Whether edge `t` runs from the end of edge `e` to its start.
pub open spec fn opposite_pair(origins: Seq<usize>, e: int, t: int) -> bool {
    origins[t] == pair_dest(origins, e) && pair_dest(origins, t) == origins[e]
}

/// Whether `first` and `second` are two edges, in this order, that run from
/// the same vertex to the same vertex.
pub open spec fn duplicate_pair(origins: Seq<usize>, first: int, second: int) -> bool {
    0 <= first < second < origins.len() && same_pair(origins, first, second)
}

/// Whether no edge runs the other way along edge `e`.
pub open spec fn unpaired(origins: Seq<usize>, e: int) -> bool {
    forall|t: int| 0 <= t < origins.len() ==> !#[trigger] opposite_pair(origins, e, t)
}

/// Whether `first` and `second` are two edges without a twin, in this order,
/// that leave the same vertex.
pub open spec fn barrier_clash(origins: Seq<usize>, first: int, second: int) -> bool {
    &&& 0 <= first < second < origins.len()
    &&& origins[first] == origins[second]
    &&& unpaired(origins, first)
    &&& unpaired(origins, second)
}

/// How many steps of the mesh's lattice make one step of the lattice of the
/// positions from which a mesh is built.
pub const FINENESS: i64 = 3;

/// Largest magnitude of a coordinate of a position from which a mesh is
/// built: the third part of the largest magnitude of a coordinate of a
/// vertex.
pub const BUILD_LIMIT: i64 = 349_525;

/// Whether `m` is the mean of the three points `a`, `b` and `c`.
pub open spec fn is_mean(m: Point3, a: Point3, b: Point3, c: Point3) -> bool {
    m.scaled(3) == a.plus(b).plus(c)
}

/// The key under which the edge from `origin` to `dest` is looked up.
pub open spec fn pair_key(origin: usize, dest: usize) -> u128 {
    (origin * WORD + dest) as u128
}

fn pair_key_exec(origin: usize, dest: usize) -> (k: u128)
    ensures
        k == pair_key(origin, dest),
        k == origin * WORD + dest,
{
    (origin as u128) * WORD + (dest as u128)
}

/// The point of the mesh's lattice at which the position `p` lies.
fn on_mesh_lattice(p: Vec3) -> (r: Vec3)
    requires
        p@.within(BUILD_LIMIT as int),
    ensures
        r@ == p@.scaled(FINENESS as int),
        r@.within(COORD_LIMIT as int),
{
    Vec3 { x: FINENESS * p.x, y: FINENESS * p.y, z: FINENESS * p.z }
}

/// A signed distance from the line of an edge, held exactly: it is
/// `numerator / sqrt(length_squared)`, where `length_squared` is the square
/// of the edge's length. Positive is outside the edge's face.
#[derive(Clone, Copy, Debug, PartialEq, Eq, Structural)]
pub struct EdgeDistance {
    pub numerator: i128,
    pub length_squared: i128,
}

/// Largest magnitude of the numerator of an [`EdgeDistance`] that can be
/// compared: two to the power 61.
pub const NUMERATOR_LIMIT: i128 = 0x2000_0000_0000_0000;

/// Largest squared length of an edge: two to the power 44.
pub const LENGTH_SQUARED_LIMIT: i128 = 0x1000_0000_0000;

/// Whether `n1 / sqrt(d1) < n2 / sqrt(d2)`, for positive `d1` and `d2`.
pub open spec fn distance_less(n1: int, d1: int, n2: int, d2: int) -> bool {
    if n1 < 0 && n2 >= 0 {
        true
    } else if n1 >= 0 && n2 < 0 {
        false
    } else if n1 >= 0 {
        (n1 * n1) * d2 < (n2 * n2) * d1
    } else {
        (n1 * n1) * d2 > (n2 * n2) * d1
    }
}

impl EdgeDistance {
    /// Whether the distance is that from an edge of positive length, and
    /// small enough to be compared.
    pub open spec fn wf(self) -> bool {
        &&& -NUMERATOR_LIMIT <= self.numerator <= NUMERATOR_LIMIT
        &&& 0 < self.length_squared <= LENGTH_SQUARED_LIMIT
    }

    /// Whether `self` is the smaller distance.
    pub open spec fn less_than(self, other: EdgeDistance) -> bool {
        distance_less(
            self.numerator as int,
            self.length_squared as int,
            other.numerator as int,
            other.length_squared as int,
        )
    }

    /// Whether `self` is the smaller of two distances.
    pub fn is_less_than(self, other: EdgeDistance) -> (r: bool)
        requires
            self.wf(),
            other.wf(),
        ensures
            r == self.less_than(other),
    {
        if self.numerator < 0 && other.numerator >= 0 {
            true
        } else if self.numerator >= 0 && other.numerator < 0 {
            false
        } else {
            proof {
                lemma_square_bounds(self.numerator as int, NUMERATOR_LIMIT as int);
                lemma_square_bounds(other.numerator as int, NUMERATOR_LIMIT as int);
            }
            let mine: u128 = (self.numerator * self.numerator) as u128;
            let theirs: u128 = (other.numerator * other.numerator) as u128;
            let my_length: u64 = self.length_squared as u64;
            let their_length: u64 = other.length_squared as u64;
            if self.numerator >= 0 {
                product_less(mine, their_length, theirs, my_length)
            } else {
                product_less(theirs, my_length, mine, their_length)
            }
        }
    }
}

impl NavMesh {
    /// The vertex at which each edge starts.
    pub open spec fn origins(&self) -> Seq<usize> {
        Seq::new(self.edges.len() as nat, |e: int| self.edges[e].vertex)
    }

    /// The position of each vertex.
    pub open spec fn positions(&self) -> Seq<Vec3> {
        Seq::new(self.vertices.len() as nat, |v: int| self.vertices[v].position)
    }

    /// The position of the vertex at which edge `e` starts.
    pub open spec fn edge_start(&self, e: int) -> Point3 {
        self.vertices[self.edges[e].vertex as int].position@
    }

    /// The position of the vertex at which edge `e` ends.
    pub open spec fn edge_end(&self, e: int) -> Point3 {
        self.edge_start(self.edges[e].next as int)
    }

    /// Every face is a triangle of three consecutive edges, each of which
    /// starts at a vertex of the mesh.
    pub open spec fn triangles_wf(&self) -> bool {
        &&& self.edges.len() == 3 * self.faces.len()
        &&& forall|f: int|
            0 <= f < self.faces.len() ==> (#[trigger] self.faces[f]).start_edge == 3 * f
        &&& forall|e: int|
            0 <= e < self.edges.len() ==> {
                &&& (#[trigger] self.edges[e]).face == e / 3
                &&& self.edges[e].next == next_in_triangle(e)
                &&& self.edges[e].prev == prev_in_triangle(e)
                &&& self.edges[e].vertex < self.vertices.len()
            }
    }

    /// Every vertex lies within the mesh's limits, and every face holds the
    /// plane through its corners and their mean.
    pub open spec fn geometry_wf(&self) -> bool {
        &&& forall|v: int|
            0 <= v < self.vertices.len() ==> (#[trigger] self.vertices[v]).position@.within(
                COORD_LIMIT as int,
            )
        &&& forall|f: int|
            0 <= f < self.faces.len() ==> {
                &&& (#[trigger] self.faces[f]).plane@ == PlaneModel::through(
                    self.edge_start(3 * f),
                    self.edge_start(3 * f + 1),
                    self.edge_start(3 * f + 2),
                )
                &&& is_mean(
                    self.faces[f].center@,
                    self.edge_start(3 * f),
                    self.edge_start(3 * f + 1),
                    self.edge_start(3 * f + 2),
                )
            }
    }

    /// No two edges run from the same vertex to the same vertex.
    pub open spec fn no_duplicate_edges(&self) -> bool {
        forall|e1: int, e2: int|
            0 <= e1 < self.edges.len() && 0 <= e2 < self.edges.len() && #[trigger] same_pair(
                self.origins(),
                e1,
                e2,
            ) ==> e1 == e2
    }

    /// Whether the twin recorded for edge `e` is the edge that runs the other
    /// way, or `None` where there is no such edge.
    pub open spec fn twin_wf(&self, e: int) -> bool {
        match self.edges[e].twin {
            Some(t) => t < self.edges.len() && opposite_pair(self.origins(), e, t as int),
            None => unpaired(self.origins(), e),
        }
    }

    /// Whether edge `e` has no twin.
    pub open spec fn is_barrier(&self, e: int) -> bool {
        self.edges[e].twin is None
    }

    /// Whether vertex `v` records the first edge that leaves it, and the one
    /// barrier that leaves it, as far as the edges below `upto` go.
    pub open spec fn vertex_wf_upto(&self, v: int, upto: int) -> bool {
        let vertex = self.vertices[v];
        &&& forall|e: int|
            0 <= e < upto && (#[trigger] self.edges[e]).vertex == v ==> {
                &&& vertex.outgoing_edge <= e
                &&& self.edges[vertex.outgoing_edge as int].vertex == v
            }
        &&& (forall|e: int| 0 <= e < upto ==> (#[trigger] self.edges[e]).vertex != v)
            ==> vertex.outgoing_edge == 0
        &&& match vertex.outgoing_barrier {
            Some(b) => {
                &&& b < upto
                &&& self.edges[b as int].vertex == v
                &&& self.is_barrier(b as int)
                &&& forall|e: int|
                    0 <= e < upto && (#[trigger] self.edges[e]).vertex == v && self.is_barrier(e)
                        ==> e == b
            },
            None => forall|e: int|
                0 <= e < upto && (#[trigger] self.edges[e]).vertex == v ==> !self.is_barrier(e),
        }
    }

    /// The mesh is a half-edge graph of triangles in which every twin, every
    /// first outgoing edge and every outgoing barrier is the one that the
    /// triangles determine.
    pub open spec fn wf(&self) -> bool {
        &&& self.triangles_wf()
        &&& self.geometry_wf()
        &&& self.no_duplicate_edges()
        &&& forall|e: int| 0 <= e < self.edges.len() ==> #[trigger] self.twin_wf(e)
        &&& forall|v: int|
            0 <= v < self.vertices.len() ==> #[trigger] self.vertex_wf_upto(
                v,
                self.edges.len() as int,
            )
    }

    /// Every edge that has a twin is the twin of its twin.
    pub open spec fn twins_are_mutual(&self) -> bool {
        forall|e: int|
            0 <= e < self.edges.len() && (#[trigger] self.edges[e]).twin is Some ==> {
                &&& self.edges[e].twin->0 < self.edges.len()
                &&& self.edges[self.edges[e].twin->0 as int].twin == Some(e as usize)
            }
    }

    /// The barrier that a vertex records leaves that vertex and has no twin,
    /// and every edge without a twin is the barrier that the vertex which it
    /// leaves records: no vertex is left by two edges without a twin.
    pub open spec fn barriers_are_recorded(&self) -> bool {
        &&& forall|v: int|
            0 <= v < self.vertices.len() && (#[trigger] self.vertices[v]).outgoing_barrier
                is Some ==> {
                &&& self.vertices[v].outgoing_barrier->0 < self.edges.len()
                &&& self.edges[self.vertices[v].outgoing_barrier->0 as int].vertex == v
                &&& self.edges[self.vertices[v].outgoing_barrier->0 as int].twin is None
            }
        &&& forall|e: int|
            0 <= e < self.edges.len() && (#[trigger] self.edges[e]).twin is None
                ==> self.vertices[self.edges[e].vertex as int].outgoing_barrier == Some(
                e as usize,
            )
    }

    /// Whether the mesh holds exactly the given triangle corners, and each
    /// vertex at the point of the mesh's lattice at which the position given
    /// for it lies: at three times that position.
    pub open spec fn is_built_from(&self, positions: Seq<Vec3>, indices: Seq<usize>) -> bool {
        &&& self.vertices.len() == positions.len()
        &&& forall|v: int|
            0 <= v < positions.len() ==> (#[trigger] self.vertices[v]).position@
                == positions[v]@.scaled(FINENESS as int)
        &&& self.origins() == indices
    }
}

impl NavMesh {
    /// Builds the mesh of the triangles whose corners `indices` lists, three
    /// to a triangle, as indices into `positions`.
    ///
    /// Fails where two half-edges run from the same vertex to the same
    /// vertex, or else where two half-edges without a twin leave the same
    /// vertex. The error names the clashing pair whose second edge comes
    /// first.
    ///
    /// The mesh is held on a lattice three times as fine as that of
    /// `positions`: each vertex lies at three times the position given for
    /// it, so that the centre of every face is a point of the lattice.
    ///
    /// How the triangles wind is taken as it is given: the queries on the
    /// mesh take every triangle to wind counter-clockwise as seen from above.
    pub fn build(positions: &Vec<Vec3>, indices: &Vec<usize>) -> (r: Result<NavMesh, NavBuildError>)
        requires
            indices.len() % 3 == 0,
            forall|i: int| 0 <= i < indices.len() ==> indices[i] < positions.len(),
            forall|v: int| 0 <= v < positions.len() ==> positions[v]@.within(BUILD_LIMIT as int),
        ensures
            r is Ok <==> (forall|i: int, j: int| !#[trigger] duplicate_pair(indices@, i, j))
                && (forall|i: int, j: int| !#[trigger] barrier_clash(indices@, i, j)),
            match r {
                Ok(mesh) => {
                    &&& mesh.wf()
                    &&& mesh.is_built_from(positions@, indices@)
                    &&& mesh.twins_are_mutual()
                    &&& mesh.barriers_are_recorded()
                },
                Err(NavBuildError::DuplicateHalfEdge { first, second }) => {
                    &&& duplicate_pair(indices@, first as int, second as int)
                    &&& forall|i: int, j: int| #[trigger]
                        duplicate_pair(indices@, i, j) ==> second <= j
                },
                Err(NavBuildError::MultipleBarriers { vertex, first, second }) => {
                    &&& forall|i: int, j: int| !#[trigger] duplicate_pair(indices@, i, j)
                    &&& barrier_clash(indices@, first as int, second as int)
                    &&& vertex == indices[second as int]
                    &&& forall|i: int, j: int| #[trigger]
                        barrier_clash(indices@, i, j) ==> second <= j
                },
            },
    {
        let mut vertices: Vec<NavVertex> = Vec::new();
        let mut v: usize = 0;
        while v < positions.len()
            invariant
                v <= positions.len(),
                vertices.len() == v,
                forall|k: int| 0 <= k < positions.len() ==> positions[k]@.within(BUILD_LIMIT as int),
                forall|k: int|
                    0 <= k < v ==> {
                        &&& (#[trigger] vertices[k]).position@ == positions[k]@.scaled(
                            FINENESS as int,
                        )
                        &&& vertices[k].position@.within(COORD_LIMIT as int)
                        &&& vertices[k].outgoing_edge == 0
                        &&& vertices[k].outgoing_barrier is None
                    },
            decreases positions.len() - v,
        {
            vertices.push(
                NavVertex {
                    position: on_mesh_lattice(positions[v]),
                    outgoing_edge: 0,
                    outgoing_barrier: None,
                },
            );
            v += 1;
        }
        let triangles: usize = indices.len() / 3;
        let mut edges: Vec<NavHalfEdge> = Vec::new();
        let mut faces: Vec<NavFace> = Vec::new();
        let mut face: usize = 0;
        while face < triangles
            invariant
                face <= triangles,
                triangles * 3 == indices.len(),
                faces.len() == face,
                edges.len() == 3 * face,
                forall|i: int| 0 <= i < indices.len() ==> indices[i] < positions.len(),
                vertices.len() == positions.len(),
                forall|v: int|
                    0 <= v < positions.len() ==> {
                        &&& positions[v]@.within(BUILD_LIMIT as int)
                        &&& (#[trigger] vertices[v]).position@ == positions[v]@.scaled(
                            FINENESS as int,
                        )
                        &&& vertices[v].position@.within(COORD_LIMIT as int)
                        &&& vertices[v].outgoing_edge == 0
                        &&& vertices[v].outgoing_barrier is None
                    },
                forall|f: int|
                    0 <= f < face ==> {
                        &&& (#[trigger] faces[f]).start_edge == 3 * f
                        &&& faces[f].plane@ == PlaneModel::through(
                            vertices[indices[3 * f] as int].position@,
                            vertices[indices[3 * f + 1] as int].position@,
                            vertices[indices[3 * f + 2] as int].position@,
                        )
                        &&& is_mean(
                            faces[f].center@,
                            vertices[indices[3 * f] as int].position@,
                            vertices[indices[3 * f + 1] as int].position@,
                            vertices[indices[3 * f + 2] as int].position@,
                        )
                    },
                forall|e: int|
                    0 <= e < 3 * face ==> {
                        &&& (#[trigger] edges[e]).face == e / 3
                        &&& edges[e].next == next_in_triangle(e)
                        &&& edges[e].prev == prev_in_triangle(e)
                        &&& edges[e].vertex == indices[e]
                        &&& edges[e].twin is None
                    },
            decreases triangles - face,
        {
            let start_edge: usize = 3 * face;
            let i0: usize = indices[start_edge];
            let i1: usize = indices[start_edge + 1];
            let i2: usize = indices[start_edge + 2];
            let a = vertices[i0].position;
            let b = vertices[i1].position;
            let c = vertices[i2].position;
            // Each corner lies at three times its position: their mean is the sum of the positions.
            let center = positions[i0].plus(positions[i1]).plus(positions[i2]);
            faces.push(NavFace { start_edge, plane: Plane::from_points(a, b, c), center });
            edges.push(
                NavHalfEdge {
                    vertex: i0,
                    next: start_edge + 1,
                    prev: start_edge + 2,
                    twin: None,
                    face,
                },
            );
            edges.push(
                NavHalfEdge {
                    vertex: i1,
                    next: start_edge + 2,
                    prev: start_edge,
                    twin: None,
                    face,
                },
            );
            edges.push(
                NavHalfEdge {
                    vertex: i2,
                    next: start_edge,
                    prev: start_edge + 1,
                    twin: None,
                    face,
                },
            );
            face += 1;
        }
        let mut mesh = NavMesh { vertices, edges, faces };
        assert(mesh.origins() =~= indices@);
        let ghost placed = mesh.positions();
        assert forall|v: int| 0 <= v < positions.len() implies #[trigger] placed[v]@
            == positions[v]@.scaled(FINENESS as int) by {
            assert(placed[v] == mesh.vertices[v].position);
        }
        match mesh.rebuild_adjacency_info() {
            Ok(()) => {
                proof {
                    mesh.lemma_wf_is_manifold();
                    mesh.lemma_adjacency_is_recorded();
                    assert forall|v: int| 0 <= v < positions.len() implies (
                    #[trigger] mesh.vertices[v]).position@ == positions[v]@.scaled(
                        FINENESS as int,
                    ) by {
                        assert(mesh.positions().len() == mesh.vertices.len());
                        assert(mesh.positions()[v] == placed[v]);
                        assert(mesh.positions()[v] == mesh.vertices[v].position);
                    }
                    assert(mesh.positions().len() == placed.len());
                }
                Ok(mesh)
            },
            Err(error) => Err(error),
        }
    }

    /// Finds the twin of every edge, and for every vertex the first edge and
    /// the barrier that leave it.
    fn rebuild_adjacency_info(&mut self) -> (r: Result<(), NavBuildError>)
        requires
            old(self).triangles_wf(),
            old(self).geometry_wf(),
            forall|v: int|
                0 <= v < old(self).vertices.len() ==> {
                    &&& (#[trigger] old(self).vertices[v]).outgoing_edge == 0
                    &&& old(self).vertices[v].outgoing_barrier is None
                },
        ensures
            final(self).origins() == old(self).origins(),
            final(self).positions() == old(self).positions(),
            match r {
                Ok(()) => {
                    &&& final(self).wf()
                    &&& final(self).twins_are_mutual()
                    &&& final(self).barriers_are_recorded()
                },
                Err(NavBuildError::DuplicateHalfEdge { first, second }) => {
                    &&& duplicate_pair(old(self).origins(), first as int, second as int)
                    &&& forall|i: int, j: int| #[trigger]
                        duplicate_pair(old(self).origins(), i, j) ==> second <= j
                },
                Err(NavBuildError::MultipleBarriers { vertex, first, second }) => {
                    &&& forall|i: int, j: int| !#[trigger] duplicate_pair(old(self).origins(), i, j)
                    &&& barrier_clash(old(self).origins(), first as int, second as int)
                    &&& vertex == old(self).origins()[second as int]
                    &&& forall|i: int, j: int| #[trigger]
                        barrier_clash(old(self).origins(), i, j) ==> second <= j
                },
            },
    {
        broadcast use vstd::std_specs::hash::group_hash_axioms;

        let ghost o = self.origins();
        let ghost positions = self.positions();
        let n: usize = self.edges.len();
        let mut vert_pair_to_edge: HashMap<u128, usize> = HashMap::new();

        // Build twins
        let mut edge_idx: usize = 0;
        while edge_idx < n
            invariant
                edge_idx <= n,
                n == self.edges.len(),
                *self == *old(self),
                o == self.origins(),
                self.triangles_wf(),
                forall|e: int|
                    0 <= e < edge_idx ==> {
                        &&& vert_pair_to_edge@.contains_key(
                            #[trigger] pair_key(o[e], pair_dest(o, e)),
                        )
                        &&& vert_pair_to_edge@[pair_key(o[e], pair_dest(o, e))] == e
                    },
                forall|k: u128| #[trigger]
                    vert_pair_to_edge@.contains_key(k) ==> {
                        let e = vert_pair_to_edge@[k];
                        e < edge_idx && pair_key(o[e as int], pair_dest(o, e as int)) == k
                    },
                forall|i: int, j: int| #[trigger] duplicate_pair(o, i, j) ==> edge_idx <= j,
            decreases n - edge_idx,
        {
            let edge = self.edges[edge_idx];
            let edge_next = self.edges[edge.next];
            let key = pair_key_exec(edge.vertex, edge_next.vertex);
            match vert_pair_to_edge.insert(key, edge_idx) {
                Some(dupli_edge_idx) => {
                    return Err(
                        NavBuildError::DuplicateHalfEdge {
                            first: dupli_edge_idx,
                            second: edge_idx,
                        },
                    );
                },
                None => {},
            }
            assert forall|i: int, j: int| #[trigger] duplicate_pair(o, i, j) implies edge_idx + 1
                <= j by {}
            edge_idx += 1;
        }
        assert forall|i: int, j: int| !#[trigger] duplicate_pair(o, i, j) by {}

        edge_idx = 0;
        while edge_idx < n
            invariant
                edge_idx <= n,
                n == self.edges.len(),
                self.vertices == old(self).vertices,
                self.faces == old(self).faces,
                o == self.origins(),
                self.triangles_wf(),
                forall|e: int|
                    0 <= e < n ==> {
                        &&& vert_pair_to_edge@.contains_key(
                            #[trigger] pair_key(o[e], pair_dest(o, e)),
                        )
                        &&& vert_pair_to_edge@[pair_key(o[e], pair_dest(o, e))] == e
                    },
                forall|k: u128| #[trigger]
                    vert_pair_to_edge@.contains_key(k) ==> {
                        let e = vert_pair_to_edge@[k];
                        e < n && pair_key(o[e as int], pair_dest(o, e as int)) == k
                    },
                forall|e: int| 0 <= e < edge_idx ==> #[trigger] self.twin_wf(e),
            decreases n - edge_idx,
        {
            let edge = self.edges[edge_idx];
            let edge_next = self.edges[edge.next];
            let twin_key = pair_key_exec(edge_next.vertex, edge.vertex);
            let twin: Option<usize> = match vert_pair_to_edge.get(&twin_key) {
                Some(twin_idx) => Some(*twin_idx),
                None => None,
            };
            let ghost before = *self;
            self.edges.set(
                edge_idx,
                NavHalfEdge {
                    vertex: edge.vertex,
                    next: edge.next,
                    prev: edge.prev,
                    twin,
                    face: edge.face,
                },
            );
            proof {
                assert(self.origins() =~= o);
                assert forall|e: int| 0 <= e < edge_idx implies #[trigger] self.twin_wf(e) by {
                    assert(before.twin_wf(e));
                }
                if twin is None {
                    assert forall|t: int| 0 <= t < o.len() implies !#[trigger] opposite_pair(
                        o,
                        edge_idx as int,
                        t,
                    ) by {
                        assert(vert_pair_to_edge@.contains_key(pair_key(o[t], pair_dest(o, t))));
                    }
                }
            }
            edge_idx += 1;
        }

        // Write outgoing barriers and edges into vertices
        let ghost twinned = *self;
        let vertex_count: usize = self.vertices.len();
        let mut seen_vertices: HashSet<usize> = HashSet::new();
        edge_idx = 0;
        while edge_idx < n
            invariant
                edge_idx <= n,
                n == self.edges.len(),
                vertex_count == self.vertices.len(),
                self.edges == twinned.edges,
                self.faces == twinned.faces,
                self.positions() == positions,
                positions == old(self).positions(),
                o == self.origins(),
                o == old(self).origins(),
                self.triangles_wf(),
                forall|i: int, j: int| !#[trigger] duplicate_pair(o, i, j),
                forall|e: int| 0 <= e < n ==> #[trigger] self.twin_wf(e),
                forall|e: int|
                    0 <= e < edge_idx ==> seen_vertices@.contains((#[trigger] self.edges[e]).vertex),
                forall|v: int|
                    0 <= v < vertex_count && !seen_vertices@.contains(v as usize) ==> (
                    #[trigger] self.vertices[v]).outgoing_edge == 0,
                forall|v: int|
                    0 <= v < vertex_count && seen_vertices@.contains(v as usize) ==> {
                        &&& (#[trigger] self.vertices[v]).outgoing_edge < edge_idx
                        &&& self.edges[self.vertices[v].outgoing_edge as int].vertex == v
                    },
                forall|v: int|
                    0 <= v < vertex_count ==> #[trigger] self.vertex_wf_upto(v, edge_idx as int),
            decreases n - edge_idx,
        {
            let edge = self.edges[edge_idx];
            let vertex = self.vertices[edge.vertex];
            let mut outgoing_edge = vertex.outgoing_edge;
            let mut outgoing_barrier = vertex.outgoing_barrier;
            if seen_vertices.insert(edge.vertex) {
                outgoing_edge = edge_idx;
            }
            if edge.twin.is_none() {
                match vertex.outgoing_barrier {
                    Some(barrier_idx) => {
                        proof {
                            assert(self.vertex_wf_upto(edge.vertex as int, edge_idx as int));
                            assert(self.twin_wf(barrier_idx as int));
                            assert(self.twin_wf(edge_idx as int));
                            assert forall|i: int, j: int| #[trigger]
                                barrier_clash(o, i, j) implies edge_idx <= j by {
                                if j < edge_idx {
                                    assert(self.twin_wf(i));
                                    assert(self.twin_wf(j));
                                    assert(self.vertex_wf_upto(o[i] as int, edge_idx as int));
                                }
                            }
                        }
                        return Err(
                            NavBuildError::MultipleBarriers {
                                vertex: edge.vertex,
                                first: barrier_idx,
                                second: edge_idx,
                            },
                        );
                    },
                    None => {},
                }
                outgoing_barrier = Some(edge_idx);
            }
            let ghost before = *self;
            self.vertices.set(
                edge.vertex,
                NavVertex { position: vertex.position, outgoing_edge, outgoing_barrier },
            );
            proof {
                assert forall|e: int| 0 <= e < n implies #[trigger] self.twin_wf(e) by {
                    assert(before.twin_wf(e));
                }
                assert forall|v: int| 0 <= v < vertex_count implies #[trigger] self.vertex_wf_upto(
                    v,
                    edge_idx + 1,
                ) by {
                    assert(before.vertex_wf_upto(v, edge_idx as int));
                }
            }
            edge_idx += 1;
        }
        proof {
            assert(self.no_duplicate_edges()) by {
                assert forall|e1: int, e2: int|
                    0 <= e1 < self.edges.len() && 0 <= e2 < self.edges.len() && #[trigger] same_pair(
                        self.origins(),
                        e1,
                        e2,
                    ) implies e1 == e2 by {
                    if e1 < e2 {
                        assert(duplicate_pair(o, e1, e2));
                    }
                    if e2 < e1 {
                        assert(duplicate_pair(o, e2, e1));
                    }
                }
            }
            assert(self.geometry_wf()) by {
                assert forall|v: int| 0 <= v < self.vertices.len() implies (
                #[trigger] self.vertices[v]).position == old(self).vertices[v].position by {
                    assert(old(self).positions()[v] == positions[v]);
                }
                assert forall|e: int| 0 <= e < self.edges.len() implies (
                #[trigger] self.edges[e]).vertex == old(self).edges[e].vertex by {
                    assert(old(self).origins()[e] == o[e]);
                }
                assert forall|e: int| 0 <= e < self.edges.len() implies #[trigger] self.edge_start(
                    e,
                ) == old(self).edge_start(e) by {}
                assert forall|f: int| 0 <= f < self.faces.len() implies {
                    &&& (#[trigger] self.faces[f]).plane@ == PlaneModel::through(
                        self.edge_start(3 * f),
                        self.edge_start(3 * f + 1),
                        self.edge_start(3 * f + 2),
                    )
                    &&& is_mean(
                        self.faces[f].center@,
                        self.edge_start(3 * f),
                        self.edge_start(3 * f + 1),
                        self.edge_start(3 * f + 2),
                    )
                } by {}
            }
            self.lemma_adjacency_is_recorded();
        }
        Ok(())
    }
}

/// Different indices below `n` are no more than `n`.
proof fn lemma_distinct_indices_are_few(visited: Seq<int>, n: int)
    requires
        0 <= n,
        visited.no_duplicates(),
        forall|i: int| 0 <= i < visited.len() ==> 0 <= #[trigger] visited[i] < n,
    ensures
        visited.len() <= n,
{
    visited.unique_seq_to_set();
    lemma_int_range(0, n);
    assert(visited.to_set().subset_of(set_int_range(0, n))) by {
        assert forall|x: int| visited.to_set().contains(x) implies set_int_range(0, n).contains(
            x,
        ) by {
            let i = choose|i: int| 0 <= i < visited.len() && visited[i] == x;
            assert(0 <= visited[i] < n);
        }
    }
    lemma_len_subset(visited.to_set(), set_int_range(0, n));
}

impl NavMesh {
    /// The three edges round a face, from `start_edge` on.
    pub open spec fn edge_loop(start_edge: int) -> Seq<int> {
        seq![
            start_edge,
            next_in_triangle(start_edge),
            next_in_triangle(next_in_triangle(start_edge)),
        ]
    }

    /// Where edge `e` starts, seen from above.
    pub open spec fn projected_start(&self, e: int) -> Point2 {
        self.edge_start(e).to_xz()
    }

    /// Where edge `e` ends, seen from above.
    pub open spec fn projected_end(&self, e: int) -> Point2 {
        self.edge_end(e).to_xz()
    }

    /// The direction of edge `e` seen from above, turned by a quarter turn.
    /// It points out of the edge's face, and is as long as the edge.
    pub open spec fn edge_normal(&self, e: int) -> Point2 {
        self.projected_end(e).minus(self.projected_start(e)).perp()
    }

    /// The signed distance of `p` from the line of edge `e`, seen from above
    /// and multiplied by the length of the edge. Positive is outside.
    pub open spec fn edge_offset(&self, e: int, p: Point2) -> int {
        self.edge_normal(e).dot(p.minus(self.projected_start(e)))
    }

    /// Whether `p` is outside none of the three edges round a face.
    pub open spec fn loop_contains(&self, start_edge: int, p: Point2) -> bool {
        &&& self.edge_offset(start_edge, p) <= 0
        &&& self.edge_offset(next_in_triangle(start_edge), p) <= 0
        &&& self.edge_offset(next_in_triangle(next_in_triangle(start_edge)), p) <= 0
    }

    /// The edges round a face, from `start_edge` on, each with its index.
    /// Following `next` from the last of them leads back to `start_edge`.
    pub fn iter_edge_loop(&self, start_edge: NavEdgeID) -> (r: Vec<(NavEdgeID, NavHalfEdge)>)
        requires
            self.triangles_wf(),
            start_edge < self.edges.len(),
        ensures
            r.len() == 3,
            forall|i: int|
                0 <= i < 3 ==> {
                    &&& (#[trigger] r[i]).0 == Self::edge_loop(start_edge as int)[i]
                    &&& r[i].0 < self.edges.len()
                    &&& r[i].1 == self.edges[r[i].0 as int]
                },
            self.edges[r[2].0 as int].next == start_edge,
    {
        let final_edge_idx = self.edges[start_edge].prev;
        let mut edge_idx = start_edge;
        let mut out: Vec<(NavEdgeID, NavHalfEdge)> = Vec::new();
        while edge_idx != final_edge_idx
            invariant
                self.triangles_wf(),
                start_edge < self.edges.len(),
                final_edge_idx == prev_in_triangle(start_edge as int),
                out.len() <= 2,
                edge_idx == Self::edge_loop(start_edge as int)[out.len() as int],
                edge_idx < self.edges.len(),
                forall|i: int|
                    0 <= i < out.len() ==> {
                        &&& (#[trigger] out[i]).0 == Self::edge_loop(start_edge as int)[i]
                        &&& out[i].0 < self.edges.len()
                        &&& out[i].1 == self.edges[out[i].0 as int]
                    },
            decreases 2 - out.len(),
        {
            let edge = self.edges[edge_idx];
            out.push((edge_idx, edge));
            edge_idx = edge.next;
        }
        out.push((final_edge_idx, self.edges[final_edge_idx]));
        out
    }

    /// The corners of a face, from the start of `start_edge` on, each with
    /// its index.
    pub fn iter_edge_loop_vertices(&self, start_edge: NavEdgeID) -> (r: Vec<
        (NavVertexID, NavVertex),
    >)
        requires
            self.triangles_wf(),
            start_edge < self.edges.len(),
        ensures
            r.len() == 3,
            forall|i: int|
                0 <= i < 3 ==> {
                    &&& (#[trigger] r[i]).0 == self.edges[Self::edge_loop(
                        start_edge as int,
                    )[i]].vertex
                    &&& r[i].0 < self.vertices.len()
                    &&& r[i].1 == self.vertices[r[i].0 as int]
                },
    {
        let edges = self.iter_edge_loop(start_edge);
        let mut out: Vec<(NavVertexID, NavVertex)> = Vec::new();
        let mut i: usize = 0;
        while i < 3
            invariant
                i <= 3,
                out.len() == i,
                self.triangles_wf(),
                edges.len() == 3,
                forall|k: int|
                    0 <= k < 3 ==> {
                        &&& (#[trigger] edges[k]).0 == Self::edge_loop(start_edge as int)[k]
                        &&& edges[k].0 < self.edges.len()
                        &&& edges[k].1 == self.edges[edges[k].0 as int]
                    },
                forall|k: int|
                    0 <= k < i ==> {
                        &&& (#[trigger] out[k]).0 == self.edges[Self::edge_loop(
                            start_edge as int,
                        )[k]].vertex
                        &&& out[k].0 < self.vertices.len()
                        &&& out[k].1 == self.vertices[out[k].0 as int]
                    },
            decreases 3 - i,
        {
            let edge = edges[i].1;
            out.push((edge.vertex, self.vertices[edge.vertex]));
            i += 1;
        }
        out
    }

    /// The positions at which an edge starts and ends.
    pub fn edge_vertex_positions(&self, edge_idx: NavEdgeID) -> (r: (Vec3, Vec3))
        requires
            self.triangles_wf(),
            edge_idx < self.edges.len(),
        ensures
            r.0 == self.vertices[self.edges[edge_idx as int].vertex as int].position,
            r.1 == self.vertices[self.edges[self.edges[edge_idx as int].next as int].vertex as int].position,
            r.0@ == self.edge_start(edge_idx as int),
            r.1@ == self.edge_end(edge_idx as int),
    {
        let edge = self.edges[edge_idx];
        let edge_next = self.edges[edge.next];
        let vertex_a = self.vertices[edge.vertex].position;
        let vertex_b = self.vertices[edge_next.vertex].position;
        (vertex_a, vertex_b)
    }

    /// The positions at which an edge starts and ends, seen from above.
    pub fn projected_edge_vertex_positions(&self, edge_idx: NavEdgeID) -> (r: (Vec2, Vec2))
        requires
            self.triangles_wf(),
            edge_idx < self.edges.len(),
        ensures
            r.0@ == self.projected_start(edge_idx as int),
            r.1@ == self.projected_end(edge_idx as int),
    {
        let (edge_a, edge_b) = self.edge_vertex_positions(edge_idx);
        (edge_a.to_xz(), edge_b.to_xz())
    }

    /// The direction that points out of an edge's face, seen from above. It
    /// is not normalised: it is as long as the edge.
    pub fn projected_edge_normal(&self, edge_idx: NavEdgeID) -> (r: Vec2)
        requires
            self.wf(),
            edge_idx < self.edges.len(),
        ensures
            r@ == self.edge_normal(edge_idx as int),
            r@.within(2 * COORD_LIMIT),
    {
        let (edge_a, edge_b) = self.projected_edge_vertex_positions(edge_idx);
        proof {
            self.lemma_edge_ends_within(edge_idx as int);
        }
        edge_b.minus(edge_a).perp()
    }

    /// Both ends of an edge lie within the mesh's limits.
    pub proof fn lemma_edge_ends_within(&self, e: int)
        requires
            self.wf(),
            0 <= e < self.edges.len(),
        ensures
            self.edge_start(e).within(COORD_LIMIT as int),
            self.edge_end(e).within(COORD_LIMIT as int),
            self.edge_normal(e).within(2 * COORD_LIMIT),
            0 <= self.edges[e].next < self.edges.len(),
            0 <= self.edges[e].prev < self.edges.len(),
    {
    }

    /// The signed distance of `point` from the line of an edge, seen from
    /// above. Positive is outside the edge's face, negative inside.
    pub fn distance_to_projected_edge(&self, edge_idx: NavEdgeID, point: Vec2) -> (r: EdgeDistance)
        requires
            self.wf(),
            edge_idx < self.edges.len(),
            point@.within(POINT_LIMIT as int),
        ensures
            r.numerator == self.edge_offset(edge_idx as int, point@),
            r.length_squared == self.edge_normal(edge_idx as int).norm_sq(),
            -NUMERATOR_LIMIT <= r.numerator <= NUMERATOR_LIMIT,
            0 <= r.length_squared <= LENGTH_SQUARED_LIMIT,
            r.length_squared == 0 <==> self.projected_start(edge_idx as int)
                == self.projected_end(edge_idx as int),
    {
        let (vertex_a, vertex_b) = self.projected_edge_vertex_positions(edge_idx);
        proof {
            self.lemma_edge_ends_within(edge_idx as int);
        }
        let edge_normal = vertex_b.minus(vertex_a).perp();
        let offset = point.minus(vertex_a);
        proof {
            lemma_dot2_bounds(edge_normal@, offset@, 2 * COORD_LIMIT, POINT_LIMIT + COORD_LIMIT);
            lemma_norm_sq2_bounds(edge_normal@, 2 * COORD_LIMIT);
            assert(2 * ((2 * COORD_LIMIT) * (POINT_LIMIT + COORD_LIMIT)) <= NUMERATOR_LIMIT)
                by (nonlinear_arith);
            assert(2 * ((2 * COORD_LIMIT) * (2 * COORD_LIMIT)) <= LENGTH_SQUARED_LIMIT)
                by (nonlinear_arith);
        }
        EdgeDistance {
            numerator: edge_normal.dot(offset),
            length_squared: edge_normal.length_squared(),
        }
    }

    /// Whether `point` lies in the triangle round which `start_edge` runs,
    /// seen from above: it is outside none of the three edges.
    pub fn projected_edge_loop_contains(&self, start_edge: NavEdgeID, point: Vec2) -> (r: bool)
        requires
            self.wf(),
            start_edge < self.edges.len(),
            point@.within(POINT_LIMIT as int),
        ensures
            r == self.loop_contains(start_edge as int, point@),
    {
        let edges = self.iter_edge_loop(start_edge);
        let mut i: usize = 0;
        while i < 3
            invariant
                i <= 3,
                self.wf(),
                point@.within(POINT_LIMIT as int),
                edges.len() == 3,
                forall|k: int|
                    0 <= k < 3 ==> {
                        &&& (#[trigger] edges[k]).0 == Self::edge_loop(start_edge as int)[k]
                        &&& edges[k].0 < self.edges.len()
                    },
                forall|k: int|
                    0 <= k < i ==> self.edge_offset(
                        #[trigger] Self::edge_loop(start_edge as int)[k],
                        point@,
                    ) <= 0,
            decreases 3 - i,
        {
            let edge_idx = edges[i].0;
            if self.distance_to_projected_edge(edge_idx, point).numerator > 0 {
                return false;
            }
            i += 1;
        }
        true
    }

    /// The centre of a face lies within the mesh's limits.
    pub proof fn lemma_center_within(&self, f: int)
        requires
            self.wf(),
            0 <= f < self.faces.len(),
        ensures
            self.faces[f].center@.within(COORD_LIMIT as int),
    {
        self.lemma_edge_ends_within(3 * f);
        self.lemma_edge_ends_within(3 * f + 1);
        self.lemma_edge_ends_within(3 * f + 2);
    }

    /// The outgoing edge that a vertex records is an edge of the mesh, where
    /// the mesh has any.
    pub proof fn lemma_outgoing_edge_is_edge(&self, v: int)
        requires
            self.wf(),
            0 <= v < self.vertices.len(),
            self.edges.len() > 0,
        ensures
            self.vertices[v].outgoing_edge < self.edges.len(),
            self.edges[self.vertices[v].outgoing_edge as int].face < self.faces.len(),
    {
        assert(self.vertex_wf_upto(v, self.edges.len() as int));
    }

    /// The plane of a face passes through a point of the mesh, so it meets
    /// the cube of the points within the limit of points, and its normal is
    /// within two to the power 43.
    pub proof fn lemma_face_plane_is_anchored(&self, f: int)
        requires
            self.wf(),
            0 <= f < self.faces.len(),
        ensures
            self.faces[f].plane.normal@.within(0x800_0000_0000),
            self.edge_start(3 * f).within(COORD_LIMIT as int),
            self.faces[f].plane@.contains(self.edge_start(3 * f)),
            self.faces[f].plane@.meets_cube(POINT_LIMIT as int),
    {
        self.lemma_edge_ends_within(3 * f);
        self.lemma_edge_ends_within(3 * f + 1);
        self.lemma_edge_ends_within(3 * f + 2);
        lemma_plane_through_bounds(
            self.edge_start(3 * f),
            self.edge_start(3 * f + 1),
            self.edge_start(3 * f + 2),
        );
        lemma_dot_in_cube(
            self.faces[f].plane@.normal,
            self.edge_start(3 * f),
            POINT_LIMIT as int,
        );
    }

    /// The first edge without a twin that is met from edge `e` on, where
    /// each step leads from an edge to the edge before its twin, and at most
    /// `fuel` steps are made.
    pub open spec fn walk_back(&self, e: int, fuel: nat) -> int
        decreases fuel,
    {
        if fuel == 0 {
            e
        } else {
            match self.edges[e].twin {
                None => e,
                Some(t) => self.walk_back(self.edges[t as int].prev as int, (fuel - 1) as nat),
            }
        }
    }

    /// The barrier that ends at the vertex which the barrier `outgoing`
    /// leaves: the other of the two barriers that meet at that corner.
    pub open spec fn incoming_barrier_of(&self, outgoing: int) -> int {
        self.walk_back(self.edges[outgoing].prev as int, self.edges.len() as nat)
    }

    /// Whether `visited` lists the edges of a walk backwards round the
    /// vertex that the barrier `outgoing` leaves, from the edge before
    /// `outgoing` on.
    pub open spec fn is_walk_back(&self, outgoing: int, visited: Seq<int>) -> bool {
        &&& visited.len() >= 1
        &&& visited[0] == self.edges[outgoing].prev
        &&& forall|i: int| 0 <= i < visited.len() ==> 0 <= #[trigger] visited[i] < self.edges.len()
        &&& forall|i: int| 0 <= i < visited.len() - 1 ==> #[trigger] self.walk_link(visited, i)
    }

    /// Whether the walk `visited` steps from its edge `i` to the edge before
    /// that edge's twin.
    pub open spec fn walk_link(&self, visited: Seq<int>, i: int) -> bool {
        &&& self.edges[visited[i]].twin is Some
        &&& visited[i + 1] == self.edges[self.edges[visited[i]].twin->0 as int].prev
    }

    /// A walk backwards round a vertex never meets an edge twice: the edge
    /// that follows the last one of a walk without repetition is none of the
    /// walk's edges.
    proof fn lemma_walk_back_is_fresh(&self, outgoing: int, visited: Seq<int>)
        requires
            self.wf(),
            0 <= outgoing < self.edges.len(),
            self.edges[outgoing].twin is None,
            self.is_walk_back(outgoing, visited),
            visited.no_duplicates(),
            self.edges[visited.last()].twin is Some,
        ensures
            ({
                let t = self.edges[visited.last()].twin->0 as int;
                let fresh = self.edges[t].prev as int;
                &&& 0 <= t < self.edges.len()
                &&& 0 <= fresh < self.edges.len()
                &&& self.edges[fresh].next == t
                &&& self.edges[t].vertex == self.edges[self.edges[visited.last()].next as int].vertex
                &&& self.is_walk_back(outgoing, visited.push(fresh))
                &&& visited.push(fresh).no_duplicates()
                &&& visited.push(fresh).len() <= self.edges.len()
            }),
    {
        let current = visited.last();
        let t = self.edges[current].twin->0 as int;
        assert(self.twin_wf(current));
        self.lemma_twin_symmetric(current);
        let fresh = self.edges[t].prev as int;
        assert forall|j: int| 0 <= j < visited.len() implies visited[j] != fresh by {
            // The first edge of the walk comes before the barrier, which is no
            // edge's twin. Every later edge comes before the twin of the edge
            // before it, and the walk holds no edge twice.
            if visited[j] == fresh && j > 0 {
                assert(self.walk_link(visited, j - 1));
                self.lemma_twin_symmetric(visited[j - 1]);
            }
        }
        let longer = visited.push(fresh);
        assert(self.is_walk_back(outgoing, longer)) by {
            assert forall|i: int| 0 <= i < longer.len() - 1 implies #[trigger] self.walk_link(
                longer,
                i,
            ) by {
                if i < visited.len() - 1 {
                    assert(self.walk_link(visited, i));
                }
            }
        }
        lemma_distinct_indices_are_few(longer, self.edges.len() as int);
    }

    /// Finds the barrier that ends at the vertex which the barrier
    /// `outgoing_barrier_idx` leaves, by walking backwards round that vertex
    /// from face to face. The walk ends, because it never meets an edge
    /// twice.
    pub fn incoming_barrier(&self, outgoing_barrier_idx: NavEdgeID) -> (r: NavEdgeID)
        requires
            self.wf(),
            outgoing_barrier_idx < self.edges.len(),
            self.edges[outgoing_barrier_idx as int].twin is None,
        ensures
            r == self.incoming_barrier_of(outgoing_barrier_idx as int),
            r < self.edges.len(),
            self.edges[r as int].twin is None,
            self.edges[self.edges[r as int].next as int].vertex
                == self.edges[outgoing_barrier_idx as int].vertex,
    {
        let n: usize = self.edges.len();
        let mut prev_incoming_edge_idx = self.edges[outgoing_barrier_idx].prev;
        let ghost first = prev_incoming_edge_idx as int;
        let ghost corner = self.edges[outgoing_barrier_idx as int].vertex;
        let ghost mut visited: Seq<int> = seq![first];
        proof {
            lemma_distinct_indices_are_few(visited, n as int);
        }
        loop
            invariant_except_break
                self.walk_back(first, n as nat) == self.walk_back(
                    prev_incoming_edge_idx as int,
                    (n - (visited.len() - 1)) as nat,
                ),
            invariant
                self.wf(),
                n == self.edges.len(),
                outgoing_barrier_idx < n,
                self.edges[outgoing_barrier_idx as int].twin is None,
                first == self.edges[outgoing_barrier_idx as int].prev,
                corner == self.edges[outgoing_barrier_idx as int].vertex,
                prev_incoming_edge_idx < n,
                self.is_walk_back(outgoing_barrier_idx as int, visited),
                visited.last() == prev_incoming_edge_idx,
                visited.no_duplicates(),
                visited.len() <= n,
                self.edges[self.edges[prev_incoming_edge_idx as int].next as int].vertex == corner,
            ensures
                self.edges[prev_incoming_edge_idx as int].twin is None,
                self.walk_back(first, n as nat) == prev_incoming_edge_idx,
            decreases n - visited.len(),
        {
            let prev_incoming_edge = self.edges[prev_incoming_edge_idx];
            match prev_incoming_edge.twin {
                None => {
                    break ;
                },
                Some(twin_idx) => {
                    proof {
                        self.lemma_walk_back_is_fresh(outgoing_barrier_idx as int, visited);
                    }
                    let next_idx = self.edges[twin_idx].prev;
                    proof {
                        visited = visited.push(next_idx as int);
                    }
                    prev_incoming_edge_idx = next_idx;
                },
            }
        }
        prev_incoming_edge_idx
    }

    /// A walk backwards round a vertex, continued from where `visited` ends,
    /// ends at a barrier that ends at that vertex.
    proof fn lemma_walk_back_finds_barrier(&self, outgoing: int, visited: Seq<int>)
        requires
            self.wf(),
            0 <= outgoing < self.edges.len(),
            self.edges[outgoing].twin is None,
            self.is_walk_back(outgoing, visited),
            visited.no_duplicates(),
            visited.len() <= self.edges.len(),
            self.edges[self.edges[visited.last()].next as int].vertex
                == self.edges[outgoing].vertex,
        ensures
            ({
                let found = self.walk_back(
                    visited.last(),
                    (self.edges.len() - (visited.len() - 1)) as nat,
                );
                &&& 0 <= found < self.edges.len()
                &&& self.edges[found].twin is None
                &&& self.edges[self.edges[found].next as int].vertex == self.edges[outgoing].vertex
            }),
        decreases self.edges.len() - visited.len(),
    {
        let current = visited.last();
        if self.edges[current].twin is Some {
            self.lemma_walk_back_is_fresh(outgoing, visited);
            let t = self.edges[current].twin->0 as int;
            let fresh = self.edges[t].prev as int;
            let longer = visited.push(fresh);
            self.lemma_walk_back_finds_barrier(outgoing, longer);
        }
    }

    /// The barrier that ends at the vertex which a barrier leaves is a
    /// barrier of the mesh, and ends at that vertex: the walk backwards
    /// round the vertex always finds it.
    pub proof fn lemma_incoming_barrier_ends_at_corner(&self, outgoing: int)
        requires
            self.wf(),
            0 <= outgoing < self.edges.len(),
            self.edges[outgoing].twin is None,
        ensures
            0 <= self.incoming_barrier_of(outgoing) < self.edges.len(),
            self.edges[self.incoming_barrier_of(outgoing)].twin is None,
            self.edges[self.edges[self.incoming_barrier_of(outgoing)].next as int].vertex
                == self.edges[outgoing].vertex,
            self.edge_end(self.incoming_barrier_of(outgoing)) == self.edge_start(outgoing),
    {
        let first = self.edges[outgoing].prev as int;
        let visited = seq![first];
        lemma_distinct_indices_are_few(visited, self.edges.len() as int);
        self.lemma_walk_back_finds_barrier(outgoing, visited);
    }
}

/// The mean `m` of the corners of a triangle `a`, `b`, `c` lies a third as
/// far beside the side from `a` to `b` as the corner `c` does.
proof fn lemma_mean_beside_side(a: Point2, b: Point2, c: Point2, m: Point2)
    requires
        m.scaled(3) == a.plus(b).plus(c),
    ensures
        3 * b.minus(a).perp().dot(m.minus(a)) == b.minus(a).perp().dot(c.minus(a)),
{
    assert(3 * b.minus(a).perp().dot(m.minus(a)) == b.minus(a).perp().dot(c.minus(a)))
        by (nonlinear_arith)
        requires
            m.x * 3 == a.x + b.x + c.x,
            m.y * 3 == a.y + b.y + c.y,
    ;
}

/// Twice the area of a triangle seen from above is the same from whichever
/// corner it is measured.
proof fn lemma_winding_is_cyclic(a: Point2, b: Point2, c: Point2)
    ensures
        c.minus(b).perp().dot(a.minus(b)) == b.minus(a).perp().dot(c.minus(a)),
        a.minus(c).perp().dot(b.minus(c)) == b.minus(a).perp().dot(c.minus(a)),
{
    let (ax, ay, bx, by, cx, cy) = (a.x, a.y, b.x, b.y, c.x, c.y);
    let around_a = (-(by - ay)) * (cx - ax) + (bx - ax) * (cy - ay);
    let around_b = (-(cy - by)) * (ax - bx) + (cx - bx) * (ay - by);
    let around_c = (-(ay - cy)) * (bx - cx) + (ax - cx) * (by - cy);
    assert(around_b == around_a) by (nonlinear_arith)
        requires
            around_a == (-(by - ay)) * (cx - ax) + (bx - ax) * (cy - ay),
            around_b == (-(cy - by)) * (ax - bx) + (cx - bx) * (ay - by),
    ;
    assert(around_c == around_a) by (nonlinear_arith)
        requires
            around_a == (-(by - ay)) * (cx - ax) + (bx - ax) * (cy - ay),
            around_c == (-(ay - cy)) * (bx - cx) + (ax - cx) * (by - cy),
    ;
}

impl NavMesh {
    /// Twice the area of face `f` seen from above: positive where the face
    /// winds counter-clockwise as seen from above, negative where it winds
    /// the other way.
    pub open spec fn face_winding(&self, f: int) -> int {
        -self.edge_offset(3 * f, self.projected_start(3 * f + 2))
    }

    /// Round every face, three steps of `next` from its first edge lead back
    /// to that edge, over three different edges of that face.
    pub proof fn lemma_face_loop_closes(&self, f: int)
        requires
            self.wf(),
            0 <= f < self.faces.len(),
        ensures
            ({
                let e0 = self.faces[f].start_edge as int;
                let e1 = self.edges[e0].next as int;
                let e2 = self.edges[e1].next as int;
                &&& 0 <= e0 < self.edges.len()
                &&& 0 <= e1 < self.edges.len()
                &&& 0 <= e2 < self.edges.len()
                &&& self.edges[e2].next == e0
                &&& e0 != e1 && e1 != e2 && e2 != e0
                &&& self.edges[e0].face == f
                &&& self.edges[e1].face == f
                &&& self.edges[e2].face == f
                &&& Self::edge_loop(e0) == seq![e0, e1, e2]
            }),
    {
    }

    /// The twin of an edge's twin is the edge itself.
    pub proof fn lemma_twin_symmetric(&self, e: int)
        requires
            self.wf(),
            0 <= e < self.edges.len(),
            self.edges[e].twin is Some,
        ensures
            self.edges[e].twin->0 < self.edges.len(),
            self.edges[self.edges[e].twin->0 as int].twin == Some(e as usize),
    {
        let t = self.edges[e].twin->0 as int;
        assert(self.twin_wf(e));
        assert(self.twin_wf(t));
        assert(opposite_pair(self.origins(), t, e));
        match self.edges[t].twin {
            Some(back) => {
                assert(same_pair(self.origins(), back as int, e));
            },
            None => {},
        }
    }

    /// The barrier that a vertex records has no twin and leaves that vertex,
    /// and no other edge without a twin leaves it. A vertex that records no
    /// barrier has none.
    pub proof fn lemma_outgoing_barrier_unique(&self, v: int, e: int)
        requires
            self.wf(),
            0 <= v < self.vertices.len(),
            0 <= e < self.edges.len(),
            self.edges[e].vertex == v,
            self.edges[e].twin is None,
        ensures
            self.vertices[v].outgoing_barrier == Some(e as usize),
    {
        assert(self.vertex_wf_upto(v, self.edges.len() as int));
    }

    /// The barrier that a vertex records is an edge without a twin that
    /// leaves that vertex.
    pub proof fn lemma_outgoing_barrier_is_barrier(&self, v: int)
        requires
            self.wf(),
            0 <= v < self.vertices.len(),
            self.vertices[v].outgoing_barrier is Some,
        ensures
            self.vertices[v].outgoing_barrier->0 < self.edges.len(),
            self.edges[self.vertices[v].outgoing_barrier->0 as int].vertex == v,
            self.edges[self.vertices[v].outgoing_barrier->0 as int].twin is None,
    {
        assert(self.vertex_wf_upto(v, self.edges.len() as int));
    }

    /// The centre of a face lies a third as far inside each edge of the face,
    /// seen from above, as the face is large: three times its offset from
    /// each edge is twice the area of the face, taken negative. So the centre
    /// of every face that winds counter-clockwise, or has no area, lies in
    /// the face, and that of a face that winds the other way does not.
    pub proof fn lemma_center_inside_face(&self, f: int)
        requires
            self.wf(),
            0 <= f < self.faces.len(),
        ensures
            forall|i: int|
                0 <= i < 3 ==> 3 * #[trigger] self.edge_offset(
                    3 * f + i,
                    self.faces[f].center@.to_xz(),
                ) == -self.face_winding(f),
            self.face_winding(f) >= 0 <==> self.loop_contains(
                self.faces[f].start_edge as int,
                self.faces[f].center@.to_xz(),
            ),
    {
        let a = self.projected_start(3 * f);
        let b = self.projected_start(3 * f + 1);
        let c = self.projected_start(3 * f + 2);
        let m = self.faces[f].center@.to_xz();
        assert(is_mean(
            self.faces[f].center@,
            self.edge_start(3 * f),
            self.edge_start(3 * f + 1),
            self.edge_start(3 * f + 2),
        ));
        lemma_winding_is_cyclic(a, b, c);
        lemma_mean_beside_side(a, b, c, m);
        lemma_mean_beside_side(b, c, a, m);
        lemma_mean_beside_side(c, a, b, m);
        assert(self.edge_offset(3 * f + 0, m) == b.minus(a).perp().dot(m.minus(a)));
        assert(self.edge_offset(3 * f + 1, m) == c.minus(b).perp().dot(m.minus(b)));
        assert(self.edge_offset(3 * f + 2, m) == a.minus(c).perp().dot(m.minus(c)));
    }

    /// In a mesh every twin's twin is the edge itself, every vertex records
    /// the one barrier that leaves it, and no vertex is left by two barriers.
    pub proof fn lemma_adjacency_is_recorded(&self)
        requires
            self.wf(),
        ensures
            self.twins_are_mutual(),
            self.barriers_are_recorded(),
    {
        assert forall|e: int|
            0 <= e < self.edges.len() && (#[trigger] self.edges[e]).twin is Some implies {
            &&& self.edges[e].twin->0 < self.edges.len()
            &&& self.edges[self.edges[e].twin->0 as int].twin == Some(e as usize)
        } by {
            self.lemma_twin_symmetric(e);
        }
        assert forall|v: int|
            0 <= v < self.vertices.len() && (#[trigger] self.vertices[v]).outgoing_barrier
                is Some implies {
            &&& self.vertices[v].outgoing_barrier->0 < self.edges.len()
            &&& self.edges[self.vertices[v].outgoing_barrier->0 as int].vertex == v
            &&& self.edges[self.vertices[v].outgoing_barrier->0 as int].twin is None
        } by {
            self.lemma_outgoing_barrier_is_barrier(v);
        }
        assert forall|e: int|
            0 <= e < self.edges.len() && (#[trigger] self.edges[e]).twin is None
                implies self.vertices[self.edges[e].vertex as int].outgoing_barrier == Some(
            e as usize,
        ) by {
            self.lemma_outgoing_barrier_unique(self.edges[e].vertex as int, e);
        }
    }

    /// In a mesh no two edges run from the same vertex to the same vertex,
    /// and no two edges without a twin leave the same vertex.
    pub proof fn lemma_wf_is_manifold(&self)
        requires
            self.wf(),
        ensures
            forall|i: int, j: int| !#[trigger] duplicate_pair(self.origins(), i, j),
            forall|i: int, j: int| !#[trigger] barrier_clash(self.origins(), i, j),
    {
        let o = self.origins();
        assert forall|i: int, j: int| !#[trigger] duplicate_pair(o, i, j) by {}
        assert forall|i: int, j: int| !#[trigger] barrier_clash(o, i, j) by {
            if barrier_clash(o, i, j) {
                let v = o[i] as int;
                assert(self.twin_wf(i));
                assert(self.twin_wf(j));
                assert(self.vertex_wf_upto(v, self.edges.len() as int));
            }
        }
    }

    /// Triangle data has one mesh: two meshes of the same vertex positions
    /// and the same triangle corners agree in every vertex, edge and face.
    pub proof fn lemma_mesh_is_determined(&self, other: &NavMesh)
        requires
            self.wf(),
            other.wf(),
            self.positions() == other.positions(),
            self.origins() == other.origins(),
        ensures
            self.vertices@ == other.vertices@,
            self.edges@ == other.edges@,
            self.faces@ == other.faces@,
    {
        let o = self.origins();
        assert(self.vertices.len() == other.vertices.len()) by {
            assert(self.positions().len() == self.vertices.len());
            assert(other.positions().len() == other.vertices.len());
        }
        assert(self.edges.len() == other.edges.len()) by {
            assert(self.origins().len() == other.origins().len());
        }
        assert forall|e: int| 0 <= e < self.edges.len() implies self.edges[e]
            == other.edges[e] by {
            assert(self.origins()[e] == other.origins()[e]);
            assert(self.twin_wf(e));
            assert(other.twin_wf(e));
            if self.edges[e].twin is Some && other.edges[e].twin is Some {
                assert(same_pair(
                    o,
                    self.edges[e].twin->0 as int,
                    other.edges[e].twin->0 as int,
                ));
            }
        }
        assert forall|v: int| 0 <= v < self.vertices.len() implies self.vertices[v]
            == other.vertices[v] by {
            assert(self.positions()[v] == self.vertices[v].position);
            assert(other.positions()[v] == other.vertices[v].position);
            assert(self.vertex_wf_upto(v, self.edges.len() as int));
            assert(other.vertex_wf_upto(v, other.edges.len() as int));
            let mine = self.vertices[v];
            let theirs = other.vertices[v];
            if exists|e: int| 0 <= e < self.edges.len() && (#[trigger] self.edges[e]).vertex == v {
                let e = choose|e: int|
                    0 <= e < self.edges.len() && (#[trigger] self.edges[e]).vertex == v;
                assert(other.edges[e].vertex == v);
                assert(self.edges[mine.outgoing_edge as int].vertex == v);
                assert(other.edges[theirs.outgoing_edge as int].vertex == v);
                assert(other.edges[mine.outgoing_edge as int].vertex == v);
                assert(self.edges[theirs.outgoing_edge as int].vertex == v);
            } else {
                assert forall|e: int| 0 <= e < other.edges.len() implies (
                #[trigger] other.edges[e]).vertex != v by {
                    assert(self.edges[e].vertex != v);
                }
            }
            match (mine.outgoing_barrier, theirs.outgoing_barrier) {
                (Some(b), _) => {
                    assert(other.edges[b as int].vertex == v);
                    assert(other.is_barrier(b as int));
                },
                (None, Some(b)) => {
                    assert(self.edges[b as int].vertex == v);
                    assert(self.is_barrier(b as int));
                },
                (None, None) => {},
            }
        }
        assert forall|e: int| 0 <= e < self.edges.len() implies #[trigger] self.edge_start(e)
            == other.edge_start(e) by {}
        assert forall|f: int| 0 <= f < self.faces.len() implies self.faces[f]
            == other.faces[f] by {}
    }
}

} // verus!
