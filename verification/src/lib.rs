//! Walking on a triangulated ground surface, with exact lattice geometry.
//!
//! [`nav`] builds the navigation mesh, a half-edge graph of triangles, from
//! triangle data and answers questions about its faces and edges.
//! [`player_controller`] moves an agent over the mesh frame by frame: its
//! movement slides along the barriers of the mesh and is handed over from
//! face to face. [`util`] finds where a line meets a plane, [`vector`] holds
//! the lattice vectors, and [`arith`] the integer arithmetic beneath them.
//!
//! Every coordinate is a whole number of lattice steps, and every comparison
//! of lengths is made on squares, so that no result depends on rounding
//! other than the rounding that the contracts state.

pub mod arith;
pub mod vector;
pub mod nav;
pub mod player_controller;
pub mod util;
