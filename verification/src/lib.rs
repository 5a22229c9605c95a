//! Wave function collapse over a geodesic sphere.
//!
//! The sphere is an icosahedron unfolded into a flat net of twenty triangular
//! faces, each subdivided into a triangular grid of deltilles. The crate builds
//! that grid with every neighbour link resolved, and solves an edge-matching
//! tiling over it by constraint propagation with backtracking.
//!
//! - [`sockets`]: orientations, sockets, and the tile catalog with its mirrors.
//! - [`layout`], [`net`], [`adjacency`], [`corners`]: where the deltilles of
//!   a face lie, how the faces hang together, why every link of the grid
//!   leads back, and why the grid closes around every corner.
//! - [`icosahedron`]: the grid itself, and how it is built.
//! - [`constraints`]: the edge-matching rule, and narrowing options by it.
//! - [`seeding`], [`selection`], [`stack`]: what a solve starts from, which
//!   slot it draws, and what its moves do to its stack of steps.
//! - [`progress`], [`uniform`]: why a solve ends, and the catalogs with which
//!   it cannot fail.
//! - [`wave_function_collapse`]: the solver.
//! - [`random`]: the random source that the solver draws from.
//! - [`config_constants`]: the pixel geometry of the net.

pub mod adjacency;
pub mod config_constants;
pub mod corners;
pub mod constraints;
pub mod icosahedron;
pub mod layout;
pub mod net;
pub mod progress;
pub mod random;
pub mod seeding;
pub mod selection;
pub mod sockets;
pub mod stack;
pub mod uniform;
pub mod wave_function_collapse;
