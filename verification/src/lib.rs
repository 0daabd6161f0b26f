//! The integer structure of a cloth simulation on a rectangular grid: solver
//! configuration, the constraint and triangle topology of the grid, which particles are
//! pinned, and the pairing of adjacent triangles for isometric bending.

pub mod bends;
pub mod config;
pub mod grid_laws;
pub mod material;
pub mod topology;

pub use bends::BendStencil;
pub use config::{AerodynamicsMode, BendingMode, SolverConfig, SolverMode};
pub use material::MaterialKind;
pub use topology::{Attachment, ConstraintKind, Link, Topology};
