//! Finite-volume discretization of a layered chip-package thermal stack.
//!
//! A stack description (dies with floorplans, plain layers, coolant channels,
//! a heat sink) is discretized into a uniform grid of cells per layer.  From
//! it the crate derives the lumped thermal RC quantities that drive a
//! downstream temperature solver: a per-cell capacitance vector, a sparse
//! structurally symmetric conductance matrix, and a sparse operator that
//! distributes the power of named floorplan elements over grid cells.
//!
//! Every physical quantity is an IEEE-754 double carried as its raw bit
//! pattern in a `u64`, so that the exact sequence of floating-point
//! operations behind every output value is pinned down in the contracts; see
//! the `fp` module.
#![verifier::loop_isolation(false)]

pub mod analysis;
pub mod dimensions;
pub mod error;
pub mod fp;
pub mod power_grid;
pub mod sparse;
pub mod stack;
pub mod system;
pub mod system_matrix;
pub mod thermal_grid;
