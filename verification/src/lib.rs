//! Conway's Game of Life on a fixed-size rectangular grid, with a catalog of
//! stampable patterns and a mirror transform applied before stamping.
//!
//! The grid has hard edges: cells on the border simply have fewer neighbors,
//! there is no wraparound.

pub mod grid;
pub mod laws;
pub mod pattern;
pub mod symmetry;

pub use grid::Grid;
pub use pattern::Position;
pub use pattern::Stamp;
pub use pattern::StampError;
pub use symmetry::Simmetry;
