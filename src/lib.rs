//! One step of a wrap-around stencil kernel over a square, row-major grid.
//!
//! The grid of side `n` holds `n * n` cells; cell `(i, j)` lives at offset
//! `i * n + j`. Each output cell is computed from the input cell at the same
//! place and its four neighbours, with the edges wrapping around (a torus).

pub mod boundary;
pub mod error;
pub mod grid;
pub mod kernel;

pub use boundary::{buffers_overlap, validate_raw_call, CELL_BYTES};
pub use error::StepError;
pub use grid::{down_index, gather, left_index, neighborhood, right_index, up_index, Stencil};
pub use kernel::{step_checked, step_grid};
