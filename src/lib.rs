//! Conway's Game of Life on a fixed-size toroidal grid, with each
//! generation's cells held one bit per cell.

mod bitset;
pub mod rules;
pub mod universe;

pub use rules::GridView;
pub use universe::{Cell, Universe};
