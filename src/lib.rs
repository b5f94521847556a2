//! Conway's Game of Life on a toroidal grid, with cells packed one bit each.

mod bitset;
pub mod grid;
pub mod universe;

pub use universe::{Cell, Universe};
