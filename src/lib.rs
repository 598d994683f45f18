//! Conway's Game of Life on a toroidal grid, with bit-packed double-buffered
//! storage and a verified generation step.
use vstd::prelude::*;

pub mod bitset;
pub mod grid;
pub mod timer;
pub mod universe;

pub use grid::Grid;
pub use timer::Timer;
pub use universe::{GridError, Universe, DEFAULT_SIZE};

verus! {

} // verus!
