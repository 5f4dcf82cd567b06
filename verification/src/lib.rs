//! Monte Carlo estimation of wildfire spread on a rectangular grid.
//!
//! One simulation ignites the corner cell of a fresh grid and lets fire
//! spread to orthogonal neighbours with direction-dependent probabilities
//! until no cell is burning; it returns how many cells burned.  A batch
//! runs many independent simulations and counts how many burned more than
//! a threshold number of cells.

pub mod config;
pub mod driver;
pub mod grid;
mod rng;
pub mod sim;
