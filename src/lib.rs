//! Conway's Game of Life on a toroidal grid, with the generation rule proved
//! against a mathematical model of the grid.

pub mod bits;
pub mod rules;
pub mod universe;
