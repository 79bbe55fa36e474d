pub mod block;
pub mod board;
pub mod cell;
pub mod coord;
pub mod grid;
pub mod laws;
