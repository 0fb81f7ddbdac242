//! Minesweeper on a 15 × 15 board: the board and its neighbour counts, the
//! opening of empty areas, the generation of the mines at the first click, and
//! the rules of play from one frame to the next.
pub mod board;
pub mod count;
pub mod fill;
pub mod game;
mod rng;
pub mod world;
