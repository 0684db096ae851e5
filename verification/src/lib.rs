//! Conway's Game of Life on a dense, bounded grid: the board and its
//! generation step, and the text formats a board is read from.

pub mod cfg;
pub mod engine;
pub mod parser;
pub mod patterns;
pub mod rle;
pub mod search;
pub mod text;
