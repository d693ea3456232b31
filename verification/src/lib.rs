//! Rules engine for a two-player, turn-based territory game on a fixed
//! square grid. Players alternately claim unclaimed cells adjacent to cells
//! they already own; the value written on a newly claimed cell is one more
//! than the largest value among the acting player's owned neighbours. The
//! game ends when every cell is claimed; the highest single-cell value wins.

pub mod board;
pub mod engine;
pub mod grid;
pub mod player;
