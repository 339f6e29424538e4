//! The chess rules engine: board model, move generation, check, checkmate and
//! stalemate detection, and move application with castling, en passant and the
//! fifty-move rule, with the pointer interaction that drives a game.
use vstd::prelude::*;

pub mod gamestate;
pub mod laws;
pub mod model;
pub mod points;
pub mod util;

verus! {

/// Number of squares along one side of the board.
pub const BOARD_LENGTH: i32 = 8;

/// Edge length, in pixels, of one square on screen.
pub const TILE_SIZE: i32 = 96;

} // verus!
