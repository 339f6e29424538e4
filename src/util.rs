use vstd::prelude::*;

use crate::BOARD_LENGTH;
use crate::TILE_SIZE;

verus! {

/// A pair of coordinates: on the board (rank, file), on screen (x, y) in pixels.
pub type Point = (i32, i32);

pub open spec fn in_bounds_spec(x: int, y: int) -> bool {
    0 <= x < 8 && 0 <= y < 8
}

/// True iff both coordinates lie on the board.
pub fn in_bounds(p: Point) -> (r: bool)
    ensures
        r == in_bounds_spec(p.0 as int, p.1 as int),
{
    let (x, y) = p;
    x >= 0 && y >= 0 && x < BOARD_LENGTH && y < BOARD_LENGTH
}

/// Integer division rounding toward zero, as Rust's `/` on signed integers.
pub open spec fn trunc_div(a: int, d: int) -> int {
    if a >= 0 {
        a / d
    } else {
        -((-a) / d)
    }
}

/// Maps a screen position (x, y) to the board square (rank, file) under it.
pub fn get_board_position(p: (i32, i32)) -> (r: (i32, i32))
    ensures
        r.0 == trunc_div(p.1 as int, TILE_SIZE as int),
        r.1 == trunc_div(p.0 as int, TILE_SIZE as int),
{
    let (x, y) = p;
    (y / TILE_SIZE, x / TILE_SIZE)
}

} // verus!

verus! {

/// A piece being dragged across the board, with the point it is drawn at.
#[derive(Clone, Copy, PartialEq, Eq, Debug)]
pub struct MovingPiece {
    pub piece: Piece,
    pub point: Point,
}

impl MovingPiece {
    pub fn new(piece: Piece, point: Point) -> (r: Self)
        ensures
            r.piece == piece,
            r.point == point,
    {
        Self { piece, point }
    }
}

/// The outcome of a position: play goes on, one side has won, or it is drawn.
#[derive(Clone, Copy, PartialEq, Eq, Structural, Debug)]
pub enum PlayStatus {
    Continue,
    Win(Color),
    Draw,
}

/// A relocation of the piece on `src` to `dst`, both board squares.
#[derive(Clone, Copy, PartialEq, Eq, Debug)]
pub struct Move {
    pub src: Point,
    pub dst: Point,
}

impl Move {
    pub fn new(src: Point, dst: Point) -> (r: Self)
        ensures
            r.src == src,
            r.dst == dst,
    {
        Self { src, dst }
    }
}

#[derive(Debug, Hash, Eq, PartialEq, Structural, Copy, Clone)]
pub enum Color {
    Black,
    White,
}

/// The other side.
pub open spec fn opponent(c: Color) -> Color {
    match c {
        Color::Black => Color::White,
        Color::White => Color::Black,
    }
}

#[derive(Eq, Hash, Debug, Copy, Clone, PartialEq, Structural)]
pub enum PieceState {
    King,
    Queen,
    Rook,
    Bishop,
    Knight,
    Pawn,
}

#[derive(Eq, Copy, Clone, PartialEq, Structural, Debug)]
pub struct Piece {
    pub state: PieceState,
    pub color: Color,
    pub has_moved: bool,
}

impl Piece {
    /// A piece that has not moved yet, Black when `black` holds.
    pub fn new(state: PieceState, black: bool) -> (r: Self)
        ensures
            r.state == state,
            r.color == (if black { Color::Black } else { Color::White }),
            !r.has_moved,
    {
        Self { state, color: if black { Color::Black } else { Color::White }, has_moved: false }
    }
}

#[derive(Eq, Copy, Clone, PartialEq, Structural, Debug)]
pub enum Tile {
    Empty,
    Piece(Piece),
}

/// Mirrors a rank or file index across the middle of the board.
pub fn flip(x: i32) -> (r: i32)
    requires
        x > i32::MIN + 7,
    ensures
        r == 7 - x,
{
    7 - x
}

/// The rank index of `rank` counted from Black's side (unchanged) or from White's (mirrored).
pub fn flip_rank(rank: i32, black: bool) -> (r: i32)
    requires
        rank > i32::MIN + 7,
    ensures
        r == (if black { rank as int } else { 7 - rank }),
{
    if black {
        rank
    } else {
        flip(rank)
    }
}

/// The kind of piece that starts on a file of the back rank.
pub open spec fn back_rank_piece(file: int) -> PieceState {
    if file == 0 || file == 7 {
        PieceState::Rook
    } else if file == 1 || file == 6 {
        PieceState::Knight
    } else if file == 2 || file == 5 {
        PieceState::Bishop
    } else if file == 3 {
        PieceState::Queen
    } else {
        PieceState::King
    }
}

/// The kind of piece that starts on `file` of the back rank.
pub fn file_to_piece(file: i32) -> (r: PieceState)
    requires
        0 <= file < 8,
    ensures
        r == back_rank_piece(file as int),
{
    if file == 0 || file == flip(0) {
        PieceState::Rook
    } else if file == 1 || file == flip(1) {
        PieceState::Knight
    } else if file == 2 || file == flip(2) {
        PieceState::Bishop
    } else if file == 3 {
        PieceState::Queen
    } else {
        PieceState::King
    }
}

} // verus!
