//! Facts about the rules that hold of every position.
use vstd::prelude::*;

use crate::gamestate::GameState;
use crate::model::{
    Grid, Position, after_move, any_move, castle_left, castle_right, castles, checkmate,
    counter_after, en_passant, grid_wf, has_legal_move, in_check, pawn_dir, piece_of, status,
    with_moved,
};
use crate::util::{
    PieceState, PlayStatus, Tile, in_bounds_spec, opponent,
};

verus! {

/// The progress counter after a move is 0 when the moving piece is a pawn or the
/// move captures (castling aside), and one more than before otherwise.
pub proof fn lemma_counter_progress(g: Grid, n: int, sx: int, sy: int, dx: int, dy: int)
    requires
        g[sx][sy] is Piece,
        0 <= n < i32::MAX,
    ensures
        counter_after(g, n, sx, sy, dx, dy) == if !castles(g, sx, sy, dx, dy) && (piece_of(
            g,
            sx,
            sy,
        ).state == PieceState::Pawn || g[dx][dy] is Piece) {
            0
        } else {
            n + 1
        },
{
}

/// Once fifty half-moves have passed without a pawn move or a capture, the game is
/// drawn unless the side to move is checkmated.
pub proof fn lemma_fifty_moves_draw(s: &GameState)
    requires
        s.wf(),
        s.counter() >= 50,
        !checkmate(s.position()),
    ensures
        status(s.position(), s.counter()) == PlayStatus::Draw,
{
}

/// A checkmated side loses; a side with no legal move that is not in check draws.
pub proof fn lemma_mate_and_stalemate(p: Position, n: int)
    ensures
        in_check(p, p.turn) && !has_legal_move(p, p.turn) ==> status(p, n) == PlayStatus::Win(opponent(p.turn)),
        !in_check(p, p.turn) && !has_legal_move(p, p.turn) ==> status(p, n) == PlayStatus::Draw,
{
}

/// Castling toward file 7: with the king unmoved on file 4, an unmoved rook of its color on file 7
/// and files 5 and 6 empty, the king may move to file 6 or file 7; either move castles,
/// leaving the king, now moved, on file 6 and the rook, still unmoved, on file 5.
pub proof fn lemma_castling_kingside(p: Position, x: int, dy: int)
    requires
        grid_wf(p.grid),
        0 <= x < 8,
        dy == 6 || dy == 7,
        p.grid[x][4] is Piece,
        piece_of(p.grid, x, 4).state == PieceState::King,
        !piece_of(p.grid, x, 4).has_moved,
        p.grid[x][7] is Piece,
        piece_of(p.grid, x, 7).state == PieceState::Rook,
        piece_of(p.grid, x, 7).color == piece_of(p.grid, x, 4).color,
        !piece_of(p.grid, x, 7).has_moved,
        p.grid[x][5] is Empty,
        p.grid[x][6] is Empty,
    ensures
        any_move(p, x, 4, x, dy),
        castles(p.grid, x, 4, x, dy),
        ({
            let q = after_move(p, x, 4, x, dy).grid;
            &&& q[x][6] == Tile::Piece(with_moved(piece_of(p.grid, x, 4), true))
            &&& q[x][5] == Tile::Piece(with_moved(piece_of(p.grid, x, 7), false))
            &&& q[x][4] is Empty
            &&& q[x][7] is Empty
        }),
{
    assert(castle_right(p.grid, x, 4));
}

/// Castling toward file 0: with the king unmoved on file 4, an unmoved rook of its color on file 0
/// and files 1 to 3 empty, the king may move to file 2 or file 0; either move castles,
/// leaving the king, now moved, on file 2 and the rook, still unmoved, on file 3.
pub proof fn lemma_castling_queenside(p: Position, x: int, dy: int)
    requires
        grid_wf(p.grid),
        0 <= x < 8,
        dy == 2 || dy == 0,
        p.grid[x][4] is Piece,
        piece_of(p.grid, x, 4).state == PieceState::King,
        !piece_of(p.grid, x, 4).has_moved,
        p.grid[x][0] is Piece,
        piece_of(p.grid, x, 0).state == PieceState::Rook,
        piece_of(p.grid, x, 0).color == piece_of(p.grid, x, 4).color,
        !piece_of(p.grid, x, 0).has_moved,
        p.grid[x][1] is Empty,
        p.grid[x][2] is Empty,
        p.grid[x][3] is Empty,
    ensures
        any_move(p, x, 4, x, dy),
        castles(p.grid, x, 4, x, dy),
        ({
            let q = after_move(p, x, 4, x, dy).grid;
            &&& q[x][2] == Tile::Piece(with_moved(piece_of(p.grid, x, 4), true))
            &&& q[x][3] == Tile::Piece(with_moved(piece_of(p.grid, x, 0), false))
            &&& q[x][4] is Empty
            &&& q[x][0] is Empty
        }),
{
    assert(castle_left(p.grid, x, 4));
}

/// Taking en passant: a pawn of the side to move that may take en passant toward file
/// `f` has the diagonal square ahead among its destinations, and moving there removes
/// the enemy pawn beside it, not a piece on the square it lands on.
pub proof fn lemma_en_passant_capture(p: Position, x: int, y: int, f: int)
    requires
        grid_wf(p.grid),
        in_bounds_spec(x, y),
        f == y + 1 || f == y - 1,
        p.grid[x][y] is Piece,
        piece_of(p.grid, x, y).state == PieceState::Pawn,
        piece_of(p.grid, x, y).color == p.turn,
        p.prev is Some,
        en_passant(p.grid, p.prev->Some_0, x, y, f, p.turn),
    ensures
        any_move(p, x, y, x + pawn_dir(p.turn), f),
        ({
            let q = after_move(p, x, y, x + pawn_dir(p.turn), f).grid;
            &&& q[x][f] is Empty
            &&& q[x + pawn_dir(p.turn)][f] == Tile::Piece(with_moved(piece_of(p.grid, x, y), true))
            &&& q[x][y] is Empty
        }),
{
}

} // verus!
