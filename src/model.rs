//! The rules of movement, stated over a mathematical board.
use vstd::prelude::*;

use crate::util::{back_rank_piece, in_bounds_spec, opponent, Color, Piece, PieceState, PlayStatus, Tile};

verus! {

/// A board as rows of tiles, indexed `[rank][file]`.
pub type Grid = Seq<Seq<Tile>>;

/// A position as the rules see it: the board, the side to move, and the
/// board as it stood before the last move, if there was one.
pub struct Position {
    pub grid: Grid,
    pub turn: Color,
    pub prev: Option<Grid>,
}

pub open spec fn grid_wf(g: Grid) -> bool {
    g.len() == 8 && forall|i: int| 0 <= i < 8 ==> #[trigger] g[i].len() == 8
}

/// The grid with the tile on (x, y) replaced.
pub open spec fn set_tile(g: Grid, x: int, y: int, t: Tile) -> Grid {
    g.update(x, g[x].update(y, t))
}

pub open spec fn empty_at(g: Grid, x: int, y: int) -> bool {
    in_bounds_spec(x, y) && g[x][y] is Empty
}

/// (x, y) is on the board and holds a piece not of color `c`.
pub open spec fn enemy_at(g: Grid, x: int, y: int, c: Color) -> bool {
    in_bounds_spec(x, y) && g[x][y] is Piece && g[x][y]->Piece_0.color != c
}

/// (x, y) is on the board and holds a pawn not of color `c`.
pub open spec fn enemy_pawn_at(g: Grid, x: int, y: int, c: Color) -> bool {
    enemy_at(g, x, y, c) && g[x][y]->Piece_0.state == PieceState::Pawn
}

pub open spec fn piece_of(g: Grid, x: int, y: int) -> Piece {
    g[x][y]->Piece_0
}

/// (x, y) holds a piece of color `c`.
pub open spec fn owned_by(g: Grid, x: int, y: int, c: Color) -> bool {
    in_bounds_spec(x, y) && g[x][y] is Piece && g[x][y]->Piece_0.color == c
}

/// The rank step of a pawn of color `c`: Black toward higher ranks, White toward lower.
pub open spec fn pawn_dir(c: Color) -> int {
    if c == Color::Black {
        1
    } else {
        -1
    }
}

pub open spec fn adjacent(x: int, y: int, qx: int, qy: int) -> bool {
    -1 <= qx - x <= 1 && -1 <= qy - y <= 1 && !(qx == x && qy == y)
}

pub open spec fn knight_jump(x: int, y: int, qx: int, qy: int) -> bool {
    let a = qx - x;
    let b = qy - y;
    ((a == 1 || a == -1) && (b == 2 || b == -2)) || ((a == 2 || a == -2) && (b == 1 || b == -1))
}

/// (x, f) holds an unmoved rook of color `c`.
pub open spec fn unmoved_rook_at(g: Grid, x: int, f: int, c: Color) -> bool {
    &&& g[x][f] is Piece
    &&& piece_of(g, x, f).state == PieceState::Rook
    &&& piece_of(g, x, f).color == c
    &&& !piece_of(g, x, f).has_moved
}

/// The unmoved king on (x, y) may castle toward file 7: every square between it and
/// file 7 is empty and an unmoved rook of its color stands there.
pub open spec fn castle_right(g: Grid, x: int, y: int) -> bool {
    &&& !piece_of(g, x, y).has_moved
    &&& forall|i: int| y + 1 <= i < 7 ==> #[trigger] g[x][i] is Empty
    &&& unmoved_rook_at(g, x, 7, piece_of(g, x, y).color)
}

/// The unmoved king on (x, y) may castle toward file 0: every square between it and
/// file 0 is empty and an unmoved rook of its color stands there.
pub open spec fn castle_left(g: Grid, x: int, y: int) -> bool {
    &&& !piece_of(g, x, y).has_moved
    &&& forall|i: int| 1 <= i < y ==> #[trigger] g[x][i] is Empty
    &&& unmoved_rook_at(g, x, 0, piece_of(g, x, y).color)
}

pub open spec fn king_quiet(g: Grid, x: int, y: int, qx: int, qy: int) -> bool {
    ||| adjacent(x, y, qx, qy) && empty_at(g, qx, qy)
    ||| castle_right(g, x, y) && qx == x && (qy == 7 || qy == y + 2) && in_bounds_spec(qx, qy)
    ||| castle_left(g, x, y) && qx == x && (qy == 0 || qy == y - 2) && in_bounds_spec(qx, qy)
}

/// The j-th square from (x, y) in direction (dx, dy) is empty.
pub open spec fn ray_sq_empty(g: Grid, x: int, y: int, dx: int, dy: int, j: int) -> bool {
    empty_at(g, x + j * dx, y + j * dy)
}

/// The first k squares from (x, y) in direction (dx, dy) are all empty.
pub open spec fn ray_clear(g: Grid, x: int, y: int, dx: int, dy: int, k: int) -> bool {
    forall|j: int| 1 <= j <= k ==> #[trigger] ray_sq_empty(g, x, y, dx, dy, j)
}

/// (qx, qy) is reached from (x, y) in direction (dx, dy) across empty squares only.
pub open spec fn slide_quiet(g: Grid, x: int, y: int, dx: int, dy: int, qx: int, qy: int) -> bool {
    exists|k: int|
        1 <= k && qx == x + k * dx && qy == y + k * dy && #[trigger] ray_clear(g, x, y, dx, dy, k)
}

/// (qx, qy) is the first occupied square from (x, y) in direction (dx, dy), and holds
/// a piece not of color `c`.
pub open spec fn slide_attack(
    g: Grid,
    x: int,
    y: int,
    dx: int,
    dy: int,
    c: Color,
    qx: int,
    qy: int,
) -> bool {
    exists|k: int|
        1 <= k && qx == x + k * dx && qy == y + k * dy && #[trigger] ray_clear(g, x, y, dx, dy, k - 1)
            && enemy_at(g, qx, qy, c)
}

pub open spec fn rook_quiet(g: Grid, x: int, y: int, qx: int, qy: int) -> bool {
    ||| slide_quiet(g, x, y, -1, 0, qx, qy)
    ||| slide_quiet(g, x, y, 1, 0, qx, qy)
    ||| slide_quiet(g, x, y, 0, -1, qx, qy)
    ||| slide_quiet(g, x, y, 0, 1, qx, qy)
}

pub open spec fn bishop_quiet(g: Grid, x: int, y: int, qx: int, qy: int) -> bool {
    ||| slide_quiet(g, x, y, -1, -1, qx, qy)
    ||| slide_quiet(g, x, y, -1, 1, qx, qy)
    ||| slide_quiet(g, x, y, 1, -1, qx, qy)
    ||| slide_quiet(g, x, y, 1, 1, qx, qy)
}

pub open spec fn rook_attack(g: Grid, x: int, y: int, c: Color, qx: int, qy: int) -> bool {
    ||| slide_attack(g, x, y, -1, 0, c, qx, qy)
    ||| slide_attack(g, x, y, 1, 0, c, qx, qy)
    ||| slide_attack(g, x, y, 0, -1, c, qx, qy)
    ||| slide_attack(g, x, y, 0, 1, c, qx, qy)
}

pub open spec fn bishop_attack(g: Grid, x: int, y: int, c: Color, qx: int, qy: int) -> bool {
    ||| slide_attack(g, x, y, -1, -1, c, qx, qy)
    ||| slide_attack(g, x, y, -1, 1, c, qx, qy)
    ||| slide_attack(g, x, y, 1, -1, c, qx, qy)
    ||| slide_attack(g, x, y, 1, 1, c, qx, qy)
}

pub open spec fn pawn_quiet(g: Grid, x: int, y: int, qx: int, qy: int) -> bool {
    let p = piece_of(g, x, y);
    let d = pawn_dir(p.color);
    ||| qx == x + d && qy == y && empty_at(g, x + d, y)
    ||| qx == x + 2 * d && qy == y && !p.has_moved && empty_at(g, x + d, y) && empty_at(
        g,
        x + 2 * d,
        y,
    )
}

/// A pawn of color `c` on (x, y) may take en passant toward file `f`: the diagonal
/// square is empty, an enemy pawn stands beside it on file `f`, and in the board
/// before the last move an enemy pawn stood two ranks ahead on that file.
pub open spec fn en_passant(g: Grid, prev: Grid, x: int, y: int, f: int, c: Color) -> bool {
    let d = pawn_dir(c);
    &&& empty_at(g, x + d, f)
    &&& enemy_pawn_at(g, x, f, c)
    &&& enemy_pawn_at(prev, x + 2 * d, f, c)
}

pub open spec fn pawn_attack(p: Position, x: int, y: int, qx: int, qy: int) -> bool {
    let g = p.grid;
    let c = piece_of(g, x, y).color;
    let d = pawn_dir(c);
    &&& qx == x + d
    &&& qy == y + 1 || qy == y - 1
    &&& enemy_at(g, qx, qy, c) || (p.prev is Some && en_passant(g, p.prev->Some_0, x, y, qy, c))
}

/// Squares that the piece on (x, y) reaches without capturing.
pub open spec fn quiet_move(p: Position, x: int, y: int, qx: int, qy: int) -> bool {
    let g = p.grid;
    match piece_of(g, x, y).state {
        PieceState::King => king_quiet(g, x, y, qx, qy),
        PieceState::Queen => rook_quiet(g, x, y, qx, qy) || bishop_quiet(g, x, y, qx, qy),
        PieceState::Rook => rook_quiet(g, x, y, qx, qy),
        PieceState::Bishop => bishop_quiet(g, x, y, qx, qy),
        PieceState::Knight => knight_jump(x, y, qx, qy) && empty_at(g, qx, qy),
        PieceState::Pawn => pawn_quiet(g, x, y, qx, qy),
    }
}

/// Squares on which the piece on (x, y) captures.
pub open spec fn attack_move(p: Position, x: int, y: int, qx: int, qy: int) -> bool {
    let g = p.grid;
    let c = piece_of(g, x, y).color;
    match piece_of(g, x, y).state {
        PieceState::King => adjacent(x, y, qx, qy) && enemy_at(g, qx, qy, c),
        PieceState::Queen => rook_attack(g, x, y, c, qx, qy) || bishop_attack(g, x, y, c, qx, qy),
        PieceState::Rook => rook_attack(g, x, y, c, qx, qy),
        PieceState::Bishop => bishop_attack(g, x, y, c, qx, qy),
        PieceState::Knight => knight_jump(x, y, qx, qy) && enemy_at(g, qx, qy, c),
        PieceState::Pawn => pawn_attack(p, x, y, qx, qy),
    }
}

/// Every destination of the piece on (x, y), before the safety of its king is considered.
pub open spec fn any_move(p: Position, x: int, y: int, qx: int, qy: int) -> bool {
    quiet_move(p, x, y, qx, qy) || attack_move(p, x, y, qx, qy)
}

/// Some piece of color `c` has (qx, qy) among its destinations.
pub open spec fn reached_by(p: Position, c: Color, qx: int, qy: int) -> bool {
    exists|px: int, py: int| owned_by(p.grid, px, py, c) && #[trigger] any_move(p, px, py, qx, qy)
}

pub open spec fn king_at(g: Grid, x: int, y: int, c: Color) -> bool {
    owned_by(g, x, y, c) && g[x][y]->Piece_0.state == PieceState::King
}

/// A king of color `c` stands on a square that the other side reaches.
pub open spec fn in_check(p: Position, c: Color) -> bool {
    exists|kx: int, ky: int| king_at(p.grid, kx, ky, c) && #[trigger] reached_by(p, opponent(c), kx, ky)
}

} // verus!

verus! {

/// The rank step from the destination of an en passant capture to the pawn it takes,
/// for the side `turn` that makes it.
pub open spec fn behind_dir(turn: Color) -> int {
    if turn == Color::Black {
        -1
    } else {
        1
    }
}

/// A pawn moves one file sideways onto an empty square: an en passant capture.
pub open spec fn en_passant_shape(g: Grid, sx: int, sy: int, dx: int, dy: int) -> bool {
    piece_of(g, sx, sy).state == PieceState::Pawn && (dy - sy == 1 || dy - sy == -1)
        && g[dx][dy] is Empty
}

/// The file of the corner toward which a king moving from file `sy` to `dy` castles.
pub open spec fn corner(sy: int, dy: int) -> int {
    if dy > sy {
        7
    } else {
        0
    }
}

pub open spec fn side(sy: int, dy: int) -> int {
    if dy > sy {
        1
    } else {
        -1
    }
}

/// A king moves more than one file and a piece stands in the corner on that side.
pub open spec fn castles(g: Grid, sx: int, sy: int, dx: int, dy: int) -> bool {
    piece_of(g, sx, sy).state == PieceState::King && (dy - sy > 1 || sy - dy > 1)
        && g[dx][corner(sy, dy)] is Piece
}

pub open spec fn with_moved(p: Piece, moved: bool) -> Piece {
    Piece { state: p.state, color: p.color, has_moved: moved }
}

/// The board once the king on (sx, sy) has castled toward the corner on file `corner(sy, dy)`.
pub open spec fn castled_grid(g: Grid, sx: int, sy: int, dx: int, dy: int) -> Grid {
    let king = piece_of(g, sx, sy);
    let f = corner(sy, dy);
    let rook = piece_of(g, dx, f);
    let s = side(sy, dy);
    let g1 = set_tile(g, sx, sy + s, Tile::Piece(with_moved(rook, false)));
    let g2 = set_tile(g1, sx, sy + 2 * s, Tile::Piece(with_moved(king, true)));
    let g3 = set_tile(g2, sx, sy, Tile::Empty);
    set_tile(g3, dx, f, Tile::Empty)
}

/// The board once a pawn taking en passant has removed the pawn it takes.
pub open spec fn after_en_passant(g: Grid, turn: Color, sx: int, sy: int, dx: int, dy: int) -> Grid {
    let cx = dx + behind_dir(turn);
    if en_passant_shape(g, sx, sy, dx, dy) && in_bounds_spec(cx, dy) {
        set_tile(g, cx, dy, Tile::Empty)
    } else {
        g
    }
}

/// The board after the piece on (sx, sy) moves to (dx, dy) with `turn` to move.
pub open spec fn moved_grid(g: Grid, turn: Color, sx: int, sy: int, dx: int, dy: int) -> Grid {
    if !(g[sx][sy] is Piece) {
        g
    } else if castles(g, sx, sy, dx, dy) {
        castled_grid(g, sx, sy, dx, dy)
    } else {
        let g1 = after_en_passant(g, turn, sx, sy, dx, dy);
        let g2 = set_tile(g1, dx, dy, Tile::Piece(with_moved(piece_of(g, sx, sy), true)));
        set_tile(g2, sx, sy, Tile::Empty)
    }
}

/// The position after the piece on (sx, sy) moves to (dx, dy); unchanged when (sx, sy) is empty.
pub open spec fn after_move(p: Position, sx: int, sy: int, dx: int, dy: int) -> Position {
    if !(p.grid[sx][sy] is Piece) {
        p
    } else {
        Position {
            grid: moved_grid(p.grid, p.turn, sx, sy, dx, dy),
            turn: opponent(p.turn),
            prev: Some(p.grid),
        }
    }
}

/// One more than `n`, held at `i32::MAX`.
pub open spec fn bump(n: int) -> int {
    if n < i32::MAX {
        n + 1
    } else {
        n
    }
}

/// The count of half-moves without a pawn move or a capture, after the given move:
/// reset by a pawn move or a capture, else one more.
pub open spec fn counter_after(g: Grid, n: int, sx: int, sy: int, dx: int, dy: int) -> int {
    if !(g[sx][sy] is Piece) {
        n
    } else if castles(g, sx, sy, dx, dy) {
        bump(n)
    } else if piece_of(g, sx, sy).state == PieceState::Pawn || g[dx][dy] is Piece {
        0
    } else {
        bump(n)
    }
}

/// Moving the piece on (sx, sy) to (dx, dy) leaves no king of the mover attacked.
pub open spec fn safe(p: Position, sx: int, sy: int, dx: int, dy: int) -> bool {
    !in_check(after_move(p, sx, sy, dx, dy), p.turn)
}

/// (qx, qy) is a legal destination of the piece on (x, y).
pub open spec fn legal_dest(p: Position, x: int, y: int, qx: int, qy: int) -> bool {
    any_move(p, x, y, qx, qy) && safe(p, x, y, qx, qy)
}

/// Some piece of color `c` has a legal destination.
pub open spec fn has_legal_move(p: Position, c: Color) -> bool {
    exists|x: int, y: int, qx: int, qy: int|
        owned_by(p.grid, x, y, c) && #[trigger] legal_dest(p, x, y, qx, qy)
}

/// The side to move is in check and has no legal move.
pub open spec fn checkmate(p: Position) -> bool {
    in_check(p, p.turn) && !has_legal_move(p, p.turn)
}

/// The status of a position whose progress counter is `n`.
pub open spec fn status(p: Position, n: int) -> PlayStatus {
    if checkmate(p) {
        PlayStatus::Win(opponent(p.turn))
    } else if n >= 50 || !has_legal_move(p, p.turn) {
        PlayStatus::Draw
    } else {
        PlayStatus::Continue
    }
}

/// The tile on (x, y) in the starting arrangement: Black's pieces on ranks 0 and 1,
/// White's on ranks 7 and 6, none of them moved.
pub open spec fn home_tile(x: int, y: int) -> Tile {
    if x == 0 {
        Tile::Piece(Piece { state: back_rank_piece(y), color: Color::Black, has_moved: false })
    } else if x == 1 {
        Tile::Piece(Piece { state: PieceState::Pawn, color: Color::Black, has_moved: false })
    } else if x == 6 {
        Tile::Piece(Piece { state: PieceState::Pawn, color: Color::White, has_moved: false })
    } else if x == 7 {
        Tile::Piece(Piece { state: back_rank_piece(y), color: Color::White, has_moved: false })
    } else {
        Tile::Empty
    }
}

/// The starting arrangement.
pub open spec fn start_grid() -> Grid {
    Seq::new(8, |x: int| Seq::new(8, |y: int| home_tile(x, y)))
}

} // verus!
