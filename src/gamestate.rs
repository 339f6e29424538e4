//! The game engine: board, side to move, history, selection, and the rules applied to them.
use vstd::prelude::*;

use crate::model::{
    Grid, Position, adjacent, after_en_passant, after_move, any_move, attack_move,
    bishop_attack, bishop_quiet, castle_left, castle_right, castled_grid, castles, checkmate,
    corner, counter_after, empty_at, en_passant, enemy_at, enemy_pawn_at, has_legal_move,
    home_tile, in_check, king_at, king_quiet, knight_jump, legal_dest, owned_by, pawn_attack,
    pawn_quiet, piece_of, quiet_move, ray_clear, ray_sq_empty, reached_by, rook_attack,
    rook_quiet, safe, set_tile, side, slide_attack, slide_quiet, start_grid, status,
};
use crate::points::{
    copy_points, extend_points, has_point, in_prefix, insert_point, push_if, remove_point,
};
use crate::util::{
    Color, Move, MovingPiece, Piece, PieceState, PlayStatus, Point, Tile, file_to_piece,
    flip_rank, get_board_position, in_bounds, in_bounds_spec, opponent, trunc_div,
};

verus! {

/// Rows of tiles, indexed `[rank][file]`.
pub type Board = Vec<Vec<Tile>>;

/// The mathematical board that `b` holds.
pub open spec fn grid_of(b: Board) -> Grid {
    b@.map_values(|r: Vec<Tile>| r@)
}

pub open spec fn board_wf(b: Board) -> bool {
    b@.len() == 8 && forall|i: int| 0 <= i < 8 ==> #[trigger] b@[i]@.len() == 8
}

/// `v` holds exactly the squares of `g` occupied by color `c`.
pub open spec fn lists_match(v: Seq<Point>, g: Grid, c: Color) -> bool {
    &&& forall|q: Point| #[trigger] v.contains(q) ==> owned_by(g, q.0 as int, q.1 as int, c)
    &&& forall|px: int, py: int|
        #[trigger] owned_by(g, px, py, c) ==> v.contains((px as i32, py as i32))
}

/// A piece picked up by the pointer: where it was picked up, where the pointer is,
/// and whether the pointer is still held down.
#[derive(Clone, Copy)]
struct Selection {
    starting_tile: Point,
    current_point: Point,
    piece: Piece,
    held_down: bool,
}

pub struct GameState {
    pub board: Board,
    pub last_move: Option<Move>,
    selected: Option<Selection>,
    players_turn: Color,
    prev_game_state: Option<Box<GameState>>,
    white_pieces: Vec<Point>,
    black_pieces: Vec<Point>,
    moves_since: i32,
}

impl GameState {
    /// The position that the rules look at.
    pub closed spec fn position(&self) -> Position {
        Position {
            grid: grid_of(self.board),
            turn: self.players_turn,
            prev: match self.prev_game_state {
                Some(b) => Some(grid_of(b.board)),
                None => None,
            },
        }
    }

    pub closed spec fn grid(&self) -> Grid {
        grid_of(self.board)
    }

    /// The move applied last, if any.
    pub closed spec fn last(&self) -> Option<Move> {
        self.last_move
    }

    pub closed spec fn turn(&self) -> Color {
        self.players_turn
    }

    /// Half-moves since the last pawn move or capture.
    pub closed spec fn counter(&self) -> int {
        self.moves_since as int
    }

    /// The square the selected piece was picked up from, if a piece is selected.
    pub closed spec fn selected_square(&self) -> Option<Point> {
        match self.selected {
            Some(s) => Some(s.starting_tile),
            None => None,
        }
    }

    /// The pointer position of the selection and whether it is held down.
    pub closed spec fn selection_pointer(&self) -> Option<(Point, bool)> {
        match self.selected {
            Some(s) => Some((s.current_point, s.held_down)),
            None => None,
        }
    }

    /// The squares listed as occupied by color `c`.
    pub closed spec fn occupied_list(&self, c: Color) -> Seq<Point> {
        if c == Color::White {
            self.white_pieces@
        } else {
            self.black_pieces@
        }
    }

    /// The board is 8 by 8 and the lists of occupied squares match it.
    pub closed spec fn lists_ok(&self) -> bool {
        &&& board_wf(self.board)
        &&& lists_match(self.white_pieces@, grid_of(self.board), Color::White)
        &&& lists_match(self.black_pieces@, grid_of(self.board), Color::Black)
    }

    pub closed spec fn wf(&self) -> bool {
        &&& self.lists_ok()
        &&& match self.prev_game_state {
            Some(b) => board_wf(b.board) && b.prev_game_state is None,
            None => true,
        }
        &&& self.moves_since >= 0
        &&& match self.selected {
            Some(s) => {
                &&& in_bounds_spec(s.starting_tile.0 as int, s.starting_tile.1 as int)
                &&& grid_of(self.board)[s.starting_tile.0 as int][s.starting_tile.1 as int]
                    == Tile::Piece(s.piece)
                &&& s.piece.color == self.players_turn
            },
            None => true,
        }
    }

    /// The tile on square (x, y).
    fn tile(&self, x: i32, y: i32) -> (r: Tile)
        requires
            board_wf(self.board),
            in_bounds_spec(x as int, y as int),
        ensures
            r == self.grid()[x as int][y as int],
    {
        self.board[x as usize][y as usize]
    }

    /// Whether square `p` is empty.
    pub fn is_empty(&self, p: Point) -> (r: bool)
        requires
            self.wf(),
            in_bounds_spec(p.0 as int, p.1 as int),
        ensures
            r == (self.grid()[p.0 as int][p.1 as int] is Empty),
    {
        let (x, y) = p;
        match self.tile(x, y) {
            Tile::Empty => true,
            Tile::Piece(_) => false,
        }
    }

    /// The color of the piece on square `p`, if any.
    fn get_tile_color(&self, p: Point) -> (r: Option<Color>)
        requires
            self.wf(),
            in_bounds_spec(p.0 as int, p.1 as int),
        ensures
            r == (match self.grid()[p.0 as int][p.1 as int] {
                Tile::Empty => None,
                Tile::Piece(pc) => Some(pc.color),
            }),
    {
        let (x, y) = p;
        match self.tile(x, y) {
            Tile::Empty => None,
            Tile::Piece(pc) => Some(pc.color),
        }
    }

    /// Whether square `p` holds a piece not of color `color`.
    fn is_enemy(&self, p: Point, color: Color) -> (r: bool)
        requires
            self.wf(),
            in_bounds_spec(p.0 as int, p.1 as int),
        ensures
            r == enemy_at(self.grid(), p.0 as int, p.1 as int, color),
    {
        let (x, y) = p;
        match self.tile(x, y) {
            Tile::Piece(pc) => pc.color != color,
            Tile::Empty => false,
        }
    }

    /// Puts `t` on square (x, y), keeping the lists of occupied squares in step.
    /// Returns whether the square was occupied before.
    fn add_tile(&mut self, x: i32, y: i32, t: Tile) -> (r: bool)
        requires
            old(self).lists_ok(),
            in_bounds_spec(x as int, y as int),
        ensures
            final(self).lists_ok(),
            final(self).grid() == set_tile(old(self).grid(), x as int, y as int, t),
            r == (old(self).grid()[x as int][y as int] is Piece),
            final(self).selected == old(self).selected,
            final(self).players_turn == old(self).players_turn,
            final(self).prev_game_state == old(self).prev_game_state,
            final(self).moves_since == old(self).moves_since,
            final(self).last_move == old(self).last_move,
    {
        let ghost g0 = self.grid();
        let was = self.tile(x, y);
        let occupied = match was {
            Tile::Piece(pc) => {
                if pc.color == Color::Black {
                    remove_point(&mut self.black_pieces, (x, y));
                } else {
                    remove_point(&mut self.white_pieces, (x, y));
                }
                true
            },
            Tile::Empty => false,
        };
        match t {
            Tile::Piece(pc) => {
                if pc.color == Color::Black {
                    insert_point(&mut self.black_pieces, (x, y));
                } else {
                    insert_point(&mut self.white_pieces, (x, y));
                }
            },
            Tile::Empty => {},
        }
        self.board[x as usize][y as usize] = t;
        proof {
            let g1 = self.grid();
            assert(g1 =~= set_tile(g0, x as int, y as int, t));
            assert forall|px: int, py: int| #[trigger] owned_by(g1, px, py, Color::White)
                implies self.white_pieces@.contains((px as i32, py as i32)) by {
                if px != x || py != y {
                    assert(owned_by(g0, px, py, Color::White));
                }
            }
            assert forall|px: int, py: int| #[trigger] owned_by(g1, px, py, Color::Black)
                implies self.black_pieces@.contains((px as i32, py as i32)) by {
                if px != x || py != y {
                    assert(owned_by(g0, px, py, Color::Black));
                }
            }
        }
        occupied
    }

    /// Empties square (x, y). Returns whether it was occupied before.
    fn make_tile_empty(&mut self, x: i32, y: i32) -> (r: bool)
        requires
            old(self).lists_ok(),
            in_bounds_spec(x as int, y as int),
        ensures
            final(self).lists_ok(),
            final(self).grid() == set_tile(old(self).grid(), x as int, y as int, Tile::Empty),
            r == (old(self).grid()[x as int][y as int] is Piece),
            final(self).selected == old(self).selected,
            final(self).players_turn == old(self).players_turn,
            final(self).prev_game_state == old(self).prev_game_state,
            final(self).moves_since == old(self).moves_since,
            final(self).last_move == old(self).last_move,
    {
        self.add_tile(x, y, Tile::Empty)
    }
}

/// (qx, qy) is the j-th square from (x, y) in direction (dx, dy).
pub open spec fn on_ray(x: int, y: int, dx: int, dy: int, j: int, q: Point) -> bool {
    q.0 == x + j * dx && q.1 == y + j * dy
}

pub open spec fn unit_dir(dx: int, dy: int) -> bool {
    -1 <= dx <= 1 && -1 <= dy <= 1 && !(dx == 0 && dy == 0)
}

impl GameState {
    /// The empty squares from `start` in direction `dir`, up to the first occupied
    /// square or the edge.
    fn add_till(&self, start: Point, dir: Point) -> (r: Vec<Point>)
        requires
            self.wf(),
            in_bounds_spec(start.0 as int, start.1 as int),
            unit_dir(dir.0 as int, dir.1 as int),
        ensures
            forall|q: Point| #[trigger] r@.contains(q) <==> slide_quiet(
                self.grid(),
                start.0 as int,
                start.1 as int,
                dir.0 as int,
                dir.1 as int,
                q.0 as int,
                q.1 as int,
            ),
    {
        let ghost g = self.grid();
        let (sx, sy) = start;
        let (dx, dy) = dir;
        let mut points: Vec<Point> = Vec::new();
        let mut k: i32 = 1;
        let mut cx: i32 = sx + dx;
        let mut cy: i32 = sy + dy;
        while in_bounds((cx, cy)) && self.is_empty((cx, cy))
            invariant
                self.wf(),
                g == self.grid(),
                in_bounds_spec(sx as int, sy as int),
                unit_dir(dx as int, dy as int),
                1 <= k <= 8,
                cx == sx + k * dx,
                cy == sy + k * dy,
                ray_clear(g, sx as int, sy as int, dx as int, dy as int, k - 1),
                forall|q: Point| #[trigger] points@.contains(q) <==> exists|j: int|
                    1 <= j < k && #[trigger] on_ray(sx as int, sy as int, dx as int, dy as int, j, q),
            decreases 8 - k,
        {
            assert(k < 8) by (nonlinear_arith)
                requires
                    cx == sx + k * dx,
                    cy == sy + k * dy,
                    0 <= cx < 8,
                    0 <= cy < 8,
                    0 <= sx < 8,
                    0 <= sy < 8,
                    -1 <= dx <= 1,
                    -1 <= dy <= 1,
                    !(dx == 0 && dy == 0),
                    1 <= k,
            ;
            assert(ray_sq_empty(g, sx as int, sy as int, dx as int, dy as int, k as int));
            insert_point(&mut points, (cx, cy));
            proof {
                assert(on_ray(sx as int, sy as int, dx as int, dy as int, k as int, (cx, cy)));
                assert forall|q: Point| #[trigger] points@.contains(q) <==> exists|j: int|
                    1 <= j < k + 1 && #[trigger] on_ray(sx as int, sy as int, dx as int, dy as int, j, q) by {
                    if q == (cx, cy) {
                        assert(on_ray(sx as int, sy as int, dx as int, dy as int, k as int, q));
                    }
                }
            }
            assert(cx + dx == sx + (k + 1) * dx) by (nonlinear_arith)
                requires
                    cx == sx + k * dx,
            ;
            assert(cy + dy == sy + (k + 1) * dy) by (nonlinear_arith)
                requires
                    cy == sy + k * dy,
            ;
            k = k + 1;
            cx = cx + dx;
            cy = cy + dy;
        }
        proof {
            assert(!ray_sq_empty(g, sx as int, sy as int, dx as int, dy as int, k as int));
            assert forall|q: Point| #[trigger] points@.contains(q) <==> slide_quiet(
                g,
                sx as int,
                sy as int,
                dx as int,
                dy as int,
                q.0 as int,
                q.1 as int,
            ) by {
                if points@.contains(q) {
                    let j = choose|j: int|
                        1 <= j < k && #[trigger] on_ray(sx as int, sy as int, dx as int, dy as int, j, q);
                    assert(ray_clear(g, sx as int, sy as int, dx as int, dy as int, j));
                }
                if slide_quiet(g, sx as int, sy as int, dx as int, dy as int, q.0 as int, q.1 as int) {
                    let j = choose|j: int|
                        1 <= j && q.0 == sx + j * dx && q.1 == sy + j * dy && #[trigger] ray_clear(
                            g,
                            sx as int,
                            sy as int,
                            dx as int,
                            dy as int,
                            j,
                        );
                    if j >= k {
                        assert(ray_sq_empty(g, sx as int, sy as int, dx as int, dy as int, k as int));
                    }
                    assert(on_ray(sx as int, sy as int, dx as int, dy as int, j, q));
                }
            }
        }
        points
    }
}

impl GameState {
    /// The first occupied square from `start` in direction `dir`, if it holds a piece
    /// not of color `color`.
    fn add_when(&self, start: Point, dir: Point, color: Color) -> (r: Vec<Point>)
        requires
            self.wf(),
            in_bounds_spec(start.0 as int, start.1 as int),
            unit_dir(dir.0 as int, dir.1 as int),
        ensures
            forall|q: Point| #[trigger] r@.contains(q) <==> slide_attack(
                self.grid(),
                start.0 as int,
                start.1 as int,
                dir.0 as int,
                dir.1 as int,
                color,
                q.0 as int,
                q.1 as int,
            ),
    {
        let ghost g = self.grid();
        let (sx, sy) = start;
        let (dx, dy) = dir;
        let mut points: Vec<Point> = Vec::new();
        let mut k: i32 = 1;
        let mut cx: i32 = sx + dx;
        let mut cy: i32 = sy + dy;
        while in_bounds((cx, cy)) && self.is_empty((cx, cy))
            invariant
                self.wf(),
                g == self.grid(),
                in_bounds_spec(sx as int, sy as int),
                unit_dir(dx as int, dy as int),
                1 <= k <= 8,
                cx == sx + k * dx,
                cy == sy + k * dy,
                ray_clear(g, sx as int, sy as int, dx as int, dy as int, k - 1),
            decreases 8 - k,
        {
            assert(k < 8) by (nonlinear_arith)
                requires
                    cx == sx + k * dx,
                    cy == sy + k * dy,
                    0 <= cx < 8,
                    0 <= cy < 8,
                    0 <= sx < 8,
                    0 <= sy < 8,
                    -1 <= dx <= 1,
                    -1 <= dy <= 1,
                    !(dx == 0 && dy == 0),
                    1 <= k,
            ;
            assert(ray_sq_empty(g, sx as int, sy as int, dx as int, dy as int, k as int));
            assert(cx + dx == sx + (k + 1) * dx) by (nonlinear_arith)
                requires
                    cx == sx + k * dx,
            ;
            assert(cy + dy == sy + (k + 1) * dy) by (nonlinear_arith)
                requires
                    cy == sy + k * dy,
            ;
            k = k + 1;
            cx = cx + dx;
            cy = cy + dy;
        }
        let hit = in_bounds((cx, cy)) && self.is_enemy((cx, cy), color);
        if hit {
            points.push((cx, cy));
        }
        proof {
            assert(!ray_sq_empty(g, sx as int, sy as int, dx as int, dy as int, k as int));
            assert forall|q: Point| #[trigger] points@.contains(q) <==> slide_attack(
                g,
                sx as int,
                sy as int,
                dx as int,
                dy as int,
                color,
                q.0 as int,
                q.1 as int,
            ) by {
                if points@.contains(q) {
                    assert(points@[0] == q);
                    assert(q == (cx, cy));
                    assert(ray_clear(g, sx as int, sy as int, dx as int, dy as int, k - 1));
                }
                if slide_attack(g, sx as int, sy as int, dx as int, dy as int, color, q.0 as int, q.1 as int) {
                    let j = choose|j: int|
                        1 <= j && q.0 == sx + j * dx && q.1 == sy + j * dy && #[trigger] ray_clear(
                            g,
                            sx as int,
                            sy as int,
                            dx as int,
                            dy as int,
                            j - 1,
                        ) && enemy_at(g, q.0 as int, q.1 as int, color);
                    if j > k {
                        assert(ray_sq_empty(g, sx as int, sy as int, dx as int, dy as int, k as int));
                    }
                    if j < k {
                        assert(ray_sq_empty(g, sx as int, sy as int, dx as int, dy as int, j));
                    }
                    assert(j == k);
                    assert(q == (cx, cy));
                    assert(points@[0] == q);
                }
            }
        }
        points
    }

    /// Squares a rook on `p` reaches without capturing.
    fn rook_moves(&self, p: Point) -> (r: Vec<Point>)
        requires
            self.wf(),
            in_bounds_spec(p.0 as int, p.1 as int),
        ensures
            forall|q: Point| #[trigger] r@.contains(q) <==> rook_quiet(
                self.grid(),
                p.0 as int,
                p.1 as int,
                q.0 as int,
                q.1 as int,
            ),
    {
        let mut moves: Vec<Point> = Vec::new();
        let a = self.add_till(p, (-1, 0));
        extend_points(&mut moves, &a);
        let b = self.add_till(p, (1, 0));
        extend_points(&mut moves, &b);
        let c = self.add_till(p, (0, -1));
        extend_points(&mut moves, &c);
        let d = self.add_till(p, (0, 1));
        extend_points(&mut moves, &d);
        moves
    }

    /// Squares on which a rook on `p` captures.
    fn attack_rook_moves(&self, p: Point) -> (r: Vec<Point>)
        requires
            self.wf(),
            in_bounds_spec(p.0 as int, p.1 as int),
            self.grid()[p.0 as int][p.1 as int] is Piece,
        ensures
            forall|q: Point| #[trigger] r@.contains(q) <==> rook_attack(
                self.grid(),
                p.0 as int,
                p.1 as int,
                piece_of(self.grid(), p.0 as int, p.1 as int).color,
                q.0 as int,
                q.1 as int,
            ),
    {
        let color = self.owner(p);
        let mut moves: Vec<Point> = Vec::new();
        let a = self.add_when(p, (-1, 0), color);
        extend_points(&mut moves, &a);
        let b = self.add_when(p, (1, 0), color);
        extend_points(&mut moves, &b);
        let c = self.add_when(p, (0, -1), color);
        extend_points(&mut moves, &c);
        let d = self.add_when(p, (0, 1), color);
        extend_points(&mut moves, &d);
        moves
    }

    /// Squares a bishop on `p` reaches without capturing.
    fn bishop_moves(&self, p: Point) -> (r: Vec<Point>)
        requires
            self.wf(),
            in_bounds_spec(p.0 as int, p.1 as int),
        ensures
            forall|q: Point| #[trigger] r@.contains(q) <==> bishop_quiet(
                self.grid(),
                p.0 as int,
                p.1 as int,
                q.0 as int,
                q.1 as int,
            ),
    {
        let mut moves: Vec<Point> = Vec::new();
        let a = self.add_till(p, (-1, -1));
        extend_points(&mut moves, &a);
        let b = self.add_till(p, (-1, 1));
        extend_points(&mut moves, &b);
        let c = self.add_till(p, (1, -1));
        extend_points(&mut moves, &c);
        let d = self.add_till(p, (1, 1));
        extend_points(&mut moves, &d);
        moves
    }

    /// Squares on which a bishop on `p` captures.
    fn attack_bishop_moves(&self, p: Point) -> (r: Vec<Point>)
        requires
            self.wf(),
            in_bounds_spec(p.0 as int, p.1 as int),
            self.grid()[p.0 as int][p.1 as int] is Piece,
        ensures
            forall|q: Point| #[trigger] r@.contains(q) <==> bishop_attack(
                self.grid(),
                p.0 as int,
                p.1 as int,
                piece_of(self.grid(), p.0 as int, p.1 as int).color,
                q.0 as int,
                q.1 as int,
            ),
    {
        let color = self.owner(p);
        let mut moves: Vec<Point> = Vec::new();
        let a = self.add_when(p, (-1, -1), color);
        extend_points(&mut moves, &a);
        let b = self.add_when(p, (-1, 1), color);
        extend_points(&mut moves, &b);
        let c = self.add_when(p, (1, -1), color);
        extend_points(&mut moves, &c);
        let d = self.add_when(p, (1, 1), color);
        extend_points(&mut moves, &d);
        moves
    }

    /// Squares a queen on `p` reaches without capturing.
    fn queen_moves(&self, p: Point) -> (r: Vec<Point>)
        requires
            self.wf(),
            in_bounds_spec(p.0 as int, p.1 as int),
        ensures
            forall|q: Point| #[trigger] r@.contains(q) <==> (rook_quiet(
                self.grid(),
                p.0 as int,
                p.1 as int,
                q.0 as int,
                q.1 as int,
            ) || bishop_quiet(self.grid(), p.0 as int, p.1 as int, q.0 as int, q.1 as int)),
    {
        let mut moves: Vec<Point> = Vec::new();
        let a = self.rook_moves(p);
        extend_points(&mut moves, &a);
        let b = self.bishop_moves(p);
        extend_points(&mut moves, &b);
        moves
    }

    /// Squares on which a queen on `p` captures.
    fn attack_queen_moves(&self, p: Point) -> (r: Vec<Point>)
        requires
            self.wf(),
            in_bounds_spec(p.0 as int, p.1 as int),
            self.grid()[p.0 as int][p.1 as int] is Piece,
        ensures
            forall|q: Point| #[trigger] r@.contains(q) <==> ({
                let g = self.grid();
                let c = piece_of(g, p.0 as int, p.1 as int).color;
                rook_attack(g, p.0 as int, p.1 as int, c, q.0 as int, q.1 as int) || bishop_attack(
                    g,
                    p.0 as int,
                    p.1 as int,
                    c,
                    q.0 as int,
                    q.1 as int,
                )
            }),
    {
        let mut moves: Vec<Point> = Vec::new();
        let a = self.attack_rook_moves(p);
        extend_points(&mut moves, &a);
        let b = self.attack_bishop_moves(p);
        extend_points(&mut moves, &b);
        moves
    }
}

impl GameState {
    /// Adds (x + a, y + b) to `moves` when it is on the board and empty.
    fn step_quiet(&self, moves: &mut Vec<Point>, x: i32, y: i32, a: i32, b: i32)
        requires
            self.wf(),
            in_bounds_spec(x as int, y as int),
            -2 <= a <= 2,
            -2 <= b <= 2,
        ensures
            forall|r: Point| #[trigger] final(moves)@.contains(r) <==> old(moves)@.contains(r) || (
            r.0 == x + a && r.1 == y + b && empty_at(self.grid(), x + a, y + b)),
    {
        let t = (x + a, y + b);
        let ok = in_bounds(t) && self.is_empty(t);
        push_if(moves, t, ok);
    }

    /// Adds (x + a, y + b) to `moves` when it holds a piece not of color `color`.
    fn step_attack(&self, moves: &mut Vec<Point>, x: i32, y: i32, a: i32, b: i32, color: Color)
        requires
            self.wf(),
            in_bounds_spec(x as int, y as int),
            -2 <= a <= 2,
            -2 <= b <= 2,
        ensures
            forall|r: Point| #[trigger] final(moves)@.contains(r) <==> old(moves)@.contains(r) || (
            r.0 == x + a && r.1 == y + b && enemy_at(self.grid(), x + a, y + b, color)),
    {
        let t = (x + a, y + b);
        let ok = in_bounds(t) && self.is_enemy(t, color);
        push_if(moves, t, ok);
    }

    /// The color of the piece on `p`.
    fn owner(&self, p: Point) -> (r: Color)
        requires
            self.wf(),
            in_bounds_spec(p.0 as int, p.1 as int),
            self.grid()[p.0 as int][p.1 as int] is Piece,
        ensures
            r == piece_of(self.grid(), p.0 as int, p.1 as int).color,
    {
        match self.get_tile_color(p) {
            Some(c) => c,
            None => Color::White,
        }
    }

    /// Squares a knight on `p` reaches without capturing.
    fn knight_moves(&self, p: Point) -> (r: Vec<Point>)
        requires
            self.wf(),
            in_bounds_spec(p.0 as int, p.1 as int),
        ensures
            forall|q: Point| #[trigger] r@.contains(q) <==> (knight_jump(p.0 as int, p.1 as int, q.0 as int, q.1 as int)
                && empty_at(self.grid(), q.0 as int, q.1 as int)),
    {
        let (x, y) = p;
        let mut moves: Vec<Point> = Vec::new();
        self.step_quiet(&mut moves, x, y, 1, -2);
        self.step_quiet(&mut moves, x, y, 1, 2);
        self.step_quiet(&mut moves, x, y, -1, -2);
        self.step_quiet(&mut moves, x, y, -1, 2);
        self.step_quiet(&mut moves, x, y, 2, -1);
        self.step_quiet(&mut moves, x, y, 2, 1);
        self.step_quiet(&mut moves, x, y, -2, -1);
        self.step_quiet(&mut moves, x, y, -2, 1);
        moves
    }

    /// Squares on which a knight on `p` captures.
    fn attack_knight_moves(&self, p: Point) -> (r: Vec<Point>)
        requires
            self.wf(),
            in_bounds_spec(p.0 as int, p.1 as int),
            self.grid()[p.0 as int][p.1 as int] is Piece,
        ensures
            forall|q: Point| #[trigger] r@.contains(q) <==> (knight_jump(p.0 as int, p.1 as int, q.0 as int, q.1 as int)
                && enemy_at(self.grid(), q.0 as int, q.1 as int, piece_of(self.grid(), p.0 as int, p.1 as int).color)),
    {
        let (x, y) = p;
        let color = self.owner(p);
        let mut moves: Vec<Point> = Vec::new();
        self.step_attack(&mut moves, x, y, 1, -2, color);
        self.step_attack(&mut moves, x, y, 1, 2, color);
        self.step_attack(&mut moves, x, y, -1, -2, color);
        self.step_attack(&mut moves, x, y, -1, 2, color);
        self.step_attack(&mut moves, x, y, 2, -1, color);
        self.step_attack(&mut moves, x, y, 2, 1, color);
        self.step_attack(&mut moves, x, y, -2, -1, color);
        self.step_attack(&mut moves, x, y, -2, 1, color);
        moves
    }

    /// Squares on which a king on `p` captures.
    fn attack_king_moves(&self, p: Point) -> (r: Vec<Point>)
        requires
            self.wf(),
            in_bounds_spec(p.0 as int, p.1 as int),
            self.grid()[p.0 as int][p.1 as int] is Piece,
        ensures
            forall|q: Point| #[trigger] r@.contains(q) <==> (adjacent(p.0 as int, p.1 as int, q.0 as int, q.1 as int)
                && enemy_at(self.grid(), q.0 as int, q.1 as int, piece_of(self.grid(), p.0 as int, p.1 as int).color)),
    {
        let (x, y) = p;
        let color = self.owner(p);
        let mut moves: Vec<Point> = Vec::new();
        self.step_attack(&mut moves, x, y, 1, 1, color);
        self.step_attack(&mut moves, x, y, 1, -1, color);
        self.step_attack(&mut moves, x, y, 1, 0, color);
        self.step_attack(&mut moves, x, y, -1, 1, color);
        self.step_attack(&mut moves, x, y, -1, -1, color);
        self.step_attack(&mut moves, x, y, -1, 0, color);
        self.step_attack(&mut moves, x, y, 0, 1, color);
        self.step_attack(&mut moves, x, y, 0, -1, color);
        moves
    }

    /// Squares a king on `p` reaches without capturing: its empty neighbours, and
    /// when it may castle, the corner square and the square two files toward it.
    fn king_moves(&self, p: Point) -> (r: Vec<Point>)
        requires
            self.wf(),
            in_bounds_spec(p.0 as int, p.1 as int),
            self.grid()[p.0 as int][p.1 as int] is Piece,
        ensures
            forall|q: Point| #[trigger] r@.contains(q) <==> king_quiet(
                self.grid(),
                p.0 as int,
                p.1 as int,
                q.0 as int,
                q.1 as int,
            ),
    {
        let ghost g = self.grid();
        let (x, y) = p;
        let mut moves: Vec<Point> = Vec::new();
        self.step_quiet(&mut moves, x, y, 1, 1);
        self.step_quiet(&mut moves, x, y, 1, -1);
        self.step_quiet(&mut moves, x, y, 1, 0);
        self.step_quiet(&mut moves, x, y, -1, 1);
        self.step_quiet(&mut moves, x, y, -1, -1);
        self.step_quiet(&mut moves, x, y, -1, 0);
        self.step_quiet(&mut moves, x, y, 0, 1);
        self.step_quiet(&mut moves, x, y, 0, -1);
        let king = match self.tile(x, y) {
            Tile::Piece(pc) => pc,
            Tile::Empty => {
                return moves;
            },
        };
        if king.has_moved {
            return moves;
        }
        let mut right_empty = true;
        let mut i: i32 = y + 1;
        while i < 7
            invariant
                self.wf(),
                g == self.grid(),
                in_bounds_spec(x as int, y as int),
                y + 1 <= i <= 7 || (i == y + 1 && y + 1 > 7),
                right_empty <==> forall|j: int| y + 1 <= j < i ==> #[trigger] g[x as int][j] is Empty,
            decreases 7 - i,
        {
            right_empty = right_empty && self.is_empty((x, i));
            i = i + 1;
        }
        let right_corner = match self.tile(x, 7) {
            Tile::Piece(pc) => pc.state == PieceState::Rook && pc.color == king.color && !pc.has_moved,
            Tile::Empty => false,
        };
        let right = right_empty && right_corner;
        assert(right == castle_right(g, x as int, y as int));
        push_if(&mut moves, (x, 7), right);
        push_if(&mut moves, (x, y + 2), right && y + 2 < 8);
        let mut left_empty = true;
        let mut i: i32 = 1;
        while i < y
            invariant
                self.wf(),
                g == self.grid(),
                in_bounds_spec(x as int, y as int),
                1 <= i <= y || (i == 1 && y < 1),
                left_empty <==> forall|j: int| 1 <= j < i ==> #[trigger] g[x as int][j] is Empty,
            decreases y - i,
        {
            left_empty = left_empty && self.is_empty((x, i));
            i = i + 1;
        }
        let left_corner = match self.tile(x, 0) {
            Tile::Piece(pc) => pc.state == PieceState::Rook && pc.color == king.color && !pc.has_moved,
            Tile::Empty => false,
        };
        let left = left_empty && left_corner;
        assert(left == castle_left(g, x as int, y as int));
        push_if(&mut moves, (x, 0), left);
        push_if(&mut moves, (x, y - 2), left && y - 2 >= 0);
        moves
    }
}

impl GameState {
    /// Squares a pawn on `p` reaches without capturing: one rank forward onto an empty
    /// square, and two when it has not moved and both squares are empty.
    fn pawn_moves(&self, p: Point) -> (r: Vec<Point>)
        requires
            self.wf(),
            in_bounds_spec(p.0 as int, p.1 as int),
            self.grid()[p.0 as int][p.1 as int] is Piece,
        ensures
            forall|q: Point| #[trigger] r@.contains(q) <==> pawn_quiet(
                self.grid(),
                p.0 as int,
                p.1 as int,
                q.0 as int,
                q.1 as int,
            ),
    {
        let (x, y) = p;
        let mut moves: Vec<Point> = Vec::new();
        let pawn = match self.tile(x, y) {
            Tile::Piece(pc) => pc,
            Tile::Empty => {
                return moves;
            },
        };
        let direction: i32 = if pawn.color == Color::Black {
            1
        } else {
            -1
        };
        let one = in_bounds((x + direction, y)) && self.is_empty((x + direction, y));
        push_if(&mut moves, (x + direction, y), one);
        let two = one && !pawn.has_moved && in_bounds((x + 2 * direction, y)) && self.is_empty(
            (x + 2 * direction, y),
        );
        push_if(&mut moves, (x + 2 * direction, y), two);
        moves
    }

    /// Whether, before the last move, square `p` held a pawn not of color `color`.
    fn was_there_enemy_pawn_move_ago(&self, p: Point, color: Color) -> (r: bool)
        requires
            self.wf(),
            in_bounds_spec(p.0 as int, p.1 as int),
        ensures
            r == (self.position().prev is Some && enemy_pawn_at(
                self.position().prev->Some_0,
                p.0 as int,
                p.1 as int,
                color,
            )),
    {
        match &self.prev_game_state {
            Some(prev) => match prev.board[p.0 as usize][p.1 as usize] {
                Tile::Piece(pc) => pc.state == PieceState::Pawn && pc.color != color,
                Tile::Empty => false,
            },
            None => false,
        }
    }

    /// Whether square `p` holds a pawn not of color `color`.
    fn is_enemy_pawn(&self, p: Point, color: Color) -> (r: bool)
        requires
            self.wf(),
            in_bounds_spec(p.0 as int, p.1 as int),
        ensures
            r == enemy_pawn_at(self.grid(), p.0 as int, p.1 as int, color),
    {
        match self.tile(p.0, p.1) {
            Tile::Piece(pc) => pc.state == PieceState::Pawn && pc.color != color,
            Tile::Empty => false,
        }
    }

    /// Whether a pawn of color `color` on (x, y) may take en passant toward file `f`.
    fn can_take_en_passant(&self, x: i32, y: i32, f: i32, color: Color) -> (r: bool)
        requires
            self.wf(),
            in_bounds_spec(x as int, y as int),
            f == y + 1 || f == y - 1,
        ensures
            r == (self.position().prev is Some && en_passant(
                self.grid(),
                self.position().prev->Some_0,
                x as int,
                y as int,
                f as int,
                color,
            )),
    {
        let direction: i32 = if color == Color::Black {
            1
        } else {
            -1
        };
        self.prev_game_state.is_some() && in_bounds((x + direction, f)) && self.is_empty(
            (x + direction, f),
        ) && in_bounds((x, f)) && self.is_enemy_pawn((x, f), color) && in_bounds(
            (x + 2 * direction, f),
        ) && self.was_there_enemy_pawn_move_ago((x + 2 * direction, f), color)
    }

    /// Squares on which a pawn on `p` captures: a diagonal square ahead holding an
    /// enemy piece, or one that it reaches by taking en passant.
    fn attack_pawn_moves(&self, p: Point) -> (r: Vec<Point>)
        requires
            self.wf(),
            in_bounds_spec(p.0 as int, p.1 as int),
            self.grid()[p.0 as int][p.1 as int] is Piece,
        ensures
            forall|q: Point| #[trigger] r@.contains(q) <==> pawn_attack(
                self.position(),
                p.0 as int,
                p.1 as int,
                q.0 as int,
                q.1 as int,
            ),
    {
        let (x, y) = p;
        let mut moves: Vec<Point> = Vec::new();
        let color = self.owner(p);
        let direction: i32 = if color == Color::Black {
            1
        } else {
            -1
        };
        let right = (in_bounds((x + direction, y + 1)) && self.is_enemy((x + direction, y + 1), color))
            || self.can_take_en_passant(x, y, y + 1, color);
        push_if(&mut moves, (x + direction, y + 1), right);
        let left = (in_bounds((x + direction, y - 1)) && self.is_enemy((x + direction, y - 1), color))
            || self.can_take_en_passant(x, y, y - 1, color);
        push_if(&mut moves, (x + direction, y - 1), left);
        moves
    }

    /// Squares the piece `mp.piece`, standing on `mp.point`, reaches without capturing.
    fn piece_moves(&self, mp: &MovingPiece) -> (r: Vec<Point>)
        requires
            self.wf(),
            in_bounds_spec(mp.point.0 as int, mp.point.1 as int),
            self.grid()[mp.point.0 as int][mp.point.1 as int] == Tile::Piece(mp.piece),
        ensures
            forall|q: Point| #[trigger] r@.contains(q) <==> quiet_move(
                self.position(),
                mp.point.0 as int,
                mp.point.1 as int,
                q.0 as int,
                q.1 as int,
            ),
    {
        match mp.piece.state {
            PieceState::King => self.king_moves(mp.point),
            PieceState::Queen => self.queen_moves(mp.point),
            PieceState::Rook => self.rook_moves(mp.point),
            PieceState::Bishop => self.bishop_moves(mp.point),
            PieceState::Knight => self.knight_moves(mp.point),
            PieceState::Pawn => self.pawn_moves(mp.point),
        }
    }

    /// Squares on which the piece `mp.piece`, standing on `mp.point`, captures.
    fn piece_attack_moves(&self, mp: &MovingPiece) -> (r: Vec<Point>)
        requires
            self.wf(),
            in_bounds_spec(mp.point.0 as int, mp.point.1 as int),
            self.grid()[mp.point.0 as int][mp.point.1 as int] == Tile::Piece(mp.piece),
        ensures
            forall|q: Point| #[trigger] r@.contains(q) <==> attack_move(
                self.position(),
                mp.point.0 as int,
                mp.point.1 as int,
                q.0 as int,
                q.1 as int,
            ),
    {
        match mp.piece.state {
            PieceState::King => self.attack_king_moves(mp.point),
            PieceState::Queen => self.attack_queen_moves(mp.point),
            PieceState::Rook => self.attack_rook_moves(mp.point),
            PieceState::Bishop => self.attack_bishop_moves(mp.point),
            PieceState::Knight => self.attack_knight_moves(mp.point),
            PieceState::Pawn => self.attack_pawn_moves(mp.point),
        }
    }

    /// Every destination of the piece `mp.piece` on `mp.point`, before the safety of its
    /// king is considered.
    fn all_piece_moves(&self, mp: &MovingPiece) -> (r: Vec<Point>)
        requires
            self.wf(),
            in_bounds_spec(mp.point.0 as int, mp.point.1 as int),
            self.grid()[mp.point.0 as int][mp.point.1 as int] == Tile::Piece(mp.piece),
        ensures
            forall|q: Point| #[trigger] r@.contains(q) <==> any_move(
                self.position(),
                mp.point.0 as int,
                mp.point.1 as int,
                q.0 as int,
                q.1 as int,
            ),
    {
        let mut moves: Vec<Point> = Vec::new();
        let a = self.piece_moves(mp);
        extend_points(&mut moves, &a);
        let b = self.piece_attack_moves(mp);
        extend_points(&mut moves, &b);
        moves
    }
}

/// Every destination of a piece lies on the board.
pub proof fn lemma_moves_in_bounds(p: Position, x: int, y: int, qx: int, qy: int)
    requires
        any_move(p, x, y, qx, qy),
    ensures
        in_bounds_spec(qx, qy),
{
    let g = p.grid;
    let c = piece_of(g, x, y).color;
    let dirs = seq![(-1int, 0int), (1, 0), (0, -1), (0, 1), (-1, -1), (-1, 1), (1, -1), (1, 1)];
    assert forall|i: int| 0 <= i < 8 && slide_quiet(g, x, y, dirs[i].0, dirs[i].1, qx, qy) implies in_bounds_spec(qx, qy) by {
        let k = choose|k: int| 1 <= k && qx == x + k * dirs[i].0 && qy == y + k * dirs[i].1
            && #[trigger] ray_clear(g, x, y, dirs[i].0, dirs[i].1, k);
        assert(ray_sq_empty(g, x, y, dirs[i].0, dirs[i].1, k));
    }
    assert(dirs[0] == (-1int, 0int) && dirs[1] == (1int, 0int) && dirs[2] == (0int, -1int) && dirs[3] == (0int, 1int));
    assert(dirs[4] == (-1int, -1int) && dirs[5] == (-1int, 1int) && dirs[6] == (1int, -1int) && dirs[7] == (1int, 1int));
}

impl GameState {
    /// The occupied squares of color `color`.
    fn pieces_of(&self, color: Color) -> (r: &Vec<Point>)
        ensures
            r@ == self.occupied_list(color),
    {
        if color == Color::Black {
            &self.black_pieces
        } else {
            &self.white_pieces
        }
    }

    /// Every destination of every piece of color `color`, before the safety of its
    /// king is considered.
    fn all_pieces_moves(&self, color: Color) -> (r: Vec<Point>)
        requires
            self.wf(),
        ensures
            forall|q: Point| #[trigger] r@.contains(q) <==> reached_by(
                self.position(),
                color,
                q.0 as int,
                q.1 as int,
            ),
    {
        let ghost pos = self.position();
        let pieces = self.pieces_of(color);
        proof {
            assert(lists_match(pieces@, pos.grid, color));
        }
        let mut moves: Vec<Point> = Vec::new();
        let mut i: usize = 0;
        while i < pieces.len()
            invariant
                self.wf(),
                pos == self.position(),
                lists_match(pieces@, pos.grid, color),
                0 <= i <= pieces@.len(),
                forall|q: Point| #[trigger] moves@.contains(q) <==> exists|j: int|
                    0 <= j < i && #[trigger] any_move(pos, pieces@[j].0 as int, pieces@[j].1 as int, q.0 as int, q.1 as int),
            decreases pieces@.len() - i,
        {
            let pt = pieces[i];
            assert(pieces@.contains(pt));
            match self.tile(pt.0, pt.1) {
                Tile::Piece(pc) => {
                    let mp = MovingPiece::new(pc, pt);
                    let found = self.all_piece_moves(&mp);
                    extend_points(&mut moves, &found);
                },
                Tile::Empty => {},
            }
            proof {
                assert forall|q: Point| #[trigger] moves@.contains(q) <==> exists|j: int|
                    0 <= j < i + 1 && #[trigger] any_move(pos, pieces@[j].0 as int, pieces@[j].1 as int, q.0 as int, q.1 as int) by {
                    if any_move(pos, pt.0 as int, pt.1 as int, q.0 as int, q.1 as int) {
                        assert(pieces@[i as int] == pt);
                    }
                }
            }
            i = i + 1;
        }
        proof {
            assert forall|q: Point| #[trigger] moves@.contains(q) <==> reached_by(pos, color, q.0 as int, q.1 as int) by {
                if moves@.contains(q) {
                    let j = choose|j: int|
                        0 <= j < i && #[trigger] any_move(pos, pieces@[j].0 as int, pieces@[j].1 as int, q.0 as int, q.1 as int);
                    assert(pieces@.contains(pieces@[j]));
                    assert(owned_by(pos.grid, pieces@[j].0 as int, pieces@[j].1 as int, color));
                }
                if reached_by(pos, color, q.0 as int, q.1 as int) {
                    let (px, py) = choose|px: int, py: int| owned_by(pos.grid, px, py, color)
                        && #[trigger] any_move(pos, px, py, q.0 as int, q.1 as int);
                    assert(pieces@.contains((px as i32, py as i32)));
                    let j = choose|j: int| 0 <= j < pieces@.len() && pieces@[j] == (px as i32, py as i32);
                    assert(any_move(pos, pieces@[j].0 as int, pieces@[j].1 as int, q.0 as int, q.1 as int));
                }
            }
        }
        moves
    }

    /// Whether a king of color `color` stands on a square that the other side reaches.
    fn in_check_color(&self, color: Color) -> (r: bool)
        requires
            self.wf(),
        ensures
            r == in_check(self.position(), color),
    {
        let ghost pos = self.position();
        let attacked = self.all_pieces_moves(if color == Color::Black {
            Color::White
        } else {
            Color::Black
        });
        let pieces = self.pieces_of(color);
        proof {
            assert(lists_match(pieces@, pos.grid, color));
        }
        let mut i: usize = 0;
        while i < pieces.len()
            invariant
                self.wf(),
                pos == self.position(),
                lists_match(pieces@, pos.grid, color),
                0 <= i <= pieces@.len(),
                forall|q: Point| #[trigger] attacked@.contains(q) <==> reached_by(pos, opponent(color), q.0 as int, q.1 as int),
                forall|j: int| 0 <= j < i ==> !(#[trigger] king_at(pos.grid, pieces@[j].0 as int, pieces@[j].1 as int, color)
                    && reached_by(pos, opponent(color), pieces@[j].0 as int, pieces@[j].1 as int)),
            decreases pieces@.len() - i,
        {
            let pt = pieces[i];
            assert(pieces@.contains(pt));
            let is_king = match self.tile(pt.0, pt.1) {
                Tile::Piece(pc) => pc.state == PieceState::King,
                Tile::Empty => false,
            };
            if is_king && has_point(&attacked, pt) {
                return true;
            }
            i = i + 1;
        }
        proof {
            if in_check(pos, color) {
                let (kx, ky) = choose|kx: int, ky: int| king_at(pos.grid, kx, ky, color)
                    && #[trigger] reached_by(pos, opponent(color), kx, ky);
                assert(owned_by(pos.grid, kx, ky, color));
                assert(pieces@.contains((kx as i32, ky as i32)));
                let j = choose|j: int| 0 <= j < pieces@.len() && pieces@[j] == (kx as i32, ky as i32);
                assert(king_at(pos.grid, pieces@[j].0 as int, pieces@[j].1 as int, color));
            }
        }
        false
    }

    /// Where a king of color `color` stands. A board without one is a broken state,
    /// which the precondition leaves out.
    fn get_king_color(&self, color: Color) -> (r: Point)
        requires
            self.wf(),
            exists|kx: int, ky: int| #[trigger] king_at(self.grid(), kx, ky, color),
        ensures
            king_at(self.grid(), r.0 as int, r.1 as int, color),
    {
        let ghost g = self.grid();
        let pieces = self.pieces_of(color);
        proof {
            assert(lists_match(pieces@, g, color));
        }
        let mut i: usize = 0;
        while i < pieces.len()
            invariant
                self.wf(),
                g == self.grid(),
                lists_match(pieces@, g, color),
                0 <= i <= pieces@.len(),
                forall|j: int| 0 <= j < i ==> !#[trigger] king_at(g, pieces@[j].0 as int, pieces@[j].1 as int, color),
            decreases pieces@.len() - i,
        {
            let pt = pieces[i];
            assert(pieces@.contains(pt));
            let is_king = match self.tile(pt.0, pt.1) {
                Tile::Piece(pc) => pc.state == PieceState::King,
                Tile::Empty => false,
            };
            if is_king {
                return pt;
            }
            i = i + 1;
        }
        proof {
            {
                let (kx, ky) = choose|kx: int, ky: int| #[trigger] king_at(g, kx, ky, color);
                assert(owned_by(g, kx, ky, color));
                assert(pieces@.contains((kx as i32, ky as i32)));
                let j = choose|j: int| 0 <= j < pieces@.len() && pieces@[j] == (kx as i32, ky as i32);
                assert(king_at(g, pieces@[j].0 as int, pieces@[j].1 as int, color));
            }
        }
        // not reached: the loop finds the king that the precondition asks for
        (0, 0)
    }
}

/// A copy of one row.
fn copy_row(r: &Vec<Tile>) -> (c: Vec<Tile>)
    ensures
        c@ == r@,
{
    let mut c: Vec<Tile> = Vec::new();
    let mut i: usize = 0;
    while i < r.len()
        invariant
            0 <= i <= r@.len(),
            c@ == r@.subrange(0, i as int),
        decreases r@.len() - i,
    {
        c.push(r[i]);
        i = i + 1;
    }
    c
}

/// A copy of a board.
fn copy_board(b: &Board) -> (c: Board)
    ensures
        grid_of(c) == grid_of(*b),
        board_wf(*b) ==> board_wf(c),
{
    let mut c: Board = Vec::new();
    let mut i: usize = 0;
    while i < b.len()
        invariant
            0 <= i <= b@.len(),
            c@.len() == i,
            forall|j: int| 0 <= j < i ==> (#[trigger] c@[j])@ == b@[j]@,
        decreases b@.len() - i,
    {
        c.push(copy_row(&b[i]));
        i = i + 1;
    }
    assert(grid_of(c) =~= grid_of(*b));
    c
}

impl GameState {
    /// `self` is a copy of `s` as it stood, without a history of its own.
    pub closed spec fn snapshot_of(&self, s: &GameState) -> bool {
        &&& board_wf(self.board)
        &&& grid_of(self.board) == grid_of(s.board)
        &&& self.last_move == s.last_move
        &&& self.selected == s.selected
        &&& self.players_turn == s.players_turn
        &&& self.white_pieces@ == s.white_pieces@
        &&& self.black_pieces@ == s.black_pieces@
        &&& self.moves_since == s.moves_since
        &&& self.prev_game_state is None
    }

    /// The state as it stood before the last move, if a move was made.
    pub closed spec fn previous(&self) -> Option<GameState> {
        match self.prev_game_state {
            Some(b) => Some(*b),
            None => None,
        }
    }

    /// A copy of the state with its history left out.
    fn without_history(&self) -> (r: GameState)
        requires
            board_wf(self.board),
        ensures
            r.snapshot_of(self),
    {
        GameState {
            board: copy_board(&self.board),
            last_move: self.last_move,
            selected: self.selected,
            players_turn: self.players_turn,
            prev_game_state: None,
            white_pieces: copy_points(&self.white_pieces),
            black_pieces: copy_points(&self.black_pieces),
            moves_since: self.moves_since,
        }
    }

    /// An independent copy of the whole state, history included.
    fn snapshot(&self) -> (r: GameState)
        requires
            self.wf(),
        ensures
            r.wf(),
            r.position() == self.position(),
            r.counter() == self.counter(),
    {
        let prev = match &self.prev_game_state {
            Some(b) => Some(Box::new(b.without_history())),
            None => None,
        };
        let mut r = self.without_history();
        r.prev_game_state = prev;
        assert(r.position() == self.position());
        r
    }

    fn change_players_turn(&mut self)
        ensures
            final(self).players_turn == opponent(old(self).players_turn),
            final(self).board == old(self).board,
            final(self).white_pieces == old(self).white_pieces,
            final(self).black_pieces == old(self).black_pieces,
            final(self).prev_game_state == old(self).prev_game_state,
            final(self).moves_since == old(self).moves_since,
            final(self).selected == old(self).selected,
            final(self).last_move == old(self).last_move,
    {
        self.players_turn = if self.players_turn == Color::Black {
            Color::White
        } else {
            Color::Black
        };
    }

    /// Applies the move `m` of the piece on `m.src`, castling or taking en passant
    /// where its shape says so; does nothing when `m.src` is empty. Legality is the
    /// caller's concern.
    fn move_piece(&mut self, m: Move)
        requires
            old(self).wf(),
            in_bounds_spec(m.src.0 as int, m.src.1 as int),
            in_bounds_spec(m.dst.0 as int, m.dst.1 as int),
        ensures
            final(self).wf(),
            final(self).position() == after_move(
                old(self).position(),
                m.src.0 as int,
                m.src.1 as int,
                m.dst.0 as int,
                m.dst.1 as int,
            ),
            final(self).counter() == counter_after(
                old(self).grid(),
                old(self).counter(),
                m.src.0 as int,
                m.src.1 as int,
                m.dst.0 as int,
                m.dst.1 as int,
            ),
            old(self).grid()[m.src.0 as int][m.src.1 as int] is Piece ==> {
                &&& final(self).selected is None
                &&& final(self).last_move == Some(recorded_move(old(self).grid(), m.src, m.dst))
                &&& final(self).previous() matches Some(x) && x.snapshot_of(old(self))
            },
            !(old(self).grid()[m.src.0 as int][m.src.1 as int] is Piece) ==> *final(self) == *old(self),
    {
        let ghost g = self.grid();
        let ghost turn = self.players_turn;
        let (sx, sy) = m.src;
        let (dx, dy) = m.dst;
        let piece = match self.tile(sx, sy) {
            Tile::Piece(pc) => pc,
            Tile::Empty => {
                return;
            },
        };
        let prev = self.without_history();
        self.last_move = Some(m);
        if self.moves_since < i32::MAX {
            self.moves_since = self.moves_since + 1;
        }
        if piece.state == PieceState::Pawn && (dy - sy == 1 || dy - sy == -1) && self.is_empty(
            (dx, dy),
        ) {
            let direction: i32 = if self.players_turn == Color::Black {
                -1
            } else {
                1
            };
            let cx = dx + direction;
            if in_bounds((cx, dy)) {
                self.make_tile_empty(cx, dy);
            }
            self.moves_since = 0;
        }
        assert(self.grid() == after_en_passant(g, turn, sx as int, sy as int, dx as int, dy as int));
        if piece.state == PieceState::King && (dy - sy > 1 || sy - dy > 1) {
            let file: i32 = if dy > sy {
                7
            } else {
                0
            };
            match self.tile(dx, file) {
                Tile::Piece(rook) => {
                    let direction: i32 = if dy > sy {
                        1
                    } else {
                        -1
                    };
                    self.add_tile(
                        sx,
                        sy + direction,
                        Tile::Piece(Piece { state: rook.state, color: rook.color, has_moved: false }),
                    );
                    self.add_tile(
                        sx,
                        sy + 2 * direction,
                        Tile::Piece(Piece { state: piece.state, color: piece.color, has_moved: true }),
                    );
                    self.make_tile_empty(sx, sy);
                    self.make_tile_empty(dx, file);
                    self.change_players_turn();
                    self.selected = None;
                    self.prev_game_state = Some(Box::new(prev));
                    self.last_move = Some(Move::new((sx, sy), (dx, file)));
                    assert(self.grid() == castled_grid(g, sx as int, sy as int, dx as int, dy as int));
                    return;
                },
                Tile::Empty => {},
            }
        }
        let captured = self.add_tile(
            dx,
            dy,
            Tile::Piece(Piece { state: piece.state, color: piece.color, has_moved: true }),
        );
        if captured || piece.state == PieceState::Pawn {
            self.moves_since = 0;
        }
        self.make_tile_empty(sx, sy);
        self.change_players_turn();
        self.selected = None;
        self.prev_game_state = Some(Box::new(prev));
    }

    /// Whether moving the piece on `m.src` to `m.dst` leaves no king of the side to
    /// move attacked. The move is tried on a copy; `self` is left as it is.
    fn is_valid_move(&self, m: Move) -> (r: bool)
        requires
            self.wf(),
            in_bounds_spec(m.src.0 as int, m.src.1 as int),
            in_bounds_spec(m.dst.0 as int, m.dst.1 as int),
        ensures
            r == safe(self.position(), m.src.0 as int, m.src.1 as int, m.dst.0 as int, m.dst.1 as int),
    {
        let mut simulated_game = self.snapshot();
        simulated_game.move_piece(m);
        !simulated_game.in_check_color(self.players_turn)
    }
}

/// Some piece of color `c` has (qx, qy) among its legal destinations.
pub open spec fn legally_reached_by(p: Position, c: Color, qx: int, qy: int) -> bool {
    exists|x: int, y: int| owned_by(p.grid, x, y, c) && #[trigger] legal_dest(p, x, y, qx, qy)
}

impl GameState {
    /// The legal destinations of the piece `mp.piece` on `mp.point`.
    fn valid_piece_moves(&self, mp: &MovingPiece) -> (r: Vec<Point>)
        requires
            self.wf(),
            in_bounds_spec(mp.point.0 as int, mp.point.1 as int),
            self.grid()[mp.point.0 as int][mp.point.1 as int] == Tile::Piece(mp.piece),
        ensures
            r@.no_duplicates(),
            forall|q: Point| #[trigger] r@.contains(q) <==> legal_dest(
                self.position(),
                mp.point.0 as int,
                mp.point.1 as int,
                q.0 as int,
                q.1 as int,
            ),
    {
        let ghost pos = self.position();
        let (x, y) = mp.point;
        let moves = self.all_piece_moves(mp);
        let mut valid: Vec<Point> = Vec::new();
        let mut i: usize = 0;
        while i < moves.len()
            invariant
                self.wf(),
                pos == self.position(),
                in_bounds_spec(x as int, y as int),
                0 <= i <= moves@.len(),
                forall|q: Point| #[trigger] moves@.contains(q) <==> any_move(pos, x as int, y as int, q.0 as int, q.1 as int),
                valid@.no_duplicates(),
                forall|q: Point| #[trigger] valid@.contains(q) <==> (in_prefix(moves@, i as int, q)
                    && safe(pos, x as int, y as int, q.0 as int, q.1 as int)),
            decreases moves@.len() - i,
        {
            let q = moves[i];
            assert(moves@.contains(q));
            proof {
                lemma_moves_in_bounds(pos, x as int, y as int, q.0 as int, q.1 as int);
            }
            let ok = self.is_valid_move(Move::new((x, y), q));
            push_if(&mut valid, q, ok);
            proof {
                assert forall|r: Point| #[trigger] in_prefix(moves@, i + 1, r) <==> in_prefix(moves@, i as int, r) || r == moves@[i as int] by {
                    if r == moves@[i as int] {
                        assert(moves@[i as int] == r);
                    }
                }
            }
            i = i + 1;
        }
        proof {
            assert forall|q: Point| #[trigger] valid@.contains(q) <==> legal_dest(pos, x as int, y as int, q.0 as int, q.1 as int) by {
                if moves@.contains(q) {
                    let j = choose|j: int| 0 <= j < moves@.len() && moves@[j] == q;
                    assert(in_prefix(moves@, i as int, q));
                }
            }
        }
        valid
    }

    /// The legal destinations of every piece of color `color`.
    fn all_valid_pieces_moves(&self, color: Color) -> (r: Vec<Point>)
        requires
            self.wf(),
        ensures
            forall|q: Point| #[trigger] r@.contains(q) <==> legally_reached_by(
                self.position(),
                color,
                q.0 as int,
                q.1 as int,
            ),
    {
        let ghost pos = self.position();
        let pieces = self.pieces_of(color);
        proof {
            assert(lists_match(pieces@, pos.grid, color));
        }
        let mut moves: Vec<Point> = Vec::new();
        let mut i: usize = 0;
        while i < pieces.len()
            invariant
                self.wf(),
                pos == self.position(),
                lists_match(pieces@, pos.grid, color),
                0 <= i <= pieces@.len(),
                forall|q: Point| #[trigger] moves@.contains(q) <==> exists|j: int|
                    0 <= j < i && #[trigger] legal_dest(pos, pieces@[j].0 as int, pieces@[j].1 as int, q.0 as int, q.1 as int),
            decreases pieces@.len() - i,
        {
            let pt = pieces[i];
            assert(pieces@.contains(pt));
            match self.tile(pt.0, pt.1) {
                Tile::Piece(pc) => {
                    let mp = MovingPiece::new(pc, pt);
                    let found = self.valid_piece_moves(&mp);
                    extend_points(&mut moves, &found);
                },
                Tile::Empty => {},
            }
            proof {
                assert forall|q: Point| #[trigger] moves@.contains(q) <==> exists|j: int|
                    0 <= j < i + 1 && #[trigger] legal_dest(pos, pieces@[j].0 as int, pieces@[j].1 as int, q.0 as int, q.1 as int) by {
                    if legal_dest(pos, pt.0 as int, pt.1 as int, q.0 as int, q.1 as int) {
                        assert(pieces@[i as int] == pt);
                    }
                }
            }
            i = i + 1;
        }
        proof {
            assert forall|q: Point| #[trigger] moves@.contains(q) <==> legally_reached_by(pos, color, q.0 as int, q.1 as int) by {
                if moves@.contains(q) {
                    let j = choose|j: int|
                        0 <= j < i && #[trigger] legal_dest(pos, pieces@[j].0 as int, pieces@[j].1 as int, q.0 as int, q.1 as int);
                    assert(pieces@.contains(pieces@[j]));
                    assert(owned_by(pos.grid, pieces@[j].0 as int, pieces@[j].1 as int, color));
                }
                if legally_reached_by(pos, color, q.0 as int, q.1 as int) {
                    let (px, py) = choose|px: int, py: int| owned_by(pos.grid, px, py, color)
                        && #[trigger] legal_dest(pos, px, py, q.0 as int, q.1 as int);
                    assert(pieces@.contains((px as i32, py as i32)));
                    let j = choose|j: int| 0 <= j < pieces@.len() && pieces@[j] == (px as i32, py as i32);
                    assert(legal_dest(pos, pieces@[j].0 as int, pieces@[j].1 as int, q.0 as int, q.1 as int));
                }
            }
        }
        moves
    }

    /// Whether the side to move is stalemated: not in check and without a legal move.
    fn in_stalemate(&self) -> (r: bool)
        requires
            self.wf(),
        ensures
            r == (!in_check(self.position(), self.turn()) && !has_legal_move(self.position(), self.turn())),
    {
        let ghost pos = self.position();
        let moves = self.all_valid_pieces_moves(self.players_turn);
        proof {
            if has_legal_move(pos, pos.turn) {
                let (x, y, qx, qy) = choose|x: int, y: int, qx: int, qy: int|
                    owned_by(pos.grid, x, y, pos.turn) && #[trigger] legal_dest(pos, x, y, qx, qy);
                lemma_moves_in_bounds(pos, x, y, qx, qy);
                assert(legally_reached_by(pos, pos.turn, (qx as i32) as int, (qy as i32) as int));
                assert(moves@.contains((qx as i32, qy as i32)));
            }
            if moves@.len() > 0 {
                assert(moves@.contains(moves@[0]));
            }
        }
        moves.len() == 0 && !self.in_check_color(self.players_turn)
    }

    /// Whether the side to move is in check and has no legal move.
    fn in_check_mate(&self) -> (r: bool)
        requires
            self.wf(),
        ensures
            r == checkmate(self.position()),
    {
        if !self.in_check_color(self.players_turn) {
            return false;
        }
        !self.has_any_valid_move(self.players_turn)
    }

    /// Whether some piece of color `color` has a legal destination; stops at the first.
    fn has_any_valid_move(&self, color: Color) -> (r: bool)
        requires
            self.wf(),
            color == self.turn(),
        ensures
            r == has_legal_move(self.position(), color),
    {
        let ghost pos = self.position();
        let pieces = self.pieces_of(color);
        proof {
            assert(lists_match(pieces@, pos.grid, color));
        }
        let mut i: usize = 0;
        while i < pieces.len()
            invariant
                self.wf(),
                pos == self.position(),
                lists_match(pieces@, pos.grid, color),
                0 <= i <= pieces@.len(),
                forall|j: int, qx: int, qy: int| 0 <= j < i ==> !#[trigger] legal_dest(pos, pieces@[j].0 as int, pieces@[j].1 as int, qx, qy),
            decreases pieces@.len() - i,
        {
            let pt = pieces[i];
            assert(pieces@.contains(pt));
            match self.tile(pt.0, pt.1) {
                Tile::Piece(pc) => {
                    let moves = self.all_piece_moves(&MovingPiece::new(pc, pt));
                    let mut k: usize = 0;
                    while k < moves.len()
                        invariant
                            self.wf(),
                            pos == self.position(),
                            0 <= k <= moves@.len(),
                            in_bounds_spec(pt.0 as int, pt.1 as int),
                            owned_by(pos.grid, pt.0 as int, pt.1 as int, color),
                            forall|q: Point| #[trigger] moves@.contains(q) <==> any_move(pos, pt.0 as int, pt.1 as int, q.0 as int, q.1 as int),
                            forall|j: int| 0 <= j < k ==> !#[trigger] safe(pos, pt.0 as int, pt.1 as int, moves@[j].0 as int, moves@[j].1 as int),
                        decreases moves@.len() - k,
                    {
                        let q = moves[k];
                        assert(moves@.contains(q));
                        proof {
                            lemma_moves_in_bounds(pos, pt.0 as int, pt.1 as int, q.0 as int, q.1 as int);
                        }
                        if self.is_valid_move(Move::new(pt, q)) {
                            assert(legal_dest(pos, pt.0 as int, pt.1 as int, q.0 as int, q.1 as int));
                            return true;
                        }
                        k = k + 1;
                    }
                    proof {
                        assert forall|qx: int, qy: int| !#[trigger] legal_dest(pos, pt.0 as int, pt.1 as int, qx, qy) by {
                            if legal_dest(pos, pt.0 as int, pt.1 as int, qx, qy) {
                                lemma_moves_in_bounds(pos, pt.0 as int, pt.1 as int, qx, qy);
                                assert(moves@.contains((qx as i32, qy as i32)));
                                let j = choose|j: int| 0 <= j < moves@.len() && moves@[j] == (qx as i32, qy as i32);
                                assert(safe(pos, pt.0 as int, pt.1 as int, moves@[j].0 as int, moves@[j].1 as int));
                            }
                        }
                    }
                },
                Tile::Empty => {},
            }
            assert(pieces@[i as int] == pt);
            i = i + 1;
        }
        proof {
            if has_legal_move(pos, color) {
                let (x, y, qx, qy) = choose|x: int, y: int, qx: int, qy: int|
                    owned_by(pos.grid, x, y, color) && #[trigger] legal_dest(pos, x, y, qx, qy);
                assert(pieces@.contains((x as i32, y as i32)));
                let j = choose|j: int| 0 <= j < pieces@.len() && pieces@[j] == (x as i32, y as i32);
                assert(legal_dest(pos, pieces@[j].0 as int, pieces@[j].1 as int, qx, qy));
            }
        }
        false
    }

    /// Whether fifty or more half-moves have passed without a pawn move or a capture.
    fn fifty_move_rule(&self) -> (r: bool)
        ensures
            r == (self.counter() >= 50),
    {
        self.moves_since >= 50
    }

    /// The status of the game: a win for the other side when the side to move is
    /// checkmated; else a draw when the fifty-move rule applies or the side to move
    /// has no legal move; else play goes on.
    pub fn end_game(&self) -> (r: PlayStatus)
        requires
            self.wf(),
        ensures
            r == status(self.position(), self.counter()),
    {
        if self.in_check_mate() {
            return PlayStatus::Win(if self.players_turn == Color::Black {
                Color::White
            } else {
                Color::Black
            });
        }
        if self.fifty_move_rule() {
            return PlayStatus::Draw;
        }
        if self.in_stalemate() {
            return PlayStatus::Draw;
        }
        PlayStatus::Continue
    }

    /// Whether the side to move is in check.
    pub fn in_check(&self) -> (r: bool)
        requires
            self.wf(),
        ensures
            r == in_check(self.position(), self.turn()),
    {
        self.in_check_color(self.players_turn)
    }

    /// The square of the king of the side to move.
    pub fn get_king(&self) -> (r: Point)
        requires
            self.wf(),
            exists|kx: int, ky: int| #[trigger] king_at(self.grid(), kx, ky, self.turn()),
        ensures
            king_at(self.grid(), r.0 as int, r.1 as int, self.turn()),
    {
        self.get_king_color(self.players_turn)
    }
}

/// A board of empty tiles.
fn empty_board() -> (b: Board)
    ensures
        board_wf(b),
        forall|x: int, y: int| in_bounds_spec(x, y) ==> #[trigger] grid_of(b)[x][y] == Tile::Empty,
{
    let mut b: Board = Vec::new();
    let mut i: usize = 0;
    while i < 8
        invariant
            0 <= i <= 8,
            b@.len() == i,
            forall|j: int| 0 <= j < i ==> (#[trigger] b@[j])@.len() == 8,
            forall|j: int, y: int| 0 <= j < i && 0 <= y < 8 ==> #[trigger] b@[j]@[y] == Tile::Empty,
        decreases 8 - i,
    {
        let mut row: Vec<Tile> = Vec::new();
        let mut k: usize = 0;
        while k < 8
            invariant
                0 <= k <= 8,
                row@.len() == k,
                forall|y: int| 0 <= y < k ==> row@[y] == Tile::Empty,
            decreases 8 - k,
        {
            row.push(Tile::Empty);
            k = k + 1;
        }
        b.push(row);
        i = i + 1;
    }
    b
}

impl GameState {
    /// A new game in the starting arrangement, White to move.
    pub fn new() -> (r: Self)
        ensures
            r.wf(),
            r.position() == (Position { grid: start_grid(), turn: Color::White, prev: None }),
            r.grid() == start_grid(),
            r.turn() == Color::White,
            r.counter() == 0,
            r.selected_square() is None,
            r.last() is None,
    {
        let mut game_state = Self {
            board: empty_board(),
            last_move: None,
            selected: None,
            players_turn: Color::White,
            prev_game_state: None,
            white_pieces: Vec::new(),
            black_pieces: Vec::new(),
            moves_since: 0,
        };
        game_state.intialise_new_board();
        game_state
    }

    /// Puts one side's pieces on their home squares.
    fn setup_side(&mut self, black: bool)
        requires
            old(self).lists_ok(),
        ensures
            final(self).lists_ok(),
            forall|x: int, y: int| in_bounds_spec(x, y) ==> #[trigger] final(self).grid()[x][y] == (if (black && (x == 0 || x == 1)) || (!black && (x == 7 || x == 6)) {
                home_tile(x, y)
            } else {
                old(self).grid()[x][y]
            }),
            final(self).selected == old(self).selected,
            final(self).players_turn == old(self).players_turn,
            final(self).prev_game_state == old(self).prev_game_state,
            final(self).moves_since == old(self).moves_since,
            final(self).last_move == old(self).last_move,
    {
        let ghost g0 = self.grid();
        let back_rank = flip_rank(0, black);
        let pawn_rank = flip_rank(1, black);
        let mut file: i32 = 0;
        while file < 8
            invariant
                self.lists_ok(),
                0 <= file <= 8,
                back_rank == (if black { 0int } else { 7int }),
                pawn_rank == (if black { 1int } else { 6int }),
                forall|x: int, y: int| in_bounds_spec(x, y) ==> #[trigger] self.grid()[x][y] == (if (x == back_rank || x == pawn_rank) && y < file {
                    home_tile(x, y)
                } else {
                    g0[x][y]
                }),
                self.selected == old(self).selected,
                self.players_turn == old(self).players_turn,
                self.prev_game_state == old(self).prev_game_state,
                self.moves_since == old(self).moves_since,
                self.last_move == old(self).last_move,
            decreases 8 - file,
        {
            self.add_tile(back_rank, file, Tile::Piece(Piece::new(file_to_piece(file), black)));
            self.add_tile(pawn_rank, file, Tile::Piece(Piece::new(PieceState::Pawn, black)));
            file = file + 1;
        }
    }

    /// Sets the board to the starting arrangement. The selection, which referred to
    /// the board that was there, is dropped.
    pub fn intialise_new_board(&mut self)
        requires
            old(self).wf(),
        ensures
            final(self).wf(),
            final(self).grid() == start_grid(),
            final(self).turn() == old(self).turn(),
            final(self).position().prev == old(self).position().prev,
            final(self).counter() == old(self).counter(),
            final(self).selected_square() is None,
            final(self).last() == old(self).last(),
    {
        self.board = empty_board();
        self.white_pieces = Vec::new();
        self.black_pieces = Vec::new();
        self.selected = None;
        self.setup_side(true);
        self.setup_side(false);
        assert(self.grid() =~~= start_grid());
    }
}

/// The move recorded as the last one when the piece on `src` moves to `dst`: a castling
/// king is recorded as going from its square to the corner square it castled toward.
pub open spec fn recorded_move(g: Grid, src: Point, dst: Point) -> Move {
    if castles(g, src.0 as int, src.1 as int, dst.0 as int, dst.1 as int) {
        Move { src, dst: (dst.0, corner(src.1 as int, dst.1 as int) as i32) }
    } else {
        Move { src, dst }
    }
}

/// The board square (rank, file) under the screen point (x, y).
pub open spec fn square_under(x: int, y: int) -> (int, int) {
    (trunc_div(y, 96), trunc_div(x, 96))
}

impl GameState {
    /// The square the selected piece was picked up from, if a piece is selected.
    pub fn slected_piece_coord(&self) -> (r: Option<Point>)
        ensures
            r == self.selected_square(),
    {
        match &self.selected {
            Some(s) => Some(s.starting_tile),
            None => None,
        }
    }

    /// The legal destinations of the selected piece, each once; none when nothing is
    /// selected.
    pub fn legal_moves(&self) -> (r: Vec<Point>)
        requires
            self.wf(),
        ensures
            r@.no_duplicates(),
            forall|q: Point| #[trigger] r@.contains(q) <==> match self.selected_square() {
                Some(s) => legal_dest(self.position(), s.0 as int, s.1 as int, q.0 as int, q.1 as int),
                None => false,
            },
    {
        match &self.selected {
            Some(selected) => {
                let selected_tile = MovingPiece::new(selected.piece, selected.starting_tile);
                self.valid_piece_moves(&selected_tile)
            },
            None => Vec::new(),
        }
    }

    /// Whether (x, y) is a legal destination of the selected piece.
    fn is_valid_tile(&self, x: i32, y: i32) -> (r: bool)
        requires
            self.wf(),
        ensures
            r == match self.selected_square() {
                Some(s) => legal_dest(self.position(), s.0 as int, s.1 as int, x as int, y as int),
                None => false,
            },
    {
        let moves = self.legal_moves();
        has_point(&moves, (x, y))
    }

    /// Picks up the piece under the screen point `p` when it belongs to the side to
    /// move; otherwise leaves the selection as it is.
    pub fn select_tile(&mut self, p: (i32, i32))
        requires
            old(self).wf(),
        ensures
            final(self).wf(),
            final(self).position() == old(self).position(),
            final(self).counter() == old(self).counter(),
            final(self).last() == old(self).last(),
            ({
                let b = square_under(p.0 as int, p.1 as int);
                if owned_by(old(self).grid(), b.0, b.1, old(self).turn()) {
                    &&& final(self).selected_square() == Some((b.0 as i32, b.1 as i32))
                    &&& final(self).selection_pointer() == Some((p, true))
                } else {
                    &&& final(self).selected_square() == old(self).selected_square()
                    &&& final(self).selection_pointer() == old(self).selection_pointer()
                }
            }),
    {
        let (pos_x, pos_y) = p;
        let (board_x, board_y) = get_board_position((pos_x, pos_y));
        if !in_bounds((board_x, board_y)) {
            return;
        }
        match self.tile(board_x, board_y) {
            Tile::Piece(piece) => {
                if piece.color == self.players_turn {
                    self.selected = Some(
                        Selection {
                            starting_tile: (board_x, board_y),
                            current_point: (pos_x, pos_y),
                            piece,
                            held_down: true,
                        },
                    );
                }
            },
            Tile::Empty => {},
        }
    }

    /// A pointer press at the screen point (x, y): with a piece selected and the square
    /// under the pointer among its legal destinations, the move is made; otherwise the
    /// piece under the pointer is picked up as `select_tile` does.
    pub fn mouse_down(&mut self, x: i32, y: i32)
        requires
            old(self).wf(),
        ensures
            final(self).wf(),
            ({
                let b = square_under(x as int, y as int);
                match old(self).selected_square() {
                    Some(s) if legal_dest(old(self).position(), s.0 as int, s.1 as int, b.0, b.1) => {
                        &&& final(self).position() == after_move(old(self).position(), s.0 as int, s.1 as int, b.0, b.1)
                        &&& final(self).counter() == counter_after(old(self).grid(), old(self).counter(), s.0 as int, s.1 as int, b.0, b.1)
                        &&& final(self).last() == Some(recorded_move(old(self).grid(), s, (b.0 as i32, b.1 as i32)))
                        &&& final(self).previous() matches Some(x) && x.snapshot_of(old(self))
                        &&& final(self).selected_square() is None
                    },
                    _ => {
                        &&& final(self).position() == old(self).position()
                        &&& final(self).counter() == old(self).counter()
                        &&& final(self).last() == old(self).last()
                        &&& if owned_by(old(self).grid(), b.0, b.1, old(self).turn()) {
                            &&& final(self).selected_square() == Some((b.0 as i32, b.1 as i32))
                            &&& final(self).selection_pointer() == Some(((x, y), true))
                        } else {
                            &&& final(self).selected_square() == old(self).selected_square()
                            &&& final(self).selection_pointer() == old(self).selection_pointer()
                        }
                    },
                }
            }),
    {
        let (board_x, board_y) = get_board_position((x, y));
        match self.selected {
            Some(selected) => {
                if self.is_valid_tile(board_x, board_y) {
                    proof {
                        lemma_moves_in_bounds(self.position(), selected.starting_tile.0 as int, selected.starting_tile.1 as int, board_x as int, board_y as int);
                    }
                    self.move_piece(Move::new(selected.starting_tile, (board_x, board_y)));
                    return;
                }
            },
            None => {},
        }
        self.select_tile((x, y));
    }

    /// A pointer release at the screen point (x, y): a held piece released over one of
    /// its legal destinations is moved there; released elsewhere it stays selected but
    /// is no longer held.
    pub fn mouse_up(&mut self, x: i32, y: i32)
        requires
            old(self).wf(),
        ensures
            final(self).wf(),
            ({
                let b = square_under(x as int, y as int);
                match (old(self).selected_square(), old(self).selection_pointer()) {
                    (Some(s), Some((pt, true))) => if legal_dest(old(self).position(), s.0 as int, s.1 as int, b.0, b.1) {
                        &&& final(self).position() == after_move(old(self).position(), s.0 as int, s.1 as int, b.0, b.1)
                        &&& final(self).counter() == counter_after(old(self).grid(), old(self).counter(), s.0 as int, s.1 as int, b.0, b.1)
                        &&& final(self).last() == Some(recorded_move(old(self).grid(), s, (b.0 as i32, b.1 as i32)))
                        &&& final(self).previous() matches Some(x) && x.snapshot_of(old(self))
                        &&& final(self).selected_square() is None
                    } else {
                        &&& final(self).position() == old(self).position()
                        &&& final(self).counter() == old(self).counter()
                        &&& final(self).last() == old(self).last()
                        &&& final(self).selected_square() == Some(s)
                        &&& final(self).selection_pointer() == Some((pt, false))
                    },
                    _ => *final(self) == *old(self),
                }
            }),
    {
        let (board_x, board_y) = get_board_position((x, y));
        match self.selected {
            Some(selected) => {
                if selected.held_down {
                    if self.is_valid_tile(board_x, board_y) {
                        proof {
                            lemma_moves_in_bounds(self.position(), selected.starting_tile.0 as int, selected.starting_tile.1 as int, board_x as int, board_y as int);
                        }
                        self.move_piece(Move::new(selected.starting_tile, (board_x, board_y)));
                    } else {
                        self.selected = Some(Selection { held_down: false, ..selected });
                    }
                }
            },
            None => {},
        }
    }

    /// A pointer motion to the screen point (x, y): the selection, if any, follows it.
    pub fn mouse_move(&mut self, x: i32, y: i32)
        requires
            old(self).wf(),
        ensures
            final(self).wf(),
            final(self).position() == old(self).position(),
            final(self).counter() == old(self).counter(),
            final(self).last() == old(self).last(),
            final(self).selected_square() == old(self).selected_square(),
            final(self).selection_pointer() == match old(self).selection_pointer() {
                Some((_, held)) => Some(((x, y), held)),
                None => None,
            },
    {
        match self.selected {
            Some(selected) => {
                self.selected = Some(Selection { current_point: (x, y), ..selected });
            },
            None => {},
        }
    }

    /// The held piece and the pointer position it is drawn at, while the pointer is down.
    pub fn get_moving_piece(&self) -> (r: Option<(Piece, Point)>)
        requires
            self.wf(),
        ensures
            r == match (self.selected_square(), self.selection_pointer()) {
                (Some(s), Some((pt, true))) => Some((piece_of(self.grid(), s.0 as int, s.1 as int), pt)),
                _ => None,
            },
    {
        match self.selected {
            Some(selected) => {
                if selected.held_down {
                    return Some((selected.piece, selected.current_point));
                }
                None
            },
            None => None,
        }
    }

    /// The board square under the pointer of the selection, if any.
    pub fn get_selected_tile(&self) -> (r: Option<Point>)
        ensures
            r == match self.selection_pointer() {
                Some((pt, _)) => {
                    let b = square_under(pt.0 as int, pt.1 as int);
                    Some((b.0 as i32, b.1 as i32))
                },
                None => None,
            },
    {
        match &self.selected {
            Some(selected) => Some(get_board_position(selected.current_point)),
            None => None,
        }
    }
}

/// In every well-formed state, and so after every operation that changes one, the
/// squares listed as White's and as Black's are exactly the squares holding a White
/// and a Black piece, and no square is listed for both.
pub proof fn lemma_occupancy_partition(s: &GameState)
    requires
        s.wf(),
    ensures
        forall|x: int, y: int| #![auto]
            in_bounds_spec(x, y) ==> {
                &&& s.occupied_list(Color::White).contains((x as i32, y as i32)) <==> owned_by(s.grid(), x, y, Color::White)
                &&& s.occupied_list(Color::Black).contains((x as i32, y as i32)) <==> owned_by(s.grid(), x, y, Color::Black)
                &&& !(s.occupied_list(Color::White).contains((x as i32, y as i32)) && s.occupied_list(Color::Black).contains((x as i32, y as i32)))
                &&& (s.grid()[x][y] is Piece <==> (s.occupied_list(Color::White).contains((x as i32, y as i32))
                    || s.occupied_list(Color::Black).contains((x as i32, y as i32))))
            },
{
    assert forall|x: int, y: int| #![auto] in_bounds_spec(x, y) implies {
        &&& s.occupied_list(Color::White).contains((x as i32, y as i32)) <==> owned_by(s.grid(), x, y, Color::White)
        &&& s.occupied_list(Color::Black).contains((x as i32, y as i32)) <==> owned_by(s.grid(), x, y, Color::Black)
        &&& !(s.occupied_list(Color::White).contains((x as i32, y as i32)) && s.occupied_list(Color::Black).contains((x as i32, y as i32)))
        &&& (s.grid()[x][y] is Piece <==> (s.occupied_list(Color::White).contains((x as i32, y as i32))
            || s.occupied_list(Color::Black).contains((x as i32, y as i32))))
    } by {
        let q = (x as i32, y as i32);
        assert(q.0 as int == x && q.1 as int == y);
        if s.occupied_list(Color::White).contains(q) {
            assert(owned_by(s.grid(), q.0 as int, q.1 as int, Color::White));
        }
        if s.occupied_list(Color::Black).contains(q) {
            assert(owned_by(s.grid(), q.0 as int, q.1 as int, Color::Black));
        }
        if s.grid()[x][y] is Piece {
            if piece_of(s.grid(), x, y).color == Color::White {
                assert(owned_by(s.grid(), x, y, Color::White));
            } else {
                assert(owned_by(s.grid(), x, y, Color::Black));
            }
        }
    }
}

/// The position that the rules look at is made of the board and the side to move.
pub proof fn lemma_position_parts(s: &GameState)
    ensures
        s.position().grid == s.grid(),
        s.position().turn == s.turn(),
{
}

} // verus!
