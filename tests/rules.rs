use chess::gamestate::GameState;
use chess::util::{
    file_to_piece, flip, flip_rank, get_board_position, in_bounds, Color, Move, MovingPiece,
    Piece, PieceState, PlayStatus, Tile,
};

/// The board square (rank, file) of a square named in algebraic notation.
fn sq(name: &str) -> (i32, i32) {
    let b = name.as_bytes();
    let file = (b[0] - b'a') as i32;
    let rank = (b[1] - b'0') as i32;
    (8 - rank, file)
}

/// A screen point in the middle of a board square.
fn point(s: (i32, i32)) -> (i32, i32) {
    (s.1 * 96 + 48, s.0 * 96 + 48)
}

/// Drags the piece on `from` to `to`.
fn play(gs: &mut GameState, from: &str, to: &str) {
    let (x, y) = point(sq(from));
    gs.mouse_down(x, y);
    let (x, y) = point(sq(to));
    gs.mouse_move(x, y);
    gs.mouse_up(x, y);
}

fn legal_from(gs: &mut GameState, from: &str) -> Vec<(i32, i32)> {
    let (x, y) = point(sq(from));
    gs.mouse_down(x, y);
    gs.mouse_up(x, y);
    gs.legal_moves()
}

fn piece_at(gs: &GameState, name: &str) -> Option<Piece> {
    let (r, f) = sq(name);
    match gs.board[r as usize][f as usize] {
        Tile::Piece(p) => Some(p),
        Tile::Empty => None,
    }
}

#[test]
fn initial_white_has_twenty_moves() {
    let mut gs = GameState::new();
    let mut total = 0;
    let mut pawn_moves = 0;
    let mut knight_moves = 0;
    for rank in [6, 7] {
        for file in 0..8 {
            let (x, y) = point((rank, file));
            gs.mouse_down(x, y);
            gs.mouse_up(x, y);
            assert_eq!(gs.slected_piece_coord(), Some((rank, file)));
            let n = gs.legal_moves().len();
            total += n;
            if rank == 6 {
                pawn_moves += n;
            } else if file == 1 || file == 6 {
                knight_moves += n;
            } else {
                assert_eq!(n, 0);
            }
        }
    }
    assert_eq!(total, 20);
    assert_eq!(pawn_moves, 16);
    assert_eq!(knight_moves, 4);
    assert_eq!(gs.end_game(), PlayStatus::Continue);
}

#[test]
fn black_cannot_move_first() {
    let mut gs = GameState::new();
    for file in 0..8 {
        for rank in [0, 1] {
            let (x, y) = point((rank, file));
            gs.mouse_down(x, y);
            assert_eq!(gs.slected_piece_coord(), None);
            assert!(gs.legal_moves().is_empty());
        }
    }
    play(&mut gs, "e7", "e5");
    assert_eq!(piece_at(&gs, "e5"), None);
    assert!(piece_at(&gs, "e7").is_some());
}

#[test]
fn legality_probes_leave_state_unchanged() {
    let mut gs = GameState::new();
    play(&mut gs, "e2", "e4");
    play(&mut gs, "d7", "d5");
    let before = gs.board.clone();
    for _ in 0..5 {
        for rank in 0..8 {
            for file in 0..8 {
                let (x, y) = point((rank, file));
                gs.mouse_down(x, y);
                gs.mouse_up(x, y);
                let _ = gs.legal_moves();
                let _ = gs.end_game();
                let _ = gs.in_check();
            }
        }
    }
    assert_eq!(gs.board, before);
    // the same side is still to move: White may take on d5
    play(&mut gs, "e4", "d5");
    assert_eq!(
        piece_at(&gs, "d5").map(|p| (p.state, p.color)),
        Some((PieceState::Pawn, Color::White))
    );
}

fn shuffle_knights(gs: &mut GameState, half_moves: usize) {
    let cycle = [("g1", "f3"), ("g8", "f6"), ("f3", "g1"), ("f6", "g8")];
    for i in 0..half_moves {
        let (a, b) = cycle[i % 4];
        play(gs, a, b);
    }
}

#[test]
fn fifty_quiet_half_moves_draw() {
    let mut gs = GameState::new();
    shuffle_knights(&mut gs, 49);
    assert_eq!(gs.end_game(), PlayStatus::Continue);
    // the fiftieth half-move with no pawn move or capture
    play(&mut gs, "g8", "f6");
    assert_eq!(piece_at(&gs, "g8"), None);
    assert_eq!(gs.end_game(), PlayStatus::Draw);
}

#[test]
fn pawn_move_resets_fifty_move_count() {
    let mut gs = GameState::new();
    shuffle_knights(&mut gs, 48);
    play(&mut gs, "a2", "a3");
    shuffle_knights_from_black(&mut gs, 48);
    play(&mut gs, "b8", "c6");
    assert_eq!(gs.end_game(), PlayStatus::Continue);
    // without the reset this would be the fiftieth quiet half-move
    play(&mut gs, "h2", "h3");
    assert_eq!(piece_at(&gs, "h2"), None);
    assert_eq!(gs.end_game(), PlayStatus::Continue);
}

fn shuffle_knights_from_black(gs: &mut GameState, half_moves: usize) {
    let cycle = [("b8", "c6"), ("b1", "c3"), ("c6", "b8"), ("c3", "b1")];
    for i in 0..half_moves {
        let (a, b) = cycle[i % 4];
        play(gs, a, b);
    }
}

#[test]
fn capture_resets_fifty_move_count() {
    let mut gs = GameState::new();
    play(&mut gs, "e2", "e4");
    play(&mut gs, "d7", "d5");
    shuffle_knights(&mut gs, 48);
    play(&mut gs, "e4", "d5");
    // 47 more quiet half-moves keep the game going, whatever the count was before the capture
    let cycle = [("b8", "c6"), ("b1", "c3"), ("c6", "b8"), ("c3", "b1")];
    for i in 0..47 {
        let (a, b) = cycle[i % 4];
        play(&mut gs, a, b);
    }
    assert_eq!(gs.end_game(), PlayStatus::Continue);
}

#[test]
fn en_passant_right_after_double_step() {
    let mut gs = GameState::new();
    play(&mut gs, "e2", "e4");
    play(&mut gs, "a7", "a6");
    play(&mut gs, "e4", "e5");
    play(&mut gs, "d7", "d5");
    let moves = legal_from(&mut gs, "e5");
    assert!(moves.contains(&sq("d6")));
    assert!(moves.contains(&sq("e6")));
    assert_eq!(moves.len(), 2);
    play(&mut gs, "e5", "d6");
    assert_eq!(piece_at(&gs, "d5"), None);
    assert_eq!(
        piece_at(&gs, "d6").map(|p| (p.state, p.color)),
        Some((PieceState::Pawn, Color::White))
    );
    assert_eq!(piece_at(&gs, "e5"), None);
}

#[test]
fn en_passant_lapses_after_one_move() {
    let mut gs = GameState::new();
    play(&mut gs, "e2", "e4");
    play(&mut gs, "a7", "a6");
    play(&mut gs, "e4", "e5");
    play(&mut gs, "d7", "d5");
    play(&mut gs, "h2", "h3");
    play(&mut gs, "h7", "h6");
    let moves = legal_from(&mut gs, "e5");
    assert!(!moves.contains(&sq("d6")));
    assert!(moves.contains(&sq("e6")));
}

#[test]
fn castling_kingside() {
    let mut gs = GameState::new();
    play(&mut gs, "g1", "f3");
    play(&mut gs, "a7", "a6");
    play(&mut gs, "e2", "e3");
    play(&mut gs, "b7", "b6");
    play(&mut gs, "f1", "e2");
    play(&mut gs, "c7", "c6");
    let moves = legal_from(&mut gs, "e1");
    assert!(moves.contains(&sq("g1")));
    assert!(moves.contains(&sq("h1")));
    assert!(moves.contains(&sq("f1")));
    play(&mut gs, "e1", "g1");
    let king = piece_at(&gs, "g1").unwrap();
    let rook = piece_at(&gs, "f1").unwrap();
    assert_eq!((king.state, king.color, king.has_moved), (PieceState::King, Color::White, true));
    assert_eq!((rook.state, rook.color, rook.has_moved), (PieceState::Rook, Color::White, false));
    assert_eq!(piece_at(&gs, "e1"), None);
    assert_eq!(piece_at(&gs, "h1"), None);
    let last = gs.last_move.unwrap();
    assert_eq!((last.src, last.dst), (sq("e1"), sq("h1")));
}

#[test]
fn castling_onto_rook_square() {
    let mut gs = GameState::new();
    play(&mut gs, "g1", "f3");
    play(&mut gs, "a7", "a6");
    play(&mut gs, "e2", "e3");
    play(&mut gs, "b7", "b6");
    play(&mut gs, "f1", "e2");
    play(&mut gs, "c7", "c6");
    play(&mut gs, "e1", "h1");
    assert_eq!(piece_at(&gs, "g1").map(|p| p.state), Some(PieceState::King));
    assert_eq!(piece_at(&gs, "f1").map(|p| p.state), Some(PieceState::Rook));
    assert_eq!(piece_at(&gs, "h1"), None);
}

#[test]
fn castling_queenside() {
    let mut gs = GameState::new();
    play(&mut gs, "b1", "c3");
    play(&mut gs, "a7", "a6");
    play(&mut gs, "d2", "d3");
    play(&mut gs, "b7", "b6");
    play(&mut gs, "c1", "e3");
    play(&mut gs, "c7", "c6");
    play(&mut gs, "d1", "d2");
    play(&mut gs, "d7", "d6");
    let moves = legal_from(&mut gs, "e1");
    assert!(moves.contains(&sq("c1")));
    assert!(moves.contains(&sq("a1")));
    play(&mut gs, "e1", "c1");
    assert_eq!(piece_at(&gs, "c1").map(|p| (p.state, p.has_moved)), Some((PieceState::King, true)));
    assert_eq!(piece_at(&gs, "d1").map(|p| (p.state, p.has_moved)), Some((PieceState::Rook, false)));
    assert_eq!(piece_at(&gs, "a1"), None);
    let last = gs.last_move.unwrap();
    assert_eq!((last.src, last.dst), (sq("e1"), sq("a1")));
}

#[test]
fn no_castling_with_piece_between() {
    let mut gs = GameState::new();
    play(&mut gs, "g1", "f3");
    play(&mut gs, "a7", "a6");
    let moves = legal_from(&mut gs, "e1");
    assert!(moves.is_empty());
}

#[test]
fn fools_mate_is_a_win_for_black() {
    let mut gs = GameState::new();
    play(&mut gs, "f2", "f3");
    play(&mut gs, "e7", "e5");
    play(&mut gs, "g2", "g4");
    assert_eq!(gs.end_game(), PlayStatus::Continue);
    play(&mut gs, "d8", "h4");
    assert!(gs.in_check());
    assert_eq!(gs.get_king(), sq("e1"));
    assert_eq!(gs.end_game(), PlayStatus::Win(Color::Black));
}

#[test]
fn check_that_can_be_answered_is_not_mate() {
    let mut gs = GameState::new();
    play(&mut gs, "e2", "e4");
    play(&mut gs, "f7", "f6");
    play(&mut gs, "d1", "h5");
    assert!(gs.in_check());
    assert_eq!(gs.get_king(), sq("e8"));
    assert_eq!(gs.end_game(), PlayStatus::Continue);
    // only the pawn on g7 can block
    let moves = legal_from(&mut gs, "g7");
    assert_eq!(moves, vec![sq("g6")]);
    assert!(legal_from(&mut gs, "a7").is_empty());
}

#[test]
fn stalemate_is_a_draw() {
    let mut gs = GameState::new();
    let line = [
        ("e2", "e3"), ("a7", "a5"), ("d1", "h5"), ("a8", "a6"), ("h5", "a5"), ("h7", "h5"),
        ("h2", "h4"), ("a6", "h6"), ("a5", "c7"), ("f7", "f6"), ("c7", "d7"), ("e8", "f7"),
        ("d7", "b7"), ("d8", "d3"), ("b7", "b8"), ("d3", "h7"), ("b8", "c8"), ("f7", "g6"),
    ];
    for (a, b) in line {
        play(&mut gs, a, b);
        assert!(piece_at(&gs, a).is_none(), "move {}-{} was refused", a, b);
        assert_eq!(gs.end_game(), PlayStatus::Continue);
    }
    play(&mut gs, "c8", "e6");
    assert!(!gs.in_check());
    assert_eq!(gs.end_game(), PlayStatus::Draw);
}

#[test]
fn release_off_target_keeps_selection() {
    let mut gs = GameState::new();
    let (x, y) = point(sq("e2"));
    gs.mouse_down(x, y);
    assert_eq!(gs.get_moving_piece().map(|(p, pt)| (p.state, pt)), Some((PieceState::Pawn, (x, y))));
    gs.mouse_move(x + 5, y - 7);
    assert_eq!(gs.get_moving_piece().map(|(_, pt)| pt), Some((x + 5, y - 7)));
    assert_eq!(gs.get_selected_tile(), Some(sq("e2")));
    let (tx, ty) = point(sq("e5"));
    gs.mouse_move(tx, ty);
    assert_eq!(gs.get_selected_tile(), Some(sq("e5")));
    gs.mouse_up(tx, ty);
    assert_eq!(gs.get_moving_piece(), None);
    assert_eq!(gs.slected_piece_coord(), Some(sq("e2")));
    assert_eq!(gs.legal_moves().len(), 2);
    // a press on a legal square commits the move
    let (tx, ty) = point(sq("e4"));
    gs.mouse_down(tx, ty);
    assert_eq!(gs.slected_piece_coord(), None);
    assert!(piece_at(&gs, "e4").is_some());
    assert!(gs.is_empty(sq("e2")));
    let last = gs.last_move.unwrap();
    assert_eq!((last.src, last.dst), (sq("e2"), sq("e4")));
}

#[test]
fn press_off_board_is_ignored() {
    let mut gs = GameState::new();
    gs.mouse_down(-20, 50);
    assert_eq!(gs.slected_piece_coord(), None);
    gs.mouse_down(800, 700);
    assert_eq!(gs.slected_piece_coord(), None);
    gs.select_tile(point(sq("e4")));
    assert_eq!(gs.slected_piece_coord(), None);
    gs.select_tile(point(sq("d2")));
    assert_eq!(gs.slected_piece_coord(), Some(sq("d2")));
    // a press on an empty square that is no legal target leaves the selection alone
    gs.mouse_down(point(sq("d5")).0, point(sq("d5")).1);
    assert_eq!(gs.slected_piece_coord(), Some(sq("d2")));
}

#[test]
fn new_board_layout() {
    let gs = GameState::new();
    assert_eq!(gs.board.len(), 8);
    let back = [
        PieceState::Rook, PieceState::Knight, PieceState::Bishop, PieceState::Queen,
        PieceState::King, PieceState::Bishop, PieceState::Knight, PieceState::Rook,
    ];
    for file in 0..8 {
        assert_eq!(gs.board[0][file], Tile::Piece(Piece::new(back[file], true)));
        assert_eq!(gs.board[1][file], Tile::Piece(Piece::new(PieceState::Pawn, true)));
        assert_eq!(gs.board[6][file], Tile::Piece(Piece::new(PieceState::Pawn, false)));
        assert_eq!(gs.board[7][file], Tile::Piece(Piece::new(back[file], false)));
        for rank in 2..6 {
            assert_eq!(gs.board[rank][file], Tile::Empty);
        }
    }
    assert!(gs.last_move.is_none());
    assert!(!gs.in_check());
}

#[test]
fn reinitialising_restores_start() {
    let mut gs = GameState::new();
    play(&mut gs, "e2", "e4");
    gs.select_tile(point(sq("e7")));
    gs.intialise_new_board();
    assert_eq!(gs.board, GameState::new().board);
    assert_eq!(gs.slected_piece_coord(), None);
}

#[test]
fn helpers() {
    assert!(in_bounds((0, 0)));
    assert!(in_bounds((7, 7)));
    assert!(!in_bounds((8, 0)));
    assert!(!in_bounds((0, -1)));
    assert_eq!(get_board_position((100, 300)), (3, 1));
    assert_eq!(get_board_position((0, 767)), (7, 0));
    assert_eq!(get_board_position((-50, 10)), (0, 0));
    assert_eq!(get_board_position((-100, 10)), (0, -1));
    assert_eq!(flip(0), 7);
    assert_eq!(flip(3), 4);
    assert_eq!(flip_rank(1, true), 1);
    assert_eq!(flip_rank(1, false), 6);
    assert_eq!(file_to_piece(0), PieceState::Rook);
    assert_eq!(file_to_piece(6), PieceState::Knight);
    assert_eq!(file_to_piece(5), PieceState::Bishop);
    assert_eq!(file_to_piece(3), PieceState::Queen);
    assert_eq!(file_to_piece(4), PieceState::King);
    let p = Piece::new(PieceState::Knight, false);
    assert_eq!((p.color, p.has_moved), (Color::White, false));
    let m = Move::new((6, 4), (4, 4));
    assert_eq!((m.src, m.dst), ((6, 4), (4, 4)));
    let mp = MovingPiece::new(p, (1, 2));
    assert_eq!((mp.piece, mp.point), (p, (1, 2)));
}
