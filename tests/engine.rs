use checkers::board::{Board, BoardError};
use checkers::rating::{KillRates, PieceRates, PositionRates, RateConfig};
use checkers::types::{format_pos, Color, Move, Piece, PlayersPiece, PosUncolorPiece};

fn config(max_depth: usize) -> RateConfig {
    RateConfig {
        pieces: PieceRates { pawn: 1, queen: 3 },
        position: PositionRates { pawn: 0, queen: 0 },
        kills: KillRates { pawn: 10, queen: 30 },
        win: 1000,
        max_depth,
    }
}

fn pawn(color: Color) -> Option<PlayersPiece> {
    Some(PlayersPiece::new(color, Piece::Pawn))
}

fn queen(color: Color) -> Option<PlayersPiece> {
    Some(PlayersPiece::new(color, Piece::Queen))
}

fn board_with(pieces: &[(u8, u8, Option<PlayersPiece>)], max_depth: usize) -> Board {
    let mut b = Board::empty(config(max_depth));
    for &(r, c, p) in pieces {
        b.set(r, c, p);
    }
    b
}

fn plain(from: (u8, u8), to: (u8, u8), piece: Piece, color: Color) -> Move {
    Move { from, to, piece, kill: None, color }
}

fn capture(from: (u8, u8), to: (u8, u8), piece: Piece, color: Color, at: (u8, u8), taken: Piece) -> Move {
    Move {
        from,
        to,
        piece,
        kill: Some(PosUncolorPiece { piece: taken, row: at.0, col: at.1 }),
        color,
    }
}

#[test]
fn test_rate() {
    let rates = PositionRates { pawn: 1, queen: 1 };

    assert_eq!(rates.rate(0, 0, Color::White, Piece::Pawn) as f32, 1.0);
    assert_eq!(rates.rate(0, 0, Color::Black, Piece::Pawn) as f32, 8.0);
    assert_eq!(rates.rate(7, 0, Color::White, Piece::Pawn) as f32, 8.0);
    assert_eq!(rates.rate(7, 0, Color::Black, Piece::Pawn) as f32, 1.0);

    assert_eq!(rates.rate(0, 0, Color::White, Piece::Queen) as f32, 1.0 + 1.0);
    assert_eq!(rates.rate(3, 3, Color::White, Piece::Queen) as f32, 4.0 + 4.0);
    assert_eq!(rates.rate(0, 3, Color::White, Piece::Queen) as f32, 1.0 + 4.0);
}

#[test]
fn position_rate_scales_with_weights() {
    let rates = PositionRates { pawn: 3, queen: -2 };
    assert_eq!(rates.rate(2, 5, Color::White, Piece::Pawn), 9);
    assert_eq!(rates.rate(2, 5, Color::Black, Piece::Pawn), 18);
    assert_eq!(rates.rate(4, 6, Color::Black, Piece::Queen), -2 * (4 + 2));
}

#[test]
fn piece_and_kill_rates_pick_the_kind() {
    let p = PieceRates { pawn: 1, queen: 3 };
    assert_eq!(p.rate(Piece::Pawn), 1);
    assert_eq!(p.rate(Piece::Queen), 3);
    let k = KillRates { pawn: 10, queen: 30 };
    assert_eq!(k.rate(Piece::Pawn), 10);
    assert_eq!(k.rate(Piece::Queen), 30);
}

#[test]
fn format_pos_writes_column_letter_and_row_number() {
    assert_eq!(format_pos((0, 0)), "A1");
    assert_eq!(format_pos((2, 3)), "D3");
    assert_eq!(format_pos((7, 7)), "H8");
}

#[test]
fn colors_have_opposite_directions() {
    assert_eq!(Color::White.dir(), 1);
    assert_eq!(Color::Black.dir(), -1);
    assert_eq!(Color::White.other(), Color::Black);
    assert_eq!(Color::Black.other().other(), Color::Black);
}

#[test]
fn move_predicates() {
    let up = plain((6, 0), (7, 1), Piece::Pawn, Color::White);
    assert!(up.is_upgrade());
    assert_eq!(up.future_piece(), Piece::Queen);
    assert!(!up.continues());
    let q = plain((6, 0), (7, 1), Piece::Queen, Color::White);
    assert!(!q.is_upgrade());
    assert_eq!(q.future_piece(), Piece::Queen);
    let down = plain((1, 1), (0, 0), Piece::Pawn, Color::Black);
    assert!(down.is_upgrade());
    let jump = capture((2, 2), (4, 4), Piece::Pawn, Color::White, (3, 3), Piece::Pawn);
    assert!(jump.continues());
    assert!(!jump.is_upgrade());
    assert_eq!(jump.future_piece(), Piece::Pawn);
    let promoting_jump = capture((5, 1), (7, 3), Piece::Pawn, Color::White, (6, 2), Piece::Pawn);
    assert!(!promoting_jump.continues());
}

#[test]
fn move_filters_keep_order() {
    let a = plain((1, 1), (2, 2), Piece::Pawn, Color::White);
    let b = capture((2, 2), (4, 4), Piece::Pawn, Color::White, (3, 3), Piece::Pawn);
    let c = capture((0, 0), (5, 5), Piece::Queen, Color::White, (4, 4), Piece::Queen);
    let d = plain((0, 0), (1, 1), Piece::Queen, Color::White);
    let all = vec![a, b, c, d];
    assert!(Move::contains_killer_move(&all));
    assert!(!Move::contains_killer_move(&[a, d]));
    assert_eq!(Move::filter_killer_moves(all.clone()), vec![b, c]);
    assert!(Move::contains_piece_move(Piece::Queen, &all));
    assert!(!Move::contains_piece_move(Piece::Queen, &[a, b]));
    assert_eq!(Move::filter_piece_moves(Piece::Queen, all), vec![c, d]);
}

#[test]
fn new_board_places_back_rows() {
    let b = Board::new(2, config(1));
    assert_eq!(*b.get_ref(0, 0), pawn(Color::White));
    assert_eq!(*b.get_ref(1, 1), pawn(Color::White));
    assert_eq!(*b.get_ref(0, 1), None);
    assert_eq!(*b.get_ref(2, 2), None);
    assert_eq!(*b.get_ref(6, 6), pawn(Color::Black));
    assert_eq!(*b.get_ref(7, 7), pawn(Color::Black));
    assert_eq!(b.all_players_pieces(Color::White).len(), 8);
    assert_eq!(b.all_players_pieces(Color::Black).len(), 8);
    assert_eq!(b.current_player(), Color::White);
    assert_eq!(b.winner(), None);
    assert_eq!(b.occupied_by(7, 1), Some(Color::Black));
    assert_eq!(b.occupied_by(3, 3), None);
}

#[test]
fn opening_moves_are_the_front_pawns_steps() {
    let b = Board::new(2, config(1));
    let moves = b.find_all_current_moves();
    assert_eq!(
        moves,
        vec![
            plain((1, 1), (2, 0), Piece::Pawn, Color::White),
            plain((1, 1), (2, 2), Piece::Pawn, Color::White),
            plain((1, 3), (2, 2), Piece::Pawn, Color::White),
            plain((1, 3), (2, 4), Piece::Pawn, Color::White),
            plain((1, 5), (2, 4), Piece::Pawn, Color::White),
            plain((1, 5), (2, 6), Piece::Pawn, Color::White),
            plain((1, 7), (2, 6), Piece::Pawn, Color::White),
        ]
    );
}

#[test]
fn single_pawns_have_one_move() {
    let mut b = board_with(&[(0, 0, pawn(Color::White)), (7, 7, pawn(Color::Black))], 1);
    let moves = b.find_all_current_moves();
    assert_eq!(moves, vec![plain((0, 0), (1, 1), Piece::Pawn, Color::White)]);
    assert_eq!(b.push(moves[0]), Ok(None));
    assert_eq!(b.current_player(), Color::Black);
    assert_eq!(b.turn, 1);
}

#[test]
fn empty_square_has_no_moves() {
    let b = Board::new(2, config(1));
    assert_eq!(b.find_moves(3, 3, None), None);
    assert_eq!(b.find_moves(0, 0, None), Some(vec![]));
}

#[test]
fn queen_flies_over_an_enemy() {
    let b = board_with(&[(0, 0, queen(Color::White)), (2, 2, pawn(Color::Black))], 1);
    let caps = b.find_moves(0, 0, Some(true)).unwrap();
    let landings: Vec<(u8, u8)> = caps.iter().map(|m| m.to).collect();
    assert_eq!(landings, vec![(3, 3), (4, 4), (5, 5), (6, 6), (7, 7)]);
    assert!(caps.iter().all(|m| m.kill == Some(PosUncolorPiece { piece: Piece::Pawn, row: 2, col: 2 })));
    let plain_moves = b.find_moves(0, 0, Some(false)).unwrap();
    assert_eq!(plain_moves, vec![plain((0, 0), (1, 1), Piece::Queen, Color::White)]);
}

#[test]
fn queen_cannot_jump_two_pieces() {
    let b = board_with(
        &[(0, 0, queen(Color::White)), (2, 2, pawn(Color::Black)), (3, 3, pawn(Color::Black))],
        1,
    );
    assert_eq!(b.find_moves(0, 0, Some(true)).unwrap(), vec![]);
}

#[test]
fn push_then_pop_restores_the_board() {
    let mut b = board_with(
        &[(2, 2, pawn(Color::White)), (3, 3, pawn(Color::Black)), (5, 5, pawn(Color::Black))],
        1,
    );
    let before_cells = b.board.clone();
    let m = b.find_all_current_moves()[0];
    assert!(m.kill.is_some());
    assert!(b.push(m).is_ok());
    assert_eq!(*b.get_ref(3, 3), None);
    assert_eq!(b.pop(), Ok(m));
    assert_eq!(b.board, before_cells);
    assert_eq!(b.moves.len(), 0);
    assert_eq!(b.turn, 0);
    assert_eq!(b.current_player(), Color::White);
}

#[test]
fn capture_chain_keeps_the_turn() {
    let mut b = board_with(
        &[(2, 2, pawn(Color::White)), (3, 3, pawn(Color::Black)), (5, 5, pawn(Color::Black)), (7, 1, pawn(Color::Black))],
        1,
    );
    let first = capture((2, 2), (4, 4), Piece::Pawn, Color::White, (3, 3), Piece::Pawn);
    assert_eq!(b.find_all_current_moves(), vec![first]);
    assert_eq!(b.push(first), Ok(None));
    assert_eq!(b.current_player(), Color::White);
    assert_eq!(b.turn, 0);
    let second = capture((4, 4), (6, 6), Piece::Pawn, Color::White, (5, 5), Piece::Pawn);
    assert_eq!(b.find_all_current_moves(), vec![second]);
    assert_eq!(b.push(second), Ok(None));
    assert_eq!(b.current_player(), Color::Black);
    assert_eq!(b.turn, 1);
    assert_eq!(b.last_player(), Some(Color::White));
    assert_eq!(b.last_move(), Some(second));
}

#[test]
fn forced_capture_removes_plain_moves() {
    let b = board_with(
        &[(2, 2, pawn(Color::White)), (0, 6, pawn(Color::White)), (3, 3, pawn(Color::Black))],
        1,
    );
    let moves = b.find_all_current_moves();
    assert_eq!(moves, vec![capture((2, 2), (4, 4), Piece::Pawn, Color::White, (3, 3), Piece::Pawn)]);
}

#[test]
fn queen_capture_has_priority() {
    let b = board_with(
        &[
            (2, 2, pawn(Color::White)),
            (3, 3, pawn(Color::Black)),
            (0, 6, queen(Color::White)),
            (1, 5, pawn(Color::Black)),
        ],
        1,
    );
    let moves = b.find_all_current_moves();
    assert_eq!(
        moves,
        vec![capture((0, 6), (2, 4), Piece::Queen, Color::White, (1, 5), Piece::Pawn)]
    );
    assert!(moves.iter().all(|m| m.piece == Piece::Queen && m.kill.is_some()));
}

#[test]
fn stuck_side_loses() {
    let b = board_with(&[(7, 1, pawn(Color::White)), (0, 0, pawn(Color::Black))], 1);
    assert_eq!(b.find_all_current_moves(), vec![]);
    assert_eq!(b.winner(), Some(Color::Black));
}

#[test]
fn side_without_pieces_loses() {
    let b = board_with(&[(3, 3, pawn(Color::White))], 1);
    assert_eq!(b.winner(), Some(Color::White));
    let b = board_with(&[(3, 3, pawn(Color::Black))], 1);
    assert_eq!(b.winner(), Some(Color::Black));
}

#[test]
fn pawn_promotes_on_far_row() {
    let mut b = board_with(&[(6, 0, pawn(Color::White)), (4, 4, pawn(Color::Black))], 1);
    let m = plain((6, 0), (7, 1), Piece::Pawn, Color::White);
    assert_eq!(b.push(m), Ok(None));
    assert_eq!(*b.get_ref(7, 1), queen(Color::White));
    assert_eq!(b.pop(), Ok(m));
    assert_eq!(*b.get_ref(6, 0), pawn(Color::White));
    assert_eq!(*b.get_ref(7, 1), None);
}

#[test]
fn promoting_capture_ends_the_chain() {
    // After the jump the new queen on (7,3) could take (6,4) and land on (5,5).
    let mut b = board_with(
        &[
            (5, 1, pawn(Color::White)),
            (6, 2, pawn(Color::Black)),
            (6, 4, pawn(Color::Black)),
            (0, 0, pawn(Color::Black)),
        ],
        1,
    );
    let m = capture((5, 1), (7, 3), Piece::Pawn, Color::White, (6, 2), Piece::Pawn);
    assert_eq!(b.find_all_current_moves(), vec![m]);
    assert!(b.push(m).is_ok());
    assert_eq!(*b.get_ref(7, 3), queen(Color::White));
    assert!(!b.find_moves(7, 3, Some(true)).unwrap().is_empty());
    assert_eq!(b.current_player(), Color::Black);
}

#[test]
fn invalid_move_is_refused() {
    let mut b = Board::new(2, config(1));
    let wrong = plain((1, 1), (3, 3), Piece::Pawn, Color::White);
    assert_eq!(b.is_valid_move(wrong), false);
    assert_eq!(b.push(wrong), Err(BoardError::InvalidMove));
    assert_eq!(b.moves.len(), 0);
    let black = plain((6, 0), (5, 1), Piece::Pawn, Color::Black);
    assert_eq!(b.push(black), Err(BoardError::InvalidMove));
    let off_board = plain((9, 9), (3, 3), Piece::Pawn, Color::White);
    assert!(!b.is_valid_move(off_board));
}

#[test]
fn empty_history_cannot_be_popped() {
    let mut b = Board::new(2, config(1));
    assert_eq!(b.pop(), Err(BoardError::EmptyHistory));
}

#[test]
fn static_evaluation_is_mover_relative() {
    let mut cfg = config(1);
    cfg.position = PositionRates { pawn: 1, queen: 1 };
    let mut b = Board::empty(cfg);
    b.set(2, 2, pawn(Color::White));
    b.set(3, 3, pawn(Color::Black));
    // White: 1 + 3 + 10; Black: 1 + 5 + 10.
    assert_eq!(b.rate_current_board(), -2);
    let q = board_with(&[(3, 3, queen(Color::White)), (0, 0, pawn(Color::Black))], 1);
    // White: 3; Black: 1, no threats.
    assert_eq!(q.rate_current_board(), 2);
}

#[test]
fn decided_board_rates_as_win() {
    let mut b = board_with(&[(3, 3, pawn(Color::White))], 2);
    assert_eq!(b.rate(Color::White), 1000);
    assert_eq!(b.rate(Color::Black), -1000);
}

#[test]
fn search_prefers_the_winning_capture() {
    let mut b = board_with(&[(2, 2, pawn(Color::White)), (3, 3, pawn(Color::Black))], 1);
    let best = b.find_best_move();
    assert_eq!(best, capture((2, 2), (4, 4), Piece::Pawn, Color::White, (3, 3), Piece::Pawn));
    assert_eq!(b.moves.len(), 0);
}

#[test]
fn best_move_from_start_is_legal() {
    let mut b = Board::new(2, config(1));
    let best = b.find_best_move();
    assert!(b.find_all_current_moves().contains(&best));
    assert!(best.kill.is_none());
    assert_eq!(b.moves.len(), 0);
}

#[test]
fn best_move_captures_when_a_capture_is_legal() {
    let mut b = Board::new(2, config(1));
    for m in [
        plain((1, 3), (2, 4), Piece::Pawn, Color::White),
        plain((6, 6), (5, 5), Piece::Pawn, Color::Black),
        plain((2, 4), (3, 5), Piece::Pawn, Color::White),
        plain((5, 5), (4, 4), Piece::Pawn, Color::Black),
    ] {
        assert_eq!(b.push(m), Ok(None));
    }
    let legal = b.find_all_current_moves();
    assert!(legal.iter().any(|m| m.kill.is_some()));
    let best = b.find_best_move();
    assert!(best.kill.is_some());
    assert!(legal.contains(&best));
}
