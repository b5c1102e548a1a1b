use chess::fen::FenError;
use chess::piece::{Colour, EndState, Variant};
use chess::square::Position;
use chess::state::State;

fn pos(x: i8, y: i8) -> Position {
    Position::from_xy(x, y).unwrap()
}

fn fen_err(text: &str) -> FenError {
    match State::from_fen(text) {
        Err(e) => e,
        Ok(_) => panic!("expected the notation to be rejected"),
    }
}

fn count_moves(state: &State) -> usize {
    state.get_piece_moves().iter().map(|g| g.1.len()).sum()
}

const START: &str = "rnbqkbnr/pppppppp/8/8/8/8/PPPPPPPP/RNBQKBNR w KQkq - 0 1";

#[test]
fn twenty_legal_moves_from_start() {
    let state = State::new();
    assert_eq!(count_moves(&state), 20);
    assert!(state.ended().is_none());
    assert_eq!(state.get_turn(), Colour::White);
    assert!(!state.promoting());
    assert!(state.king_in_check().is_none());
}

#[test]
fn start_position_round_trip() {
    let parsed = State::from_fen(START).unwrap();
    let fresh = State::new();
    assert!(parsed == fresh);
    assert_eq!(count_moves(&parsed), 20);
}

#[test]
fn thirty_two_pieces_at_start() {
    let state = State::new();
    assert_eq!(state.get_pieces().len(), 32);
}

#[test]
fn illegal_move_rejected_position_unchanged() {
    let mut state = State::new();
    // a rook cannot jump over its own pawn
    assert!(!state.is_valid_move(pos(0, 0), pos(0, 4)));
    assert!(!state.try_move(pos(0, 0), pos(0, 4)));
    assert_eq!(state.get_turn(), Colour::White);
    assert_eq!(count_moves(&state), 20);
}

#[test]
fn simple_opening_moves_alternate_turns() {
    let mut state = State::new();
    assert!(state.try_move(pos(4, 1), pos(4, 3))); // e2-e4
    assert_eq!(state.get_turn(), Colour::Black);
    assert!(state.try_move(pos(4, 6), pos(4, 4))); // e7-e5
    assert_eq!(state.get_turn(), Colour::White);
    assert!(state.ended().is_none());
}

#[test]
fn malformed_notation_rejected() {
    assert_eq!(fen_err(""), FenError::Malformed);
    assert_eq!(fen_err("8/8/8/8"), FenError::Malformed);
    // too few fields
    assert_eq!(
        fen_err("rnbqkbnr/pppppppp/8/8/8/8/PPPPPPPP/RNBQKBNR w KQkq"),
        FenError::Malformed
    );
    // bad piece letter
    assert_eq!(
        fen_err("rnbqkbnx/pppppppp/8/8/8/8/PPPPPPPP/RNBQKBNR w KQkq - 0 1"),
        FenError::Malformed
    );
    // rank does not fill eight files
    assert_eq!(
        fen_err("rnbqkbnr/ppppppp/8/8/8/8/PPPPPPPP/RNBQKBNR w KQkq - 0 1"),
        FenError::Malformed
    );
    // bad side-to-move token
    assert_eq!(
        fen_err("rnbqkbnr/pppppppp/8/8/8/8/PPPPPPPP/RNBQKBNR x KQkq - 0 1"),
        FenError::Malformed
    );
    // bad en-passant square
    assert_eq!(
        fen_err("rnbqkbnr/pppppppp/8/8/8/8/PPPPPPPP/RNBQKBNR w KQkq z9 0 1"),
        FenError::Malformed
    );
}

#[test]
fn capturable_king_rejected() {
    // the white rook on a8 could take the black king at once
    assert_eq!(
        fen_err("R3k3/8/8/8/8/8/8/4K3 w - - 0 1"),
        FenError::IllegalPosition
    );
}

#[test]
fn king_in_check_reports_square() {
    // black to move, black king on e8 attacked by the rook on e2
    let state = State::from_fen("4k3/8/8/8/8/8/4R3/2K5 b - - 0 1").unwrap();
    let king = state.king_in_check().unwrap();
    assert_eq!(king.get_x(), 4);
    assert_eq!(king.get_y(), 7);
}

#[test]
fn fools_mate_is_checkmate_for_black() {
    let mut state = State::new();
    assert!(state.try_move(pos(5, 1), pos(5, 2))); // f2-f3
    assert!(state.try_move(pos(4, 6), pos(4, 4))); // e7-e5
    assert!(state.try_move(pos(6, 1), pos(6, 3))); // g2-g4
    assert!(state.try_move(pos(3, 7), pos(7, 3))); // Qd8-h4 mate
    assert_eq!(*state.ended(), Some(EndState::Checkmate(Colour::Black)));
    assert_eq!(count_moves(&state), 0);
    assert!(state.king_in_check().is_some());
    // the game has ended: no further move is accepted
    assert!(!state.try_move(pos(4, 1), pos(4, 2)));
}

#[test]
fn cornered_king_is_stalemate() {
    // black king h8, white queen f7, white king g6: black has no move
    // and stands in no check
    let state = State::from_fen("7k/5Q2/6K1/8/8/8/8/8 b - - 0 1").unwrap();
    assert_eq!(*state.ended(), Some(EndState::Stalemate));
    assert_eq!(count_moves(&state), 0);
    assert!(state.king_in_check().is_none());
}

#[test]
fn king_and_bishop_is_insufficient_material() {
    let state = State::from_fen("4k3/8/8/8/8/8/8/4KB2 w - - 0 1").unwrap();
    assert_eq!(*state.ended(), Some(EndState::InsufficientMaterial));
    assert_eq!(count_moves(&state), 0);
}

#[test]
fn two_knights_are_not_insufficient_material() {
    let state = State::from_fen("4k3/8/8/8/8/8/8/2N1KN2 w - - 0 1").unwrap();
    assert!(state.ended().is_none());
    assert!(count_moves(&state) > 0);
}

#[test]
fn castling_both_sides_available() {
    let mut state = State::from_fen("r3k2r/8/8/8/8/8/8/R3K2R w KQkq - 0 1").unwrap();
    assert!(state.is_valid_move(pos(4, 0), pos(6, 0))); // O-O
    assert!(state.is_valid_move(pos(4, 0), pos(2, 0))); // O-O-O
    assert!(state.try_move(pos(4, 0), pos(6, 0)));
    // the paired rook moved from h1 to f1
    let pieces = state.get_pieces();
    let f1 = pieces.iter().find(|e| e.0 == pos(5, 0)).unwrap();
    assert_eq!(f1.1.variant, Variant::Rook);
    assert_eq!(f1.1.colour, Colour::White);
    assert!(!pieces.iter().any(|e| e.0 == pos(7, 0)));
    // the white king now stands on g1
    let g1 = pieces.iter().find(|e| e.0 == pos(6, 0)).unwrap();
    assert_eq!(g1.1.variant, Variant::King);
}

#[test]
fn rook_capture_revokes_castling_right() {
    // white bishop g2 takes the rook on a8; black may then still castle
    // kingside but no longer queenside
    let mut state = State::from_fen("r3k2r/8/8/8/8/8/6B1/4K3 w kq - 0 1").unwrap();
    assert!(state.try_move(pos(6, 1), pos(0, 7))); // Bg2xa8
    assert!(!state.is_valid_move(pos(4, 7), pos(2, 7))); // O-O-O gone
    assert!(state.is_valid_move(pos(4, 7), pos(6, 7))); // O-O still there
    assert!(!state.try_move(pos(4, 7), pos(2, 7)));
    assert!(state.try_move(pos(4, 7), pos(6, 7)));
}

#[test]
fn moving_the_king_revokes_both_rights() {
    let mut state = State::from_fen("4k3/8/8/8/8/8/8/R3K2R w KQ - 0 1").unwrap();
    assert!(state.try_move(pos(4, 0), pos(4, 1))); // Ke1-e2
    assert!(state.try_move(pos(4, 7), pos(4, 6))); // Ke8-e7
    assert!(state.try_move(pos(4, 1), pos(4, 0))); // Ke2-e1: rights stay gone
    assert!(state.try_move(pos(4, 6), pos(4, 7)));
    assert!(!state.is_valid_move(pos(4, 0), pos(6, 0)));
    assert!(!state.is_valid_move(pos(4, 0), pos(2, 0)));
}

#[test]
fn castling_blocked_while_crossed_square_attacked() {
    // the black rook on f8 attacks f1, the square the king would cross
    let state = State::from_fen("4kr2/8/8/8/8/8/8/4K2R w K - 0 1").unwrap();
    assert!(!state.is_valid_move(pos(4, 0), pos(6, 0)));
}

#[test]
fn en_passant_capture_removes_passed_pawn() {
    let mut state = State::from_fen("4k3/3p4/8/4P3/8/8/8/4K3 b - - 0 1").unwrap();
    assert!(state.try_move(pos(3, 6), pos(3, 4))); // d7-d5 double step
    assert!(state.is_valid_move(pos(4, 4), pos(3, 5))); // e5xd6 e.p.
    assert!(state.try_move(pos(4, 4), pos(3, 5)));
    let pieces = state.get_pieces();
    // the jumped pawn on d5 is gone; the capturer stands on d6
    assert!(!pieces.iter().any(|e| e.0 == pos(3, 4)));
    let d6 = pieces.iter().find(|e| e.0 == pos(3, 5)).unwrap();
    assert_eq!(d6.1.colour, Colour::White);
    assert_eq!(d6.1.variant, Variant::Pawn);
}

#[test]
fn en_passant_expires_after_one_ply() {
    let mut state = State::from_fen("4k3/3p4/8/4P3/8/8/8/4K3 b - - 0 1").unwrap();
    assert!(state.try_move(pos(3, 6), pos(3, 4))); // d7-d5
    assert!(state.try_move(pos(4, 0), pos(4, 1))); // Ke1-e2: target unused
    assert!(state.try_move(pos(4, 7), pos(4, 6))); // Ke8-e7
    assert!(!state.is_valid_move(pos(4, 4), pos(3, 5))); // e.p. no longer allowed
}

#[test]
fn en_passant_target_accepted_from_notation() {
    let state =
        State::from_fen("rnbqkbnr/ppp1pppp/8/3pP3/8/8/PPPP1PPP/RNBQKBNR w KQkq d6 0 3").unwrap();
    assert!(state.is_valid_move(pos(4, 4), pos(3, 5)));
}

#[test]
fn promotion_suspends_the_turn_until_resolved() {
    let mut state = State::from_fen("8/P3k3/8/8/8/8/8/4K3 w - - 0 1").unwrap();
    assert!(state.try_move(pos(0, 6), pos(0, 7))); // a7-a8, promotion pending
    assert!(state.promoting());
    assert_eq!(state.get_turn(), Colour::White);
    assert_eq!(count_moves(&state), 0);
    // no move may be made while the promotion is pending
    assert!(!state.try_move(pos(4, 0), pos(4, 1)));
    // a king or pawn is not a valid promotion piece
    assert!(!state.promote(Variant::King));
    assert!(!state.promote(Variant::Pawn));
    assert!(state.promoting());
    assert!(state.promote(Variant::Queen));
    assert!(!state.promoting());
    assert_eq!(state.get_turn(), Colour::Black);
    let pieces = state.get_pieces();
    let a8 = pieces.iter().find(|e| e.0 == pos(0, 7)).unwrap();
    assert_eq!(a8.1.variant, Variant::Queen);
    assert_eq!(a8.1.colour, Colour::White);
}

#[test]
fn promotion_by_capture_also_suspends() {
    let mut state = State::from_fen("1n2k3/P7/8/8/8/8/8/4K3 w - - 0 1").unwrap();
    assert!(state.try_move(pos(0, 6), pos(1, 7))); // a7xb8
    assert!(state.promoting());
    assert!(state.promote(Variant::Knight));
    let pieces = state.get_pieces();
    let b8 = pieces.iter().find(|e| e.0 == pos(1, 7)).unwrap();
    assert_eq!(b8.1.variant, Variant::Knight);
    assert_eq!(b8.1.colour, Colour::White);
}

#[test]
fn promote_without_pending_promotion_fails() {
    let mut state = State::new();
    assert!(!state.promote(Variant::Queen));
    assert_eq!(count_moves(&state), 20);
}

#[test]
fn pinned_piece_may_not_expose_the_king() {
    // the white knight on e2 is pinned by the rook on e8
    let state = State::from_fen("4r1k1/8/8/8/8/8/4N3/4K3 w - - 0 1").unwrap();
    assert!(!state.is_valid_move(pos(4, 1), pos(2, 2)));
    assert!(!state.is_valid_move(pos(4, 1), pos(6, 2)));
}
