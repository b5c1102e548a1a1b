use chess::history::BoardStates;
use chess::piece::{Colour, EndState, Variant};
use chess::square::Position;

fn pos(x: i8, y: i8) -> Position {
    Position::from_xy(x, y).unwrap()
}

fn play(timeline: &mut BoardStates, fx: i8, fy: i8, tx: i8, ty: i8) -> bool {
    match timeline.active().try_move(pos(fx, fy), pos(tx, ty)) {
        Some(next) => {
            timeline.add(next);
            true
        }
        None => false,
    }
}

#[test]
fn undo_redo_walk_the_recorded_branch() {
    let mut timeline = BoardStates::new();
    assert!(timeline.at_start());
    assert!(timeline.at_end());
    assert!(play(&mut timeline, 4, 1, 4, 3)); // e2-e4
    assert!(play(&mut timeline, 4, 6, 4, 4)); // e7-e5
    assert!(!timeline.at_start());
    assert!(timeline.at_end());
    timeline.undo();
    assert!(!timeline.at_end());
    assert_eq!(timeline.active().state.get_turn(), Colour::Black);
    timeline.redo();
    assert!(timeline.at_end());
    assert_eq!(timeline.active().state.get_turn(), Colour::White);
}

#[test]
fn commit_after_undo_discards_the_branch() {
    let mut timeline = BoardStates::new();
    assert!(play(&mut timeline, 4, 1, 4, 3)); // first commit: e2-e4
    assert!(play(&mut timeline, 4, 6, 4, 4)); // second commit: e7-e5
    timeline.undo();
    assert!(play(&mut timeline, 3, 6, 3, 4)); // new branch: d7-d5
    // the discarded branch is unreachable: redo is a no-op
    assert!(timeline.at_end());
    timeline.redo();
    assert!(timeline.at_end());
    assert_eq!(timeline.active().last_move, Some((pos(3, 6), pos(3, 4))));
    // undo three times from end = 2, current = 2 reaches the start, and
    // one more undo is a no-op
    timeline.undo();
    timeline.undo();
    assert!(timeline.at_start());
    timeline.undo();
    assert!(timeline.at_start());
    assert!(timeline.active().last_move.is_none());
}

#[test]
fn reset_rewinds_without_truncating() {
    let mut timeline = BoardStates::new();
    assert!(play(&mut timeline, 4, 1, 4, 3));
    assert!(play(&mut timeline, 4, 6, 4, 4));
    timeline.reset();
    assert!(timeline.at_start());
    assert!(!timeline.at_end());
    timeline.redo();
    timeline.redo();
    assert!(timeline.at_end());
    assert_eq!(timeline.active().last_move, Some((pos(4, 6), pos(4, 4))));
}

#[test]
fn threefold_repetition_on_third_occurrence_not_second() {
    let mut timeline = BoardStates::new();
    // one knight shuffle: the starting placement returns (2nd occurrence)
    assert!(play(&mut timeline, 6, 0, 5, 2)); // Ng1-f3
    assert!(play(&mut timeline, 6, 7, 5, 5)); // Ng8-f6
    assert!(play(&mut timeline, 5, 2, 6, 0)); // Nf3-g1
    assert!(play(&mut timeline, 5, 5, 6, 7)); // Nf6-g8
    assert!(timeline.active().state.ended().is_none());
    // second shuffle: 3rd occurrence triggers the repetition draw
    assert!(play(&mut timeline, 6, 0, 5, 2));
    assert!(play(&mut timeline, 6, 7, 5, 5));
    assert!(play(&mut timeline, 5, 2, 6, 0));
    assert!(play(&mut timeline, 5, 5, 6, 7));
    assert_eq!(
        *timeline.active().state.ended(),
        Some(EndState::ThreefoldRepetition)
    );
    assert!(timeline.active().piece_moves.is_empty());
    // no further move is accepted
    assert!(!play(&mut timeline, 4, 1, 4, 3));
}

#[test]
fn timeline_promotion_updates_the_active_snapshot() {
    let mut timeline = BoardStates::new();
    // steer a white pawn to promotion: 1. b4 a5 2. bxa5 Nc6 3. a6 Rb8
    // 4. axb7 Na5 5. bxc8
    assert!(play(&mut timeline, 1, 1, 1, 3));
    assert!(play(&mut timeline, 0, 6, 0, 4));
    assert!(play(&mut timeline, 1, 3, 0, 4));
    assert!(play(&mut timeline, 1, 7, 2, 5));
    assert!(play(&mut timeline, 0, 4, 0, 5));
    assert!(play(&mut timeline, 0, 7, 1, 7));
    assert!(play(&mut timeline, 0, 5, 1, 6));
    assert!(play(&mut timeline, 2, 5, 0, 4));
    assert!(play(&mut timeline, 1, 6, 2, 7));
    assert!(timeline.active().state.promoting());
    assert!(timeline.promote(Variant::Queen));
    assert!(!timeline.active().state.promoting());
    assert_eq!(timeline.active().state.get_turn(), Colour::Black);
}
