//! The engine's stated laws, proved once and for all over the model:
//! soundness of the legality filter, the stuck-position classification,
//! the castling preconditions, the monotonicity of castling rights, and
//! the en-passant life cycle.

use vstd::prelude::*;
use crate::piece::{EndState, Piece, Variant, opp};
use crate::square::{pos_of, sq, sq_x, sq_y};
use crate::attack::{capture_move, in_check_spec, pawn_dir};
use crate::moves::{
    StateInfo, apply_info, board_after, castle_move, has_key, legal_move, move_info_spec,
    pawn_push_move,
};
use crate::state::{State, has_sufficient_material, no_legal_moves};

verus! {

broadcast use crate::square::group_position_axioms;

/// Legality-filter soundness: every member of the legal-move set of a
/// well-formed position leaves the mover's own king out of check on the
/// placement that results from playing it.
pub proof fn lemma_legal_moves_keep_king_safe(st: State, f: int, t: int)
    requires
        st.inv(),
        has_key(st.moves@, f, t),
    ensures
        legal_move(st.board@, st.info, st.turn, f, t),
        !in_check_spec(
            board_after(st.board@, f, t, move_info_spec(st.board@, st.turn, f, t)),
            st.turn,
        ),
{
    let i = choose|i: int|
        0 <= i < st.moves@.len() && (#[trigger] st.moves@[i]).from@ == f && st.moves@[i].to@ == t;
    assert(legal_move(st.board@, st.info, st.turn, f, t));
}

/// Stuck-position classification: a well-formed position with no legal
/// moves, no pending promotion and no injected repetition draw is
/// checkmate exactly when the side to move stands in check, and
/// stalemate otherwise.
pub proof fn lemma_stuck_position_classification(st: State)
    requires
        st.inv(),
        st.info.promoting is None,
        no_legal_moves(st.board@, st.info, st.turn),
        st.ended != Some(EndState::ThreefoldRepetition),
    ensures
        st.ended == Some(
            if in_check_spec(st.board@, st.turn) {
                EndState::Checkmate(opp(st.turn))
            } else {
                EndState::Stalemate
            },
        ),
{
    match st.ended {
        None => {
            assert(st.moves@.len() > 0);
            assert(legal_move(st.board@, st.info, st.turn, st.moves@[0].from@, st.moves@[0].to@));
            assert(false);
        },
        Some(EndState::InsufficientMaterial) => {
            assert(false);
        },
        _ => {},
    }
}

/// A position with moves to play but not enough material for either side
/// ever to deliver mate is classified as an insufficient-material draw.
pub proof fn lemma_insufficient_material_classification(st: State)
    requires
        st.inv(),
        st.info.promoting is None,
        !no_legal_moves(st.board@, st.info, st.turn),
        !has_sufficient_material(st.board@),
        st.ended != Some(EndState::ThreefoldRepetition),
    ensures
        st.ended == Some(EndState::InsufficientMaterial),
{
    match st.ended {
        Some(EndState::Checkmate(_)) => {
            assert(false);
        },
        Some(EndState::Stalemate) => {
            assert(false);
        },
        None => {
            assert(false);
        },
        _ => {},
    }
}

/// Castling preconditions: a legal king move of two squares sideways is
/// a castle, so the matching right is still held, the king does not
/// stand in check, the squares between king and rook are empty, and the
/// square the king crosses is not attacked (stated by `castle_move`).
pub proof fn lemma_castling_preconditions(st: State, f: int, t: int)
    requires
        st.inv(),
        has_key(st.moves@, f, t),
        st.board@[f] matches Some(p) && p.variant is King,
        sq_x(t) == sq_x(f) + 2 || sq_x(t) == sq_x(f) - 2,
    ensures
        castle_move(st.board@, st.info, st.turn, f, t),
        !in_check_spec(st.board@, st.turn),
{
    lemma_legal_moves_keep_king_safe(st, f, t);
    if capture_move(st.board@, st.info.en_passant, st.turn, f, t) {
        assert(false);
    }
    if pawn_push_move(st.board@, st.turn, f, t) {
        assert(false);
    }
}

/// Castling rights are monotone: applying any move's delta never
/// restores a right that was already gone, so a revoked right stays
/// revoked for the rest of the game.
pub proof fn lemma_rights_never_restored(cur: StateInfo, d: StateInfo)
    ensures
        apply_info(cur, d).white_short ==> cur.white_short,
        apply_info(cur, d).white_long ==> cur.white_long,
        apply_info(cur, d).black_short ==> cur.black_short,
        apply_info(cur, d).black_long ==> cur.black_long,
{
}

/// A legal pawn double step publishes the skipped square as the
/// en-passant target of the resulting position.
pub proof fn lemma_double_step_sets_en_passant(st: State, f: int, t: int)
    requires
        st.inv(),
        has_key(st.moves@, f, t),
        st.board@[f] matches Some(p) && p.variant is Pawn,
        sq_y(t) == sq_y(f) + 2 * pawn_dir(st.turn),
    ensures
        apply_info(st.info, move_info_spec(st.board@, st.turn, f, t).state_info).en_passant
            == Some(pos_of(sq(sq_x(f), sq_y(f) + pawn_dir(st.turn)))),
{
    lemma_legal_moves_keep_king_safe(st, f, t);
    if capture_move(st.board@, st.info.en_passant, st.turn, f, t) {
        assert(sq_y(t) - sq_y(f) == pawn_dir(st.turn));
        assert(false);
    }
    if castle_move(st.board@, st.info, st.turn, f, t) {
        assert(false);
    }
    assert(pawn_push_move(st.board@, st.turn, f, t));
}

/// A legal en-passant capture — a pawn striking an empty square —
/// removes the passed pawn from the square it skipped over, not the
/// landing square, which receives the capturing pawn.
pub proof fn lemma_en_passant_removes_passed_pawn(st: State, f: int, t: int)
    requires
        st.inv(),
        has_key(st.moves@, f, t),
        st.board@[f] matches Some(p) && p.variant is Pawn,
        st.board@[t] is None,
        sq_x(t) != sq_x(f),
    ensures
        board_after(st.board@, f, t, move_info_spec(st.board@, st.turn, f, t))[sq(
            sq_x(t),
            sq_y(f),
        )] is None,
        board_after(st.board@, f, t, move_info_spec(st.board@, st.turn, f, t))[t] == Some(
            Piece { colour: st.turn, variant: Variant::Pawn },
        ),
{
    lemma_legal_moves_keep_king_safe(st, f, t);
    if pawn_push_move(st.board@, st.turn, f, t) {
        assert(false);
    }
    if castle_move(st.board@, st.info, st.turn, f, t) {
        assert(false);
    }
    assert(capture_move(st.board@, st.info.en_passant, st.turn, f, t));
    let info = move_info_spec(st.board@, st.turn, f, t);
    assert(info.move_type == crate::moves::MoveType::EnPassant(pos_of(sq(sq_x(t), sq_y(f)))));
    let passed = sq(sq_x(t), sq_y(f));
    crate::square::lemma_sq_decompose(f);
    crate::square::lemma_sq_decompose(t);
    crate::square::lemma_sq_coords(sq_x(t), sq_y(f));
    assert(passed != t && passed != f);
    assert(f != t);
}

/// The en-passant target lives one ply: applying the delta of any legal
/// move that is not itself a pawn double step clears it, even if it went
/// unused.
pub proof fn lemma_en_passant_expires(st: State, f: int, t: int)
    requires
        st.inv(),
        has_key(st.moves@, f, t),
        !(st.board@[f] matches Some(p) && p.variant is Pawn && sq_y(t) == sq_y(f) + 2 * pawn_dir(
            st.turn,
        )),
    ensures
        apply_info(st.info, move_info_spec(st.board@, st.turn, f, t).state_info).en_passant
            is None,
{
    lemma_legal_moves_keep_king_safe(st, f, t);
    if capture_move(st.board@, st.info.en_passant, st.turn, f, t) {
    } else if pawn_push_move(st.board@, st.turn, f, t) {
    } else {
        assert(castle_move(st.board@, st.info, st.turn, f, t));
    }
}

} // verus!
