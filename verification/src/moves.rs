//! Move metadata and the legality model: what each legal move carries
//! (castling-right deltas, en-passant / castle / promotion tags), how a
//! move transforms the placement, and which moves are pseudo-legal and
//! legal on a position core (placement, rights, side to move).

use vstd::prelude::*;
use crate::piece::{Colour, Piece, Variant};
use crate::square::{sq, sq_x, sq_y, valid_sq, pos_of, Position};
use crate::attack::{
    Placement, capture_move, in_check_spec, pawn_dir,
};

verus! {

/// Castling rights, the en-passant target, and the pending-promotion
/// square. Also used as a per-move delta: rights are intersected into
/// the position, the two options overwrite it.
#[derive(Clone, Copy, Debug)]
pub struct StateInfo {
    pub white_short: bool,
    pub white_long: bool,
    pub black_short: bool,
    pub black_long: bool,
    pub en_passant: Option<Position>,
    pub promoting: Option<Position>,
}

/// The delta that changes nothing: all rights kept, no en-passant
/// target, no pending promotion.
pub open spec fn info_default() -> StateInfo {
    StateInfo {
        white_short: true,
        white_long: true,
        black_short: true,
        black_long: true,
        en_passant: None,
        promoting: None,
    }
}

impl Default for StateInfo {
    fn default() -> (r: Self)
        ensures
            r == info_default(),
    {
        StateInfo {
            white_short: true,
            white_long: true,
            black_short: true,
            black_long: true,
            en_passant: None,
            promoting: None,
        }
    }
}

/// Applying a move's delta: rights can only be revoked (logical and);
/// the en-passant target and pending promotion are overwritten.
pub open spec fn apply_info(cur: StateInfo, d: StateInfo) -> StateInfo {
    StateInfo {
        white_short: cur.white_short && d.white_short,
        white_long: cur.white_long && d.white_long,
        black_short: cur.black_short && d.black_short,
        black_long: cur.black_long && d.black_long,
        en_passant: d.en_passant,
        promoting: d.promoting,
    }
}

impl StateInfo {
    /// Folds a move's delta into this info.
    pub fn apply(&mut self, other: StateInfo)
        ensures
            *final(self) == apply_info(*old(self), other),
    {
        self.white_short = self.white_short && other.white_short;
        self.white_long = self.white_long && other.white_long;
        self.black_short = self.black_short && other.black_short;
        self.black_long = self.black_long && other.black_long;
        self.en_passant = other.en_passant;
        self.promoting = other.promoting;
    }
}

/// The special-move tag of a legal move.
#[derive(Clone, Copy, Debug)]
pub enum MoveType {
    /// No paired effect.
    Normal,
    /// Castling: the paired rook moves from the first square to the second.
    Castle(Position, Position),
    /// En passant: the pawn on the given square is removed.
    EnPassant(Position),
}

impl Default for MoveType {
    fn default() -> (r: Self)
        ensures
            r == MoveType::Normal,
    {
        MoveType::Normal
    }
}

/// What a legal move carries: its state delta and its special-move tag.
#[derive(Clone, Copy, Debug)]
pub struct MoveInfo {
    pub state_info: StateInfo,
    pub move_type: MoveType,
}

/// The metadata of a move that changes nothing beyond the moved piece.
pub open spec fn move_info_default() -> MoveInfo {
    MoveInfo { state_info: info_default(), move_type: MoveType::Normal }
}

impl Default for MoveInfo {
    fn default() -> (r: Self)
        ensures
            r == move_info_default(),
    {
        MoveInfo { state_info: StateInfo::default(), move_type: MoveType::default() }
    }
}

/// One legal move: its endpoints and its metadata.
#[derive(Clone, Copy, Debug)]
pub struct MoveEntry {
    pub from: Position,
    pub to: Position,
    pub info: MoveInfo,
}

/// The move set holds a move from `f` to `t`.
pub open spec fn has_key(s: Seq<MoveEntry>, f: int, t: int) -> bool {
    exists|i: int| 0 <= i < s.len() && (#[trigger] s[i]).from@ == f && s[i].to@ == t
}

/// No two entries share their `(from, to)` key.
pub open spec fn keys_unique(s: Seq<MoveEntry>) -> bool {
    forall|i: int, j: int|
        0 <= i < s.len() && 0 <= j < s.len() && (#[trigger] s[i]).from@ == (#[trigger] s[j]).from@
            && s[i].to@ == s[j].to@ ==> i == j
}

/// Relocating the piece on `f` to `t` (capturing whatever stood there);
/// nothing happens when `f` is empty.
pub open spec fn board_move(b: Placement, f: int, t: int) -> Placement {
    if b[f] is Some {
        b.update(t, b[f]).update(f, None)
    } else {
        b
    }
}

/// The placement after a move and its paired effect: a castle also
/// relocates the rook, an en-passant capture removes the passed pawn.
pub open spec fn board_after(b: Placement, f: int, t: int, info: MoveInfo) -> Placement {
    let b1 = board_move(b, f, t);
    match info.move_type {
        MoveType::Normal => b1,
        MoveType::Castle(rf, rt) => board_move(b1, rf@, rt@),
        MoveType::EnPassant(p) => b1.update(p@, None),
    }
}

/// The pawn's home rank, from which a double step may start.
pub open spec fn home_rank(c: Colour) -> int {
    if c is White {
        1
    } else {
        6
    }
}

/// The rank on which a pawn of colour `c` promotes.
pub open spec fn last_rank(c: Colour) -> int {
    if c is White {
        7
    } else {
        0
    }
}

/// Whether colour `c` still holds the kingside castling right.
pub open spec fn right_short(info: StateInfo, c: Colour) -> bool {
    if c is White {
        info.white_short
    } else {
        info.black_short
    }
}

/// Whether colour `c` still holds the queenside castling right.
pub open spec fn right_long(info: StateInfo, c: Colour) -> bool {
    if c is White {
        info.white_long
    } else {
        info.black_long
    }
}

/// A single or double pawn push: straight ahead onto an empty square;
/// the double step only from the home rank and across an empty square.
pub open spec fn pawn_push_move(b: Placement, c: Colour, f: int, t: int) -> bool {
    &&& valid_sq(f)
    &&& valid_sq(t)
    &&& b[f] == Some(Piece { colour: c, variant: Variant::Pawn })
    &&& sq_x(t) == sq_x(f)
    &&& b[t] is None
    &&& {
        ||| sq_y(t) == sq_y(f) + pawn_dir(c)
        ||| (sq_y(f) == home_rank(c) && sq_y(t) == sq_y(f) + 2 * pawn_dir(c) && b[sq(
            sq_x(f),
            sq_y(f) + pawn_dir(c),
        )] is None)
    }
}

/// A castle: the king moves two squares sideways. Requires the matching
/// right, a king not in check, empty squares between king and rook, an
/// unattacked square for the king to cross, and room for the paired rook.
pub open spec fn castle_move(b: Placement, info: StateInfo, c: Colour, f: int, t: int) -> bool {
    let fx = sq_x(f);
    let fy = sq_y(f);
    &&& valid_sq(f)
    &&& valid_sq(t)
    &&& b[f] == Some(Piece { colour: c, variant: Variant::King })
    &&& sq_y(t) == fy
    &&& !in_check_spec(b, c)
    &&& {
        ||| (sq_x(t) == fx + 2 && right_short(info, c) && fx + 3 <= 7 && b[sq(fx + 1, fy)] is None
            && b[sq(fx + 2, fy)] is None && !in_check_spec(board_move(b, f, sq(fx + 1, fy)), c))
        ||| (sq_x(t) == fx - 2 && right_long(info, c) && fx - 4 >= 0 && b[sq(fx - 1, fy)] is None
            && b[sq(fx - 2, fy)] is None && b[sq(fx - 3, fy)] is None && !in_check_spec(
            board_move(b, f, sq(fx - 1, fy)),
            c,
        ))
    }
}

/// Clears both castling rights of colour `c` in a delta.
pub open spec fn clear_rights(base: StateInfo, c: Colour) -> StateInfo {
    if c is White {
        StateInfo { white_short: false, white_long: false, ..base }
    } else {
        StateInfo { black_short: false, black_long: false, ..base }
    }
}

/// Revokes in a delta the rights tied to the corner squares touched by
/// the move: a rook leaving, or anything landing on, a corner revokes
/// the matching right.
pub open spec fn corner_rights(base: StateInfo, f: int, t: int) -> StateInfo {
    StateInfo {
        white_long: base.white_long && f != 0 && t != 0,
        white_short: base.white_short && f != 7 && t != 7,
        black_long: base.black_long && f != 56 && t != 56,
        black_short: base.black_short && f != 63 && t != 63,
        ..base
    }
}

/// The metadata of a capture-pass move of colour `c` from `f` to `t`:
/// a king move clears the mover's rights; a capturing pawn reaching the
/// last rank sets the pending promotion; a pawn striking an empty square
/// is an en-passant capture; corner squares revoke matching rights.
pub open spec fn capture_info_spec(b: Placement, c: Colour, f: int, t: int) -> MoveInfo {
    let p = b[f]->Some_0;
    let si0 = if p.variant is King {
        clear_rights(info_default(), c)
    } else if p.variant is Pawn && b[t] is Some && sq_y(t) == last_rank(c) {
        StateInfo { promoting: Some(pos_of(t)), ..info_default() }
    } else {
        info_default()
    };
    let mt = if p.variant is Pawn && b[t] is None {
        MoveType::EnPassant(pos_of(sq(sq_x(t), sq_y(f))))
    } else {
        MoveType::Normal
    };
    MoveInfo { state_info: corner_rights(si0, f, t), move_type: mt }
}

/// The metadata of a pawn push: a double step publishes the skipped
/// square as en-passant target; reaching the last rank sets the pending
/// promotion.
pub open spec fn push_info_spec(c: Colour, f: int, t: int) -> MoveInfo {
    if sq_y(t) == sq_y(f) + 2 * pawn_dir(c) {
        MoveInfo {
            state_info: StateInfo {
                en_passant: Some(pos_of(sq(sq_x(f), sq_y(f) + pawn_dir(c)))),
                ..info_default()
            },
            move_type: MoveType::Normal,
        }
    } else if sq_y(t) == last_rank(c) {
        MoveInfo {
            state_info: StateInfo { promoting: Some(pos_of(t)), ..info_default() },
            move_type: MoveType::Normal,
        }
    } else {
        move_info_default()
    }
}

/// The metadata of a castle: the mover's rights are cleared and the
/// paired rook relocation is recorded.
pub open spec fn castle_info_spec(c: Colour, f: int, t: int) -> MoveInfo {
    let fx = sq_x(f);
    let fy = sq_y(f);
    let mt = if sq_x(t) == fx + 2 {
        MoveType::Castle(pos_of(sq(fx + 3, fy)), pos_of(sq(fx + 1, fy)))
    } else {
        MoveType::Castle(pos_of(sq(fx - 4, fy)), pos_of(sq(fx - 1, fy)))
    };
    MoveInfo { state_info: clear_rights(info_default(), c), move_type: mt }
}

/// The metadata of any move of colour `c` from `f` to `t`, dispatched on
/// the moved piece and the move's geometry.
pub open spec fn move_info_spec(b: Placement, c: Colour, f: int, t: int) -> MoveInfo {
    match b[f] {
        Some(p) => {
            if p.variant is Pawn && sq_x(t) == sq_x(f) {
                push_info_spec(c, f, t)
            } else if p.variant is King && (sq_x(t) == sq_x(f) + 2 || sq_x(t) == sq_x(f) - 2)
                && sq_y(t) == sq_y(f) {
                castle_info_spec(c, f, t)
            } else {
                capture_info_spec(b, c, f, t)
            }
        },
        None => move_info_default(),
    }
}

/// A pseudo-legal move: a capture-pass move, a pawn push, or a castle.
pub open spec fn pseudo_move(b: Placement, info: StateInfo, c: Colour, f: int, t: int) -> bool {
    ||| capture_move(b, info.en_passant, c, f, t)
    ||| pawn_push_move(b, c, f, t)
    ||| castle_move(b, info, c, f, t)
}

/// A legal move: pseudo-legal, and the mover's own king does not stand
/// in check on the resulting placement.
pub open spec fn legal_move(b: Placement, info: StateInfo, c: Colour, f: int, t: int) -> bool {
    pseudo_move(b, info, c, f, t) && !in_check_spec(
        board_after(b, f, t, move_info_spec(b, c, f, t)),
        c,
    )
}

/// Every entry of the move set is a legal move carrying its exact
/// metadata.
pub open spec fn moves_ok(s: Seq<MoveEntry>, b: Placement, info: StateInfo, c: Colour) -> bool {
    forall|i: int|
        0 <= i < s.len() ==> legal_move(b, info, c, (#[trigger] s[i]).from@, s[i].to@) && s[i].info
            == move_info_spec(b, c, s[i].from@, s[i].to@)
}

/// Every legal move appears in the move set.
pub open spec fn moves_complete(
    s: Seq<MoveEntry>,
    b: Placement,
    info: StateInfo,
    c: Colour,
) -> bool {
    forall|f: int, t: int| #[trigger] legal_move(b, info, c, f, t) ==> has_key(s, f, t)
}

} // verus!
