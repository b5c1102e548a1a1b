//! The position: placement, side to move, castling rights, en-passant
//! target, pending promotion, the current legal-move set and the
//! terminal classification, with the invariant tying them together.

use vstd::prelude::*;
use crate::piece::{Colour, EndState, Piece, Variant, opp};
use crate::square::{valid_sq, Position};
use crate::attack::{Placement, in_check_spec};
use crate::moves::{
    MoveEntry, MoveInfo, MoveType, StateInfo, apply_info, board_after, board_move, has_key,
    keys_unique, legal_move, move_info_spec, moves_complete, moves_ok, pseudo_move,
};

verus! {

broadcast use crate::square::group_position_axioms;

/// A square holds a pawn, rook or queen: mate remains achievable.
pub open spec fn heavy_piece_at(b: Placement, s: int) -> bool {
    b[s] matches Some(p) && (p.variant is Pawn || p.variant is Rook || p.variant is Queen)
}

/// How many knights and bishops of colour `c` stand on squares below `n`.
pub open spec fn count_minors(b: Placement, c: Colour, n: int) -> int
    decreases n,
{
    if n <= 0 {
        0
    } else {
        count_minors(b, c, n - 1) + if b[n - 1] matches Some(p) && p.colour == c && (p.variant
            is Knight || p.variant is Bishop) {
            1int
        } else {
            0int
        }
    }
}

/// Mate is still achievable: a pawn, rook or queen remains, or one side
/// keeps more than one minor piece.
pub open spec fn has_sufficient_material(b: Placement) -> bool {
    ||| exists|s: int| 0 <= s < 64 && #[trigger] heavy_piece_at(b, s)
    ||| count_minors(b, Colour::White, 64) > 1
    ||| count_minors(b, Colour::Black, 64) > 1
}

/// No move of colour `c` is legal on this core.
pub open spec fn no_legal_moves(b: Placement, info: StateInfo, c: Colour) -> bool {
    forall|f: int, t: int| !legal_move(b, info, c, f, t)
}

/// A chess position together with its derived legal-move set and
/// terminal classification.
pub struct State {
    /// One optional piece per square, indexed by packed square index.
    pub board: Vec<Option<Piece>>,
    /// The current legal-move set; empty while a promotion is pending
    /// or the game has ended.
    pub moves: Vec<MoveEntry>,
    /// The side to move.
    pub turn: Colour,
    /// Castling rights, en-passant target and pending promotion.
    pub info: StateInfo,
    /// The terminal classification, if the game has ended.
    pub ended: Option<EndState>,
}

impl State {
    /// The derived fields match what the classifier computes from the
    /// core (placement, rights, side to move): either the exact legal
    /// move set with no terminal state, or an empty set with the
    /// matching terminal state.
    pub open spec fn classified(self) -> bool {
        let b = self.board@;
        &&& keys_unique(self.moves@)
        &&& moves_ok(self.moves@, b, self.info, self.turn)
        &&& if no_legal_moves(b, self.info, self.turn) {
            self.moves@.len() == 0 && self.ended == Some(
                if in_check_spec(b, self.turn) {
                    EndState::Checkmate(opp(self.turn))
                } else {
                    EndState::Stalemate
                },
            )
        } else if !has_sufficient_material(b) {
            self.moves@.len() == 0 && self.ended == Some(EndState::InsufficientMaterial)
        } else {
            self.ended is None && moves_complete(self.moves@, b, self.info, self.turn)
                && self.moves@.len() > 0
        }
    }

    /// Well-formedness of a position as handed to callers.
    pub open spec fn inv(self) -> bool {
        let b = self.board@;
        &&& b.len() == 64
        &&& keys_unique(self.moves@)
        &&& moves_ok(self.moves@, b, self.info, self.turn)
        &&& match self.info.promoting {
            Some(pp) => {
                &&& valid_sq(pp@)
                &&& b[pp@] == Some(Piece { colour: self.turn, variant: Variant::Pawn })
                &&& self.moves@.len() == 0
                &&& !in_check_spec(b, self.turn)
            },
            None => {
                &&& !in_check_spec(b, opp(self.turn))
                &&& match self.ended {
                    None => {
                        &&& moves_complete(self.moves@, b, self.info, self.turn)
                        &&& self.moves@.len() > 0
                        &&& has_sufficient_material(b)
                    },
                    Some(EndState::Checkmate(w)) => {
                        &&& w == opp(self.turn)
                        &&& in_check_spec(b, self.turn)
                        &&& no_legal_moves(b, self.info, self.turn)
                        &&& self.moves@.len() == 0
                    },
                    Some(EndState::Stalemate) => {
                        &&& !in_check_spec(b, self.turn)
                        &&& no_legal_moves(b, self.info, self.turn)
                        &&& self.moves@.len() == 0
                    },
                    Some(EndState::InsufficientMaterial) => {
                        &&& !has_sufficient_material(b)
                        &&& !no_legal_moves(b, self.info, self.turn)
                        &&& self.moves@.len() == 0
                    },
                    Some(EndState::ThreefoldRepetition) => self.moves@.len() == 0,
                }
            },
        }
    }

    /// A position whose classifier just ran, whose non-mover is safe and
    /// which has no pending promotion, is well-formed.
    pub proof fn lemma_classified_inv(self)
        requires
            self.board@.len() == 64,
            self.classified(),
            self.info.promoting is None,
            !in_check_spec(self.board@, opp(self.turn)),
        ensures
            self.inv(),
    {
    }

    /// The piece on square `p`, if any.
    pub fn at(&self, p: Position) -> (r: Option<Piece>)
        requires
            self.board@.len() == 64,
        ensures
            r == self.board@[p@],
    {
        proof { use_type_invariant(&p); }
        self.board[p.index() as usize]
    }

    /// Relocates the piece on `from` to `to`, overwriting any piece on
    /// `to`; does nothing when `from` is empty.
    pub(crate) fn move_piece(&mut self, from: Position, to: Position)
        requires
            old(self).board@.len() == 64,
        ensures
            final(self).board@ == board_move(old(self).board@, from@, to@),
            final(self).board@.len() == 64,
            final(self).moves == old(self).moves,
            final(self).turn == old(self).turn,
            final(self).info == old(self).info,
            final(self).ended == old(self).ended,
    {
        proof {
            use_type_invariant(&from);
            use_type_invariant(&to);
        }
        let f = from.index() as usize;
        let t = to.index() as usize;
        let p = self.board[f];
        if p.is_some() {
            self.board.set(t, p);
            self.board.set(f, None);
        }
    }

    /// Applies a move: relocates the piece, folds in the move's delta,
    /// and performs the paired effect (castle rook move or en-passant
    /// removal).
    pub(crate) fn make_move(&mut self, from: Position, to: Position, info: MoveInfo)
        requires
            old(self).board@.len() == 64,
        ensures
            final(self).board@ == board_after(old(self).board@, from@, to@, info),
            final(self).board@.len() == 64,
            final(self).info == apply_info(old(self).info, info.state_info),
            final(self).moves == old(self).moves,
            final(self).turn == old(self).turn,
            final(self).ended == old(self).ended,
    {
        self.move_piece(from, to);
        self.info.apply(info.state_info);
        match info.move_type {
            MoveType::Castle(rf, rt) => self.move_piece(rf, rt),
            MoveType::EnPassant(p) => {
                proof { use_type_invariant(&p); }
                self.board.set(p.index() as usize, None);
            },
            MoveType::Normal => {},
        }
    }

    /// Whether the pair `(from, to)` is currently a legal move; no move
    /// is valid while a promotion is pending.
    pub fn is_valid_move(&self, from: Position, to: Position) -> (r: bool)
        ensures
            r == (self.info.promoting is None && has_key(self.moves@, from@, to@)),
    {
        if self.info.promoting.is_none() {
            let n = self.moves.len();
            let mut i: usize = 0;
            while i < n
                invariant
                    self.info.promoting is None,
                    n == self.moves@.len(),
                    0 <= i <= n,
                    forall|j: int|
                        0 <= j < i ==> !((#[trigger] self.moves@[j]).from@ == from@
                            && self.moves@[j].to@ == to@),
                decreases n - i,
            {
                let e = self.moves[i];
                proof {
                    crate::square::lemma_position_view_injective(e.from, from);
                    crate::square::lemma_position_view_injective(e.to, to);
                }
                if e.from == from && e.to == to {
                    proof {
                        use_type_invariant(&from);
                        use_type_invariant(&to);
                    }
                    assert(self.moves@[i as int].from@ == from@ && self.moves@[i as int].to@
                        == to@);
                    assert(has_key(self.moves@, from@, to@)) by {
                        assert(0 <= i < self.moves@.len() && (self.moves@[i as int]).from@ == from@
                            && self.moves@[i as int].to@ == to@);
                    }
                    return true;
                }
                i += 1;
            }
            assert(!has_key(self.moves@, from@, to@));
            false
        } else {
            false
        }
    }

    /// The side to move.
    pub fn get_turn(&self) -> (r: Colour)
        ensures
            r == self.turn,
    {
        self.turn
    }

    /// Whether a promotion is pending.
    pub fn promoting(&self) -> (r: bool)
        ensures
            r == (self.info.promoting is Some),
    {
        self.info.promoting.is_some()
    }

    /// The terminal classification, if the game has ended.
    pub fn ended(&self) -> (r: &Option<EndState>)
        ensures
            *r == self.ended,
    {
        &self.ended
    }

    /// Marks this position as drawn by threefold repetition and empties
    /// its legal-move set.
    pub fn threefold_repetition(&mut self)
        requires
            old(self).inv(),
        ensures
            final(self).inv(),
            final(self).ended == Some(EndState::ThreefoldRepetition),
            final(self).moves@.len() == 0,
            final(self).board == old(self).board,
            final(self).turn == old(self).turn,
            final(self).info == old(self).info,
    {
        self.ended = Some(EndState::ThreefoldRepetition);
        self.moves = Vec::new();
    }
}


/// A move whose metadata carries a pending promotion is a pawn move that
/// leaves the moved pawn on the promotion square.
pub proof fn lemma_promotion_square(b: Placement, si: StateInfo, c: Colour, f: int, t: int)
    requires
        b.len() == 64,
        pseudo_move(b, si, c, f, t),
        move_info_spec(b, c, f, t).state_info.promoting is Some,
    ensures
        move_info_spec(b, c, f, t).state_info.promoting == Some(crate::square::pos_of(t)),
        valid_sq(t),
        board_after(b, f, t, move_info_spec(b, c, f, t))[t] == Some(
            Piece { colour: c, variant: Variant::Pawn },
        ),
        board_after(b, f, t, move_info_spec(b, c, f, t)).len() == 64,
{
    if crate::attack::capture_move(b, si.en_passant, c, f, t) {
        assert(f != t);
    } else if crate::moves::pawn_push_move(b, c, f, t) {
        assert(f != t);
    } else {
        assert(crate::moves::castle_move(b, si, c, f, t));
        assert(false);
    }
}

impl State {
    /// The stored metadata of the move `(from, to)`, if it is currently
    /// legal.
    fn lookup_move(&self, from: Position, to: Position) -> (r: Option<MoveInfo>)
        ensures
            r is Some <==> has_key(self.moves@, from@, to@),
            r matches Some(info) ==> exists|i: int|
                0 <= i < self.moves@.len() && (#[trigger] self.moves@[i]).from@ == from@
                    && self.moves@[i].to@ == to@ && self.moves@[i].info == info,
    {
        let n = self.moves.len();
        let mut i: usize = 0;
        while i < n
            invariant
                n == self.moves@.len(),
                0 <= i <= n,
                forall|j: int|
                    0 <= j < i ==> !((#[trigger] self.moves@[j]).from@ == from@
                        && self.moves@[j].to@ == to@),
            decreases n - i,
        {
            let e = self.moves[i];
            proof {
                crate::square::lemma_position_view_injective(e.from, from);
                crate::square::lemma_position_view_injective(e.to, to);
            }
            if e.from == from && e.to == to {
                assert(self.moves@[i as int].from@ == from@ && self.moves@[i as int].to@ == to@);
                return Some(e.info);
            }
            i += 1;
        }
        assert(!has_key(self.moves@, from@, to@));
        None
    }

    /// Plays the move `(from, to)` if it is legal and no promotion is
    /// pending. On success the move is applied; unless it leaves a
    /// promotion pending, the turn passes to the opponent and the
    /// legal-move set and terminal state are regenerated.
    pub fn try_move(&mut self, from: Position, to: Position) -> (r: bool)
        requires
            old(self).inv(),
        ensures
            final(self).inv(),
            r == (old(self).info.promoting is None && has_key(old(self).moves@, from@, to@)),
            !r ==> final(self).board == old(self).board && final(self).moves == old(self).moves
                && final(self).turn == old(self).turn && final(self).info == old(self).info
                && final(self).ended == old(self).ended,
            r ==> ({
                let info = move_info_spec(old(self).board@, old(self).turn, from@, to@);
                let nb = board_after(old(self).board@, from@, to@, info);
                let ni = apply_info(old(self).info, info.state_info);
                &&& final(self).board@ == nb
                &&& final(self).info == ni
                &&& (ni.promoting is Some ==> final(self).turn == old(self).turn
                    && final(self).moves@.len() == 0 && final(self).ended == old(self).ended)
                &&& (ni.promoting is None ==> final(self).turn == opp(old(self).turn)
                    && final(self).classified())
            }),
    {
        let ghost b = old(self).board@;
        let ghost si = old(self).info;
        let ghost c = old(self).turn;
        if self.info.promoting.is_some() {
            return false;
        }
        match self.lookup_move(from, to) {
            None => false,
            Some(info) => {
                proof {
                    let i = choose|i: int|
                        0 <= i < self.moves@.len() && (#[trigger] self.moves@[i]).from@ == from@
                            && self.moves@[i].to@ == to@ && self.moves@[i].info == info;
                    assert(legal_move(b, si, c, from@, to@));
                    assert(info == move_info_spec(b, c, from@, to@));
                }
                self.make_move(from, to, info);
                if self.info.promoting.is_none() {
                    self.turn.flip();
                    proof {
                        assert(opp(opp(c)) == c) by {
                            if c is White {
                            } else {
                            }
                        }
                    }
                    let ok = self.gen_legal_moves();
                    proof {
                        assert(ok);
                        self.lemma_classified_inv();
                    }
                } else {
                    self.moves = Vec::new();
                    proof {
                        lemma_promotion_square(b, si, c, from@, to@);
                    }
                }
                true
            },
        }
    }

    /// Resolves a pending promotion by replacing the promoted pawn with
    /// the chosen piece, which must be a knight, bishop, rook or queen;
    /// the turn then passes to the opponent and the legal-move set and
    /// terminal state are regenerated.
    pub fn promote(&mut self, variant: Variant) -> (r: bool)
        requires
            old(self).inv(),
        ensures
            final(self).inv(),
            r == (old(self).info.promoting is Some && (variant is Knight || variant is Bishop
                || variant is Rook || variant is Queen)),
            !r ==> final(self).board == old(self).board && final(self).moves == old(self).moves
                && final(self).turn == old(self).turn && final(self).info == old(self).info
                && final(self).ended == old(self).ended,
            r ==> ({
                let pp = old(self).info.promoting->Some_0;
                let nb = old(self).board@.update(
                    pp@,
                    Some(Piece { colour: old(self).turn, variant }),
                );
                &&& final(self).board@ == nb
                &&& final(self).turn == opp(old(self).turn)
                &&& final(self).info == (StateInfo { promoting: None, ..old(self).info })
                &&& final(self).classified()
            }),
    {
        let ghost b = old(self).board@;
        let ghost c = old(self).turn;
        let keep: bool = match variant {
            Variant::Knight | Variant::Bishop | Variant::Rook | Variant::Queen => true,
            _ => false,
        };
        match self.info.promoting {
            Some(pos) => {
                if keep {
                    proof {
                        use_type_invariant(&pos);
                    }
                    let p = Piece { colour: self.turn, variant };
                    self.board.set(pos.index() as usize, Some(p));
                    proof {
                        if in_check_spec(self.board@, c) {
                            crate::attack::lemma_check_after_own_update(b, pos@, p, c);
                        }
                        assert(!in_check_spec(self.board@, c));
                    }
                    self.info.promoting = None;
                    self.turn.flip();
                    proof {
                        assert(opp(opp(c)) == c) by {
                            if c is White {
                            } else {
                            }
                        }
                    }
                    let ok = self.gen_legal_moves();
                    proof {
                        assert(ok);
                        self.lemma_classified_inv();
                    }
                    true
                } else {
                    false
                }
            },
            None => false,
        }
    }
}



/// The destination list holds a position whose packed index is `t`.
pub open spec fn pos_listed(d: Seq<Position>, t: int) -> bool {
    exists|j: int| 0 <= j < d.len() && (#[trigger] d[j])@ == t
}

/// The piece list holds an entry for square `q`.
pub open spec fn square_listed(r: Seq<(Position, Piece)>, q: int) -> bool {
    exists|i: int| 0 <= i < r.len() && (#[trigger] r[i]).0@ == q
}

/// The grouped move view holds the pair `(f, t)`.
pub open spec fn grouped_contains(r: Seq<(Position, Vec<Position>)>, f: int, t: int) -> bool {
    exists|i: int, j: int|
        0 <= i < r.len() && (#[trigger] r[i]).0@ == f && 0 <= j < r[i].1@.len()
            && (#[trigger] r[i].1@[j])@ == t
}

proof fn lemma_push_pos(d: Seq<Position>, p: Position)
    ensures
        forall|t: int|
            #![trigger pos_listed(d.push(p), t)]
            #![trigger pos_listed(d, t)]
            pos_listed(d.push(p), t) <==> pos_listed(d, t) || t == p@,
{
    let d2 = d.push(p);
    assert forall|t: int| pos_listed(d2, t) <==> pos_listed(d, t) || t == p@ by {
        if pos_listed(d2, t) {
            let j = choose|j: int| 0 <= j < d2.len() && (#[trigger] d2[j])@ == t;
            if j < d.len() {
                assert(d[j] == d2[j]);
            } else {
                assert(d2[j] == p);
            }
        }
        if pos_listed(d, t) {
            let j = choose|j: int| 0 <= j < d.len() && (#[trigger] d[j])@ == t;
            assert(d2[j] == d[j]);
        }
        if t == p@ {
            assert(d2[d.len() as int] == p);
        }
    }
}

proof fn lemma_push_square(r: Seq<(Position, Piece)>, e: (Position, Piece))
    ensures
        forall|q: int|
            #![trigger square_listed(r.push(e), q)]
            #![trigger square_listed(r, q)]
            square_listed(r.push(e), q) <==> square_listed(r, q) || q == e.0@,
{
    let r2 = r.push(e);
    assert forall|q: int| square_listed(r2, q) <==> square_listed(r, q) || q == e.0@ by {
        if square_listed(r2, q) {
            let i = choose|i: int| 0 <= i < r2.len() && (#[trigger] r2[i]).0@ == q;
            if i < r.len() {
                assert(r[i] == r2[i]);
            } else {
                assert(r2[i] == e);
            }
        }
        if square_listed(r, q) {
            let i = choose|i: int| 0 <= i < r.len() && (#[trigger] r[i]).0@ == q;
            assert(r2[i] == r[i]);
        }
        if q == e.0@ {
            assert(r2[r.len() as int] == e);
        }
    }
}

proof fn lemma_push_group(r: Seq<(Position, Vec<Position>)>, g: (Position, Vec<Position>))
    ensures
        forall|f: int, t: int|
            #![trigger grouped_contains(r.push(g), f, t)]
            #![trigger grouped_contains(r, f, t)]
            grouped_contains(r.push(g), f, t) <==> grouped_contains(r, f, t) || (f == g.0@
                && pos_listed(g.1@, t)),
{
    let r2 = r.push(g);
    assert forall|f: int, t: int|
        grouped_contains(r2, f, t) <==> grouped_contains(r, f, t) || (f == g.0@ && pos_listed(
            g.1@,
            t,
        )) by {
        if grouped_contains(r2, f, t) {
            let (i, j) = choose|i: int, j: int|
                0 <= i < r2.len() && (#[trigger] r2[i]).0@ == f && 0 <= j < r2[i].1@.len()
                    && (#[trigger] r2[i].1@[j])@ == t;
            if i < r.len() {
                assert(r[i] == r2[i]);
                assert(grouped_contains(r, f, t));
            } else {
                assert(r2[i] == g);
                assert(0 <= j < g.1@.len() && (g.1@[j])@ == t);
            }
        }
        if grouped_contains(r, f, t) {
            let (i, j) = choose|i: int, j: int|
                0 <= i < r.len() && (#[trigger] r[i]).0@ == f && 0 <= j < r[i].1@.len()
                    && (#[trigger] r[i].1@[j])@ == t;
            assert(r2[i] == r[i]);
            assert(grouped_contains(r2, f, t));
        }
        if f == g.0@ && pos_listed(g.1@, t) {
            let j = choose|j: int| 0 <= j < g.1@.len() && (#[trigger] g.1@[j])@ == t;
            assert((r2[r.len() as int]).0@ == f && (r2[r.len() as int]).1@[j]@ == t);
            assert(grouped_contains(r2, f, t));
        }
    }
}

/// Whether the destination list holds this square.
fn positions_contain(v: &Vec<Position>, t: Position) -> (r: bool)
    ensures
        r == pos_listed(v@, t@),
{
    let n = v.len();
    let mut i: usize = 0;
    while i < n
        invariant
            n == v@.len(),
            0 <= i <= n,
            forall|j: int| 0 <= j < i ==> (#[trigger] v@[j])@ != t@,
        decreases n - i,
    {
        let e = v[i];
        proof {
            crate::square::lemma_position_view_injective(e, t);
        }
        if e == t {
            assert(v@[i as int]@ == t@);
            return true;
        }
        i += 1;
    }
    false
}

impl State {
    /// The occupied squares and their pieces, in square order.
    pub fn get_pieces(&self) -> (r: Vec<(Position, Piece)>)
        requires
            self.board@.len() == 64,
        ensures
            forall|i: int|
                0 <= i < r@.len() ==> self.board@[(#[trigger] r@[i]).0@] == Some(r@[i].1),
            forall|q: int|
                0 <= q < 64 && self.board@[q] is Some ==> square_listed(r@, q),
            forall|i: int, j: int| 0 <= i < j < r@.len() ==> (#[trigger] r@[i]).0@ < (
            #[trigger] r@[j]).0@,
    {
        let mut r: Vec<(Position, Piece)> = Vec::new();
        let mut s: u8 = 0;
        while s < 64
            invariant
                self.board@.len() == 64,
                0 <= s <= 64,
                forall|i: int|
                    0 <= i < r@.len() ==> self.board@[(#[trigger] r@[i]).0@] == Some(r@[i].1)
                        && 0 <= r@[i].0@ < s,
                forall|q: int|
                    0 <= q < s && self.board@[q] is Some ==> square_listed(r@, q),
                forall|i: int, j: int| 0 <= i < j < r@.len() ==> (#[trigger] r@[i]).0@ < (
                #[trigger] r@[j]).0@,
            decreases 64 - s,
        {
            match self.board[s as usize] {
                Some(p) => {
                    let e = (Position::from_index(s), p);
                    proof {
                        lemma_push_square(r@, e);
                    }
                    r.push(e);
                    proof {
                        assert((r@[r@.len() - 1]).0@ == s as int && (r@[r@.len() - 1]).1 == p);
                    }
                },
                None => {},
            }
            s += 1;
        }
        r
    }

    /// The current legal moves grouped by origin square: each origin
    /// with one or more legal moves appears once, with the exact set of
    /// its destinations.
    pub fn get_piece_moves(&self) -> (r: Vec<(Position, Vec<Position>)>)
        requires
            self.inv(),
        ensures
            forall|f: int, t: int|
                #![trigger has_key(self.moves@, f, t)]
                #![trigger grouped_contains(r@, f, t)]
                grouped_contains(r@, f, t) <==> has_key(self.moves@, f, t),
            forall|i: int, j: int|
                0 <= i < j < r@.len() ==> (#[trigger] r@[i]).0@ != (#[trigger] r@[j]).0@,
            forall|i: int, j1: int, j2: int|
                #![trigger r@[i].1@[j1], r@[i].1@[j2]]
                0 <= i < r@.len() && 0 <= j1 < j2 < r@[i].1@.len() ==> (r@[i].1@[j1])@ != (r@[
                    i].1@[j2])@,
    {
        let ghost mv = self.moves@;
        let n = self.moves.len();
        let mut r: Vec<(Position, Vec<Position>)> = Vec::new();
        let mut s: u8 = 0;
        while s < 64
            invariant
                self.inv(),
                mv == self.moves@,
                n == self.moves@.len(),
                0 <= s <= 64,
                forall|i: int| 0 <= i < r@.len() ==> 0 <= (#[trigger] r@[i]).0@ < s,
                forall|i: int, j: int| 0 <= i < j < r@.len() ==> (#[trigger] r@[i]).0@ != (
                #[trigger] r@[j]).0@,
                forall|i: int, j1: int, j2: int|
                    #![trigger r@[i].1@[j1], r@[i].1@[j2]]
                    0 <= i < r@.len() && 0 <= j1 < j2 < r@[i].1@.len() ==> (r@[i].1@[j1])@ != (r@[
                        i].1@[j2])@,
                forall|f: int, t: int|
                    #![trigger grouped_contains(r@, f, t)]
                    #![trigger has_key(mv, f, t)]
                    grouped_contains(r@, f, t) <==> (0 <= f < s && has_key(mv, f, t)),
            decreases 64 - s,
        {
            let from = Position::from_index(s);
            let ghost fv = from@;
            let mut dests: Vec<Position> = Vec::new();
            let mut k: usize = 0;
            while k < n
                invariant
                    self.inv(),
                    mv == self.moves@,
                    n == self.moves@.len(),
                    fv == from@,
                    0 <= k <= n,
                    forall|j: int| 0 <= j < dests@.len() ==> has_key(mv, fv, (#[trigger] dests@[
                        j])@),
                    forall|kk: int|
                        0 <= kk < k && (#[trigger] mv[kk]).from@ == fv ==> pos_listed(
                            dests@,
                            mv[kk].to@,
                        ),
                    forall|j1: int, j2: int|
                        0 <= j1 < j2 < dests@.len() ==> (#[trigger] dests@[j1])@ != (
                        #[trigger] dests@[j2])@,
                decreases n - k,
            {
                let e = self.moves[k];
                proof {
                    crate::square::lemma_position_view_injective(e.from, from);
                }
                if e.from == from {
                    if !positions_contain(&dests, e.to) {
                        proof {
                            lemma_push_pos(dests@, e.to);
                        }
                        dests.push(e.to);
                        proof {
                            assert(dests@[dests@.len() - 1] == e.to);
                            assert(mv[k as int].from@ == fv && mv[k as int].to@ == e.to@);
                            assert(has_key(mv, fv, e.to@));
                        }
                    } else {
                        proof {
                            assert(pos_listed(dests@, mv[k as int].to@));
                        }
                    }
                } else {
                    proof {
                        assert(mv[k as int].from@ != fv);
                    }
                }
                k += 1;
            }
            if dests.len() > 0 {
                proof {
                    lemma_push_group(r@, (from, dests));
                }
                let ghost gd = dests@;
                r.push((from, dests));
                proof {
                    assert forall|f: int, t: int|
                        grouped_contains(r@, f, t) <==> (0 <= f < s + 1 && has_key(mv, f, t)) by {
                        if f == fv {
                            if pos_listed(gd, t) {
                                let j = choose|j: int|
                                    0 <= j < gd.len() && (#[trigger] gd[j])@ == t;
                                assert(has_key(mv, fv, gd[j]@));
                            }
                            if has_key(mv, f, t) {
                                let kk = choose|kk: int|
                                    0 <= kk < mv.len() && (#[trigger] mv[kk]).from@ == f
                                        && mv[kk].to@ == t;
                                assert(pos_listed(gd, mv[kk].to@));
                            }
                        }
                    }
                }
            } else {
                proof {
                    assert forall|f: int, t: int|
                        grouped_contains(r@, f, t) <==> (0 <= f < s + 1 && has_key(mv, f, t)) by {
                        if f == fv && has_key(mv, f, t) {
                            let kk = choose|kk: int|
                                0 <= kk < mv.len() && (#[trigger] mv[kk]).from@ == f && mv[kk].to@
                                    == t;
                            assert(pos_listed(dests@, mv[kk].to@));
                            let j = choose|j: int|
                                0 <= j < dests@.len() && (#[trigger] dests@[j])@ == mv[kk].to@;
                            assert(false);
                        }
                    }
                }
            }
            s += 1;
        }
        proof {
            assert forall|f: int, t: int| #[trigger] has_key(mv, f, t) implies 0 <= f < 64 by {
                let i = choose|i: int|
                    0 <= i < mv.len() && (#[trigger] mv[i]).from@ == f && mv[i].to@ == t;
                assert(legal_move(self.board@, self.info, self.turn, f, mv[i].to@));
            }
        }
        r
    }

    /// The square of the side to move's king, when that king stands in
    /// check; `None` otherwise.
    pub fn king_in_check(&self) -> (r: Option<Position>)
        requires
            self.board@.len() == 64,
        ensures
            r is Some <==> in_check_spec(self.board@, self.turn),
            r matches Some(p) ==> self.board@[p@] == Some(
                Piece { colour: self.turn, variant: Variant::King },
            ),
    {
        if self.in_check() {
            let mut s: u8 = 0;
            while s < 64
                invariant
                    self.board@.len() == 64,
                    in_check_spec(self.board@, self.turn),
                    0 <= s <= 64,
                    forall|q: int|
                        0 <= q < s ==> self.board@[q] != Some(
                            Piece { colour: self.turn, variant: Variant::King },
                        ),
                decreases 64 - s,
            {
                match self.board[s as usize] {
                    Some(p) => {
                        if p.colour == self.turn && p.variant == Variant::King {
                            return Some(Position::from_index(s));
                        }
                    },
                    None => {},
                }
                s += 1;
            }
            proof {
                let (f, t) = choose|f: int, t: int|
                    #[trigger] crate::attack::attacks(self.board@, opp(self.turn), f, t)
                        && self.board@[t] == Some(
                        Piece { colour: self.turn, variant: Variant::King },
                    );
                assert(false);
            }
            None
        } else {
            None
        }
    }
}



/// Full repetition equality between two positions: placement, side to
/// move, all four castling rights and the en-passant target; the derived
/// legal-move set and terminal state are excluded.
pub open spec fn pos_equal(a: State, b: State) -> bool {
    &&& a.board@ == b.board@
    &&& a.turn == b.turn
    &&& a.info.white_short == b.info.white_short
    &&& a.info.white_long == b.info.white_long
    &&& a.info.black_short == b.info.black_short
    &&& a.info.black_long == b.info.black_long
    &&& a.info.en_passant == b.info.en_passant
}

impl Clone for State {
    /// An exact copy of the position.
    fn clone(&self) -> (r: Self)
        ensures
            r.board@ == self.board@,
            r.moves@ == self.moves@,
            r.turn == self.turn,
            r.info == self.info,
            r.ended == self.ended,
            self.inv() ==> r.inv(),
    {
        let n = self.board.len();
        let mut board: Vec<Option<Piece>> = Vec::new();
        let mut i: usize = 0;
        while i < n
            invariant
                n == self.board@.len(),
                0 <= i <= n,
                board@.len() == i,
                forall|j: int| 0 <= j < i ==> board@[j] == self.board@[j],
            decreases n - i,
        {
            board.push(self.board[i]);
            i += 1;
        }
        let m = self.moves.len();
        let mut moves: Vec<MoveEntry> = Vec::new();
        let mut k: usize = 0;
        while k < m
            invariant
                m == self.moves@.len(),
                0 <= k <= m,
                moves@.len() == k,
                forall|j: int| 0 <= j < k ==> moves@[j] == self.moves@[j],
            decreases m - k,
        {
            moves.push(self.moves[k]);
            k += 1;
        }
        proof {
            assert(board@ =~= self.board@);
            assert(moves@ =~= self.moves@);
        }
        let r = State { board, moves, turn: self.turn, info: self.info, ended: self.ended };
        proof {
            if self.inv() {
                assert(r.inv());
            }
        }
        r
    }
}

impl PartialEq for State {
    /// Repetition equality (see `pos_equal`).
    fn eq(&self, other: &State) -> (r: bool) {
        if self.board.len() != other.board.len() {
            proof {
                assert(self.board@.len() != other.board@.len());
            }
            return false;
        }
        let n = self.board.len();
        let mut i: usize = 0;
        while i < n
            invariant
                n == self.board@.len(),
                n == other.board@.len(),
                0 <= i <= n,
                forall|j: int| 0 <= j < i ==> self.board@[j] == other.board@[j],
            decreases n - i,
        {
            let a = self.board[i];
            let b = other.board[i];
            let same = match (a, b) {
                (None, None) => true,
                (Some(p), Some(q)) => p == q,
                _ => false,
            };
            if !same {
                proof {
                    assert(self.board@[i as int] != other.board@[i as int]);
                }
                return false;
            }
            i += 1;
        }
        proof {
            assert(self.board@ =~= other.board@);
        }
        let ep_same = match (self.info.en_passant, other.info.en_passant) {
            (None, None) => true,
            (Some(a), Some(b)) => a == b,
            _ => false,
        };
        self.turn == other.turn && self.info.white_short == other.info.white_short
            && self.info.white_long == other.info.white_long && self.info.black_short
            == other.info.black_short && self.info.black_long == other.info.black_long && ep_same
    }
}

impl Eq for State {

}

impl vstd::std_specs::cmp::PartialEqSpecImpl for State {
    open spec fn obeys_eq_spec() -> bool {
        true
    }

    open spec fn eq_spec(&self, other: &State) -> bool {
        pos_equal(*self, *other)
    }
}


} // verus!
