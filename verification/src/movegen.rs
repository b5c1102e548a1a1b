//! The move generator: the capture pass, the non-capture pass (pawn
//! pushes and castling), the legality filter, and the game-end
//! classifier, each proved against the model in `attack` and `moves`.

use vstd::prelude::*;
use crate::piece::{Colour, EndState, Piece, Variant, opp};
use crate::square::{
    sq, sq_x, sq_y, on_board, valid_sq, lemma_sq_decompose, Position,
};
use crate::attack::{
    Placement, attacks, bishop_hits, capture_dest_ok, capture_move, in_check_spec, king_at,
    king_move, knight_move, lemma_capture_king_iff_check, pawn_dir, pawn_strike, ray_hits,
    ray_on, ray_sq, rook_hits, unit_dir,
};
use crate::moves::{
    MoveEntry, MoveInfo, MoveType, StateInfo, board_after, capture_info_spec, castle_info_spec,
    castle_move, has_key, keys_unique, legal_move, move_info_default, move_info_spec,
    moves_complete, moves_ok, pawn_push_move, pseudo_move, push_info_spec,
};
use crate::state::no_legal_moves;
use crate::state::{State, count_minors, has_sufficient_material, heavy_piece_at};

verus! {

broadcast use {crate::square::group_position_axioms, crate::square::lemma_position_value};

/// The pair list holds `(f, t)`.
pub open spec fn has_pair(s: Seq<(Position, Position)>, f: int, t: int) -> bool {
    exists|i: int| 0 <= i < s.len() && (#[trigger] s[i]).0@ == f && s[i].1@ == t
}

/// The capture-pass destination condition for a piece other than a pawn.
pub open spec fn clear_dest(b: Placement, c: Colour, t: int) -> bool {
    !(b[t] matches Some(q) && q.colour == c)
}

proof fn lemma_push_pair(s: Seq<(Position, Position)>, p: (Position, Position))
    ensures
        forall|a: int, b: int|
            #![trigger has_pair(s.push(p), a, b)]
            #![trigger has_pair(s, a, b)]
            has_pair(s.push(p), a, b) <==> has_pair(s, a, b) || (a == p.0@ && b == p.1@),
{
    let s2 = s.push(p);
    assert forall|a: int, b: int|
        has_pair(s2, a, b) <==> has_pair(s, a, b) || (a == p.0@ && b == p.1@) by {
        if has_pair(s2, a, b) {
            let i = choose|i: int| 0 <= i < s2.len() && (#[trigger] s2[i]).0@ == a && s2[i].1@ == b;
            if i < s.len() {
                assert(s[i] == s2[i]);
                assert(has_pair(s, a, b));
            } else {
                assert(s2[i] == p);
            }
        }
        if has_pair(s, a, b) {
            let i = choose|i: int| 0 <= i < s.len() && (#[trigger] s[i]).0@ == a && s[i].1@ == b;
            assert(s2[i] == s[i]);
            assert(has_pair(s2, a, b));
        }
        if a == p.0@ && b == p.1@ {
            assert((s2[s.len() as int]).0@ == a && s2[s.len() as int].1@ == b);
            assert(has_pair(s2, a, b));
        }
    }
}

impl State {
    /// One diagonal pawn capture probe: adds `(from, from + (x, y))`
    /// when that square is on the board and holds an enemy piece or is
    /// the en-passant target.
    pub(crate) fn pawn_capture(
        &self,
        moves: &mut Vec<(Position, Position)>,
        from: Position,
        colour: Colour,
        x: i8,
        y: i8,
    )
        requires
            self.board@.len() == 64,
            -2 <= x <= 2,
            -2 <= y <= 2,
        ensures
            forall|a: int, b: int|
                has_pair(final(moves)@, a, b) <==> has_pair(old(moves)@, a, b) || {
                    &&& a == from@
                    &&& on_board(sq_x(from@) + x, sq_y(from@) + y)
                    &&& b == sq(sq_x(from@) + x, sq_y(from@) + y)
                    &&& capture_dest_ok(
                        self.board@,
                        self.info.en_passant,
                        Piece { colour, variant: Variant::Pawn },
                        b,
                    )
                },
    {
        if let Some(to) = from.offset_by(x, y) {
            match self.at(to) {
                Some(piece) => {
                    if piece.colour != colour {
                        proof { lemma_push_pair(moves@, (from, to)); }
                        moves.push((from, to));
                    }
                },
                None => {
                    if let Some(pos) = self.info.en_passant {
                        if pos == to {
                            proof { lemma_push_pair(moves@, (from, to)); }
                            moves.push((from, to));
                        } else {
                            proof {
                                crate::square::lemma_position_view_injective(pos, to);
                            }
                        }
                    }
                },
            }
        }
    }

    /// One fixed-offset probe for a knight or king: adds
    /// `(from, from + (x, y))` when that square is on the board and does
    /// not hold a friendly piece.
    pub(crate) fn non_sliding_moves(
        &self,
        moves: &mut Vec<(Position, Position)>,
        from: Position,
        colour: Colour,
        x: i8,
        y: i8,
    )
        requires
            self.board@.len() == 64,
            -2 <= x <= 2,
            -2 <= y <= 2,
        ensures
            forall|a: int, b: int|
                has_pair(final(moves)@, a, b) <==> has_pair(old(moves)@, a, b) || {
                    &&& a == from@
                    &&& on_board(sq_x(from@) + x, sq_y(from@) + y)
                    &&& b == sq(sq_x(from@) + x, sq_y(from@) + y)
                    &&& clear_dest(self.board@, colour, b)
                },
    {
        if let Some(to) = from.offset_by(x, y) {
            match self.at(to) {
                Some(piece) => {
                    if piece.colour != colour {
                        proof { lemma_push_pair(moves@, (from, to)); }
                        moves.push((from, to));
                    }
                },
                None => {
                    proof { lemma_push_pair(moves@, (from, to)); }
                    moves.push((from, to));
                },
            }
        }
    }

    /// One sliding ray: walks from `from` in direction `(dx, dy)` until
    /// blocked, adding every empty square passed and, if the blocking
    /// piece is an enemy, its square as well.
    #[verifier::rlimit(30)]
    pub(crate) fn sliding_moves(
        &self,
        moves: &mut Vec<(Position, Position)>,
        from: Position,
        colour: Colour,
        dx: i8,
        dy: i8,
    )
        requires
            self.board@.len() == 64,
            unit_dir(dx as int, dy as int),
        ensures
            forall|a: int, b: int|
                has_pair(final(moves)@, a, b) <==> has_pair(old(moves)@, a, b) || {
                    &&& a == from@
                    &&& ray_hits(self.board@, from@, b, dx as int, dy as int)
                    &&& clear_dest(self.board@, colour, b)
                },
    {
        proof { use_type_invariant(&from); }
        let ghost b = self.board@;
        let ghost f = from@;
        let ghost dxi = dx as int;
        let ghost dyi = dy as int;
        let mut k: i8 = 1;
        loop
            invariant_except_break
                forall|a: int, t: int|
                    has_pair(moves@, a, t) <==> has_pair(old(moves)@, a, t) || (a == f && exists|j:
                    int| 1 <= j < k && #[trigger] ray_sq(f, dxi, dyi, j) == t),
            invariant
                self.board@.len() == 64,
                valid_sq(f),
                unit_dir(dxi, dyi),
                dxi == dx as int,
                dyi == dy as int,
                b == self.board@,
                f == from@,
                1 <= k <= 8,
                forall|j: int|
                    1 <= j < k ==> ray_on(f, dxi, dyi, j) && b[#[trigger] ray_sq(f, dxi, dyi, j)]
                        is None,
            ensures
                forall|a: int, t: int|
                    has_pair(moves@, a, t) <==> has_pair(old(moves)@, a, t) || (a == f && ray_hits(
                        b,
                        f,
                        t,
                        dxi,
                        dyi,
                    ) && clear_dest(b, colour, t)),
            decreases 8 - k,
        {
            proof {
                assert(-8 <= dxi * (k as int) <= 8 && -8 <= dyi * (k as int) <= 8)
                    by (nonlinear_arith)
                    requires
                        -1 <= dxi <= 1,
                        -1 <= dyi <= 1,
                        1 <= k <= 8,
                ;
            }
            let kx = dx * k;
            let ky = dy * k;
            match from.offset_by(kx, ky) {
                None => {
                    proof {
                        assert(kx as int == dxi * (k as int) && ky as int == dyi * (k as int));
                        assert(!ray_on(f, dxi, dyi, k as int));
                        assert forall|t: int|
                            ray_hits(b, f, t, dxi, dyi) && clear_dest(b, colour, t) implies (
                        exists|j: int| 1 <= j < k && #[trigger] ray_sq(f, dxi, dyi, j) == t) by {
                            let kk = choose|kk: int|
                                1 <= kk <= 7 && #[trigger] ray_sq(f, dxi, dyi, kk) == t && ray_on(
                                    f,
                                    dxi,
                                    dyi,
                                    kk,
                                ) && crate::attack::ray_clear(b, f, dxi, dyi, kk);
                            if kk >= k {
                                lemma_escape_stays_off(f, dxi, dyi, k as int, kk);
                                assert(false);
                            }
                        }
                        assert forall|j: int|
                            1 <= j < k implies (ray_hits(b, f, ray_sq(f, dxi, dyi, j), dxi, dyi)
                            && clear_dest(b, colour, ray_sq(f, dxi, dyi, j))) by {
                            assert(crate::attack::ray_clear(b, f, dxi, dyi, j));
                            assert(1 <= j <= 7 && ray_sq(f, dxi, dyi, j) == ray_sq(f, dxi, dyi, j)
                                && ray_on(f, dxi, dyi, j));
                            assert(b[ray_sq(f, dxi, dyi, j)] is None);
                        }
                        assert forall|a: int, t: int|
                            has_pair(moves@, a, t) <==> has_pair(old(moves)@, a, t) || (a == f
                                && ray_hits(b, f, t, dxi, dyi) && clear_dest(b, colour, t)) by {
                            if has_pair(moves@, a, t) && !has_pair(old(moves)@, a, t) {
                                let j = choose|j: int|
                                    1 <= j < k && #[trigger] ray_sq(f, dxi, dyi, j) == t;
                                assert(ray_hits(b, f, ray_sq(f, dxi, dyi, j), dxi, dyi)
                                    && clear_dest(b, colour, ray_sq(f, dxi, dyi, j)));
                            }
                        }
                    }
                    break;
                },
                Some(to) => {
                    proof {
                        assert(kx as int == dxi * (k as int) && ky as int == dyi * (k as int));
                        assert(to@ == ray_sq(f, dxi, dyi, k as int));
                        assert(ray_on(f, dxi, dyi, k as int));
                    }
                    match self.at(to) {
                        Some(piece) => {
                            let ghost pre = moves@;
                            if piece.colour != colour {
                                proof { lemma_push_pair(moves@, (from, to)); }
                                moves.push((from, to));
                            }
                            proof {
                                lemma_blocked_ray_set(b, f, dxi, dyi, k as int, colour);
                                assert forall|a: int, t: int|
                                    has_pair(moves@, a, t) <==> has_pair(old(moves)@, a, t) || (a
                                        == f && ray_hits(b, f, t, dxi, dyi) && clear_dest(
                                        b,
                                        colour,
                                        t,
                                    )) by {
                                    if has_pair(moves@, a, t) && !has_pair(old(moves)@, a, t) {
                                        if has_pair(pre, a, t) {
                                            let j = choose|j: int|
                                                1 <= j < k && #[trigger] ray_sq(f, dxi, dyi, j)
                                                    == t;
                                            assert(crate::attack::ray_clear(b, f, dxi, dyi, j));
                                            assert(1 <= j <= 7 && ray_sq(f, dxi, dyi, j) == t
                                                && ray_on(f, dxi, dyi, j));
                                            assert(ray_hits(b, f, t, dxi, dyi));
                                            assert(b[t] is None);
                                        } else {
                                            assert(a == f && t == to@);
                                            assert(ray_hits(b, f, t, dxi, dyi) && clear_dest(
                                                b,
                                                colour,
                                                t,
                                            ));
                                        }
                                    }
                                    if a == f && ray_hits(b, f, t, dxi, dyi) && clear_dest(
                                        b,
                                        colour,
                                        t,
                                    ) {
                                        if exists|j: int|
                                            1 <= j < k && #[trigger] ray_sq(f, dxi, dyi, j) == t {
                                            assert(has_pair(pre, a, t));
                                        } else {
                                            assert(t == ray_sq(f, dxi, dyi, k as int)
                                                && b[ray_sq(f, dxi, dyi, k as int)]->Some_0.colour
                                                != colour);
                                            assert(piece.colour != colour);
                                            assert(has_pair(moves@, a, t));
                                        }
                                    }
                                }
                            }
                            break;
                        },
                        None => {
                            proof { lemma_push_pair(moves@, (from, to)); }
                            moves.push((from, to));
                            if k == 8 {
                                proof {
                                    lemma_eighth_off_board(f, dxi, dyi);
                                }
                            }
                            k += 1;
                        },
                    }
                },
            }
        }
    }


}


proof fn lemma_push_entry(s: Seq<MoveEntry>, e: MoveEntry)
    ensures
        forall|a: int, b: int|
            #![trigger has_key(s.push(e), a, b)]
            #![trigger has_key(s, a, b)]
            has_key(s.push(e), a, b) <==> has_key(s, a, b) || (a == e.from@ && b == e.to@),
        keys_unique(s) && !has_key(s, e.from@, e.to@) ==> keys_unique(s.push(e)),
{
    let s2 = s.push(e);
    assert forall|a: int, b: int|
        has_key(s2, a, b) <==> has_key(s, a, b) || (a == e.from@ && b == e.to@) by {
        if has_key(s2, a, b) {
            let i = choose|i: int| 0 <= i < s2.len() && (#[trigger] s2[i]).from@ == a && s2[i].to@
                == b;
            if i < s.len() {
                assert(s[i] == s2[i]);
                assert(has_key(s, a, b));
            } else {
                assert(s2[i] == e);
            }
        }
        if has_key(s, a, b) {
            let i = choose|i: int| 0 <= i < s.len() && (#[trigger] s[i]).from@ == a && s[i].to@
                == b;
            assert(s2[i] == s[i]);
            assert(has_key(s2, a, b));
        }
        if a == e.from@ && b == e.to@ {
            assert((s2[s.len() as int]).from@ == a && s2[s.len() as int].to@ == b);
            assert(has_key(s2, a, b));
        }
    }
    if keys_unique(s) && !has_key(s, e.from@, e.to@) {
        assert forall|i: int, j: int|
            0 <= i < s2.len() && 0 <= j < s2.len() && (#[trigger] s2[i]).from@ == (
            #[trigger] s2[j]).from@ && s2[i].to@ == s2[j].to@ implies i == j by {
            if i < s.len() && j < s.len() {
                assert(s[i] == s2[i] && s[j] == s2[j]);
            } else if i < s.len() && j == s.len() {
                assert(s[i] == s2[i] && s2[j] == e);
                assert(has_key(s, e.from@, e.to@));
            } else if j < s.len() && i == s.len() {
                assert(s[j] == s2[j] && s2[i] == e);
                assert(has_key(s, e.from@, e.to@));
            }
        }
    }
}

/// Whether the entry list holds a move from `f` to `t`.
fn entries_contain(v: &Vec<MoveEntry>, f: Position, t: Position) -> (r: bool)
    ensures
        r == has_key(v@, f@, t@),
{
    let n = v.len();
    let mut i: usize = 0;
    while i < n
        invariant
            n == v@.len(),
            0 <= i <= n,
            forall|j: int|
                0 <= j < i ==> !((#[trigger] v@[j]).from@ == f@ && v@[j].to@ == t@),
        decreases n - i,
    {
        let e = v[i];
        proof {
            crate::square::lemma_position_view_injective(e.from, f);
            crate::square::lemma_position_view_injective(e.to, t);
        }
        if e.from == f && e.to == t {
            assert(v@[i as int].from@ == f@ && v@[i as int].to@ == t@);
            return true;
        }
        i += 1;
    }
    false
}

impl State {
    /// The metadata of the capture-pass move `(from, to)` for `colour`.
    fn capture_info(&self, colour: Colour, from: Position, to: Position) -> (r: MoveInfo)
        requires
            self.board@.len() == 64,
            self.board@[from@] matches Some(p) && p.colour == colour,
        ensures
            r == capture_info_spec(self.board@, colour, from@, to@),
    {
        proof {
            use_type_invariant(&from);
            use_type_invariant(&to);
        }
        let p = self.at(from).unwrap();
        let mut info = MoveInfo::default();
        match p.variant {
            Variant::King => {
                if colour == Colour::White {
                    info.state_info.white_short = false;
                    info.state_info.white_long = false;
                } else {
                    info.state_info.black_short = false;
                    info.state_info.black_long = false;
                }
            },
            Variant::Pawn => {
                match self.at(to) {
                    Some(_) => {
                        if (colour == Colour::White && to.get_y() == 7) || (colour == Colour::Black
                            && to.get_y() == 0) {
                            info.state_info.promoting = Some(to);
                        }
                    },
                    None => {
                        info.move_type = MoveType::EnPassant(
                            Position::from_xy(to.get_x(), from.get_y()).unwrap(),
                        );
                    },
                }
            },
            _ => {},
        }
        let fi = from.index();
        let ti = to.index();
        if fi == 0 || ti == 0 {
            info.state_info.white_long = false;
        }
        if fi == 7 || ti == 7 {
            info.state_info.white_short = false;
        }
        if fi == 56 || ti == 56 {
            info.state_info.black_long = false;
        }
        if fi == 63 || ti == 63 {
            info.state_info.black_short = false;
        }
        info
    }

    /// The capture pass for `colour`: every move its pieces could play
    /// onto an enemy or en-passant square, each with its metadata; or
    /// `None` when one of them could capture a king, which signals that
    /// the opposing side already stands in check.
    pub(crate) fn gen_capture_moves(&self, colour: Colour) -> (r: Option<Vec<MoveEntry>>)
        requires
            self.board@.len() == 64,
        ensures
            ({
                let b = self.board@;
                let ep = self.info.en_passant;
                match r {
                    None => exists|f: int, t: int|
                        #[trigger] capture_move(b, ep, colour, f, t) && king_at(b, t),
                    Some(v) => {
                        &&& keys_unique(v@)
                        &&& forall|i: int|
                            0 <= i < v@.len() ==> capture_move(
                                b,
                                ep,
                                colour,
                                (#[trigger] v@[i]).from@,
                                v@[i].to@,
                            ) && v@[i].info == capture_info_spec(b, colour, v@[i].from@, v@[i].to@)
                        &&& forall|f: int, t: int|
                            #[trigger] capture_move(b, ep, colour, f, t) ==> has_key(v@, f, t)
                        &&& !(exists|f: int, t: int|
                            #[trigger] capture_move(b, ep, colour, f, t) && king_at(b, t))
                    },
                }
            }),
    {
        let ghost b = self.board@;
        let ghost ep = self.info.en_passant;
        let mut raw: Vec<(Position, Position)> = Vec::new();
        let mut s: u8 = 0;
        while s < 64
            invariant
                self.board@.len() == 64,
                b == self.board@,
                ep == self.info.en_passant,
                0 <= s <= 64,
                forall|a: int, t: int|
                    #![trigger has_pair(raw@, a, t)]
                    #![trigger capture_move(b, ep, colour, a, t)]
                    has_pair(raw@, a, t) <==> (0 <= a < s && capture_move(
                        b,
                        ep,
                        colour,
                        a,
                        t,
                    )),
            decreases 64 - s,
        {
            let from = Position::from_index(s);
            let ghost f = from@;
            let ghost pre = raw@;
            match self.at(from) {
                Some(moving) => {
                    if moving.colour == colour {
                        proof { lemma_sq_decompose(f); }
                        match moving.variant {
                            Variant::Pawn => {
                                let y: i8 = if colour == Colour::White {
                                    1
                                } else {
                                    -1
                                };
                                self.pawn_capture(&mut raw, from, colour, -1, y);
                                self.pawn_capture(&mut raw, from, colour, 1, y);
                                proof {
                                    assert forall|t: int|
                                        has_pair(raw@, f, t) <==> #[trigger] capture_move(
                                            b,
                                            ep,
                                            colour,
                                            f,
                                            t,
                                        ) by {
                                        if capture_move(b, ep, colour, f, t) {
                                            lemma_sq_decompose(t);
                                        }
                                    }
                                }
                            },
                            Variant::Knight => {
                                self.non_sliding_moves(&mut raw, from, colour, 2, 1);
                                self.non_sliding_moves(&mut raw, from, colour, 1, 2);
                                self.non_sliding_moves(&mut raw, from, colour, -1, 2);
                                self.non_sliding_moves(&mut raw, from, colour, -2, 1);
                                self.non_sliding_moves(&mut raw, from, colour, -2, -1);
                                self.non_sliding_moves(&mut raw, from, colour, -1, -2);
                                self.non_sliding_moves(&mut raw, from, colour, 1, -2);
                                self.non_sliding_moves(&mut raw, from, colour, 2, -1);
                                proof {
                                    assert forall|t: int|
                                        has_pair(raw@, f, t) <==> #[trigger] capture_move(
                                            b,
                                            ep,
                                            colour,
                                            f,
                                            t,
                                        ) by {
                                        if capture_move(b, ep, colour, f, t) {
                                            lemma_sq_decompose(t);
                                        }
                                    }
                                }
                            },
                            Variant::King => {
                                self.non_sliding_moves(&mut raw, from, colour, 1, 1);
                                self.non_sliding_moves(&mut raw, from, colour, -1, 1);
                                self.non_sliding_moves(&mut raw, from, colour, -1, -1);
                                self.non_sliding_moves(&mut raw, from, colour, 1, -1);
                                self.non_sliding_moves(&mut raw, from, colour, 1, 0);
                                self.non_sliding_moves(&mut raw, from, colour, 0, 1);
                                self.non_sliding_moves(&mut raw, from, colour, -1, 0);
                                self.non_sliding_moves(&mut raw, from, colour, 0, -1);
                                proof {
                                    assert forall|t: int|
                                        has_pair(raw@, f, t) <==> #[trigger] capture_move(
                                            b,
                                            ep,
                                            colour,
                                            f,
                                            t,
                                        ) by {
                                        if capture_move(b, ep, colour, f, t) {
                                            lemma_sq_decompose(t);
                                        }
                                    }
                                }
                            },
                            Variant::Bishop => {
                                self.sliding_moves(&mut raw, from, colour, 1, 1);
                                self.sliding_moves(&mut raw, from, colour, -1, 1);
                                self.sliding_moves(&mut raw, from, colour, -1, -1);
                                self.sliding_moves(&mut raw, from, colour, 1, -1);
                                proof {
                                    assert forall|t: int|
                                        has_pair(raw@, f, t) <==> #[trigger] capture_move(
                                            b,
                                            ep,
                                            colour,
                                            f,
                                            t,
                                        ) by {
                                        if capture_move(b, ep, colour, f, t) {
                                            lemma_sq_decompose(t);
                                        }
                                    }
                                }
                            },
                            Variant::Rook => {
                                self.sliding_moves(&mut raw, from, colour, 1, 0);
                                self.sliding_moves(&mut raw, from, colour, 0, 1);
                                self.sliding_moves(&mut raw, from, colour, -1, 0);
                                self.sliding_moves(&mut raw, from, colour, 0, -1);
                                proof {
                                    assert forall|t: int|
                                        has_pair(raw@, f, t) <==> #[trigger] capture_move(
                                            b,
                                            ep,
                                            colour,
                                            f,
                                            t,
                                        ) by {
                                        if capture_move(b, ep, colour, f, t) {
                                            lemma_sq_decompose(t);
                                        }
                                    }
                                }
                            },
                            Variant::Queen => {
                                self.sliding_moves(&mut raw, from, colour, 1, 1);
                                self.sliding_moves(&mut raw, from, colour, -1, 1);
                                self.sliding_moves(&mut raw, from, colour, -1, -1);
                                self.sliding_moves(&mut raw, from, colour, 1, -1);
                                self.sliding_moves(&mut raw, from, colour, 1, 0);
                                self.sliding_moves(&mut raw, from, colour, 0, 1);
                                self.sliding_moves(&mut raw, from, colour, -1, 0);
                                self.sliding_moves(&mut raw, from, colour, 0, -1);
                                proof {
                                    assert forall|t: int|
                                        has_pair(raw@, f, t) <==> #[trigger] capture_move(
                                            b,
                                            ep,
                                            colour,
                                            f,
                                            t,
                                        ) by {
                                        if capture_move(b, ep, colour, f, t) {
                                            lemma_sq_decompose(t);
                                        }
                                    }
                                }
                            },
                        }
                    } else {
                        proof {
                            assert(raw@ == pre);
                            assert(forall|t: int| !capture_move(b, ep, colour, f, t));
                        }
                    }
                },
                None => {
                    proof {
                        assert(raw@ == pre);
                        assert(forall|t: int| !capture_move(b, ep, colour, f, t));
                    }
                },
            }
            proof {
                assert forall|a: int, t: int|
                    has_pair(raw@, a, t) <==> (0 <= a < s + 1 && #[trigger] capture_move(
                        b,
                        ep,
                        colour,
                        a,
                        t,
                    )) by {
                    if a == f {
                        assert(has_pair(raw@, f, t) <==> capture_move(b, ep, colour, f, t));
                        assert(0 <= f < s + 1);
                        assert(has_pair(raw@, a, t) <==> (0 <= a < s + 1 && capture_move(
                            b,
                            ep,
                            colour,
                            a,
                            t,
                        )));
                    } else {
                        assert(has_pair(raw@, a, t) <==> has_pair(pre, a, t));
                        assert(has_pair(pre, a, t) <==> (0 <= a < s && capture_move(
                            b,
                            ep,
                            colour,
                            a,
                            t,
                        )));
                        assert(has_pair(raw@, a, t) <==> (0 <= a < s + 1 && capture_move(
                            b,
                            ep,
                            colour,
                            a,
                            t,
                        )));
                    }
                }
            }
            s += 1;
        }
        let ghost raw_snap = raw@;
        let mut out: Vec<MoveEntry> = Vec::new();
        let n = raw.len();
        let mut i: usize = 0;
        while i < n
            invariant
                self.board@.len() == 64,
                b == self.board@,
                ep == self.info.en_passant,
                n == raw@.len(),
                raw@ == raw_snap,
                0 <= i <= n,
                forall|a: int, t: int|
                    has_pair(raw@, a, t) <==> #[trigger] capture_move(b, ep, colour, a, t),
                keys_unique(out@),
                forall|idx: int|
                    0 <= idx < out@.len() ==> capture_move(
                        b,
                        ep,
                        colour,
                        (#[trigger] out@[idx]).from@,
                        out@[idx].to@,
                    ) && out@[idx].info == capture_info_spec(
                        b,
                        colour,
                        out@[idx].from@,
                        out@[idx].to@,
                    ),
                forall|j: int|
                    0 <= j < i ==> has_key(out@, (#[trigger] raw@[j]).0@, raw@[j].1@),
                forall|j: int| 0 <= j < i ==> !king_at(b, (#[trigger] raw@[j]).1@),
            decreases n - i,
        {
            let pr = raw[i];
            let pf = pr.0;
            let pt = pr.1;
            proof {
                assert(has_pair(raw@, raw@[i as int].0@, raw@[i as int].1@));
                assert(capture_move(b, ep, colour, pf@, pt@));
            }
            match self.at(pt) {
                Some(q) => {
                    if q.variant == Variant::King {
                        proof {
                            assert(capture_move(b, ep, colour, pf@, pt@) && king_at(b, pt@));
                        }
                        return None;
                    }
                },
                None => {},
            }
            if !entries_contain(&out, pf, pt) {
                let info = self.capture_info(colour, pf, pt);
                proof {
                    lemma_push_entry(out@, MoveEntry { from: pf, to: pt, info });
                }
                out.push(MoveEntry { from: pf, to: pt, info });
            }
            i += 1;
        }
        proof {
            assert forall|ff: int, t: int|
                #[trigger] capture_move(b, ep, colour, ff, t) implies has_key(out@, ff, t) by {
                assert(has_pair(raw@, ff, t));
                let j = choose|j: int|
                    0 <= j < raw@.len() && (#[trigger] raw@[j]).0@ == ff && raw@[j].1@ == t;
                assert(has_key(out@, raw@[j].0@, raw@[j].1@));
            }
            assert forall|ff: int, t: int|
                #[trigger] capture_move(b, ep, colour, ff, t) implies !king_at(b, t) by {
                assert(has_pair(raw@, ff, t));
                let j = choose|j: int|
                    0 <= j < raw@.len() && (#[trigger] raw@[j]).0@ == ff && raw@[j].1@ == t;
                assert(!king_at(b, raw@[j].1@));
            }
        }
        Some(out)
    }
}



/// Copies a placement vector.
fn clone_board(v: &Vec<Option<Piece>>) -> (r: Vec<Option<Piece>>)
    ensures
        r@ == v@,
{
    let n = v.len();
    let mut r: Vec<Option<Piece>> = Vec::new();
    let mut i: usize = 0;
    while i < n
        invariant
            n == v@.len(),
            0 <= i <= n,
            r@.len() == i,
            forall|j: int| 0 <= j < i ==> r@[j] == v@[j],
        decreases n - i,
    {
        r.push(v[i]);
        i += 1;
    }
    proof {
        assert(r@ =~= v@);
    }
    r
}

/// Inserts an entry unless its key is already present.
fn insert_entry(moves: &mut Vec<MoveEntry>, e: MoveEntry)
    requires
        keys_unique(old(moves)@),
    ensures
        keys_unique(final(moves)@),
        final(moves)@.len() >= old(moves)@.len(),
        forall|i: int| 0 <= i < old(moves)@.len() ==> final(moves)@[i] == old(moves)@[i],
        forall|i: int|
            old(moves)@.len() <= i < final(moves)@.len() ==> final(moves)@[i] == e,
        forall|a: int, b: int|
            #![trigger has_key(final(moves)@, a, b)]
            #![trigger has_key(old(moves)@, a, b)]
            has_key(final(moves)@, a, b) <==> has_key(old(moves)@, a, b) || (a == e.from@ && b
                == e.to@),
{
    if !entries_contain(moves, e.from, e.to) {
        proof { lemma_push_entry(moves@, e); }
        moves.push(e);
    }
}

impl State {
    /// Whether the side to move stands in check, decided by running the
    /// capture pass for the opposing side and watching for a move onto
    /// the king.
    pub(crate) fn in_check(&self) -> (r: bool)
        requires
            self.board@.len() == 64,
        ensures
            r == in_check_spec(self.board@, self.turn),
    {
        let other = self.turn.flipped();
        proof {
            lemma_capture_king_iff_check(self.board@, self.info.en_passant, other);
            assert(opp(opp(self.turn)) == self.turn) by {
                if self.turn is White {
                } else {
                }
            }
        }
        self.gen_capture_moves(other).is_none()
    }

    /// Whether the side to move would stand in check after playing the
    /// given move, decided on a scratch copy of the position.
    fn simulate_check(&self, from: Position, to: Position, info: MoveInfo) -> (r: bool)
        requires
            self.board@.len() == 64,
        ensures
            r == in_check_spec(board_after(self.board@, from@, to@, info), self.turn),
    {
        let mut sim = State {
            board: clone_board(&self.board),
            moves: Vec::new(),
            turn: self.turn,
            info: StateInfo::default(),
            ended: None,
        };
        sim.make_move(from, to, info);
        sim.in_check()
    }

    /// Whether mate remains achievable with the material on the board.
    pub(crate) fn check_material(&self) -> (r: bool)
        requires
            self.board@.len() == 64,
        ensures
            r == has_sufficient_material(self.board@),
    {
        let ghost b = self.board@;
        let mut minors_white: u8 = 0;
        let mut minors_black: u8 = 0;
        let mut s: u8 = 0;
        while s < 64
            invariant
                self.board@.len() == 64,
                b == self.board@,
                0 <= s <= 64,
                minors_white <= s,
                minors_black <= s,
                minors_white as int == count_minors(b, Colour::White, s as int),
                minors_black as int == count_minors(b, Colour::Black, s as int),
                forall|j: int| 0 <= j < s ==> !(#[trigger] heavy_piece_at(b, j)),
            decreases 64 - s,
        {
            match self.board[s as usize] {
                Some(p) => {
                    match p.variant {
                        Variant::Pawn | Variant::Rook | Variant::Queen => {
                            proof {
                                assert(heavy_piece_at(b, s as int));
                            }
                            return true;
                        },
                        Variant::Knight | Variant::Bishop => {
                            if p.colour == Colour::White {
                                minors_white += 1;
                            } else {
                                proof {
                                    assert(p.colour == Colour::Black) by {
                                        if p.colour is White {
                                        } else {
                                        }
                                    }
                                }
                                minors_black += 1;
                            }
                        },
                        Variant::King => {},
                    }
                },
                None => {},
            }
            proof {
                assert(count_minors(b, Colour::White, s as int + 1) == count_minors(
                    b,
                    Colour::White,
                    s as int,
                ) + if b[s as int] matches Some(p) && p.colour == Colour::White && (p.variant
                    is Knight || p.variant is Bishop) {
                    1int
                } else {
                    0int
                });
                assert(count_minors(b, Colour::Black, s as int + 1) == count_minors(
                    b,
                    Colour::Black,
                    s as int,
                ) + if b[s as int] matches Some(p) && p.colour == Colour::Black && (p.variant
                    is Knight || p.variant is Bishop) {
                    1int
                } else {
                    0int
                });
            }
            s += 1;
        }
        minors_white > 1 || minors_black > 1
    }

    /// Filters the current move set down to the moves that do not leave
    /// the mover's own king in check.
    fn filter_safe(&self) -> (r: Vec<MoveEntry>)
        requires
            self.board@.len() == 64,
            keys_unique(self.moves@),
        ensures
            keys_unique(r@),
            forall|i: int| 0 <= i < r@.len() ==> self.moves@.contains(#[trigger] r@[i]),
            forall|i: int|
                0 <= i < r@.len() ==> !in_check_spec(
                    board_after(self.board@, (#[trigger] r@[i]).from@, r@[i].to@, r@[i].info),
                    self.turn,
                ),
            forall|j: int|
                0 <= j < self.moves@.len() ==> (!in_check_spec(
                    board_after(
                        self.board@,
                        (#[trigger] self.moves@[j]).from@,
                        self.moves@[j].to@,
                        self.moves@[j].info,
                    ),
                    self.turn,
                ) ==> has_key(r@, self.moves@[j].from@, self.moves@[j].to@)),
    {
        let ghost b = self.board@;
        let n = self.moves.len();
        let mut retained: Vec<MoveEntry> = Vec::new();
        let mut i: usize = 0;
        while i < n
            invariant
                self.board@.len() == 64,
                b == self.board@,
                n == self.moves@.len(),
                keys_unique(self.moves@),
                0 <= i <= n,
                keys_unique(retained@),
                forall|idx: int|
                    0 <= idx < retained@.len() ==> self.moves@.contains(
                        #[trigger] retained@[idx],
                    ),
                forall|idx: int|
                    #![trigger retained@[idx]]
                    0 <= idx < retained@.len() ==> exists|j: int|
                        0 <= j < i && (#[trigger] self.moves@[j]) == retained@[idx],
                forall|idx: int|
                    0 <= idx < retained@.len() ==> !in_check_spec(
                        board_after(
                            b,
                            (#[trigger] retained@[idx]).from@,
                            retained@[idx].to@,
                            retained@[idx].info,
                        ),
                        self.turn,
                    ),
                forall|j: int|
                    0 <= j < i ==> (!in_check_spec(
                        board_after(
                            b,
                            (#[trigger] self.moves@[j]).from@,
                            self.moves@[j].to@,
                            self.moves@[j].info,
                        ),
                        self.turn,
                    ) ==> has_key(retained@, self.moves@[j].from@, self.moves@[j].to@)),
            decreases n - i,
        {
            let e = self.moves[i];
            let checked = self.simulate_check(e.from, e.to, e.info);
            if !checked {
                proof {
                    assert(!has_key(retained@, e.from@, e.to@)) by {
                        if has_key(retained@, e.from@, e.to@) {
                            let idx = choose|idx: int|
                                0 <= idx < retained@.len() && (#[trigger] retained@[idx]).from@
                                    == e.from@ && retained@[idx].to@ == e.to@;
                            let j = choose|j: int|
                                0 <= j < i && self.moves@[j] == retained@[idx];
                            assert(self.moves@[j].from@ == e.from@ && self.moves@[j].to@
                                == e.to@);
                            assert(self.moves@[i as int].from@ == e.from@
                                && self.moves@[i as int].to@ == e.to@);
                            assert(j == i);
                            assert(false);
                        }
                    }
                    lemma_push_entry(retained@, e);
                }
                retained.push(e);
                proof {
                    assert(retained@[retained@.len() - 1] == e && self.moves@[i as int] == e);
                    assert(self.moves@.contains(e));
                }
            }
            i += 1;
        }
        retained
    }
}



/// A capture-pass move's metadata is the general move metadata: its
/// geometry never matches the pawn-push or castle dispatch.
proof fn lemma_capture_info_is_move_info(
    b: Placement,
    ep: Option<Position>,
    c: Colour,
    f: int,
    t: int,
)
    requires
        capture_move(b, ep, c, f, t),
    ensures
        move_info_spec(b, c, f, t) == capture_info_spec(b, c, f, t),
{
    let p = b[f]->Some_0;
    match p.variant {
        Variant::Pawn => {
            assert(sq_x(t) != sq_x(f));
        },
        Variant::King => {
            assert(!(sq_x(t) == sq_x(f) + 2 || sq_x(t) == sq_x(f) - 2));
        },
        _ => {},
    }
}

impl State {
    /// The non-capture pass for the side to move: single and double pawn
    /// pushes onto empty squares, and castling where its conditions
    /// hold. Appends to the capture pass's move list.
    pub(crate) fn gen_other_moves(&self, moves: &mut Vec<MoveEntry>)
        requires
            self.board@.len() == 64,
            keys_unique(old(moves)@),
        ensures
            keys_unique(final(moves)@),
            final(moves)@.len() >= old(moves)@.len(),
            forall|i: int| 0 <= i < old(moves)@.len() ==> final(moves)@[i] == old(moves)@[i],
            forall|i: int|
                old(moves)@.len() <= i < final(moves)@.len() ==> ((pawn_push_move(
                    self.board@,
                    self.turn,
                    (#[trigger] final(moves)@[i]).from@,
                    final(moves)@[i].to@,
                ) || castle_move(
                    self.board@,
                    self.info,
                    self.turn,
                    final(moves)@[i].from@,
                    final(moves)@[i].to@,
                )) && final(moves)@[i].info == move_info_spec(
                    self.board@,
                    self.turn,
                    final(moves)@[i].from@,
                    final(moves)@[i].to@,
                )),
            forall|f: int, t: int|
                #[trigger] pawn_push_move(self.board@, self.turn, f, t) ==> has_key(
                    final(moves)@,
                    f,
                    t,
                ),
            forall|f: int, t: int|
                #[trigger] castle_move(self.board@, self.info, self.turn, f, t) ==> has_key(
                    final(moves)@,
                    f,
                    t,
                ),
    {
        let ghost b = self.board@;
        let ghost si = self.info;
        let ghost c = self.turn;
        let ghost n0 = old(moves)@.len();
        let mut s: u8 = 0;
        while s < 64
            invariant
                self.board@.len() == 64,
                b == self.board@,
                si == self.info,
                c == self.turn,
                n0 == old(moves)@.len(),
                0 <= s <= 64,
                keys_unique(moves@),
                moves@.len() >= n0,
                forall|i: int| 0 <= i < n0 ==> moves@[i] == old(moves)@[i],
                forall|i: int|
                    n0 <= i < moves@.len() ==> ((pawn_push_move(
                        b,
                        c,
                        (#[trigger] moves@[i]).from@,
                        moves@[i].to@,
                    ) || castle_move(b, si, c, moves@[i].from@, moves@[i].to@)) && moves@[i].info
                        == move_info_spec(b, c, moves@[i].from@, moves@[i].to@)),
                forall|f: int, t: int|
                    #![trigger pawn_push_move(b, c, f, t)]
                    (0 <= f < s && pawn_push_move(b, c, f, t)) ==> has_key(moves@, f, t),
                forall|f: int, t: int|
                    #![trigger castle_move(b, si, c, f, t)]
                    (0 <= f < s && castle_move(b, si, c, f, t)) ==> has_key(moves@, f, t),
            decreases 64 - s,
        {
            let from = Position::from_index(s);
            let ghost f = from@;
            proof {
                lemma_sq_decompose(f);
            }
            match self.at(from) {
                Some(moving) => {
                    if moving.colour == self.turn {
                        match moving.variant {
                            Variant::Pawn => {
                                let y: i8 = if self.turn == Colour::White {
                                    1
                                } else {
                                    -1
                                };
                                if let Some(to) = from.offset_by(0, y) {
                                    if self.at(to).is_none() {
                                        let last = (self.turn == Colour::White && to.get_y() == 7)
                                            || (self.turn == Colour::Black && to.get_y() == 0);
                                        let mut info1 = MoveInfo::default();
                                        if last {
                                            info1.state_info.promoting = Some(to);
                                        }
                                        proof {
                                            assert(pawn_push_move(b, c, f, to@));
                                            assert(info1 == push_info_spec(c, f, to@));
                                            assert(info1 == move_info_spec(b, c, f, to@));
                                        }
                                        insert_entry(
                                            moves,
                                            MoveEntry { from, to, info: info1 },
                                        );
                                        let home = (self.turn == Colour::White && from.get_y()
                                            == 1) || (self.turn == Colour::Black && from.get_y()
                                            == 6);
                                        if home {
                                            if let Some(double) = from.offset_by(0, 2 * y) {
                                                if self.at(double).is_none() {
                                                    let mut info2 = MoveInfo::default();
                                                    info2.state_info.en_passant = Some(to);
                                                    proof {
                                                        assert(pawn_push_move(b, c, f, double@));
                                                        assert(info2 == push_info_spec(
                                                            c,
                                                            f,
                                                            double@,
                                                        ));
                                                        assert(info2 == move_info_spec(
                                                            b,
                                                            c,
                                                            f,
                                                            double@,
                                                        ));
                                                    }
                                                    insert_entry(
                                                        moves,
                                                        MoveEntry {
                                                            from,
                                                            to: double,
                                                            info: info2,
                                                        },
                                                    );
                                                }
                                            }
                                        }
                                    }
                                }
                                proof {
                                    assert forall|t: int|
                                        pawn_push_move(b, c, f, t) implies has_key(
                                        moves@,
                                        f,
                                        t,
                                    ) by {
                                        lemma_sq_decompose(t);
                                    }
                                    assert(forall|t: int| !castle_move(b, si, c, f, t));
                                }
                            },
                            Variant::King => {
                                let short = (self.turn == Colour::White && self.info.white_short)
                                    || (self.turn == Colour::Black && self.info.black_short);
                                let long = (self.turn == Colour::White && self.info.white_long)
                                    || (self.turn == Colour::Black && self.info.black_long);
                                let ghost mut m_after_short = moves@;
                                let mut checked = true;
                                if short || long {
                                    checked = self.in_check();
                                    if !checked {
                                        if short {
                                            self.try_castle_side(moves, from, 1);
                                        }
                                        proof {
                                            m_after_short = moves@;
                                        }
                                        if long {
                                            self.try_castle_side(moves, from, -1);
                                        }
                                    }
                                }
                                proof {
                                    assert(short == crate::moves::right_short(si, c)) by {
                                        if c is White {
                                        } else {
                                        }
                                    }
                                    assert(long == crate::moves::right_long(si, c)) by {
                                        if c is White {
                                        } else {
                                        }
                                    }
                                    assert forall|t: int|
                                        castle_move(b, si, c, f, t) implies has_key(
                                        moves@,
                                        f,
                                        t,
                                    ) by {
                                        lemma_sq_decompose(t);
                                        assert(!in_check_spec(b, c));
                                        assert(!checked);
                                        if sq_x(t) == sq_x(f) + 2 {
                                            assert(has_key(m_after_short, f, t));
                                            let i = choose|i: int|
                                                0 <= i < m_after_short.len() && (
                                                #[trigger] m_after_short[i]).from@ == f
                                                    && m_after_short[i].to@ == t;
                                            assert(moves@[i] == m_after_short[i]);
                                            assert(has_key(moves@, f, t));
                                        } else {
                                            assert(sq_x(t) == sq_x(f) - 2);
                                            assert(has_key(moves@, f, t));
                                        }
                                    }
                                    assert(forall|t: int| !pawn_push_move(b, c, f, t));
                                }
                            },
                            _ => {
                                proof {
                                    assert(forall|t: int| !pawn_push_move(b, c, f, t));
                                    assert(forall|t: int| !castle_move(b, si, c, f, t));
                                }
                            },
                        }
                    } else {
                        proof {
                            assert(forall|t: int| !pawn_push_move(b, c, f, t));
                            assert(forall|t: int| !castle_move(b, si, c, f, t));
                        }
                    }
                },
                None => {
                    proof {
                        assert(forall|t: int| !pawn_push_move(b, c, f, t));
                        assert(forall|t: int| !castle_move(b, si, c, f, t));
                    }
                },
            }
            s += 1;
        }
    }

    /// One castling attempt for the king on `from`, towards `dir`
    /// (`1` kingside, `-1` queenside): checks the empty squares, the
    /// crossed square's safety and the rook's home square, and inserts
    /// the castle move when everything holds.
    fn try_castle_side(&self, moves: &mut Vec<MoveEntry>, from: Position, dir: i8)
        requires
            self.board@.len() == 64,
            keys_unique(old(moves)@),
            dir == 1 || dir == -1,
            self.board@[from@] == Some(Piece { colour: self.turn, variant: Variant::King }),
            dir == 1 ==> crate::moves::right_short(self.info, self.turn),
            dir == -1 ==> crate::moves::right_long(self.info, self.turn),
            !in_check_spec(self.board@, self.turn),
        ensures
            keys_unique(final(moves)@),
            final(moves)@.len() >= old(moves)@.len(),
            forall|i: int| 0 <= i < old(moves)@.len() ==> final(moves)@[i] == old(moves)@[i],
            forall|i: int|
                old(moves)@.len() <= i < final(moves)@.len() ==> castle_move(
                    self.board@,
                    self.info,
                    self.turn,
                    (#[trigger] final(moves)@[i]).from@,
                    final(moves)@[i].to@,
                ) && final(moves)@[i].info == move_info_spec(
                    self.board@,
                    self.turn,
                    final(moves)@[i].from@,
                    final(moves)@[i].to@,
                ),
            forall|t: int|
                (castle_move(self.board@, self.info, self.turn, from@, t) && sq_x(t) == sq_x(
                    from@,
                ) + 2 * dir) ==> has_key(final(moves)@, from@, t),
    {
        let ghost b = self.board@;
        let ghost c = self.turn;
        let ghost f = from@;
        proof {
            use_type_invariant(&from);
            lemma_sq_decompose(f);
        }
        if let Some(between) = from.offset_by(dir, 0) {
            if self.at(between).is_none() {
                if !self.simulate_check(from, between, MoveInfo::default()) {
                    if let Some(to) = from.offset_by(2 * dir, 0) {
                        if self.at(to).is_none() {
                            if dir == 1 {
                                if let Some(rook_from) = from.offset_by(3, 0) {
                                    let info_c = self.castle_delta(rook_from, between);
                                    proof {
                                        assert(castle_move(b, self.info, c, f, to@));
                                        assert(info_c == castle_info_spec(c, f, to@));
                                        assert(info_c == move_info_spec(b, c, f, to@));
                                    }
                                    insert_entry(moves, MoveEntry { from, to, info: info_c });
                                }
                            } else {
                                if let Some(between2) = from.offset_by(-3, 0) {
                                    if self.at(between2).is_none() {
                                        if let Some(rook_from) = from.offset_by(-4, 0) {
                                            let info_c = self.castle_delta(rook_from, between);
                                            proof {
                                                assert(castle_move(b, self.info, c, f, to@));
                                                assert(info_c == castle_info_spec(c, f, to@));
                                                assert(info_c == move_info_spec(b, c, f, to@));
                                            }
                                            insert_entry(
                                                moves,
                                                MoveEntry { from, to, info: info_c },
                                            );
                                        }
                                    }
                                }
                            }
                        }
                    }
                }
            }
        }
    }

    /// The castle move's metadata: the mover's rights cleared, the rook
    /// relocation recorded.
    fn castle_delta(&self, rook_from: Position, rook_to: Position) -> (r: MoveInfo)
        ensures
            r == (MoveInfo {
                state_info: crate::moves::clear_rights(crate::moves::info_default(), self.turn),
                move_type: MoveType::Castle(rook_from, rook_to),
            }),
    {
        let mut st = StateInfo::default();
        if self.turn == Colour::White {
            st.white_short = false;
            st.white_long = false;
        } else {
            st.black_short = false;
            st.black_long = false;
        }
        MoveInfo { state_info: st, move_type: MoveType::Castle(rook_from, rook_to) }
    }
}



impl State {
    /// The legality filter: keeps only the moves whose simulation leaves
    /// the mover's own king out of check.
    pub(crate) fn cull_moves(&mut self)
        requires
            old(self).board@.len() == 64,
            keys_unique(old(self).moves@),
        ensures
            final(self).board == old(self).board,
            final(self).turn == old(self).turn,
            final(self).info == old(self).info,
            final(self).ended == old(self).ended,
            keys_unique(final(self).moves@),
            forall|i: int|
                0 <= i < final(self).moves@.len() ==> old(self).moves@.contains(
                    #[trigger] final(self).moves@[i],
                ),
            forall|i: int|
                0 <= i < final(self).moves@.len() ==> !in_check_spec(
                    board_after(
                        old(self).board@,
                        (#[trigger] final(self).moves@[i]).from@,
                        final(self).moves@[i].to@,
                        final(self).moves@[i].info,
                    ),
                    old(self).turn,
                ),
            forall|j: int|
                0 <= j < old(self).moves@.len() ==> (!in_check_spec(
                    board_after(
                        old(self).board@,
                        (#[trigger] old(self).moves@[j]).from@,
                        old(self).moves@[j].to@,
                        old(self).moves@[j].info,
                    ),
                    old(self).turn,
                ) ==> has_key(final(self).moves@, old(self).moves@[j].from@, old(
                    self,
                ).moves@[j].to@)),
    {
        let retained = self.filter_safe();
        self.moves = retained;
    }

    /// Regenerates the legal-move set and the terminal classification
    /// for the side to move. Returns `false`, leaving the position
    /// untouched, when the opposing king could be captured outright —
    /// the position is illegal and has no classification.
    pub(crate) fn gen_legal_moves(&mut self) -> (ok: bool)
        requires
            old(self).board@.len() == 64,
        ensures
            final(self).board == old(self).board,
            final(self).turn == old(self).turn,
            final(self).info == old(self).info,
            ok == !in_check_spec(old(self).board@, opp(old(self).turn)),
            !ok ==> final(self).moves == old(self).moves && final(self).ended == old(self).ended,
            ok ==> final(self).classified(),
    {
        let ghost b = self.board@;
        let ghost ep = self.info.en_passant;
        let ghost si = self.info;
        let ghost c = self.turn;
        proof {
            lemma_capture_king_iff_check(b, ep, c);
        }
        let cap = self.gen_capture_moves(self.turn);
        match cap {
            None => {
                proof {
                    assert(in_check_spec(b, opp(c)));
                }
                false
            },
            Some(mut mvs) => {
                let ghost cap_snap = mvs@;
                proof {
                    assert forall|i: int|
                        0 <= i < mvs@.len() implies (#[trigger] mvs@[i]).info == move_info_spec(
                        b,
                        c,
                        mvs@[i].from@,
                        mvs@[i].to@,
                    ) by {
                        lemma_capture_info_is_move_info(b, ep, c, mvs@[i].from@, mvs@[i].to@);
                    }
                }
                self.gen_other_moves(&mut mvs);
                proof {
                    assert forall|i: int|
                        0 <= i < mvs@.len() implies pseudo_move(
                        b,
                        si,
                        c,
                        (#[trigger] mvs@[i]).from@,
                        mvs@[i].to@,
                    ) && mvs@[i].info == move_info_spec(b, c, mvs@[i].from@, mvs@[i].to@) by {
                        if i < cap_snap.len() {
                            assert(mvs@[i] == cap_snap[i]);
                        }
                    }
                    assert forall|ff: int, t: int|
                        #[trigger] pseudo_move(b, si, c, ff, t) implies has_key(mvs@, ff, t) by {
                        if capture_move(b, ep, c, ff, t) {
                            assert(has_key(cap_snap, ff, t));
                            let i = choose|i: int|
                                0 <= i < cap_snap.len() && (#[trigger] cap_snap[i]).from@ == ff
                                    && cap_snap[i].to@ == t;
                            assert(mvs@[i] == cap_snap[i]);
                            assert(has_key(mvs@, ff, t));
                        }
                    }
                }
                self.moves = mvs;
                let ghost pseudo_snap = self.moves@;
                self.cull_moves();
                proof {
                    assert forall|i: int|
                        0 <= i < self.moves@.len() implies legal_move(
                        b,
                        si,
                        c,
                        (#[trigger] self.moves@[i]).from@,
                        self.moves@[i].to@,
                    ) && self.moves@[i].info == move_info_spec(
                        b,
                        c,
                        self.moves@[i].from@,
                        self.moves@[i].to@,
                    ) by {
                        let e = self.moves@[i];
                        assert(pseudo_snap.contains(e));
                        let j = choose|j: int|
                            0 <= j < pseudo_snap.len() && pseudo_snap[j] == e;
                        assert(pseudo_move(b, si, c, pseudo_snap[j].from@, pseudo_snap[j].to@));
                    }
                    assert forall|ff: int, t: int|
                        #[trigger] legal_move(b, si, c, ff, t) implies has_key(
                        self.moves@,
                        ff,
                        t,
                    ) by {
                        assert(pseudo_move(b, si, c, ff, t));
                        assert(has_key(pseudo_snap, ff, t));
                        let j = choose|j: int|
                            0 <= j < pseudo_snap.len() && (#[trigger] pseudo_snap[j]).from@ == ff
                                && pseudo_snap[j].to@ == t;
                        assert(pseudo_snap[j].info == move_info_spec(b, c, ff, t));
                        assert(!in_check_spec(
                            board_after(b, ff, t, pseudo_snap[j].info),
                            c,
                        ));
                        assert(has_key(self.moves@, ff, t));
                    }
                }
                if self.moves.len() == 0 {
                    proof {
                        assert forall|ff: int, t: int| !(#[trigger] legal_move(
                            b,
                            si,
                            c,
                            ff,
                            t,
                        )) by {
                            if legal_move(b, si, c, ff, t) {
                                assert(has_key(self.moves@, ff, t));
                            }
                        }
                    }
                    let chk = self.in_check();
                    if chk {
                        self.ended = Some(EndState::Checkmate(self.turn.flipped()));
                    } else {
                        self.ended = Some(EndState::Stalemate);
                    }
                } else {
                    proof {
                        assert(legal_move(b, si, c, self.moves@[0].from@, self.moves@[0].to@));
                        assert(!no_legal_moves(b, si, c));
                    }
                    if !self.check_material() {
                        self.ended = Some(EndState::InsufficientMaterial);
                        self.moves = Vec::new();
                    } else {
                        self.ended = None;
                    }
                }
                proof {
                    assert(final(self).classified());
                }
                true
            },
        }
    }
}


/// Once a ray leaves the board it does not return.
proof fn lemma_escape_stays_off(f: int, dx: int, dy: int, k: int, kk: int)
    requires
        valid_sq(f),
        unit_dir(dx, dy),
        1 <= k <= kk,
        !ray_on(f, dx, dy, k),
    ensures
        !ray_on(f, dx, dy, kk),
{
    lemma_sq_decompose(f);
    assert(!(0 <= sq_x(f) + kk * dx < 8 && 0 <= sq_y(f) + kk * dy < 8)) by (nonlinear_arith)
        requires
            -1 <= dx <= 1,
            -1 <= dy <= 1,
            1 <= k <= kk,
            0 <= sq_x(f) < 8,
            0 <= sq_y(f) < 8,
            !(0 <= sq_x(f) + k * dx < 8 && 0 <= sq_y(f) + k * dy < 8),
    ;
}

/// The 8th square of any ray from an on-board square is off the board.
proof fn lemma_eighth_off_board(f: int, dx: int, dy: int)
    requires
        valid_sq(f),
        unit_dir(dx, dy),
    ensures
        !ray_on(f, dx, dy, 8),
{
    lemma_sq_decompose(f);
    assert(!(0 <= sq_x(f) + 8 * dx < 8 && 0 <= sq_y(f) + 8 * dy < 8)) by (nonlinear_arith)
        requires
            -1 <= dx <= 1,
            -1 <= dy <= 1,
            !(dx == 0 && dy == 0),
            0 <= sq_x(f) < 8,
            0 <= sq_y(f) < 8,
    ;
}

/// When the walk stops on an occupied ray square `k` with everything
/// before it empty, the ray's reachable-and-capturable squares are
/// exactly the empty ones before `k`, plus `k` itself when the blocker
/// is an enemy.
proof fn lemma_blocked_ray_set(b: Placement, f: int, dx: int, dy: int, k: int, colour: Colour)
    requires
        valid_sq(f),
        unit_dir(dx, dy),
        1 <= k <= 8,
        forall|j: int| 1 <= j < k ==> ray_on(f, dx, dy, j) && b[#[trigger] ray_sq(f, dx, dy, j)]
            is None,
        ray_on(f, dx, dy, k),
        b[ray_sq(f, dx, dy, k)] is Some,
    ensures
        forall|t: int|
            #![trigger ray_hits(b, f, t, dx, dy)]
            (ray_hits(b, f, t, dx, dy) && clear_dest(b, colour, t)) <==> ((exists|j: int|
                1 <= j < k && #[trigger] ray_sq(f, dx, dy, j) == t) || (t == ray_sq(f, dx, dy, k)
                && b[ray_sq(f, dx, dy, k)]->Some_0.colour != colour)),
{
    assert(k <= 7) by {
        if k == 8 {
            lemma_eighth_off_board(f, dx, dy);
        }
    }
    assert forall|t: int|
        (ray_hits(b, f, t, dx, dy) && clear_dest(b, colour, t)) <==> ((exists|j: int|
            1 <= j < k && #[trigger] ray_sq(f, dx, dy, j) == t) || (t == ray_sq(f, dx, dy, k)
            && b[ray_sq(f, dx, dy, k)]->Some_0.colour != colour)) by {
        if ray_hits(b, f, t, dx, dy) && clear_dest(b, colour, t) {
            let kk = choose|kk: int|
                1 <= kk <= 7 && #[trigger] ray_sq(f, dx, dy, kk) == t && ray_on(f, dx, dy, kk)
                    && crate::attack::ray_clear(b, f, dx, dy, kk);
            if kk < k {
            } else if kk == k {
                assert(b[ray_sq(f, dx, dy, k)]->Some_0.colour != colour);
            } else {
                assert(b[ray_sq(f, dx, dy, k)] is None);
                assert(false);
            }
        }
        if exists|j: int| 1 <= j < k && #[trigger] ray_sq(f, dx, dy, j) == t {
            let j = choose|j: int| 1 <= j < k && #[trigger] ray_sq(f, dx, dy, j) == t;
            assert(crate::attack::ray_clear(b, f, dx, dy, j));
            assert(1 <= j <= 7 && ray_sq(f, dx, dy, j) == t && ray_on(f, dx, dy, j));
            assert(ray_hits(b, f, t, dx, dy));
            assert(b[t] is None);
        }
        if t == ray_sq(f, dx, dy, k) && b[ray_sq(f, dx, dy, k)]->Some_0.colour != colour {
            assert(crate::attack::ray_clear(b, f, dx, dy, k));
            assert(1 <= k <= 7 && ray_sq(f, dx, dy, k) == t && ray_on(f, dx, dy, k));
            assert(ray_hits(b, f, t, dx, dy));
        }
    }
}

} // verus!
