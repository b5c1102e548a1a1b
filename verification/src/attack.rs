//! The capture-pass model: which squares a piece attacks on a given
//! placement, and what it means for a king to stand in check.
//!
//! A placement is modelled as a `Seq<Option<Piece>>` of length 64,
//! indexed by packed square index.

use vstd::prelude::*;
use crate::piece::{Colour, Piece, Variant, opp};
use crate::square::{sq, sq_x, sq_y, on_board, valid_sq, Position};

verus! {

/// A placement: one optional piece per square.
pub type Placement = Seq<Option<Piece>>;

/// The rank direction a pawn of colour `c` moves in.
pub open spec fn pawn_dir(c: Colour) -> int {
    if c is White {
        1
    } else {
        -1
    }
}

/// A king-step or sliding direction: both components unit-sized, not both zero.
pub open spec fn unit_dir(dx: int, dy: int) -> bool {
    -1 <= dx <= 1 && -1 <= dy <= 1 && !(dx == 0 && dy == 0)
}

/// The `k`-th square along the ray from `f` in direction `(dx, dy)`.
pub open spec fn ray_sq(f: int, dx: int, dy: int, k: int) -> int {
    sq(sq_x(f) + k * dx, sq_y(f) + k * dy)
}

/// The `k`-th square along the ray lies on the board.
pub open spec fn ray_on(f: int, dx: int, dy: int, k: int) -> bool {
    on_board(sq_x(f) + k * dx, sq_y(f) + k * dy)
}

/// All squares strictly between `f` and the `k`-th ray square are empty.
pub open spec fn ray_clear(b: Placement, f: int, dx: int, dy: int, k: int) -> bool {
    forall|j: int| 1 <= j < k ==> b[#[trigger] ray_sq(f, dx, dy, j)] is None
}

/// A slider at `f` reaches `t` along direction `(dx, dy)`: `t` is on the
/// ray, on the board, and every square strictly in between is empty.
pub open spec fn ray_hits(b: Placement, f: int, t: int, dx: int, dy: int) -> bool {
    exists|k: int|
        1 <= k <= 7 && #[trigger] ray_sq(f, dx, dy, k) == t && ray_on(f, dx, dy, k) && ray_clear(
            b,
            f,
            dx,
            dy,
            k,
        )
}

/// A knight jump from `f` to `t`.
pub open spec fn knight_move(f: int, t: int) -> bool {
    let dx = sq_x(t) - sq_x(f);
    let dy = sq_y(t) - sq_y(f);
    ((dx == 1 || dx == -1) && (dy == 2 || dy == -2)) || ((dx == 2 || dx == -2) && (dy == 1 || dy
        == -1))
}

/// A one-square king step from `f` to `t`.
pub open spec fn king_move(f: int, t: int) -> bool {
    let dx = sq_x(t) - sq_x(f);
    let dy = sq_y(t) - sq_y(f);
    -1 <= dx <= 1 && -1 <= dy <= 1 && !(dx == 0 && dy == 0)
}

/// A diagonal pawn strike of colour `c` from `f` to `t`.
pub open spec fn pawn_strike(c: Colour, f: int, t: int) -> bool {
    let dx = sq_x(t) - sq_x(f);
    let dy = sq_y(t) - sq_y(f);
    (dx == 1 || dx == -1) && dy == pawn_dir(c)
}

/// A bishop at `f` reaches `t` on placement `b`.
pub open spec fn bishop_hits(b: Placement, f: int, t: int) -> bool {
    ||| ray_hits(b, f, t, 1, 1)
    ||| ray_hits(b, f, t, 1, -1)
    ||| ray_hits(b, f, t, -1, 1)
    ||| ray_hits(b, f, t, -1, -1)
}

/// A rook at `f` reaches `t` on placement `b`.
pub open spec fn rook_hits(b: Placement, f: int, t: int) -> bool {
    ||| ray_hits(b, f, t, 1, 0)
    ||| ray_hits(b, f, t, -1, 0)
    ||| ray_hits(b, f, t, 0, 1)
    ||| ray_hits(b, f, t, 0, -1)
}

/// The piece `p`, standing at `f`, reaches `t` by its capture pattern.
pub open spec fn piece_attacks(b: Placement, p: Piece, f: int, t: int) -> bool {
    match p.variant {
        Variant::Pawn => pawn_strike(p.colour, f, t),
        Variant::Knight => knight_move(f, t),
        Variant::King => king_move(f, t),
        Variant::Bishop => bishop_hits(b, f, t),
        Variant::Rook => rook_hits(b, f, t),
        Variant::Queen => bishop_hits(b, f, t) || rook_hits(b, f, t),
    }
}

/// A piece of colour `c` stands at `f` and reaches `t` by its capture
/// pattern (the destination's occupancy is not constrained here).
pub open spec fn attacks(b: Placement, c: Colour, f: int, t: int) -> bool {
    &&& valid_sq(f)
    &&& valid_sq(t)
    &&& b[f] matches Some(p) && p.colour == c && piece_attacks(b, p, f, t)
}

/// The destination condition of the capture pass: a pawn needs an enemy
/// on `t`, or an empty `t` that equals the en-passant target; any other
/// piece only needs `t` not to hold a friendly piece.
pub open spec fn capture_dest_ok(
    b: Placement,
    ep: Option<Position>,
    p: Piece,
    t: int,
) -> bool {
    if p.variant is Pawn {
        ||| (b[t] matches Some(q) && q.colour != p.colour)
        ||| (b[t] is None && (ep matches Some(e) && e@ == t))
    } else {
        !(b[t] matches Some(q) && q.colour == p.colour)
    }
}

/// A move of the capture pass for colour `c` from `f` to `t`.
pub open spec fn capture_move(
    b: Placement,
    ep: Option<Position>,
    c: Colour,
    f: int,
    t: int,
) -> bool {
    attacks(b, c, f, t) && capture_dest_ok(b, ep, b[f]->Some_0, t)
}

/// Some king, of either colour, stands on square `t`.
pub open spec fn king_at(b: Placement, t: int) -> bool {
    b[t] matches Some(q) && q.variant is King
}

/// The king of colour `c` is attacked: `c` stands in check on `b`.
pub open spec fn in_check_spec(b: Placement, c: Colour) -> bool {
    exists|f: int, t: int|
        #[trigger] attacks(b, opp(c), f, t) && b[t] == Some(
            Piece { colour: c, variant: Variant::King },
        )
}

/// A capture-pass move of colour `c` lands on a king exactly when the
/// opposing king stands in check.
pub proof fn lemma_capture_king_iff_check(b: Placement, ep: Option<Position>, c: Colour)
    ensures
        (exists|f: int, t: int| #[trigger] capture_move(b, ep, c, f, t) && king_at(b, t))
            <==> in_check_spec(b, opp(c)),
{
    assert(opp(opp(c)) == c) by {
        if c is White {
        } else {
        }
    }
    if exists|f: int, t: int| #[trigger] capture_move(b, ep, c, f, t) && king_at(b, t) {
        let (f, t) = choose|f: int, t: int|
            #[trigger] capture_move(b, ep, c, f, t) && king_at(b, t);
        let q = b[t]->Some_0;
        assert(q.colour != c);
        assert(q.colour == opp(c)) by {
            if c is White {
            } else {
            }
        }
        assert(q == Piece { colour: opp(c), variant: Variant::King });
        assert(attacks(b, c, f, t) && b[t] == Some(
            Piece { colour: opp(c), variant: Variant::King },
        ));
        assert(in_check_spec(b, opp(c)));
    }
    if in_check_spec(b, opp(c)) {
        let (f, t) = choose|f: int, t: int|
            #[trigger] attacks(b, c, f, t) && b[t] == Some(
                Piece { colour: opp(c), variant: Variant::King },
            );
        assert(capture_dest_ok(b, ep, b[f]->Some_0, t));
        assert(capture_move(b, ep, c, f, t) && king_at(b, t));
    }
}

/// Intermediate squares of an on-board ray segment are on the board.
pub proof fn lemma_ray_convex(f: int, dx: int, dy: int, k: int, j: int)
    requires
        valid_sq(f),
        unit_dir(dx, dy),
        0 <= j <= k,
        ray_on(f, dx, dy, k),
    ensures
        ray_on(f, dx, dy, j),
{
    crate::square::lemma_sq_decompose(f);
    assert(0 <= j * dx + sq_x(f) < 8 && 0 <= j * dy + sq_y(f) < 8) by (nonlinear_arith)
        requires
            -1 <= dx <= 1,
            -1 <= dy <= 1,
            0 <= j <= k,
            0 <= sq_x(f) < 8,
            0 <= sq_y(f) < 8,
            0 <= sq_x(f) + k * dx < 8,
            0 <= sq_y(f) + k * dy < 8,
    ;
}

/// A ray hit survives removing pieces: if every occupied square of `b1`
/// is occupied in `b2`, a ray clear in `b2` is clear in `b1`.
pub proof fn lemma_ray_hits_fewer_pieces(
    b1: Placement,
    b2: Placement,
    f: int,
    t: int,
    dx: int,
    dy: int,
)
    requires
        forall|s: int| valid_sq(s) && b2[s] is None ==> b1[s] is None,
        valid_sq(f),
        unit_dir(dx, dy),
        ray_hits(b2, f, t, dx, dy),
    ensures
        ray_hits(b1, f, t, dx, dy),
{
    let k = choose|k: int|
        1 <= k <= 7 && #[trigger] ray_sq(f, dx, dy, k) == t && ray_on(f, dx, dy, k) && ray_clear(
            b2,
            f,
            dx,
            dy,
            k,
        );
    assert forall|j: int| 1 <= j < k implies b1[#[trigger] ray_sq(f, dx, dy, j)] is None by {
        lemma_ray_convex(f, dx, dy, k, j);
        crate::square::lemma_sq_coords(sq_x(f) + j * dx, sq_y(f) + j * dy);
        assert(b2[ray_sq(f, dx, dy, j)] is None);
    }
    assert(1 <= k <= 7 && ray_sq(f, dx, dy, k) == t && ray_on(f, dx, dy, k) && ray_clear(
        b1,
        f,
        dx,
        dy,
        k,
    ));
}

/// Check against colour `c` is not created by replacing one of `c`'s own
/// pieces with another non-king piece of the same colour.
pub proof fn lemma_check_after_own_update(b: Placement, s: int, p2: Piece, c: Colour)
    requires
        b.len() == 64,
        valid_sq(s),
        b[s] matches Some(p) && p.colour == c,
        p2.colour == c,
        !(p2.variant is King),
        in_check_spec(b.update(s, Some(p2)), c),
    ensures
        in_check_spec(b, c),
{
    let b2 = b.update(s, Some(p2));
    let (f, t) = choose|f: int, t: int|
        #[trigger] attacks(b2, opp(c), f, t) && b2[t] == Some(
            Piece { colour: c, variant: Variant::King },
        );
    assert(t != s);
    assert(f != s) by {
        if c is White {
        } else {
        }
    }
    assert(b[f] == b2[f]);
    assert(forall|u: int| valid_sq(u) && b2[u] is None ==> b[u] is None);
    let p = b2[f]->Some_0;
    assert(piece_attacks(b, p, f, t)) by {
        match p.variant {
            Variant::Pawn => {},
            Variant::Knight => {},
            Variant::King => {},
            Variant::Bishop => {
                lemma_hits_fewer_all_dirs(b, b2, f, t);
            },
            Variant::Rook => {
                lemma_hits_fewer_all_dirs(b, b2, f, t);
            },
            Variant::Queen => {
                lemma_hits_fewer_all_dirs(b, b2, f, t);
            },
        }
    }
    assert(attacks(b, opp(c), f, t) && b[t] == Some(Piece { colour: c, variant: Variant::King }));
}

/// Helper: transfer every slider direction from `b2` to `b1`.
proof fn lemma_hits_fewer_all_dirs(b1: Placement, b2: Placement, f: int, t: int)
    requires
        forall|s: int| valid_sq(s) && b2[s] is None ==> b1[s] is None,
        valid_sq(f),
    ensures
        ray_hits(b2, f, t, 1, 1) ==> ray_hits(b1, f, t, 1, 1),
        ray_hits(b2, f, t, 1, -1) ==> ray_hits(b1, f, t, 1, -1),
        ray_hits(b2, f, t, -1, 1) ==> ray_hits(b1, f, t, -1, 1),
        ray_hits(b2, f, t, -1, -1) ==> ray_hits(b1, f, t, -1, -1),
        ray_hits(b2, f, t, 1, 0) ==> ray_hits(b1, f, t, 1, 0),
        ray_hits(b2, f, t, -1, 0) ==> ray_hits(b1, f, t, -1, 0),
        ray_hits(b2, f, t, 0, 1) ==> ray_hits(b1, f, t, 0, 1),
        ray_hits(b2, f, t, 0, -1) ==> ray_hits(b1, f, t, 0, -1),
{
    if ray_hits(b2, f, t, 1, 1) {
        lemma_ray_hits_fewer_pieces(b1, b2, f, t, 1, 1);
    }
    if ray_hits(b2, f, t, 1, -1) {
        lemma_ray_hits_fewer_pieces(b1, b2, f, t, 1, -1);
    }
    if ray_hits(b2, f, t, -1, 1) {
        lemma_ray_hits_fewer_pieces(b1, b2, f, t, -1, 1);
    }
    if ray_hits(b2, f, t, -1, -1) {
        lemma_ray_hits_fewer_pieces(b1, b2, f, t, -1, -1);
    }
    if ray_hits(b2, f, t, 1, 0) {
        lemma_ray_hits_fewer_pieces(b1, b2, f, t, 1, 0);
    }
    if ray_hits(b2, f, t, -1, 0) {
        lemma_ray_hits_fewer_pieces(b1, b2, f, t, -1, 0);
    }
    if ray_hits(b2, f, t, 0, 1) {
        lemma_ray_hits_fewer_pieces(b1, b2, f, t, 0, 1);
    }
    if ray_hits(b2, f, t, 0, -1) {
        lemma_ray_hits_fewer_pieces(b1, b2, f, t, 0, -1);
    }
}

} // verus!
