//! Position setup: the standard starting position, and parsing of the
//! single-line board-description notation (ranks from the top,
//! `/`-separated, digits for runs of empty squares, letters for pieces
//! with case giving the colour, then side to move, castling rights and
//! en-passant target; trailing move counters are accepted and ignored).

use vstd::prelude::*;
use crate::piece::{Colour, Piece, Variant, opp};
use crate::square::{sq, sq_x, sq_y, valid_sq, pos_of, lemma_sq_decompose, lemma_sq_coords, Position};
use crate::attack::{
    Placement, attacks, in_check_spec, ray_hits, ray_sq, ray_on, ray_clear, unit_dir,
};
use crate::moves::{StateInfo, info_default};
use crate::state::State;

verus! {

broadcast use crate::square::group_position_axioms;

/// Why a notation string was rejected.
#[derive(Clone, Copy, PartialEq, Eq, Structural, Debug)]
pub enum FenError {
    /// The string does not follow the notation's grammar.
    Malformed,
    /// The described position lets the side to move capture the enemy
    /// king outright.
    IllegalPosition,
}

/// The index of the first space at or after `i`, or the length if none.
pub open spec fn next_space(s: Seq<char>, i: int) -> int
    decreases s.len() - i,
{
    if i >= s.len() {
        s.len() as int
    } else if s[i] == ' ' {
        i
    } else {
        next_space(s, i + 1)
    }
}

pub proof fn lemma_next_space_bounds(s: Seq<char>, i: int)
    requires
        0 <= i <= s.len(),
    ensures
        i <= next_space(s, i) <= s.len(),
        forall|j: int| i <= j < next_space(s, i) ==> s[j] != ' ',
        next_space(s, i) < s.len() ==> s[next_space(s, i)] == ' ',
    decreases s.len() - i,
{
    if i < s.len() && s[i] != ' ' {
        lemma_next_space_bounds(s, i + 1);
    }
}

/// The piece a notation letter denotes, if any.
pub open spec fn piece_of_char(c: char) -> Option<Piece> {
    if c == 'P' {
        Some(Piece { colour: Colour::White, variant: Variant::Pawn })
    } else if c == 'N' {
        Some(Piece { colour: Colour::White, variant: Variant::Knight })
    } else if c == 'B' {
        Some(Piece { colour: Colour::White, variant: Variant::Bishop })
    } else if c == 'R' {
        Some(Piece { colour: Colour::White, variant: Variant::Rook })
    } else if c == 'Q' {
        Some(Piece { colour: Colour::White, variant: Variant::Queen })
    } else if c == 'K' {
        Some(Piece { colour: Colour::White, variant: Variant::King })
    } else if c == 'p' {
        Some(Piece { colour: Colour::Black, variant: Variant::Pawn })
    } else if c == 'n' {
        Some(Piece { colour: Colour::Black, variant: Variant::Knight })
    } else if c == 'b' {
        Some(Piece { colour: Colour::Black, variant: Variant::Bishop })
    } else if c == 'r' {
        Some(Piece { colour: Colour::Black, variant: Variant::Rook })
    } else if c == 'q' {
        Some(Piece { colour: Colour::Black, variant: Variant::Queen })
    } else if c == 'k' {
        Some(Piece { colour: Colour::Black, variant: Variant::King })
    } else {
        None
    }
}

/// A digit `1` to `8`, denoting that many consecutive empty squares.
pub open spec fn is_run_digit(c: char) -> bool {
    49 <= c as u32 <= 56
}

/// The value of a run digit.
pub open spec fn digit_val(c: char) -> int {
    c as u32 - 48
}

/// A board with no pieces.
pub open spec fn empty_board() -> Placement {
    Seq::new(64, |i: int| None)
}

/// One step of placement parsing: the cursor sits at column `x` of rank
/// `y` (ranks are written from the top, so `y` starts at 7); a rank must
/// fill exactly eight columns before `/` or the end of the field.
pub open spec fn place_rec(s: Seq<char>, i: int, x: int, y: int, b: Placement) -> Option<
    Placement,
>
    decreases s.len() - i,
{
    if i >= s.len() {
        if x == 8 && y == 0 {
            Some(b)
        } else {
            None
        }
    } else {
        let ch = s[i];
        if ch == '/' {
            if x == 8 && y > 0 {
                place_rec(s, i + 1, 0, y - 1, b)
            } else {
                None
            }
        } else if is_run_digit(ch) {
            if x + digit_val(ch) <= 8 {
                place_rec(s, i + 1, x + digit_val(ch), y, b)
            } else {
                None
            }
        } else {
            match piece_of_char(ch) {
                Some(p) => {
                    if x <= 7 && 0 <= y <= 7 {
                        place_rec(s, i + 1, x + 1, y, b.update(sq(x, y), Some(p)))
                    } else {
                        None
                    }
                },
                None => None,
            }
        }
    }
}

/// The placement a notation field describes, if it is well-formed.
pub open spec fn parse_placement(s: Seq<char>) -> Option<Placement> {
    place_rec(s, 0, 0, 7, empty_board())
}

/// The side to move a notation field describes.
pub open spec fn parse_turn(s: Seq<char>) -> Option<Colour> {
    if s.len() == 1 && s[0] == 'w' {
        Some(Colour::White)
    } else if s.len() == 1 && s[0] == 'b' {
        Some(Colour::Black)
    } else {
        None
    }
}

/// The field contains the given character.
pub open spec fn seq_has_char(s: Seq<char>, c: char) -> bool {
    exists|i: int| 0 <= i < s.len() && s[i] == c
}

/// The en-passant target a notation field describes: `-` for none, or a
/// file letter and rank digit.
pub open spec fn parse_ep(s: Seq<char>) -> Option<Option<Position>> {
    if s.len() == 1 && s[0] == '-' {
        Some(None)
    } else if s.len() == 2 && 97 <= s[0] as u32 <= 104 && 49 <= s[1] as u32 <= 56 {
        Some(Some(pos_of(sq(s[0] as u32 - 97, s[1] as u32 - 49))))
    } else {
        None
    }
}

/// The position core a whole notation string describes: placement, side
/// to move and state info, or nothing if any of the first four
/// space-separated fields is malformed or missing.
pub open spec fn parse_fen(s: Seq<char>) -> Option<(Placement, Colour, StateInfo)> {
    let e0 = next_space(s, 0);
    if e0 >= s.len() {
        None
    } else {
        let e1 = next_space(s, e0 + 1);
        if e1 >= s.len() {
            None
        } else {
            let e2 = next_space(s, e1 + 1);
            if e2 >= s.len() {
                None
            } else {
                let e3 = next_space(s, e2 + 1);
                let f0 = s.subrange(0, e0);
                let f1 = s.subrange(e0 + 1, e1);
                let f2 = s.subrange(e1 + 1, e2);
                let f3 = s.subrange(e2 + 1, e3);
                match parse_placement(f0) {
                    None => None,
                    Some(bd) => match parse_turn(f1) {
                        None => None,
                        Some(c) => match parse_ep(f3) {
                            None => None,
                            Some(ep) => Some(
                                (
                                    bd,
                                    c,
                                    StateInfo {
                                        white_short: seq_has_char(f2, 'K'),
                                        white_long: seq_has_char(f2, 'Q'),
                                        black_short: seq_has_char(f2, 'k'),
                                        black_long: seq_has_char(f2, 'q'),
                                        en_passant: ep,
                                        promoting: None,
                                    },
                                ),
                            ),
                        },
                    },
                }
            }
        }
    }
}

/// The piece on square `s` in the standard starting position.
pub open spec fn start_piece(s: int) -> Option<Piece> {
    let x = sq_x(s);
    let y = sq_y(s);
    if y == 1 {
        Some(Piece { colour: Colour::White, variant: Variant::Pawn })
    } else if y == 6 {
        Some(Piece { colour: Colour::Black, variant: Variant::Pawn })
    } else if y == 0 {
        Some(Piece { colour: Colour::White, variant: back_rank(x) })
    } else if y == 7 {
        Some(Piece { colour: Colour::Black, variant: back_rank(x) })
    } else {
        None
    }
}

/// The piece kind on file `x` of a back rank in the starting position.
pub open spec fn back_rank(x: int) -> Variant {
    if x == 0 || x == 7 {
        Variant::Rook
    } else if x == 1 || x == 6 {
        Variant::Knight
    } else if x == 2 || x == 5 {
        Variant::Bishop
    } else if x == 3 {
        Variant::Queen
    } else {
        Variant::King
    }
}

/// The standard starting placement.
pub open spec fn start_board() -> Placement {
    Seq::new(64, |i: int| start_piece(i))
}

/// No slider standing on one of the two lowest ranks reaches the black
/// king's home square: the unbroken black pawn rank blocks every ray.
proof fn lemma_start_ray_blocked(f: int, dx: int, dy: int)
    requires
        valid_sq(f),
        sq_y(f) <= 1,
        unit_dir(dx, dy),
    ensures
        !ray_hits(start_board(), f, 60, dx, dy),
{
    let b = start_board();
    lemma_sq_decompose(f);
    if ray_hits(b, f, 60, dx, dy) {
        let k = choose|k: int|
            1 <= k <= 7 && #[trigger] ray_sq(f, dx, dy, k) == 60 && ray_on(f, dx, dy, k)
                && ray_clear(b, f, dx, dy, k);
        lemma_sq_coords(sq_x(f) + k * dx, sq_y(f) + k * dy);
        assert(sq_y(f) + k * dy == 7 && sq_x(f) + k * dx == 4);
        if dy == 1 {
            let j = k - 1;
            assert(j * dx == k * dx - dx && j * dy == k * dy - dy) by (nonlinear_arith)
                requires j == k - 1;
            assert(sq_y(f) + j * dy == 6 && sq_x(f) + j * dx == 4 - dx);
            assert(1 <= j < k);
            lemma_sq_coords(4 - dx, 6);
            assert(ray_sq(f, dx, dy, j) == sq(4 - dx, 6));
            assert(b[sq(4 - dx, 6)] == start_piece(sq(4 - dx, 6)));
            assert(b[ray_sq(f, dx, dy, j)] is None);
            assert(false);
        } else {
            assert(k * dy <= 0) by (nonlinear_arith)
                requires dy <= 0, k >= 1;
            assert(false);
        }
    }
}

/// In the starting position the black king does not stand in check.
pub proof fn lemma_start_not_in_check()
    ensures
        !in_check_spec(start_board(), Colour::Black),
{
    let b = start_board();
    if in_check_spec(b, Colour::Black) {
        let (f, t) = choose|f: int, t: int|
            #[trigger] attacks(b, opp(Colour::Black), f, t) && b[t] == Some(
                Piece { colour: Colour::Black, variant: Variant::King },
            );
        assert(b[t] == start_piece(t));
        lemma_sq_decompose(t);
        assert(sq_y(t) == 7 && back_rank(sq_x(t)) == Variant::King);
        assert(sq_x(t) == 4);
        assert(t == 60);
        assert(b[f] == start_piece(f));
        lemma_sq_decompose(f);
        let p = b[f]->Some_0;
        assert(p.colour == Colour::White);
        assert(sq_y(f) <= 1);
        match p.variant {
            Variant::Pawn => {
                assert(sq_y(t) == sq_y(f) + 1);
                assert(false);
            },
            Variant::Knight => {
                assert(false);
            },
            Variant::King => {
                assert(false);
            },
            Variant::Bishop => {
                lemma_start_ray_blocked(f, 1, 1);
                lemma_start_ray_blocked(f, 1, -1);
                lemma_start_ray_blocked(f, -1, 1);
                lemma_start_ray_blocked(f, -1, -1);
                assert(false);
            },
            Variant::Rook => {
                lemma_start_ray_blocked(f, 1, 0);
                lemma_start_ray_blocked(f, -1, 0);
                lemma_start_ray_blocked(f, 0, 1);
                lemma_start_ray_blocked(f, 0, -1);
                assert(false);
            },
            Variant::Queen => {
                lemma_start_ray_blocked(f, 1, 1);
                lemma_start_ray_blocked(f, 1, -1);
                lemma_start_ray_blocked(f, -1, 1);
                lemma_start_ray_blocked(f, -1, -1);
                lemma_start_ray_blocked(f, 1, 0);
                lemma_start_ray_blocked(f, -1, 0);
                lemma_start_ray_blocked(f, 0, 1);
                lemma_start_ray_blocked(f, 0, -1);
                assert(false);
            },
        }
    }
}

/// The piece the starting position puts on square `s`.
fn start_piece_at(s: u8) -> (r: Option<Piece>)
    requires
        s < 64,
    ensures
        r == start_piece(s as int),
{
    let x = s % 8;
    let y = s / 8;
    if y == 1 {
        Some(Piece { colour: Colour::White, variant: Variant::Pawn })
    } else if y == 6 {
        Some(Piece { colour: Colour::Black, variant: Variant::Pawn })
    } else if y == 0 || y == 7 {
        let colour = if y == 0 {
            Colour::White
        } else {
            Colour::Black
        };
        let variant = if x == 0 || x == 7 {
            Variant::Rook
        } else if x == 1 || x == 6 {
            Variant::Knight
        } else if x == 2 || x == 5 {
            Variant::Bishop
        } else if x == 3 {
            Variant::Queen
        } else {
            Variant::King
        };
        Some(Piece { colour, variant })
    } else {
        None
    }
}

impl State {
    /// A new game: the standard starting position with full castling
    /// rights, no en-passant target, White to move, and the legal-move
    /// set freshly generated.
    pub fn new() -> (st: State)
        ensures
            st.inv(),
            st.classified(),
            st.board@ == start_board(),
            st.turn == Colour::White,
            st.info == info_default(),
    {
        let mut board: Vec<Option<Piece>> = Vec::new();
        let mut s: u8 = 0;
        while s < 64
            invariant
                0 <= s <= 64,
                board@.len() == s,
                forall|j: int| 0 <= j < s ==> board@[j] == start_piece(j),
            decreases 64 - s,
        {
            board.push(start_piece_at(s));
            s += 1;
        }
        proof {
            assert(board@ =~= start_board());
        }
        let mut st = State {
            board,
            moves: Vec::new(),
            turn: Colour::White,
            info: StateInfo::default(),
            ended: None,
        };
        proof {
            lemma_start_not_in_check();
        }
        let ok = st.gen_legal_moves();
        proof {
            assert(ok);
            st.lemma_classified_inv();
        }
        st
    }
}


/// The characters of a string, collected for indexed parsing.
fn chars_of(s: &str) -> (r: Vec<char>)
    ensures
        r@ == s@,
{
    let n = s.unicode_len();
    let mut r: Vec<char> = Vec::new();
    let mut i: usize = 0;
    while i < n
        invariant
            n == s@.len(),
            0 <= i <= n,
            r@.len() == i,
            forall|j: int| 0 <= j < i ==> r@[j] == s@[j],
        decreases n - i,
    {
        r.push(s.get_char(i));
        i += 1;
    }
    proof {
        assert(r@ =~= s@);
    }
    r
}

/// The index of the first space at or after `start`, or the length.
fn find_space(v: &Vec<char>, start: usize) -> (r: usize)
    requires
        start <= v@.len(),
    ensures
        r as int == next_space(v@, start as int),
        start <= r <= v@.len(),
{
    proof {
        lemma_next_space_bounds(v@, start as int);
    }
    let n = v.len();
    let mut k = start;
    while k < n
        invariant
            start <= k <= n,
            n == v@.len(),
            next_space(v@, start as int) == next_space(v@, k as int),
        decreases n - k,
    {
        if v[k] == ' ' {
            return k;
        }
        k += 1;
    }
    n
}

/// The characters of `v` in `[a, b)`.
fn collect_range(v: &Vec<char>, a: usize, b: usize) -> (r: Vec<char>)
    requires
        a <= b <= v@.len(),
    ensures
        r@ == v@.subrange(a as int, b as int),
{
    let mut r: Vec<char> = Vec::new();
    let mut i = a;
    while i < b
        invariant
            a <= i <= b,
            b <= v@.len(),
            r@.len() == i - a,
            forall|j: int| 0 <= j < i - a ==> r@[j] == v@[a + j],
        decreases b - i,
    {
        r.push(v[i]);
        i += 1;
    }
    proof {
        assert(r@ =~= v@.subrange(a as int, b as int));
    }
    r
}

/// The piece a notation letter denotes, if any.
fn piece_char(c: char) -> (r: Option<Piece>)
    ensures
        r == piece_of_char(c),
{
    match c {
        'P' => Some(Piece { colour: Colour::White, variant: Variant::Pawn }),
        'N' => Some(Piece { colour: Colour::White, variant: Variant::Knight }),
        'B' => Some(Piece { colour: Colour::White, variant: Variant::Bishop }),
        'R' => Some(Piece { colour: Colour::White, variant: Variant::Rook }),
        'Q' => Some(Piece { colour: Colour::White, variant: Variant::Queen }),
        'K' => Some(Piece { colour: Colour::White, variant: Variant::King }),
        'p' => Some(Piece { colour: Colour::Black, variant: Variant::Pawn }),
        'n' => Some(Piece { colour: Colour::Black, variant: Variant::Knight }),
        'b' => Some(Piece { colour: Colour::Black, variant: Variant::Bishop }),
        'r' => Some(Piece { colour: Colour::Black, variant: Variant::Rook }),
        'q' => Some(Piece { colour: Colour::Black, variant: Variant::Queen }),
        'k' => Some(Piece { colour: Colour::Black, variant: Variant::King }),
        _ => None,
    }
}

/// Whether the field holds the given character.
fn has_char(v: &Vec<char>, c: char) -> (r: bool)
    ensures
        r == seq_has_char(v@, c),
{
    let n = v.len();
    let mut i: usize = 0;
    while i < n
        invariant
            n == v@.len(),
            0 <= i <= n,
            forall|j: int| 0 <= j < i ==> v@[j] != c,
        decreases n - i,
    {
        if v[i] == c {
            return true;
        }
        i += 1;
    }
    false
}

/// Parses a placement field.
fn parse_placement_exec(v: &Vec<char>) -> (r: Option<Vec<Option<Piece>>>)
    ensures
        match r {
            Some(bd) => bd@.len() == 64 && parse_placement(v@) == Some(bd@),
            None => parse_placement(v@) is None,
        },
{
    let ghost f0 = v@;
    let end = v.len();
    let mut board: Vec<Option<Piece>> = Vec::new();
    let mut j: u8 = 0;
    while j < 64
        invariant
            0 <= j <= 64,
            board@.len() == j,
            forall|k: int| 0 <= k < j ==> board@[k] is None,
        decreases 64 - j,
    {
        board.push(None);
        j += 1;
    }
    proof {
        assert(board@ =~= empty_board());
    }
    let mut i: usize = 0;
    let mut x: u8 = 0;
    let mut y: u8 = 7;
    while i < end
        invariant
            end == v@.len(),
            f0 == v@,
            0 <= i <= end,
            x <= 8,
            y <= 7,
            board@.len() == 64,
            place_rec(f0, 0, 0, 7, empty_board()) == place_rec(
                f0,
                i as int,
                x as int,
                y as int,
                board@,
            ),
        decreases end - i,
    {
        let c = v[i];
        let cu = c as u32;
        if c == '/' {
            if x == 8 && y > 0 {
                x = 0;
                y -= 1;
            } else {
                return None;
            }
        } else if 49 <= cu && cu <= 56 {
            let d = (cu - 48) as u8;
            if x + d <= 8 {
                x += d;
            } else {
                return None;
            }
        } else {
            match piece_char(c) {
                Some(p) => {
                    if x <= 7 {
                        proof {
                            lemma_sq_coords(x as int, y as int);
                        }
                        board.set((y as usize) * 8 + (x as usize), Some(p));
                        x += 1;
                    } else {
                        return None;
                    }
                },
                None => {
                    return None;
                },
            }
        }
        i += 1;
    }
    if x == 8 && y == 0 {
        Some(board)
    } else {
        None
    }
}

impl State {
    /// Builds the position a notation string describes: the placement
    /// and the side-to-move, castling and en-passant fields are parsed,
    /// the legal-move set is generated and the position classified.
    /// Rejects malformed strings, and positions in which the side to
    /// move could capture the enemy king.
    pub fn from_fen(fen: &str) -> (r: Result<State, FenError>)
        ensures
            parse_fen(fen@) is None <==> r == Err::<State, FenError>(FenError::Malformed),
            parse_fen(fen@) matches Some(pr) ==> {
                &&& (in_check_spec(pr.0, opp(pr.1)) ==> r == Err::<State, FenError>(
                    FenError::IllegalPosition,
                ))
                &&& (!in_check_spec(pr.0, opp(pr.1)) ==> (r matches Ok(st) && st.inv()
                    && st.classified() && st.board@ == pr.0 && st.turn == pr.1 && st.info == pr.2))
            },
    {
        let cv = chars_of(fen);
        let n = cv.len();
        let e0 = find_space(&cv, 0);
        if e0 >= n {
            return Err(FenError::Malformed);
        }
        let e1 = find_space(&cv, e0 + 1);
        if e1 >= n {
            return Err(FenError::Malformed);
        }
        let e2 = find_space(&cv, e1 + 1);
        if e2 >= n {
            return Err(FenError::Malformed);
        }
        let e3 = find_space(&cv, e2 + 1);
        let f0 = collect_range(&cv, 0, e0);
        let f1 = collect_range(&cv, e0 + 1, e1);
        let f2 = collect_range(&cv, e1 + 1, e2);
        let f3 = collect_range(&cv, e2 + 1, e3);
        let board = match parse_placement_exec(&f0) {
            Some(b) => b,
            None => {
                return Err(FenError::Malformed);
            },
        };
        let turn = if f1.len() == 1 {
            let c0 = f1[0];
            if c0 == 'w' {
                Colour::White
            } else if c0 == 'b' {
                Colour::Black
            } else {
                return Err(FenError::Malformed);
            }
        } else {
            return Err(FenError::Malformed);
        };
        let ep: Option<Position> = if f3.len() == 1 && f3[0] == '-' {
            None
        } else if f3.len() == 2 {
            let a = f3[0] as u32;
            let d = f3[1] as u32;
            if 97 <= a && a <= 104 && 49 <= d && d <= 56 {
                match Position::from_xy((a - 97) as i8, (d - 49) as i8) {
                    Some(p) => Some(p),
                    None => {
                        return Err(FenError::Malformed);
                    },
                }
            } else {
                return Err(FenError::Malformed);
            }
        } else {
            return Err(FenError::Malformed);
        };
        let info = StateInfo {
            white_short: has_char(&f2, 'K'),
            white_long: has_char(&f2, 'Q'),
            black_short: has_char(&f2, 'k'),
            black_long: has_char(&f2, 'q'),
            en_passant: ep,
            promoting: None,
        };
        let mut st = State { board, moves: Vec::new(), turn, info, ended: None };
        proof {
            assert(parse_fen(fen@) == Some((st.board@, st.turn, st.info)));
        }
        let ok = st.gen_legal_moves();
        if ok {
            proof {
                st.lemma_classified_inv();
            }
            Ok(st)
        } else {
            Err(FenError::IllegalPosition)
        }
    }
}


} // verus!
