//! Board coordinates: a packed square index in [0, 64) with
//! bounds-checked arithmetic. Off-board arithmetic yields `None`
//! rather than wrapping.

use vstd::prelude::*;

verus! {

/// File (column) of a packed square index.
pub open spec fn sq_x(s: int) -> int {
    s % 8
}

/// Rank (row) of a packed square index.
pub open spec fn sq_y(s: int) -> int {
    s / 8
}

/// The packed square index of file `x`, rank `y`.
pub open spec fn sq(x: int, y: int) -> int {
    y * 8 + x
}

/// Both coordinates lie on the board.
pub open spec fn on_board(x: int, y: int) -> bool {
    0 <= x < 8 && 0 <= y < 8
}

/// A packed square index lies on the board.
pub open spec fn valid_sq(s: int) -> bool {
    0 <= s < 64
}

pub broadcast proof fn lemma_sq_coords(x: int, y: int)
    requires
        on_board(x, y),
    ensures
        valid_sq(#[trigger] sq(x, y)),
        sq_x(sq(x, y)) == x,
        sq_y(sq(x, y)) == y,
{
    assert((y * 8 + x) % 8 == x && (y * 8 + x) / 8 == y) by (nonlinear_arith)
        requires 0 <= x < 8 && 0 <= y < 8;
}

pub proof fn lemma_sq_decompose(s: int)
    requires
        valid_sq(s),
    ensures
        on_board(sq_x(s), sq_y(s)),
        sq(sq_x(s), sq_y(s)) == s,
{
}

/// A square of the board, packed as `rank * 8 + file`.
#[derive(Clone, Copy, PartialEq, Eq, Structural, Debug, Hash)]
pub struct Position {
    pub(crate) value: u8,
}

impl View for Position {
    type V = int;

    closed spec fn view(&self) -> int {
        self.value as int
    }
}

/// The `Position` whose packed index is `s`; meaningful for `valid_sq(s)`.
pub closed spec fn pos_of(s: int) -> Position {
    Position { value: s as u8 }
}

pub broadcast proof fn lemma_pos_of_valid(s: int)
    requires
        valid_sq(s),
    ensures
        (#[trigger] pos_of(s))@ == s,
{
}

pub broadcast proof fn lemma_pos_of_view(p: Position)
    ensures
        #[trigger] pos_of(p@) == p,
{
}

pub broadcast proof fn lemma_position_view_injective(a: Position, b: Position)
    ensures
        #![trigger a@, b@]
        a@ == b@ ==> a == b,
{
}

pub(crate) broadcast proof fn lemma_position_value(p: Position)
    ensures
        #[trigger] p@ == p.value as int,
{
}

pub broadcast group group_position_axioms {
    lemma_sq_coords,
    lemma_pos_of_valid,
    lemma_pos_of_view,
}

impl Position {
    #[verifier::type_invariant]
    pub(crate) open spec fn type_inv(self) -> bool {
        self.value < 64
    }

    /// The square at file `x`, rank `y`, or `None` if off the board.
    pub fn from_xy(x: i8, y: i8) -> (r: Option<Position>)
        ensures
            r is Some <==> on_board(x as int, y as int),
            r matches Some(p) ==> p@ == sq(x as int, y as int) && p == pos_of(sq(
                x as int,
                y as int,
            )),
    {
        if x >= 0 && y >= 0 && x < 8 && y < 8 {
            Some(Position { value: (y as u8) * 8 + (x as u8) })
        } else {
            None
        }
    }

    /// The square at packed index `i`.
    pub fn from_index(i: u8) -> (r: Position)
        requires
            i < 64,
        ensures
            r@ == i as int,
            r == pos_of(i as int),
    {
        Position { value: i }
    }

    /// The packed index of this square; always below 64.
    pub fn index(&self) -> (r: u8)
        ensures
            r as int == self@,
            r < 64,
    {
        proof { use_type_invariant(self); }
        self.value
    }

    /// The square offset from this one by `x` files and `y` ranks,
    /// or `None` if that leaves the board.
    pub fn offset_by(&self, x: i8, y: i8) -> (r: Option<Position>)
        ensures
            r is Some <==> on_board(sq_x(self@) + x as int, sq_y(self@) + y as int),
            r matches Some(p) ==> p@ == sq(sq_x(self@) + x as int, sq_y(self@) + y as int)
                && p == pos_of(p@),
    {
        let nx = self.get_x() as i32 + x as i32;
        let ny = self.get_y() as i32 + y as i32;
        if 0 <= nx && nx < 8 && 0 <= ny && ny < 8 {
            let r = Position::from_xy(nx as i8, ny as i8);
            proof {
                lemma_sq_coords(nx as int, ny as int);
            }
            r
        } else {
            None
        }
    }

    /// The file of this square.
    pub fn get_x(&self) -> (r: i8)
        ensures
            r as int == sq_x(self@),
            0 <= r < 8,
    {
        proof { use_type_invariant(self); }
        (self.value % 8) as i8
    }

    /// The rank of this square.
    pub fn get_y(&self) -> (r: i8)
        ensures
            r as int == sq_y(self@),
            0 <= r < 8,
    {
        proof { use_type_invariant(self); }
        (self.value / 8) as i8
    }
}

} // verus!
