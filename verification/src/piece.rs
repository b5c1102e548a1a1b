//! Piece model: colour and piece kind, plus the end-of-game
//! classification attached to a finished position.

use vstd::prelude::*;

verus! {

/// The colour of a piece or of the side to move.
#[derive(Clone, Copy, PartialEq, Eq, Structural, Debug, Hash)]
pub enum Colour {
    White,
    Black,
}

/// The opposite colour.
pub open spec fn opp(c: Colour) -> Colour {
    if c is White {
        Colour::Black
    } else {
        Colour::White
    }
}

impl Colour {
    /// Replaces this colour by its opposite.
    pub fn flip(&mut self)
        ensures
            *final(self) == opp(*old(self)),
    {
        *self = if *self == Colour::White {
            Colour::Black
        } else {
            Colour::White
        };
    }

    /// The opposite of this colour.
    pub fn flipped(&self) -> (r: Colour)
        ensures
            r == opp(*self),
    {
        if *self == Colour::White {
            Colour::Black
        } else {
            Colour::White
        }
    }
}

/// The kind of a piece.
#[derive(Clone, Copy, PartialEq, Eq, Structural, Debug, Hash)]
pub enum Variant {
    Pawn,
    Knight,
    Bishop,
    Rook,
    Queen,
    King,
}

/// A piece: a colour and a kind. Immutable value type.
#[derive(Clone, Copy, PartialEq, Eq, Structural, Debug, Hash)]
pub struct Piece {
    pub colour: Colour,
    pub variant: Variant,
}

/// How a finished game ended.
#[derive(Clone, Copy, PartialEq, Eq, Structural, Debug)]
pub enum EndState {
    /// The given colour delivered mate.
    Checkmate(Colour),
    Stalemate,
    InsufficientMaterial,
    ThreefoldRepetition,
}

} // verus!
