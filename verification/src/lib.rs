//! A rules-correct chess engine: legal-move generation (check, pins,
//! castling, en passant, promotion), move application, terminal-state
//! classification, and a branchable undo/redo history with threefold
//! repetition detection.

pub mod square;
pub mod piece;
pub mod attack;
pub mod moves;
pub mod state;
pub mod movegen;
pub mod fen;
pub mod history;
pub mod laws;
