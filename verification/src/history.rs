//! The move-history timeline: an ordered list of position snapshots
//! with an undo/redo cursor, branch-overwrite on a new move after an
//! undo, and threefold-repetition detection over the recorded history.

use vstd::prelude::*;
use crate::piece::{EndState, Variant, opp};
use crate::square::Position;
use crate::moves::{apply_info, board_after, has_key, move_info_spec, StateInfo};
use crate::state::{State, grouped_contains, pos_equal};
use crate::fen::start_board;

verus! {

/// One snapshot: a position, its legal moves grouped for rendering, and
/// the move that produced it.
pub struct BoardState {
    pub state: State,
    pub piece_moves: Vec<(Position, Vec<Position>)>,
    pub last_move: Option<(Position, Position)>,
}

impl BoardState {
    /// The snapshot is well-formed: the position is, and the grouped
    /// view lists exactly the position's legal moves.
    pub open spec fn wf(self) -> bool {
        &&& self.state.inv()
        &&& forall|f: int, t: int|
            #![trigger grouped_contains(self.piece_moves@, f, t)]
            #![trigger has_key(self.state.moves@, f, t)]
            grouped_contains(self.piece_moves@, f, t) <==> has_key(self.state.moves@, f, t)
    }

    /// The snapshot of a new game.
    fn new() -> (r: BoardState)
        ensures
            r.wf(),
            r.state.board@ == start_board(),
            r.state.turn == crate::piece::Colour::White,
            r.state.info == crate::moves::info_default(),
            r.state.classified(),
            r.last_move is None,
    {
        let state = State::new();
        let piece_moves = state.get_piece_moves();
        BoardState { state, piece_moves, last_move: None }
    }

    /// Plays `(from, to)` on a copy of this snapshot's position, giving
    /// the successor snapshot, or `None` when the move is not legal.
    pub fn try_move(&self, from: Position, to: Position) -> (r: Option<BoardState>)
        requires
            self.wf(),
        ensures
            r is Some <==> (self.state.info.promoting is None && has_key(
                self.state.moves@,
                from@,
                to@,
            )),
            r matches Some(bs) ==> bs.wf() && bs.last_move == Some((from, to)) && ({
                let info = move_info_spec(self.state.board@, self.state.turn, from@, to@);
                let nb = board_after(self.state.board@, from@, to@, info);
                let ni = apply_info(self.state.info, info.state_info);
                &&& bs.state.board@ == nb
                &&& bs.state.info == ni
                &&& (ni.promoting is Some ==> bs.state.turn == self.state.turn
                    && bs.state.moves@.len() == 0 && bs.state.ended == self.state.ended)
                &&& (ni.promoting is None ==> bs.state.turn == opp(self.state.turn)
                    && bs.state.classified())
            }),
    {
        if self.state.is_valid_move(from, to) {
            let mut state = self.state.clone();
            let moved = state.try_move(from, to);
            proof {
                assert(moved);
            }
            let piece_moves = state.get_piece_moves();
            Some(BoardState { state, piece_moves, last_move: Some((from, to)) })
        } else {
            None
        }
    }

    /// Resolves a pending promotion in place and refreshes the grouped
    /// move view.
    pub fn promote(&mut self, variant: Variant) -> (r: bool)
        requires
            old(self).wf(),
        ensures
            final(self).wf(),
            r == (old(self).state.info.promoting is Some && (variant is Knight || variant
                is Bishop || variant is Rook || variant is Queen)),
            !r ==> final(self).state.board == old(self).state.board && final(self).state.moves
                == old(self).state.moves && final(self).state.turn == old(self).state.turn
                && final(self).state.info == old(self).state.info && final(self).state.ended
                == old(self).state.ended && final(self).piece_moves == old(self).piece_moves
                && final(self).last_move == old(self).last_move,
            r ==> ({
                let pp = old(self).state.info.promoting->Some_0;
                let nb = old(self).state.board@.update(
                    pp@,
                    Some(crate::piece::Piece { colour: old(self).state.turn, variant }),
                );
                &&& final(self).state.board@ == nb
                &&& final(self).state.turn == opp(old(self).state.turn)
                &&& final(self).state.info == (StateInfo {
                    promoting: None,
                    ..old(self).state.info
                })
                &&& final(self).state.classified()
                &&& final(self).last_move == old(self).last_move
            }),
    {
        if self.state.promote(variant) {
            self.piece_moves = self.state.get_piece_moves();
            true
        } else {
            false
        }
    }
}

/// How many of the first `n` snapshots equal `target` by repetition
/// equality.
pub open spec fn count_matches(s: Seq<BoardState>, n: int, target: State) -> int
    decreases n,
{
    if n <= 0 {
        0
    } else {
        count_matches(s, n - 1, target) + if pos_equal(s[n - 1].state, target) {
            1int
        } else {
            0int
        }
    }
}

/// The timeline: every snapshot ever produced, a cursor for undo/redo,
/// and the high-water mark of the current branch.
pub struct BoardStates {
    pub states: Vec<BoardState>,
    pub current: usize,
    pub end: usize,
}

impl BoardStates {
    /// The timeline is well-formed: the cursor sits at or before the
    /// branch end, which names a recorded snapshot, and every recorded
    /// snapshot is well-formed.
    pub open spec fn wf(self) -> bool {
        &&& self.current <= self.end
        &&& (self.end as int) < self.states@.len()
        &&& forall|i: int| 0 <= i < self.states@.len() ==> (#[trigger] self.states@[i]).wf()
    }

    /// A timeline holding only the starting position.
    pub fn new() -> (r: BoardStates)
        ensures
            r.wf(),
            r.current == 0,
            r.end == 0,
            r.states@.len() == 1,
            r.states@[0].state.board@ == start_board(),
            r.states@[0].state.turn == crate::piece::Colour::White,
            r.states@[0].state.info == crate::moves::info_default(),
            r.states@[0].last_move is None,
    {
        let mut states: Vec<BoardState> = Vec::new();
        states.push(BoardState::new());
        BoardStates { states, current: 0, end: 0 }
    }

    /// Commits a new snapshot: truncates the redo branch, appends or
    /// overwrites at the advanced cursor, and, when the same position
    /// (by repetition equality) already occurred at least twice before,
    /// marks the new snapshot as drawn by threefold repetition and
    /// empties its move set.
    pub fn add(&mut self, state: BoardState)
        requires
            old(self).wf(),
            state.wf(),
        ensures
            final(self).wf(),
            final(self).current == old(self).current + 1,
            final(self).end == final(self).current,
            forall|i: int|
                0 <= i <= old(self).current ==> final(self).states@[i] == old(self).states@[i],
            ({
                let cnt = count_matches(old(self).states@, old(self).current + 1, state.state);
                let e = final(self).states@[final(self).current as int];
                &&& (cnt >= 2 ==> e.state.ended == Some(EndState::ThreefoldRepetition)
                    && e.state.moves@.len() == 0 && e.state.board == state.state.board
                    && e.state.turn == state.state.turn && e.state.info == state.state.info
                    && e.last_move == state.last_move)
                &&& (cnt < 2 ==> e == state)
            }),
    {
        let ghost pre = self.states@;
        let total = self.states.len();
        proof {
            assert(self.current < total);
        }
        let n_prior = self.current + 1;
        let mut cnt: usize = 0;
        let mut j: usize = 0;
        while j < n_prior
            invariant
                self.wf(),
                pre == self.states@,
                n_prior == self.current + 1,
                n_prior <= self.states@.len(),
                0 <= j <= n_prior,
                cnt <= j,
                cnt as int == count_matches(self.states@, j as int, state.state),
            decreases n_prior - j,
        {
            let eqv = self.states[j].state == state.state;
            if eqv {
                cnt += 1;
            }
            j += 1;
        }
        let mut state = state;
        if cnt >= 2 {
            state.state.threefold_repetition();
            state.piece_moves = Vec::new();
            proof {
                assert forall|f: int, t: int|
                    grouped_contains(state.piece_moves@, f, t) <==> has_key(
                        state.state.moves@,
                        f,
                        t,
                    ) by {
                    if grouped_contains(state.piece_moves@, f, t) {
                        let (i, jj) = choose|i: int, jj: int|
                            0 <= i < state.piece_moves@.len() && (
                            #[trigger] state.piece_moves@[i]).0@ == f && 0 <= jj
                                < state.piece_moves@[i].1@.len() && (
                            #[trigger] state.piece_moves@[i].1@[jj])@ == t;
                        assert(false);
                    }
                    if has_key(state.state.moves@, f, t) {
                        let i = choose|i: int|
                            0 <= i < state.state.moves@.len() && (
                            #[trigger] state.state.moves@[i]).from@ == f
                                && state.state.moves@[i].to@ == t;
                        assert(false);
                    }
                }
            }
        }
        self.current += 1;
        self.end = self.current;
        if self.states.len() > self.current {
            self.states.set(self.current, state);
        } else {
            self.states.push(state);
        }
    }

    /// Steps the cursor one snapshot back; does nothing at the start.
    pub fn undo(&mut self)
        requires
            old(self).wf(),
        ensures
            final(self).wf(),
            final(self).states == old(self).states,
            final(self).end == old(self).end,
            final(self).current as int == if old(self).current > 0 {
                old(self).current - 1
            } else {
                0int
            },
    {
        if self.current > 0 {
            self.current -= 1;
        }
    }

    /// Steps the cursor one snapshot forward; does nothing at the end
    /// of the recorded branch.
    pub fn redo(&mut self)
        requires
            old(self).wf(),
        ensures
            final(self).wf(),
            final(self).states == old(self).states,
            final(self).end == old(self).end,
            final(self).current as int == if old(self).current < old(self).end {
                old(self).current + 1
            } else {
                old(self).current as int
            },
    {
        if self.current < self.end {
            self.current += 1;
        }
    }

    /// Rewinds the cursor to the first snapshot without truncating the
    /// recorded history: redo can still replay everything.
    pub fn reset(&mut self)
        requires
            old(self).wf(),
        ensures
            final(self).wf(),
            final(self).states == old(self).states,
            final(self).end == old(self).end,
            final(self).current == 0,
    {
        self.current = 0;
    }

    /// Whether the cursor sits on the first snapshot.
    pub fn at_start(&self) -> (r: bool)
        ensures
            r == (self.current == 0),
    {
        self.current == 0
    }

    /// Whether the cursor sits on the last snapshot of the branch.
    pub fn at_end(&self) -> (r: bool)
        ensures
            r == (self.current == self.end),
    {
        self.current == self.end
    }

    /// The snapshot under the cursor.
    pub fn active(&self) -> (r: &BoardState)
        requires
            self.wf(),
        ensures
            *r == self.states@[self.current as int],
            r.wf(),
    {
        &self.states[self.current]
    }

    /// Resolves a pending promotion on the snapshot under the cursor.
    pub fn promote(&mut self, variant: Variant) -> (r: bool)
        requires
            old(self).wf(),
        ensures
            final(self).wf(),
            final(self).current == old(self).current,
            final(self).end == old(self).end,
            final(self).states@.len() == old(self).states@.len(),
            forall|i: int|
                0 <= i < old(self).states@.len() && i != old(self).current
                    ==> final(self).states@[i] == old(self).states@[i],
            ({
                let pre = old(self).states@[old(self).current as int];
                let post = final(self).states@[old(self).current as int];
                &&& r == (pre.state.info.promoting is Some && (variant is Knight || variant
                    is Bishop || variant is Rook || variant is Queen))
                &&& (r ==> ({
                    let pp = pre.state.info.promoting->Some_0;
                    &&& post.state.board@ == pre.state.board@.update(
                        pp@,
                        Some(crate::piece::Piece { colour: pre.state.turn, variant }),
                    )
                    &&& post.state.turn == opp(pre.state.turn)
                    &&& post.state.classified()
                }))
            }),
    {
        self.states[self.current].promote(variant)
    }
}

} // verus!
