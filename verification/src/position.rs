use vstd::prelude::*;
use crate::board::{Board, BoardModel, TerminalState};
use crate::types::{Piece, Square};

verus! {

/// What a position holds: the current board, the boards before each move
/// played since it was set, and those moves.
pub struct PositionModel {
    pub current: BoardModel,
    pub boards: Seq<BoardModel>,
    pub moves: Seq<Square>,
}

impl PositionModel {
    /// The current board is well formed.
    pub open spec fn wf(self) -> bool {
        self.current.wf()
    }

    /// The position after playing `mv`.
    pub open spec fn after_make(self, mv: Square) -> PositionModel {
        PositionModel {
            current: self.current.after_move(mv),
            boards: self.boards.push(self.current),
            moves: self.moves.push(mv),
        }
    }

    /// The position after taking back the last move.
    pub open spec fn after_unmake(self) -> PositionModel {
        PositionModel {
            current: self.boards.last(),
            boards: self.boards.drop_last(),
            moves: self.moves.drop_last(),
        }
    }
}

/// Law: taking back a move restores the position from before it.
pub proof fn law_unmake_undoes_make(p: PositionModel, mv: Square)
    ensures
        p.after_make(mv).after_unmake() == p,
{
    assert(p.after_make(mv).after_unmake().boards =~= p.boards);
    assert(p.after_make(mv).after_unmake().moves =~= p.moves);
}

/// A board together with the history of moves played on it.
#[derive(Clone)]
pub struct Position {
    current: Board,
    boards: Vec<Board>,
    moves: Vec<Square>,
}

impl View for Position {
    type V = PositionModel;

    closed spec fn view(&self) -> PositionModel {
        PositionModel {
            current: self.current@,
            boards: self.boards@.map_values(|b: Board| b@),
            moves: self.moves@,
        }
    }
}

impl Position {
    /// A position at `board` with no moves played.
    pub fn new(board: Board) -> (r: Position)
        ensures
            r@.current == board@,
            r@.boards == Seq::<BoardModel>::empty(),
            r@.moves == Seq::<Square>::empty(),
    {
        let r = Position { current: board, boards: Vec::new(), moves: Vec::new() };
        assert(r@.boards =~= Seq::<BoardModel>::empty());
        r
    }

    /// Moves to `board`, forgetting the history.
    pub fn set_board(&mut self, board: Board)
        ensures
            final(self)@.current == board@,
            final(self)@.boards == Seq::<BoardModel>::empty(),
            final(self)@.moves == Seq::<Square>::empty(),
    {
        self.current = board;
        self.boards.clear();
        self.moves.clear();
        assert(self@.boards =~= Seq::<BoardModel>::empty());
    }

    /// The current board.
    pub fn board(&self) -> (r: &Board)
        ensures
            r@ == self@.current,
    {
        &self.current
    }

    /// The move played `ply` moves ago (1 for the last one), or `None` when
    /// fewer moves were played.
    pub fn prev_move(&self, ply: usize) -> (r: Option<Square>)
        requires
            ply >= 1,
        ensures
            ply <= self@.moves.len() ==> r == Some(self@.moves[self@.moves.len() - ply]),
            ply > self@.moves.len() ==> r is None,
    {
        match self.moves.len().checked_sub(ply) {
            Some(i) => Some(self.moves[i]),
            None => None,
        }
    }

    /// The state of the game on the current board.
    pub fn terminal_state(&self) -> (r: Option<TerminalState>)
        ensures
            r == self@.current.state(),
    {
        self.current.terminal_state()
    }

    /// The side to move.
    pub fn stm(&self) -> (r: Piece)
        ensures
            r == self@.current.stm,
    {
        self.current.stm()
    }

    /// The hash of the current board.
    pub fn hash(&self) -> (r: u64)
        ensures
            r == self@.current.hash,
    {
        self.current.hash()
    }

    /// Plays `mv`, remembering the board before it.
    pub fn make_move(&mut self, mv: Square)
        ensures
            final(self)@ == old(self)@.after_make(mv),
            final(self)@.wf(),
    {
        let ghost old_view = self@;
        self.moves.push(mv);
        let b = self.current;
        self.boards.push(b);
        self.current.make_move(mv);
        assert(self@.boards =~= old_view.boards.push(old_view.current));
    }

    /// Takes back the last move.
    pub fn unmake_move(&mut self)
        requires
            old(self)@.boards.len() > 0,
            old(self)@.moves.len() > 0,
        ensures
            final(self)@ == old(self)@.after_unmake(),
            final(self)@.wf(),
    {
        let ghost old_view = self@;
        let b = self.boards.pop().unwrap();
        proof {
            use_type_invariant(&b);
        }
        self.current = b;
        self.moves.pop().unwrap();
        assert(self@.boards =~= old_view.boards.drop_last());
        assert(self@.moves =~= old_view.moves.drop_last());
    }
}

} // verus!
