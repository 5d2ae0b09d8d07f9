use vstd::prelude::*;
use crate::board::tictactoe::{TerminalState, TicTacToe};
use crate::board::zobrist::{
    piece_key, stm_key, prev_move_key, piece_key_of, stm_key_of, prev_move_key_of,
};
use crate::types::{Piece, Square};
use crate::types::piece::opponent;
use crate::types::square::{board_of, cell_of, square_at, lemma_square_index, lemma_square_at};

verus! {

broadcast use {lemma_square_index, lemma_square_at};

/// What a board holds, as a mathematical value.
pub struct BoardModel {
    /// The nine small boards, numbered like the cells of a 3x3 board.
    pub small: Seq<TicTacToe>,
    /// The large board: cell `i` is marked for the winner of small board `i`.
    pub large: TicTacToe,
    /// The side to move.
    pub stm: Piece,
    /// The incrementally kept hash.
    pub hash: u64,
    /// The ply counter read from a position string.
    pub ply: u8,
    /// The square of the last move played, if any.
    pub prev_mv: Option<Square>,
}

/// Piece number `p` (0 for `X`, 1 for `O`).
pub open spec fn piece_of(p: int) -> Piece {
    if p == 0 {
        Piece::X
    } else {
        Piece::O
    }
}

impl BoardModel {
    /// Square `s` holds a mark of `p`.
    pub open spec fn has(self, p: Piece, s: int) -> bool {
        self.small[board_of(s)].has_spec(p, cell_of(s))
    }

    /// The piece on square `s` (`X` first when, against the rules, both are).
    pub open spec fn piece_at(self, s: int) -> Option<Piece> {
        if self.has(Piece::X, s) {
            Some(Piece::X)
        } else if self.has(Piece::O, s) {
            Some(Piece::O)
        } else {
            None
        }
    }

    /// Nine small boards, and every board's marks lie within its nine cells.
    pub open spec fn wf(self) -> bool {
        &&& self.small.len() == 9
        &&& forall|i: int| 0 <= i < 9 ==> (#[trigger] self.small[i]).wf()
        &&& self.large.wf()
    }

    /// The large board marks exactly the small boards that have been won,
    /// each for its winner.
    pub open spec fn large_consistent(self) -> bool {
        forall|i: int, p: Piece|
            0 <= i < 9 ==> (#[trigger] self.large.has_spec(p, i) <==> self.small[i].state() == Some(
                TerminalState::Victory(p),
            ))
    }

    /// The state of the game: the state of the large board when it is won
    /// or full; else a draw when every small board is finished; else open.
    pub open spec fn state(self) -> Option<TerminalState> {
        match self.large.state() {
            Some(t) => Some(t),
            None => if forall|i: int| 0 <= i < 9 ==> (#[trigger] self.small[i].state()) is Some {
                Some(TerminalState::Draw)
            } else {
                None
            },
        }
    }

    /// Mark number `k` (in `0..162`, piece `k / 81` on square `k % 81`) is
    /// on the board.
    pub open spec fn has_mark(self, k: int) -> bool {
        self.has(piece_of(k / 81), k % 81)
    }

    /// The hash of the first `n` marks that are on the board.
    pub open spec fn marks_hash(self, n: nat) -> u64
        decreases n,
    {
        if n == 0 {
            0
        } else {
            let k = n - 1;
            self.marks_hash(k as nat) ^ (if self.has_mark(k) {
                piece_key(k / 81, k % 81)
            } else {
                0
            })
        }
    }

    /// The hash of a board, computed from scratch: the keys of all marks,
    /// the side-to-move key when `O` is to move, and the key of the
    /// previous move.
    pub open spec fn zobrist_hash(self) -> u64 {
        self.marks_hash(162) ^ (if self.stm == Piece::O {
            stm_key()
        } else {
            0
        }) ^ (match self.prev_mv {
            Some(m) => prev_move_key(m@),
            None => 0,
        })
    }
}

impl BoardModel {
    /// The position after the side to move marks `mv`: the mark goes into
    /// the small board of `mv`; when that board is now won, the large board
    /// marks it for the winner; the move becomes the previous move, the
    /// other side moves next, and the hash takes in the changed keys.
    pub open spec fn after_move(self, mv: Square) -> BoardModel {
        let b = board_of(mv@);
        let t = self.small[b].with_mark(self.stm, cell_of(mv@));
        BoardModel {
            small: self.small.update(b, t),
            large: match t.state() {
                Some(TerminalState::Victory(p)) => self.large.with_mark(p, b),
                _ => self.large,
            },
            stm: opponent(self.stm),
            hash: self.hash ^ piece_key(self.stm@, mv@) ^ (match self.prev_mv {
                Some(m) => prev_move_key(m@),
                None => 0,
            }) ^ prev_move_key(mv@) ^ stm_key(),
            ply: self.ply,
            prev_mv: Some(mv),
        }
    }
}

/// An ultimate tic-tac-toe position.
#[derive(Debug, Copy, Clone)]
pub struct Board {
    prev_mv: Option<Square>,
    small: [TicTacToe; 9],
    large: TicTacToe,
    stm: Piece,
    hash: u64,
    ply: u8,
}

impl View for Board {
    type V = BoardModel;

    closed spec fn view(&self) -> BoardModel {
        BoardModel {
            small: self.small@,
            large: self.large,
            stm: self.stm,
            hash: self.hash,
            ply: self.ply,
            prev_mv: self.prev_mv,
        }
    }
}

/// The small board and the cell of a square lie in `0..9`.
pub proof fn lemma_board_of_bound(s: int)
    requires
        0 <= s < 81,
    ensures
        0 <= board_of(s) < 9,
        0 <= cell_of(s) < 9,
{
    crate::types::square::lemma_board_cell(s);
}

/// The starting position: every board empty, `X` to move, hash and ply
/// counter zero, no previous move.
pub open spec fn start_model() -> BoardModel {
    BoardModel {
        small: Seq::new(9, |i: int| TicTacToe::empty_spec()),
        large: TicTacToe::empty_spec(),
        stm: Piece::X,
        hash: 0,
        ply: 0,
        prev_mv: None,
    }
}

impl Board {
    /// Every board's marks lie within its nine cells.
    #[verifier::type_invariant]
    pub open spec fn marks_within_cells(self) -> bool {
        self@.wf()
    }

    /// An empty board with `X` to move.
    pub fn new() -> (r: Board)
        ensures
            r@ == start_model(),
            r@.wf(),
            forall|i: int| 0 <= i < 9 ==> #[trigger] r@.small[i] == TicTacToe::empty_spec(),
            r@.large == TicTacToe::empty_spec(),
            r@.stm == Piece::X,
            r@.hash == 0,
            r@.ply == 0,
            r@.prev_mv is None,
    {
        let t = TicTacToe::new();
        let r = Board {
            prev_mv: None,
            small: [t, t, t, t, t, t, t, t, t],
            large: t,
            stm: Piece::X,
            hash: 0,
            ply: 0,
        };
        assert(r@.small =~= start_model().small);
        r
    }

    /// The side to move.
    pub fn stm(&self) -> (r: Piece)
        ensures
            r == self@.stm,
    {
        self.stm
    }

    /// The incrementally kept hash.
    pub fn hash(&self) -> (r: u64)
        ensures
            r == self@.hash,
    {
        self.hash
    }

    /// The ply counter.
    pub fn ply(&self) -> (r: u8)
        ensures
            r == self@.ply,
    {
        self.ply
    }

    /// The square of the last move, if any.
    pub fn prev_move(&self) -> (r: Option<Square>)
        ensures
            r == self@.prev_mv,
    {
        self.prev_mv
    }

    /// Small board `i`.
    pub fn small_board(&self, i: usize) -> (r: TicTacToe)
        requires
            i < 9,
        ensures
            r == self@.small[i as int],
    {
        self.small[i]
    }

    /// The large board.
    pub fn large_board(&self) -> (r: TicTacToe)
        ensures
            r == self@.large,
    {
        self.large
    }

    /// The state of the game (see `BoardModel::state`).
    pub fn terminal_state(&self) -> (r: Option<TerminalState>)
        ensures
            r == self@.state(),
    {
        proof {
            use_type_invariant(self);
        }
        let large = self.large.terminal_state();
        if large.is_some() {
            return large;
        }
        let mut i: usize = 0;
        while i < 9
            invariant
                i <= 9,
                self@.wf(),
                self@.large.state() is None,
                forall|j: int| 0 <= j < i ==> (#[trigger] self@.small[j].state()) is Some,
            decreases 9 - i,
        {
            if self.small[i].terminal_state().is_none() {
                assert(self@.small[i as int].state() is None);
                return None;
            }
            i += 1;
        }
        Some(TerminalState::Draw)
    }

    /// The pieces on rank `rank`, file by file.
    pub fn rank_pieces(&self, rank: usize) -> (r: Vec<Option<Piece>>)
        requires
            rank < 9,
        ensures
            r@.len() == 9,
            forall|f: int| 0 <= f < 9 ==> #[trigger] r@[f] == self@.piece_at(rank * 9 + f),
    {
        let mut v: Vec<Option<Piece>> = Vec::new();
        let mut f: usize = 0;
        while f < 9
            invariant
                rank < 9,
                f <= 9,
                v@.len() == f,
                forall|g: int| 0 <= g < f ==> #[trigger] v@[g] == self@.piece_at(rank * 9 + g),
            decreases 9 - f,
        {
            let sq = Square::index(rank * 9 + f);
            v.push(self.piece_on(sq));
            f += 1;
        }
        v
    }

    /// The piece on `sq`, if any.
    pub fn piece_on(&self, sq: Square) -> (r: Option<Piece>)
        ensures
            r == self@.piece_at(sq@),
    {
        let (board, cell) = sq.indices();
        if self.small[board].has(Piece::X, cell) {
            Some(Piece::X)
        } else if self.small[board].has(Piece::O, cell) {
            Some(Piece::O)
        } else {
            None
        }
    }

    /// Plays `mv` for the side to move (see `BoardModel::after_move`).
    pub fn make_move(&mut self, mv: Square)
        ensures
            final(self)@ == old(self)@.after_move(mv),
            final(self)@.wf(),
    {
        proof {
            use_type_invariant(&*self);
        }
        let ghost m0 = self@;
        let stm = self.stm;
        self.xor_piece(stm, mv);
        let index = mv.indices().0;
        proof {
            lemma_board_of_bound(mv@);
            TicTacToe::lemma_with_mark_wf(m0.small[index as int], stm, cell_of(mv@));
            assert(self@.wf());
        }
        match self.small[index].terminal_state() {
            Some(TerminalState::Victory(piece)) => {
                proof {
                    TicTacToe::lemma_with_mark_wf(m0.large, piece, index as int);
                }
                self.set_large(piece, index);
            },
            _ => {},
        }
        self.xor_move(mv);
        self.toggle_stm();
        proof {
            let a = m0.hash;
            let b = piece_key(stm@, mv@);
            let c: u64 = match m0.prev_mv {
                Some(m) => prev_move_key(m@),
                None => 0,
            };
            let d = prev_move_key(mv@);
            let e = stm_key();
            assert(self@ == m0.after_move(mv));
        }
    }

    /// Sets the ply counter.
    pub fn set_ply(&mut self, ply: u8)
        ensures
            final(self)@ == (BoardModel { ply, ..old(self)@ }),
    {
        proof {
            use_type_invariant(&*self);
        }
        self.ply = ply;
    }

    /// Marks small board `index` on the large board as won by `piece`.
    pub fn set_large(&mut self, piece: Piece, index: usize)
        requires
            index < 9,
        ensures
            final(self)@ == (BoardModel { large: old(self)@.large.with_mark(piece, index as int), ..old(self)@ }),
    {
        proof {
            use_type_invariant(&*self);
            TicTacToe::lemma_with_mark_wf(self@.large, piece, index as int);
        }
        let mut large = self.large;
        large.set(piece, index);
        self.large = large;
    }

    /// Places a mark of `piece` on `sq` and toggles its key in the hash.
    pub fn xor_piece(&mut self, piece: Piece, sq: Square)
        ensures
            final(self)@ == (BoardModel {
                small: old(self)@.small.update(
                    board_of(sq@),
                    old(self)@.small[board_of(sq@)].with_mark(piece, cell_of(sq@)),
                ),
                hash: old(self)@.hash ^ piece_key(piece@, sq@),
                ..old(self)@
            }),
    {
        proof {
            use_type_invariant(&*self);
        }
        let ghost m0 = self@;
        self.hash = self.hash ^ piece_key_of(piece, sq);
        let (board, cell) = sq.indices();
        let mut t = self.small[board];
        t.set(piece, cell);
        proof {
            lemma_board_of_bound(sq@);
            TicTacToe::lemma_with_mark_wf(m0.small[board as int], piece, cell as int);
        }
        self.small[board] = t;
        proof {
            assert forall|i: int| 0 <= i < 9 implies (#[trigger] self@.small[i]).wf() by {
                if i != board {
                    assert(self@.small[i] == m0.small[i]);
                }
            }
        }
    }

    /// Records `mv` as the previous move, keeping the hash up to date.
    pub fn xor_move(&mut self, mv: Square)
        ensures
            final(self)@ == (BoardModel {
                prev_mv: Some(mv),
                hash: old(self)@.hash ^ (match old(self)@.prev_mv {
                    Some(m) => prev_move_key(m@),
                    None => 0,
                }) ^ prev_move_key(mv@),
                ..old(self)@
            }),
    {
        proof {
            use_type_invariant(&*self);
        }
        let mut h = self.hash;
        match self.prev_mv {
            Some(m) => {
                h = h ^ prev_move_key_of(m);
            },
            None => {
                assert(h ^ 0u64 == h) by (bit_vector);
            },
        }
        self.hash = h ^ prev_move_key_of(mv);
        self.prev_mv = Some(mv);
    }

    /// Hands the move to the other side, keeping the hash up to date.
    pub fn toggle_stm(&mut self)
        ensures
            final(self)@ == (BoardModel {
                stm: opponent(old(self)@.stm),
                hash: old(self)@.hash ^ stm_key(),
                ..old(self)@
            }),
    {
        proof {
            use_type_invariant(&*self);
        }
        self.hash = self.hash ^ stm_key_of();
        self.stm = self.stm.not();
    }
}

impl Default for Board {
    /// The starting position (see `start_model`).
    fn default() -> (r: Board)
        ensures
            r@ == start_model(),
            r@.wf(),
    {
        Board::new()
    }
}


/// Law: the game is won only through the large board: a victory of `p`
/// means `p` holds a whole line of small boards there. When neither side
/// holds such a line and every small board is finished, the game is drawn;
/// when neither holds one, a cell of the large board is free and some small
/// board is still open, the game goes on.
pub proof fn law_game_result(m: BoardModel, p: Piece)
    ensures
        m.state() == Some(TerminalState::Victory(p)) ==> exists|k: int|
            0 <= k < 8 && #[trigger] crate::board::tictactoe::line_held(m.large, p, k),
        (forall|q: Piece, k: int| 0 <= k < 8 ==> !#[trigger] crate::board::tictactoe::line_held(m.large, q, k))
            && (forall|i: int| 0 <= i < 9 ==> (#[trigger] m.small[i].state()) is Some) ==> m.state() == Some(
            TerminalState::Draw,
        ),
        (forall|q: Piece, k: int| 0 <= k < 8 ==> !#[trigger] crate::board::tictactoe::line_held(m.large, q, k))
            && (exists|c: int| 0 <= c < 9 && !#[trigger] m.large.has_spec(Piece::X, c) && !m.large.has_spec(Piece::O, c))
            && (exists|i: int| 0 <= i < 9 && (#[trigger] m.small[i].state()) is None) ==> m.state() is None,
{
    if forall|q: Piece, k: int| 0 <= k < 8 ==> !#[trigger] crate::board::tictactoe::line_held(m.large, q, k) {
        crate::board::tictactoe::law_no_line_state(m.large);
    }
    if m.state() == Some(TerminalState::Victory(p)) {
        assert(m.large.state() == Some(TerminalState::Victory(p)));
        crate::board::tictactoe::law_victory_holds_line(m.large, p);
    }
    if let Some(TerminalState::Victory(q)) = m.large.state() {
        crate::board::tictactoe::law_victory_holds_line(m.large, q);
    }
}

} // verus!
