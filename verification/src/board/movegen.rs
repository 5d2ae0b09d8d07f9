use vstd::prelude::*;
use crate::board::board::{Board, BoardModel, lemma_board_of_bound};
use crate::board::tictactoe::{all_filled, bit};
use crate::types::{Piece, Square};
use crate::types::square::{
    board_of, cell_of, square_at, square_in, lemma_square_index, lemma_square_at, lemma_square_injective,
    lemma_square_in,
};

verus! {

broadcast use {lemma_square_index, lemma_square_at};

/// Moving to square `s` is allowed: the game is still open, the small board
/// of `s` is still open, `s` is empty, and, when the previous move sent the
/// mover to a small board that is still open, `s` lies in that board (the
/// board numbered by the previous move's cell).
pub open spec fn legal(m: BoardModel, s: int) -> bool {
    &&& m.state() is None
    &&& m.small[board_of(s)].state() is None
    &&& m.piece_at(s) is None
    &&& match m.prev_mv {
        Some(p) => m.small[cell_of(p@)].state() is Some || board_of(s) == cell_of(p@),
        None => true,
    }
}

/// The legal moves among squares `0..n`, in increasing order.
pub open spec fn legal_moves_upto(m: BoardModel, n: nat) -> Seq<Square>
    decreases n,
{
    if n == 0 {
        Seq::empty()
    } else {
        let rest = legal_moves_upto(m, (n - 1) as nat);
        if legal(m, n - 1) {
            rest.push(square_at(n - 1))
        } else {
            rest
        }
    }
}

/// All legal moves, in increasing order of square number.
pub open spec fn legal_moves(m: BoardModel) -> Seq<Square> {
    legal_moves_upto(m, 81)
}

/// The legal moves among squares `0..n` are exactly the squares below `n`
/// that are legal, in strictly increasing order.
pub proof fn lemma_legal_moves_upto(m: BoardModel, n: nat)
    requires
        n <= 81,
    ensures
        forall|i: int|
            0 <= i < legal_moves_upto(m, n).len() ==> #[trigger] legal_moves_upto(m, n)[i]@ < n && legal(
                m,
                legal_moves_upto(m, n)[i]@,
            ),
        forall|i: int, j: int|
            0 <= i < j < legal_moves_upto(m, n).len() ==> #[trigger] legal_moves_upto(m, n)[i]@
                < #[trigger] legal_moves_upto(m, n)[j]@,
        forall|s: int| 0 <= s < n && legal(m, s) ==> #[trigger] legal_moves_upto(m, n).contains(square_at(s)),
        legal_moves_upto(m, n).len() <= n,
    decreases n,
{
    if n > 0 {
        lemma_legal_moves_upto(m, (n - 1) as nat);
        let rest = legal_moves_upto(m, (n - 1) as nat);
        assert forall|s: int| 0 <= s < n && legal(m, s) implies #[trigger] legal_moves_upto(m, n).contains(square_at(s)) by {
            if s < n - 1 {
                assert(rest.contains(square_at(s)));
                let k = choose|k: int| 0 <= k < rest.len() && rest[k] == square_at(s);
                assert(legal_moves_upto(m, n)[k] == square_at(s));
            } else {
                assert(legal_moves_upto(m, n)[rest.len() as int] == square_at(s));
            }
        }
    }
}

/// Law: a square is among the generated moves exactly when moving there is
/// legal.
pub proof fn law_legal_moves(m: BoardModel, s: Square)
    ensures
        legal_moves(m).contains(s) <==> legal(m, s@),
        legal_moves(m).len() <= 81,
{
    lemma_legal_moves_upto(m, 81);
    if legal_moves(m).contains(s) {
        let k = choose|k: int| 0 <= k < legal_moves(m).len() && legal_moves(m)[k] == s;
        assert(legal(m, legal_moves(m)[k]@));
    }
}

/// Law: while the game is open, some move is legal: the board the
/// previous move points to, or else some open board, still has an empty
/// cell.
pub proof fn law_open_game_has_moves(m: BoardModel)
    requires
        m.wf(),
        m.state() is None,
    ensures
        legal_moves(m).len() > 0,
{
    let b: int = match m.prev_mv {
        Some(p) => if m.small[cell_of(p@)].state() is None {
            cell_of(p@)
        } else {
            choose|i: int| 0 <= i < 9 && (#[trigger] m.small[i].state()) is None
        },
        None => choose|i: int| 0 <= i < 9 && (#[trigger] m.small[i].state()) is None,
    };
    match m.prev_mv {
        Some(p) => {
            lemma_square_index(p);
            lemma_board_of_bound(p@);
        },
        None => {},
    }
    assert(0 <= b < 9 && m.small[b].state() is None);
    let t = m.small[b];
    let x = t.marks(Piece::X);
    let o = t.marks(Piece::O);
    assert(!all_filled(x, o));
    let c: u16 = choose|c: u16| 0 <= c < 9 && !(bit(x, c) || bit(o, c));
    lemma_square_in(b, c as int);
    let s = square_in(b, c as int);
    assert(!m.has(Piece::X, s) && !m.has(Piece::O, s));
    assert(legal(m, s));
    lemma_square_at(s);
    law_legal_moves(m, square_at(s));
}

/// Law: once the game is over, no move is legal.
pub proof fn law_finished_game_has_no_moves(m: BoardModel)
    requires
        m.state() is Some,
    ensures
        legal_moves(m).len() == 0,
{
    lemma_legal_moves_upto(m, 81);
    if legal_moves(m).len() > 0 {
        assert(legal(m, legal_moves(m)[0]@));
    }
}

/// A list of moves.
#[derive(Debug, Clone)]
pub struct MoveList {
    moves: Vec<Square>,
}

impl View for MoveList {
    type V = Seq<Square>;

    closed spec fn view(&self) -> Seq<Square> {
        self.moves@
    }
}

impl MoveList {
    /// An empty list.
    pub fn new() -> (r: MoveList)
        ensures
            r@ == Seq::<Square>::empty(),
    {
        MoveList { moves: Vec::new() }
    }

    /// Appends `mv`.
    pub fn push(&mut self, mv: Square)
        ensures
            final(self)@ == old(self)@.push(mv),
    {
        self.moves.push(mv);
    }

    /// The number of moves.
    pub fn len(&self) -> (r: usize)
        ensures
            r == self@.len(),
    {
        self.moves.len()
    }

    /// The list holds no move.
    pub fn is_empty(&self) -> (r: bool)
        ensures
            r == (self@.len() == 0),
    {
        self.moves.len() == 0
    }

    /// Move number `i`.
    pub fn get(&self, i: usize) -> (r: Square)
        requires
            i < self@.len(),
        ensures
            r == self@[i as int],
    {
        self.moves[i]
    }

    /// Empties the list.
    pub fn clear(&mut self)
        ensures
            final(self)@ == Seq::<Square>::empty(),
    {
        self.moves.clear();
    }

    /// The list holds `mv`.
    pub fn contains(&self, mv: Square) -> (r: bool)
        ensures
            r == self@.contains(mv),
    {
        let mut i: usize = 0;
        while i < self.moves.len()
            invariant
                i <= self@.len(),
                forall|j: int| 0 <= j < i ==> self@[j] != mv,
            decreases self@.len() - i,
        {
            if self.moves[i] == mv {
                return true;
            }
            i += 1;
        }
        false
    }
}

impl Board {
    /// Whether moving to `mv` is legal (see `legal`).
    pub fn is_legal(&self, mv: Square) -> (r: bool)
        ensures
            r == legal(self@, mv@),
    {
        proof {
            use_type_invariant(self);
        }
        if self.terminal_state().is_some() {
            return false;
        }
        let (board, _) = mv.indices();
        if self.small_board(board).terminal_state().is_some() {
            return false;
        }
        if self.piece_on(mv).is_some() {
            return false;
        }
        match self.prev_move() {
            Some(p) => {
                let (_, cell) = p.indices();
                self.small_board(cell).terminal_state().is_some() || board == cell
            },
            None => true,
        }
    }

    /// All legal moves, in increasing order of square number.
    pub fn gen_moves(&self) -> (r: MoveList)
        ensures
            r@ == legal_moves(self@),
    {
        proof {
            use_type_invariant(self);
        }
        let ghost m = self@;
        let mut list = MoveList::new();
        let mut i: usize = 0;
        while i < 81
            invariant
                i <= 81,
                m == self@,
                m.wf(),
                list@ == legal_moves_upto(m, i as nat),
            decreases 81 - i,
        {
            let sq = Square::index(i);
            if self.is_legal(sq) {
                list.push(sq);
            }
            i += 1;
        }
        list
    }
}

} // verus!
