use vstd::prelude::*;
use crate::types::Piece;

verus! {

/// How a game (or one small board) has ended.
#[derive(Debug, Copy, Clone, PartialEq, Eq, Structural)]
pub enum TerminalState {
    Victory(Piece),
    Draw,
}

/// Bit `i` of `b`, for `i` in `0..16`.
pub open spec fn bit(b: u16, i: u16) -> bool {
    (b >> i) & 1u16 == 1u16
}

/// The three cells of line `k` of a 3x3 board; cells are numbered
/// row by row, bottom-left first. Lines 0..3 are rows, 3..6 columns,
/// 6 and 7 the two diagonals.
pub open spec fn line_cells(k: int) -> (u16, u16, u16) {
    if k == 0 {
        (0, 1, 2)
    } else if k == 1 {
        (3, 4, 5)
    } else if k == 2 {
        (6, 7, 8)
    } else if k == 3 {
        (0, 3, 6)
    } else if k == 4 {
        (1, 4, 7)
    } else if k == 5 {
        (2, 5, 8)
    } else if k == 6 {
        (0, 4, 8)
    } else {
        (2, 4, 6)
    }
}

/// One player's marks on a 3x3 board, as a bit set, hold line `k`.
pub open spec fn holds_line(b: u16, k: int) -> bool {
    let (x, y, z) = line_cells(k);
    bit(b, x) && bit(b, y) && bit(b, z)
}

/// The winner found by scanning lines `k..8` in order and, within a line,
/// `X` before `O`.
pub open spec fn first_victory(x: u16, o: u16, k: int) -> Option<Piece>
    decreases 8 - k,
{
    if k >= 8 {
        None
    } else if holds_line(x, k) {
        Some(Piece::X)
    } else if holds_line(o, k) {
        Some(Piece::O)
    } else {
        first_victory(x, o, k + 1)
    }
}

/// Every one of the nine cells holds a mark of `x` or of `o`.
pub open spec fn all_filled(x: u16, o: u16) -> bool {
    forall|i: u16| 0 <= i < 9 ==> bit(x, i) || bit(o, i)
}

/// The state of a 3x3 board whose marks are `x` and `o`: a victory for
/// the first line found (see `first_victory`), else a draw when every cell
/// is marked, else still open.
pub open spec fn terminal_of(x: u16, o: u16) -> Option<TerminalState> {
    match first_victory(x, o, 0) {
        Some(p) => Some(TerminalState::Victory(p)),
        None => if all_filled(x, o) {
            Some(TerminalState::Draw)
        } else {
            None
        },
    }
}

/// The state of a 3x3 board as read off the mark sets `x` and `o`
/// themselves: a victory for the first line found, else a draw when the
/// union of the marks is exactly the nine cells, else still open. For mark
/// sets within the nine cells this is `terminal_of`.
pub open spec fn terminal_bits(x: u16, o: u16) -> Option<TerminalState> {
    match first_victory(x, o, 0) {
        Some(p) => Some(TerminalState::Victory(p)),
        None => if x | o == 0b111111111u16 {
            Some(TerminalState::Draw)
        } else {
            None
        },
    }
}

/// The bit mask of line `k`.
fn line_mask(k: usize) -> (r: u16)
    requires
        k < 8,
    ensures
        forall|b: u16| (b & r == r) <==> #[trigger] holds_line(b, k as int),
{
    let r: u16 = if k == 0 {
        0b111
    } else if k == 1 {
        0b111000
    } else if k == 2 {
        0b111000000
    } else if k == 3 {
        0b1001001
    } else if k == 4 {
        0b10010010
    } else if k == 5 {
        0b100100100
    } else if k == 6 {
        0b100010001
    } else {
        0b1010100
    };
    assert forall|b: u16| (b & r == r) <==> #[trigger] holds_line(b, k as int) by {
        lemma_line_mask(b, k as int, r);
    }
    r
}

proof fn lemma_line_mask(b: u16, k: int, r: u16)
    requires
        0 <= k < 8,
        k == 0 ==> r == 0b111,
        k == 1 ==> r == 0b111000,
        k == 2 ==> r == 0b111000000,
        k == 3 ==> r == 0b1001001,
        k == 4 ==> r == 0b10010010,
        k == 5 ==> r == 0b100100100,
        k == 6 ==> r == 0b100010001,
        k == 7 ==> r == 0b1010100,
    ensures
        (b & r == r) <==> holds_line(b, k),
{
    if k == 0 {
        assert((b & 0b111u16 == 0b111u16) <==> (bit(b, 0) && bit(b, 1) && bit(b, 2))) by (bit_vector);
    } else if k == 1 {
        assert((b & 0b111000u16 == 0b111000u16) <==> (bit(b, 3) && bit(b, 4) && bit(b, 5))) by (bit_vector);
    } else if k == 2 {
        assert((b & 0b111000000u16 == 0b111000000u16) <==> (bit(b, 6) && bit(b, 7) && bit(b, 8))) by (bit_vector);
    } else if k == 3 {
        assert((b & 0b1001001u16 == 0b1001001u16) <==> (bit(b, 0) && bit(b, 3) && bit(b, 6))) by (bit_vector);
    } else if k == 4 {
        assert((b & 0b10010010u16 == 0b10010010u16) <==> (bit(b, 1) && bit(b, 4) && bit(b, 7))) by (bit_vector);
    } else if k == 5 {
        assert((b & 0b100100100u16 == 0b100100100u16) <==> (bit(b, 2) && bit(b, 5) && bit(b, 8))) by (bit_vector);
    } else if k == 6 {
        assert((b & 0b100010001u16 == 0b100010001u16) <==> (bit(b, 0) && bit(b, 4) && bit(b, 8))) by (bit_vector);
    } else {
        assert((b & 0b1010100u16 == 0b1010100u16) <==> (bit(b, 2) && bit(b, 4) && bit(b, 6))) by (bit_vector);
    }
}

/// Two mark sets within the nine cells that agree on every cell are equal.
proof fn lemma_bits_eq(u: u16, v: u16)
    requires
        u < 512,
        v < 512,
        bit(u, 0) == bit(v, 0),
        bit(u, 1) == bit(v, 1),
        bit(u, 2) == bit(v, 2),
        bit(u, 3) == bit(v, 3),
        bit(u, 4) == bit(v, 4),
        bit(u, 5) == bit(v, 5),
        bit(u, 6) == bit(v, 6),
        bit(u, 7) == bit(v, 7),
        bit(u, 8) == bit(v, 8),
    ensures
        u == v,
{
    assert(u == v) by (bit_vector)
        requires
            u < 512,
            v < 512,
            ((u >> 0u16) & 1u16 == 1u16) == ((v >> 0u16) & 1u16 == 1u16),
            ((u >> 1u16) & 1u16 == 1u16) == ((v >> 1u16) & 1u16 == 1u16),
            ((u >> 2u16) & 1u16 == 1u16) == ((v >> 2u16) & 1u16 == 1u16),
            ((u >> 3u16) & 1u16 == 1u16) == ((v >> 3u16) & 1u16 == 1u16),
            ((u >> 4u16) & 1u16 == 1u16) == ((v >> 4u16) & 1u16 == 1u16),
            ((u >> 5u16) & 1u16 == 1u16) == ((v >> 5u16) & 1u16 == 1u16),
            ((u >> 6u16) & 1u16 == 1u16) == ((v >> 6u16) & 1u16 == 1u16),
            ((u >> 7u16) & 1u16 == 1u16) == ((v >> 7u16) & 1u16 == 1u16),
            ((u >> 8u16) & 1u16 == 1u16) == ((v >> 8u16) & 1u16 == 1u16),
    ;
}

/// When both mark sets lie within the nine cells, their union is the full
/// board exactly when every cell is marked.
proof fn lemma_full(x: u16, o: u16)
    requires
        x < 512,
        o < 512,
    ensures
        (x | o == 0b111111111u16) <==> all_filled(x, o),
{
    assert((x | o == 0b111111111u16) <==> ((bit(x, 0) || bit(o, 0)) && (bit(x, 1) || bit(o, 1)) && (
    bit(x, 2) || bit(o, 2)) && (bit(x, 3) || bit(o, 3)) && (bit(x, 4) || bit(o, 4)) && (bit(x, 5)
        || bit(o, 5)) && (bit(x, 6) || bit(o, 6)) && (bit(x, 7) || bit(o, 7)) && (bit(x, 8) || bit(
        o,
        8,
    )))) by (bit_vector)
        requires
            x < 512,
            o < 512,
    ;
    if x | o == 0b111111111u16 {
        assert forall|i: u16| 0 <= i < 9 implies bit(x, i) || bit(o, i) by {
            if i == 0 {
            } else if i == 1 {
            } else if i == 2 {
            } else if i == 3 {
            } else if i == 4 {
            } else if i == 5 {
            } else if i == 6 {
            } else if i == 7 {
            } else {
            }
        }
    } else if all_filled(x, o) {
        assert(bit(x, 0) || bit(o, 0));
        assert(bit(x, 1) || bit(o, 1));
        assert(bit(x, 2) || bit(o, 2));
        assert(bit(x, 3) || bit(o, 3));
        assert(bit(x, 4) || bit(o, 4));
        assert(bit(x, 5) || bit(o, 5));
        assert(bit(x, 6) || bit(o, 6));
        assert(bit(x, 7) || bit(o, 7));
        assert(bit(x, 8) || bit(o, 8));
    }
}

/// A 3x3 board: for each piece, the set of cells (0..9) it has marked,
/// as a bit set.
#[derive(Debug, Copy, Clone)]
pub struct TicTacToe {
    x: u16,
    o: u16,
}

impl TicTacToe {
    /// The marks of piece `p`.
    pub closed spec fn marks(self, p: Piece) -> u16 {
        match p {
            Piece::X => self.x,
            Piece::O => self.o,
        }
    }

    /// Cell `i` holds a mark of `p`.
    pub open spec fn has_spec(self, p: Piece, i: int) -> bool {
        bit(self.marks(p), i as u16)
    }

    /// No mark lies outside the nine cells.
    pub open spec fn wf(self) -> bool {
        self.marks(Piece::X) < 512 && self.marks(Piece::O) < 512
    }

    /// The state of this board.
    pub open spec fn state(self) -> Option<TerminalState> {
        terminal_of(self.marks(Piece::X), self.marks(Piece::O))
    }

    /// The board with no marks.
    pub closed spec fn empty_spec() -> TicTacToe {
        TicTacToe { x: 0, o: 0 }
    }

    /// This board with cell `c` marked for `p`.
    pub closed spec fn with_mark(self, p: Piece, c: int) -> TicTacToe {
        match p {
            Piece::X => TicTacToe { x: self.x | (1u16 << c as u16), ..self },
            Piece::O => TicTacToe { o: self.o | (1u16 << c as u16), ..self },
        }
    }

    /// Marking a cell keeps the marks within the nine cells, adds that cell
    /// for `p`, and changes nothing else.
    pub proof fn lemma_with_mark_wf(self, p: Piece, c: int)
        requires
            self.wf(),
            0 <= c < 9,
        ensures
            self.with_mark(p, c).wf(),
            forall|q: Piece, i: int|
                0 <= i < 16 ==> #[trigger] self.with_mark(p, c).has_spec(q, i) == (self.has_spec(q, i)
                    || (q == p && i == c)),
    {
        let x = self.x;
        let o = self.o;
        let cc = c as u16;
        assert(x | (1u16 << cc) < 512) by (bit_vector)
            requires
                x < 512,
                cc < 9,
        ;
        assert(o | (1u16 << cc) < 512) by (bit_vector)
            requires
                o < 512,
                cc < 9,
        ;
        assert forall|q: Piece, i: int|
            0 <= i < 16 implies #[trigger] self.with_mark(p, c).has_spec(q, i) == (self.has_spec(q, i)
                || (q == p && i == c)) by {
            let ii = i as u16;
            let b = self.marks(q);
            assert(bit(b | (1u16 << cc), ii) == (bit(b, ii) || ii == cc)) by (bit_vector)
                requires
                    cc < 16,
                    ii < 16,
            ;
        }
    }

    /// Two boards whose marks lie within the nine cells and agree on every
    /// cell are the same board.
    pub proof fn lemma_ext(a: TicTacToe, b: TicTacToe)
        requires
            a.wf(),
            b.wf(),
            forall|p: Piece, i: int| 0 <= i < 9 ==> a.has_spec(p, i) == b.has_spec(p, i),
        ensures
            a == b,
    {
        assert(a.has_spec(Piece::X, 0) == b.has_spec(Piece::X, 0));
        assert(a.has_spec(Piece::X, 1) == b.has_spec(Piece::X, 1));
        assert(a.has_spec(Piece::X, 2) == b.has_spec(Piece::X, 2));
        assert(a.has_spec(Piece::X, 3) == b.has_spec(Piece::X, 3));
        assert(a.has_spec(Piece::X, 4) == b.has_spec(Piece::X, 4));
        assert(a.has_spec(Piece::X, 5) == b.has_spec(Piece::X, 5));
        assert(a.has_spec(Piece::X, 6) == b.has_spec(Piece::X, 6));
        assert(a.has_spec(Piece::X, 7) == b.has_spec(Piece::X, 7));
        assert(a.has_spec(Piece::X, 8) == b.has_spec(Piece::X, 8));
        assert(a.has_spec(Piece::O, 0) == b.has_spec(Piece::O, 0));
        assert(a.has_spec(Piece::O, 1) == b.has_spec(Piece::O, 1));
        assert(a.has_spec(Piece::O, 2) == b.has_spec(Piece::O, 2));
        assert(a.has_spec(Piece::O, 3) == b.has_spec(Piece::O, 3));
        assert(a.has_spec(Piece::O, 4) == b.has_spec(Piece::O, 4));
        assert(a.has_spec(Piece::O, 5) == b.has_spec(Piece::O, 5));
        assert(a.has_spec(Piece::O, 6) == b.has_spec(Piece::O, 6));
        assert(a.has_spec(Piece::O, 7) == b.has_spec(Piece::O, 7));
        assert(a.has_spec(Piece::O, 8) == b.has_spec(Piece::O, 8));
        lemma_bits_eq(a.x, b.x);
        lemma_bits_eq(a.o, b.o);
    }

    /// The board with no marks has no mark anywhere and lies within the
    /// nine cells.
    pub proof fn lemma_empty_has(p: Piece, i: int)
        requires
            0 <= i < 16,
        ensures
            !Self::empty_spec().has_spec(p, i),
            Self::empty_spec().wf(),
    {
        let ii = i as u16;
        assert(!bit(0u16, ii)) by (bit_vector);
    }

    /// An empty board.
    pub fn new() -> (r: TicTacToe)
        ensures
            r.marks(Piece::X) == 0,
            r.marks(Piece::O) == 0,
            r == Self::empty_spec(),
    {
        TicTacToe { x: 0, o: 0 }
    }

    /// Marks cell `index` for `piece`.
    pub fn set(&mut self, piece: Piece, index: usize)
        requires
            index < 16,
        ensures
            *final(self) == old(self).with_mark(piece, index as int),
            final(self).marks(piece) == old(self).marks(piece) | (1u16 << index as u16),
            final(self).marks(opponent_of(piece)) == old(self).marks(opponent_of(piece)),
    {
        let i: u16 = index as u16;
        match piece {
            Piece::X => self.x = self.x | (1u16 << i),
            Piece::O => self.o = self.o | (1u16 << i),
        }
    }

    /// Cell `index` holds a mark of `piece`.
    pub fn has(&self, piece: Piece, index: usize) -> (r: bool)
        requires
            index < 16,
        ensures
            r == self.has_spec(piece, index as int),
    {
        let b: u16 = match piece {
            Piece::X => self.x,
            Piece::O => self.o,
        };
        let i: u16 = index as u16;
        assert(((b & (1u16 << i)) != 0u16) == ((b >> i) & 1u16 == 1u16)) by (bit_vector)
            requires
                i < 16,
        ;
        (b & (1u16 << i)) != 0
    }

    /// Whether the board is won (by the first line found, `X` before `O`
    /// on each line), drawn (every cell marked), or still open.
    pub fn terminal_state(&self) -> (r: Option<TerminalState>)
        ensures
            r == terminal_bits(self.marks(Piece::X), self.marks(Piece::O)),
            self.wf() ==> r == self.state(),
    {
        let x: u16 = self.x;
        let o: u16 = self.o;
        let mut k: usize = 0;
        while k < 8
            invariant
                k <= 8,
                x == self.marks(Piece::X),
                o == self.marks(Piece::O),
                first_victory(x, o, 0) == first_victory(x, o, k as int),
            decreases 8 - k,
        {
            let check = line_mask(k);
            if x & check == check {
                return Some(TerminalState::Victory(Piece::X));
            }
            if o & check == check {
                return Some(TerminalState::Victory(Piece::O));
            }
            k += 1;
        }
        proof {
            if self.wf() {
                lemma_full(x, o);
            }
        }
        if x | o == 0b111111111 {
            return Some(TerminalState::Draw);
        }
        None
    }
}

/// The opponent of `p` (used in specifications of this module).
pub open spec fn opponent_of(p: Piece) -> Piece {
    crate::types::piece::opponent(p)
}


/// `p` holds all three cells of line `k` of board `t`.
pub open spec fn line_held(t: TicTacToe, p: Piece, k: int) -> bool {
    &&& t.has_spec(p, line_cells(k).0 as int)
    &&& t.has_spec(p, line_cells(k).1 as int)
    &&& t.has_spec(p, line_cells(k).2 as int)
}

/// The marks of `p` among the mark sets `x` (of `X`) and `o` (of `O`).
pub open spec fn bits_of(x: u16, o: u16, p: Piece) -> u16 {
    match p {
        Piece::X => x,
        Piece::O => o,
    }
}

/// A winner found by scanning from line `k` holds one of the lines `k..8`.
proof fn lemma_first_victory_line(x: u16, o: u16, k: int, p: Piece)
    requires
        first_victory(x, o, k) == Some(p),
    ensures
        exists|j: int| k <= j < 8 && #[trigger] holds_line(bits_of(x, o, p), j),
    decreases 8 - k,
{
    if k < 8 && !holds_line(x, k) && !holds_line(o, k) {
        lemma_first_victory_line(x, o, k + 1, p);
    } else {
        assert(holds_line(bits_of(x, o, p), k));
    }
}

/// Law: a 3x3 board is won by `p` only when `p` holds all three cells of
/// one of its eight lines.
pub proof fn law_victory_holds_line(t: TicTacToe, p: Piece)
    requires
        t.state() == Some(TerminalState::Victory(p)),
    ensures
        exists|k: int| 0 <= k < 8 && #[trigger] line_held(t, p, k),
{
    let x = t.marks(Piece::X);
    let o = t.marks(Piece::O);
    assert(first_victory(x, o, 0) == Some(p));
    lemma_first_victory_line(x, o, 0, p);
    let j = choose|j: int| 0 <= j < 8 && #[trigger] holds_line(bits_of(x, o, p), j);
    assert(line_held(t, p, j));
}


/// With no line held, scanning from line `k` finds no winner.
proof fn lemma_no_line_no_victory(x: u16, o: u16, k: int)
    requires
        forall|j: int| 0 <= j < 8 ==> !#[trigger] holds_line(x, j) && !holds_line(o, j),
        0 <= k,
    ensures
        first_victory(x, o, k) is None,
    decreases 8 - k,
{
    if k < 8 {
        assert(!holds_line(x, k) && !holds_line(o, k));
        lemma_no_line_no_victory(x, o, k + 1);
    }
}

/// Law: a 3x3 board on which neither side holds a line is drawn when every
/// cell is marked and still open when some cell is empty.
pub proof fn law_no_line_state(t: TicTacToe)
    requires
        forall|q: Piece, k: int| 0 <= k < 8 ==> !#[trigger] line_held(t, q, k),
    ensures
        (forall|c: int| 0 <= c < 9 ==> #[trigger] t.has_spec(Piece::X, c) || t.has_spec(Piece::O, c)) ==> t.state()
            == Some(TerminalState::Draw),
        (exists|c: int| 0 <= c < 9 && !#[trigger] t.has_spec(Piece::X, c) && !t.has_spec(Piece::O, c)) ==> t.state()
            is None,
{
    let x = t.marks(Piece::X);
    let o = t.marks(Piece::O);
    assert forall|j: int| 0 <= j < 8 implies !#[trigger] holds_line(x, j) && !holds_line(o, j) by {
        assert(!line_held(t, Piece::X, j));
        assert(!line_held(t, Piece::O, j));
        assert(0 <= line_cells(j).0 < 9 && 0 <= line_cells(j).1 < 9 && 0 <= line_cells(j).2 < 9);
    }
    lemma_no_line_no_victory(x, o, 0);
    if forall|c: int| 0 <= c < 9 ==> #[trigger] t.has_spec(Piece::X, c) || t.has_spec(Piece::O, c) {
        assert forall|i: u16| 0 <= i < 9 implies bit(x, i) || bit(o, i) by {
            assert(t.has_spec(Piece::X, i as int) || t.has_spec(Piece::O, i as int));
        }
    }
    if exists|c: int| 0 <= c < 9 && !#[trigger] t.has_spec(Piece::X, c) && !t.has_spec(Piece::O, c) {
        let c = choose|c: int| 0 <= c < 9 && !#[trigger] t.has_spec(Piece::X, c) && !t.has_spec(Piece::O, c);
        assert(!(bit(x, c as u16) || bit(o, c as u16)));
    }
}

} // verus!
