use vstd::prelude::*;
use crate::types::file::{File, file_at, lemma_file_index, lemma_file_at};
use crate::types::rank::{Rank, rank_at, lemma_rank_index, lemma_rank_at};
use crate::types::bitboard::Bitboard;

verus! {

broadcast use {lemma_file_index, lemma_file_at, lemma_rank_index, lemma_rank_at};

/// A cell of the 9x9 grid. Squares are numbered rank by rank from the
/// bottom-left corner: `a1` is 0, `b1` is 1, ..., `i9` is 80.
#[derive(Debug, Copy, Clone, PartialEq, Eq, Structural)]
pub struct Square {
    pub file: File,
    pub rank: Rank,
}

impl View for Square {
    type V = int;

    open spec fn view(&self) -> int {
        self.rank@ * 9 + self.file@
    }
}

/// The square numbered `i`.
pub open spec fn square_at(i: int) -> Square
    recommends
        0 <= i < 81,
{
    Square { file: file_at(i % 9), rank: rank_at(i / 9) }
}

/// The file of a square, as a number.
pub open spec fn file_of(s: int) -> int {
    s % 9
}

/// The rank of a square, as a number.
pub open spec fn rank_of(s: int) -> int {
    s / 9
}

/// The small board (0..9) that square `s` lies in; small boards are
/// numbered like the cells of a 3x3 board, bottom-left first.
pub open spec fn board_of(s: int) -> int {
    (rank_of(s) / 3) * 3 + file_of(s) / 3
}

/// The cell (0..9) of its small board that square `s` is.
pub open spec fn cell_of(s: int) -> int {
    (rank_of(s) % 3) * 3 + file_of(s) % 3
}

/// The square that is cell `c` of small board `b`.
pub open spec fn square_in(b: int, c: int) -> int {
    ((b / 3) * 3 + c / 3) * 9 + (b % 3) * 3 + c % 3
}

/// Every square has a number in `0..81`, that number names it, and its
/// file and rank are read off the number.
pub broadcast proof fn lemma_square_index(s: Square)
    ensures
        0 <= #[trigger] s@ < 81,
        square_at(s@) == s,
        file_of(s@) == s.file_spec()@,
        rank_of(s@) == s.rank_spec()@,
{
}

/// The square named by a number in `0..81` has that number.
pub broadcast proof fn lemma_square_at(i: int)
    requires
        0 <= i < 81,
    ensures
        #[trigger] square_at(i)@ == i,
{
}

/// Two squares with the same number are the same square.
pub broadcast proof fn lemma_square_injective(a: Square, b: Square)
    requires
        #[trigger] a@ == #[trigger] b@,
    ensures
        a == b,
{
    lemma_square_index(a);
    lemma_square_index(b);
}

/// The character with code `c`, for a code of a letter or digit.
fn char_from(c: u32) -> (r: char)
    requires
        48 <= c <= 122,
    ensures
        r == c as char,
{
    let b: u8 = c as u8;
    b as char
}

/// The file and rank of a square are read back off its number.
pub proof fn lemma_file_rank(rank: int, file: int)
    requires
        0 <= rank < 9,
        0 <= file < 9,
    ensures
        file_of(rank * 9 + file) == file,
        rank_of(rank * 9 + file) == rank,
{
    vstd::arithmetic::div_mod::lemma_fundamental_div_mod_converse(rank * 9 + file, 9, rank, file);
}

/// Splitting a square into (small board, cell) is one to one and onto:
/// both parts lie in `0..9` and `square_in` puts them back together.
pub proof fn lemma_board_cell(s: int)
    requires
        0 <= s < 81,
    ensures
        0 <= board_of(s) < 9,
        0 <= cell_of(s) < 9,
        square_in(board_of(s), cell_of(s)) == s,
{
}

/// Putting a (small board, cell) pair together gives a square whose parts
/// are that pair.
pub proof fn lemma_square_in(b: int, c: int)
    requires
        0 <= b < 9,
        0 <= c < 9,
    ensures
        0 <= square_in(b, c) < 81,
        board_of(square_in(b, c)) == b,
        cell_of(square_in(b, c)) == c,
{
}

/// The letter of file number `f`: `a` to `i`.
pub open spec fn file_char(f: int) -> char {
    ('a' as int + f) as char
}

/// The digit of rank number `r`: `1` to `9`.
pub open spec fn rank_char(r: int) -> char {
    ('1' as int + r) as char
}

/// How square number `s` is written: its file letter, then its rank digit.
pub open spec fn square_text(s: int) -> Seq<char> {
    seq![file_char(file_of(s)), rank_char(rank_of(s))]
}

/// The square that `t` names: a file letter `a`..`i` and a rank digit
/// `1`..`9`, nothing else.
pub open spec fn parse_square_spec(t: Seq<char>) -> Option<Square> {
    if t.len() == 2 && 'a' <= t[0] <= 'i' && '1' <= t[1] <= '9' {
        Some(square_at((t[1] as int - '1' as int) * 9 + (t[0] as int - 'a' as int)))
    } else {
        None
    }
}

/// Law: reading a square's name gives back the square.
pub proof fn law_square_name_roundtrip(s: Square)
    ensures
        parse_square_spec(square_text(s@)) == Some(s),
{
    lemma_square_index(s);
    let f = file_of(s@);
    let r = rank_of(s@);
    assert(0 <= f < 9 && 0 <= r < 9);
    assert(file_char(f) as int == 'a' as int + f);
    assert(rank_char(r) as int == '1' as int + r);
    assert(r * 9 + f == s@);
}

impl Square {
    pub const COUNT: usize = 81;

    /// How this square is written, e.g. `e5`.
    pub fn name(self) -> (r: String)
        ensures
            r@ == square_text(self@),
    {
        let mut s = String::new();
        let f: u32 = self.file.idx() as u32;
        let rk: u32 = self.rank.idx() as u32;
        let fc: u32 = 'a' as u32 + f;
        let rc: u32 = '1' as u32 + rk;
        let fch = char_from(fc);
        let rch = char_from(rc);
        crate::text::push_char(&mut s, fch);
        crate::text::push_char(&mut s, rch);
        assert(s@ =~= square_text(self@));
        s
    }

    /// The square that `t` names (see `parse_square_spec`).
    pub fn from_chars(t: &[char]) -> (r: Option<Square>)
        ensures
            r == parse_square_spec(t@),
    {
        if t.len() == 2 && 'a' <= t[0] && t[0] <= 'i' && '1' <= t[1] && t[1] <= '9' {
            let f: usize = (t[0] as u32 - 'a' as u32) as usize;
            let rk: usize = (t[1] as u32 - '1' as u32) as usize;
            proof {
                lemma_file_rank(rk as int, f as int);
            }
            Some(Square::index(rk * 9 + f))
        } else {
            None
        }
    }

    pub closed spec fn file_spec(self) -> File {
        self.file
    }

    pub closed spec fn rank_spec(self) -> Rank {
        self.rank
    }

    /// The square on `file` and `rank`.
    pub fn new(file: File, rank: Rank) -> (r: Square)
        ensures
            r@ == rank@ * 9 + file@,
            r.file_spec() == file,
            r.rank_spec() == rank,
    {
        Square { file, rank }
    }

    /// The number of this square, in `0..81`.
    pub fn idx(self) -> (r: usize)
        ensures
            r == self@,
            r < 81,
    {
        self.rank.idx() * 9 + self.file.idx()
    }

    /// The square numbered `i`, which must be below 81.
    pub fn index(i: usize) -> (r: Square)
        requires
            i < 81,
        ensures
            r@ == i,
            r == square_at(i as int),
    {
        Square { file: File::index(i % 9), rank: Rank::index(i / 9) }
    }

    /// The square numbered `i`, or `None` when `i` is 81 or more.
    pub fn try_index(i: usize) -> (r: Option<Square>)
        ensures
            i < 81 ==> r == Some(square_at(i as int)),
            i >= 81 ==> r is None,
    {
        if i < 81 {
            Some(Self::index(i))
        } else {
            None
        }
    }

    /// The file this square is on.
    pub fn file(self) -> (r: File)
        ensures
            r@ == file_of(self@),
            r == self.file_spec(),
    {
        self.file
    }

    /// The rank this square is on.
    pub fn rank(self) -> (r: Rank)
        ensures
            r@ == rank_of(self@),
            r == self.rank_spec(),
    {
        self.rank
    }

    /// The square mirrored left to right.
    pub fn flip_file(self) -> (r: Square)
        ensures
            file_of(r@) == 8 - file_of(self@),
            rank_of(r@) == rank_of(self@),
    {
        Square::new(self.file().flip(), self.rank())
    }

    /// The square mirrored top to bottom.
    pub fn flip_rank(self) -> (r: Square)
        ensures
            file_of(r@) == file_of(self@),
            rank_of(r@) == 8 - rank_of(self@),
    {
        Square::new(self.file(), self.rank().flip())
    }

    /// The square `dx` files and `dy` ranks away; it must lie on the board.
    pub fn offset(self, dx: i8, dy: i8) -> (r: Square)
        requires
            0 <= file_of(self@) + dx < 9,
            0 <= rank_of(self@) + dy < 9,
        ensures
            file_of(r@) == file_of(self@) + dx,
            rank_of(r@) == rank_of(self@) + dy,
    {
        let file = self.file().offset(dx);
        let rank = self.rank().offset(dy);
        Square::new(file, rank)
    }

    /// The square `dx` files and `dy` ranks away, or `None` when that
    /// leaves the board.
    pub fn try_offset(self, dx: i8, dy: i8) -> (r: Option<Square>)
        ensures
            (0 <= file_of(self@) + dx < 9 && 0 <= rank_of(self@) + dy < 9) ==> (r matches Some(s)
                && file_of(s@) == file_of(self@) + dx && rank_of(s@) == rank_of(self@) + dy),
            !(0 <= file_of(self@) + dx < 9 && 0 <= rank_of(self@) + dy < 9) ==> r is None,
    {
        let file = match self.file().try_offset(dx) {
            Some(f) => f,
            None => return None,
        };
        let rank = match self.rank().try_offset(dy) {
            Some(r) => r,
            None => return None,
        };
        Some(Square::new(file, rank))
    }

    /// The one-square set holding this square.
    pub fn bitboard(self) -> (r: Bitboard)
        ensures
            r.0 == 1u128 << (self@ as u128),
    {
        let i: u128 = self.idx() as u128;
        Bitboard::new(1u128 << i)
    }

    /// The small board this square lies in and its cell within that board.
    pub fn indices(self) -> (r: (usize, usize))
        ensures
            r.0 == board_of(self@),
            r.1 == cell_of(self@),
            r.0 < 9,
            r.1 < 9,
    {
        let f = self.file.idx();
        let rk = self.rank.idx();
        proof {
            lemma_file_rank(rk as int, f as int);
        }
        ((rk / 3) * 3 + f / 3, (rk % 3) * 3 + f % 3)
    }

    /// The square that is cell `cell` of small board `board`.
    pub fn from_indices(board: usize, cell: usize) -> (r: Square)
        requires
            board < 9,
            cell < 9,
        ensures
            r@ == square_in(board as int, cell as int),
            board_of(r@) == board,
            cell_of(r@) == cell,
    {
        proof {
            lemma_square_in(board as int, cell as int);
        }
        Square::index(((board / 3) * 3 + cell / 3) * 9 + (board % 3) * 3 + cell % 3)
    }
}

} // verus!
