use vstd::prelude::*;
use crate::board::board::{Board, BoardModel};
use crate::board::laws::{
    with_piece, law_xor_piece_keeps_hash, law_toggle_keeps_hash, law_xor_move_keeps_hash, law_new_board_hash,
};
use crate::board::tictactoe::{TerminalState, TicTacToe};
use crate::text::{
    chars_of, split_whitespace, split_ws, trim, trim_chars, is_digit, digit_value, parse_unsigned, parse_unsigned_spec,
};
use crate::types::{File, Piece, Rank, Square};
use crate::types::piece::{piece_of_char, opponent};
use crate::types::square::{
    file_of, rank_of, parse_square_spec, lemma_square_index, lemma_square_at, lemma_file_rank, square_at,
    square_in, lemma_square_in,
};

verus! {

broadcast use {lemma_square_index, lemma_square_at};

/// The pieces of `s` between the separators `sep`, empty ones included,
/// in order (as `str::split` gives them).
pub open spec fn split_on(s: Seq<char>, sep: char) -> Seq<Seq<char>>
    decreases s.len(),
{
    if s.len() == 0 {
        seq![Seq::empty()]
    } else {
        let rest = split_on(s.drop_last(), sep);
        if s.last() == sep {
            rest.push(Seq::empty())
        } else {
            rest.update(rest.len() - 1, rest.last().push(s.last()))
        }
    }
}

proof fn lemma_split_on_len(s: Seq<char>, sep: char)
    ensures
        split_on(s, sep).len() >= 1,
    decreases s.len(),
{
    if s.len() > 0 {
        lemma_split_on_len(s.drop_last(), sep);
    }
}

/// Splits `s` at every `sep` (see `split_on`).
pub fn split_at_char(s: &[char], sep: char) -> (r: Vec<Vec<char>>)
    ensures
        r@.len() == split_on(s@, sep).len(),
        forall|i: int| 0 <= i < r@.len() ==> (#[trigger] r@[i])@ == split_on(s@, sep)[i],
{
    let mut parts: Vec<Vec<char>> = Vec::new();
    parts.push(Vec::new());
    proof {
        assert(s@.take(0) =~= Seq::<char>::empty());
        assert(parts@[0]@ =~= Seq::<char>::empty());
    }
    let mut i: usize = 0;
    while i < s.len()
        invariant
            i <= s@.len(),
            parts@.len() == split_on(s@.take(i as int), sep).len(),
            parts@.len() >= 1,
            forall|k: int| 0 <= k < parts@.len() ==> (#[trigger] parts@[k])@ == split_on(s@.take(i as int), sep)[k],
        decreases s@.len() - i,
    {
        let c = s[i];
        proof {
            assert(s@.take(i as int + 1).drop_last() =~= s@.take(i as int));
        }
        if c == sep {
            parts.push(Vec::new());
            proof {
                assert(parts@[parts@.len() - 1]@ =~= Seq::<char>::empty());
            }
        } else {
            let last = parts.len() - 1;
            let mut t = parts.remove(last);
            t.push(c);
            parts.push(t);
        }
        i += 1;
    }
    proof {
        assert(s@.take(s@.len() as int) =~= s@);
    }
    parts
}

/// The cells a row of the piece field stands for: a digit `d` stands for
/// `d` empty cells and a piece letter for that piece; any other character
/// makes the row invalid.
pub open spec fn expand_row(row: Seq<char>) -> Option<Seq<Option<Piece>>>
    decreases row.len(),
{
    if row.len() == 0 {
        Some(Seq::empty())
    } else {
        match expand_row(row.drop_last()) {
            None => None,
            Some(cells) => {
                let c = row.last();
                if is_digit(c) {
                    Some(cells + Seq::new(digit_value(c) as nat, |i: int| None::<Piece>))
                } else {
                    match piece_of_char(c) {
                        Some(p) => Some(cells.push(Some(p))),
                        None => None,
                    }
                }
            },
        }
    }
}

/// Expands a row of the piece field (see `expand_row`).
pub fn expand_row_exec(row: &[char]) -> (r: Option<Vec<Option<Piece>>>)
    ensures
        match expand_row(row@) {
            Some(cells) => r matches Some(v) && v@ == cells,
            None => r is None,
        },
{
    let mut cells: Vec<Option<Piece>> = Vec::new();
    let mut i: usize = 0;
    while i < row.len()
        invariant
            i <= row@.len(),
            expand_row(row@.take(i as int)) == Some(cells@),
            cells@.len() <= 9 * i,
        decreases row@.len() - i,
    {
        let c = row[i];
        proof {
            assert(row@.take(i as int + 1).drop_last() =~= row@.take(i as int));
        }
        if '0' <= c && c <= '9' {
            let d: u32 = c as u32 - '0' as u32;
            let ghost before = cells@;
            let mut j: u32 = 0;
            while j < d
                invariant
                    j <= d,
                    d == digit_value(c),
                    cells@ == before + Seq::new(j as nat, |k: int| None::<Piece>),
                decreases d - j,
            {
                cells.push(None);
                proof {
                    assert(before + Seq::new((j + 1) as nat, |k: int| None::<Piece>) =~= (before + Seq::new(
                        j as nat,
                        |k: int| None::<Piece>,
                    )).push(None));
                }
                j += 1;
            }
        } else {
            match Piece::from_char(c) {
                Some(p) => {
                    cells.push(Some(p));
                },
                None => {
                    proof {
                        lemma_expand_row_none(row@, i as int + 1);
                    }
                    return None;
                },
            }
        }
        i += 1;
    }
    proof {
        assert(row@.take(row@.len() as int) =~= row@);
    }
    Some(cells)
}

/// Once a prefix of a row is invalid, the whole row is.
proof fn lemma_expand_row_none(row: Seq<char>, i: int)
    requires
        0 <= i <= row.len(),
        expand_row(row.take(i)) is None,
    ensures
        expand_row(row) is None,
    decreases row.len() - i,
{
    if i < row.len() {
        assert(row.take(i + 1).drop_last() =~= row.take(i));
        lemma_expand_row_none(row, i + 1);
    } else {
        assert(row.take(i) =~= row);
    }
}

/// The rows of the piece field, bottom rank first.
pub open spec fn fen_rows(field: Seq<char>) -> Seq<Seq<char>> {
    split_on(field, '/').reverse()
}

/// The piece field is valid: at most nine rows, each standing for exactly
/// nine cells.
pub open spec fn field_valid(field: Seq<char>) -> bool {
    &&& fen_rows(field).len() <= 9
    &&& forall|r: int| 0 <= r < fen_rows(field).len() ==> #[trigger] row_ok(fen_rows(field)[r])
}

/// A row of the piece field stands for exactly nine cells.
pub open spec fn row_ok(row: Seq<char>) -> bool {
    match expand_row(row) {
        Some(cells) => cells.len() == 9,
        None => false,
    }
}

/// The piece the field puts on square `s` (rows not given are empty).
pub open spec fn field_cell(field: Seq<char>, s: int) -> Option<Piece> {
    if rank_of(s) < fen_rows(field).len() {
        expand_row(fen_rows(field)[rank_of(s)]).unwrap()[file_of(s)]
    } else {
        None
    }
}

/// A position string is valid: trimmed of white space, four fields
/// separated by ASCII white space, a
/// valid piece field, a side to move `x` or `o` (either case), and a ply
/// counter in `0..=255`. The fourth field is a square (the previous move)
/// or anything else (no previous move).
pub open spec fn fen_valid(fen: Seq<char>) -> bool {
    let t = split_ws(trim(fen));
    &&& t.len() == 4
    &&& field_valid(t[0])
    &&& t[1].len() == 1
    &&& piece_of_char(t[1][0]) is Some
    &&& parse_unsigned_spec(t[2], 255) is Ok
}

/// The board that a valid position string describes: its marks, side to
/// move, ply counter and previous move; each small board that is won is
/// marked on the large board; and the hash is the from-scratch hash.
pub open spec fn fen_board(fen: Seq<char>, b: BoardModel) -> bool {
    let t = split_ws(trim(fen));
    &&& b.wf()
    &&& forall|s: int| 0 <= s < 81 ==> #[trigger] b.has(Piece::X, s) == (field_cell(t[0], s) == Some(Piece::X))
    &&& forall|s: int| 0 <= s < 81 ==> #[trigger] b.has(Piece::O, s) == (field_cell(t[0], s) == Some(Piece::O))
    &&& b.large_consistent()
    &&& b.stm == piece_of_char(t[1][0]).unwrap()
    &&& b.ply == parse_unsigned_spec(t[2], 255).unwrap()
    &&& b.prev_mv == parse_square_spec(t[3])
    &&& b.hash == b.zobrist_hash()
}

/// The board that a valid position string describes (see `fen_board`).
pub open spec fn fen_model(fen: Seq<char>) -> BoardModel {
    choose|b: BoardModel| fen_board(fen, b)
}

/// A position string describes at most one board.
pub proof fn lemma_fen_board_unique(fen: Seq<char>, a: BoardModel, b: BoardModel)
    requires
        fen_board(fen, a),
        fen_board(fen, b),
    ensures
        a == b,
{
    assert forall|i: int| 0 <= i < 9 implies a.small[i] == b.small[i] by {
        assert forall|p: Piece, c: int| 0 <= c < 9 implies a.small[i].has_spec(p, c) == b.small[i].has_spec(p, c) by {
            lemma_square_in(i, c);
            let s = square_in(i, c);
            assert(a.has(p, s) == b.has(p, s)) by {
                assert(a.has(Piece::X, s) == b.has(Piece::X, s));
                assert(a.has(Piece::O, s) == b.has(Piece::O, s));
            }
        }
        TicTacToe::lemma_ext(a.small[i], b.small[i]);
    }
    assert(a.small =~= b.small);
    assert forall|p: Piece, i: int| 0 <= i < 9 implies a.large.has_spec(p, i) == b.large.has_spec(p, i) by {
        assert(a.large.has_spec(p, i) <==> a.small[i].state() == Some(TerminalState::Victory(p)));
        assert(b.large.has_spec(p, i) <==> b.small[i].state() == Some(TerminalState::Victory(p)));
    }
    TicTacToe::lemma_ext(a.large, b.large);
    crate::board::laws::lemma_hash_same_small(a, b);
}

/// The board that `from_fen` gives is the one its string describes.
pub proof fn lemma_fen_model(fen: Seq<char>, b: BoardModel)
    requires
        fen_board(fen, b),
    ensures
        fen_model(fen) == b,
{
    lemma_fen_board_unique(fen, fen_model(fen), b);
}

impl Board {
    /// Reads a position string: the piece field (ranks from the top,
    /// separated by `/`), the side to move, the ply counter and the previous
    /// move. `None` when the string is not valid (see `fen_valid`).
    pub fn from_fen(fen: &str) -> (r: Option<Board>)
        ensures
            r is Some <==> fen_valid(fen@),
            r matches Some(b) ==> fen_board(fen@, b@),
    {
        let chars = chars_of(fen);
        let trimmed = trim_chars(chars.as_slice());
        let parts = split_whitespace(trimmed.as_slice());
        if parts.len() != 4 {
            return None;
        }
        let pieces = &parts[0];
        let stm = &parts[1];
        let ply = &parts[2];
        let prev_move = &parts[3];
        if stm.len() != 1 {
            return None;
        }
        let mut board = Board::new();
        proof {
            law_new_board_hash(board@);
        }
        let ghost empty_small = board@.small;
        let ghost empty_large = board@.large;
        let ply_value = match parse_unsigned(ply.as_slice(), 255) {
            Ok(v) => v,
            Err(_) => {
                return None;
            },
        };
        board.set_ply(ply_value as u8);
        proof {
            crate::board::laws::lemma_hash_ignores_ply(board@);
        }
        match Piece::from_char(stm[0]) {
            Some(Piece::X) => {},
            Some(Piece::O) => {
                proof {
                    law_toggle_keeps_hash(board@);
                }
                board.toggle_stm();
            },
            None => {
                return None;
            },
        }
        match Square::from_chars(prev_move.as_slice()) {
            Some(mv) => {
                proof {
                    law_xor_move_keeps_hash(board@, mv);
                }
                board.xor_move(mv);
            },
            None => {},
        }
        let ghost field = pieces@;
        let ghost t = split_ws(trim(fen@));
        proof {
            assert(chars@ == fen@);
            assert(t[1] == stm@ && t[2] == ply@ && t[3] == prev_move@);
            assert(board@.stm == piece_of_char(t[1][0]).unwrap());
            assert(board@.ply == parse_unsigned_spec(t[2], 255).unwrap());
            assert(board@.prev_mv == parse_square_spec(t[3]));
        }
        let ghost stm_piece = board@.stm;
        let ghost ply_spec = board@.ply;
        let ghost prev_spec = board@.prev_mv;
        let rows = split_at_char(pieces.as_slice(), '/');
        proof {
            lemma_split_on_len(field, '/');
            assert(chars@ == fen@);
            assert(t[0] == field);
            assert forall|q: Piece, s: int| 0 <= s < 81 implies !#[trigger] board@.has(q, s) by {
                crate::types::square::lemma_board_cell(s);
                TicTacToe::lemma_empty_has(q, crate::types::square::cell_of(s));
            }
        }
        let nrows = rows.len();
        let mut k: usize = 0;
        while k < nrows
            invariant
                nrows == rows@.len(),
                nrows == split_on(field, '/').len(),
                forall|i: int| 0 <= i < rows@.len() ==> (#[trigger] rows@[i])@ == split_on(field, '/')[i],
                k <= nrows,
                k <= 9,
                board@.wf(),
                board@.hash == board@.zobrist_hash(),
                board@.large == empty_large,
                empty_large == TicTacToe::empty_spec(),
                board@.stm == stm_piece,
                board@.ply == ply_spec,
                board@.prev_mv == prev_spec,
                t == split_ws(trim(fen@)),
                t.len() == 4,
                t[0] == field,
                stm_piece == piece_of_char(t[1][0]).unwrap(),
                ply_spec == parse_unsigned_spec(t[2], 255).unwrap(),
                prev_spec == parse_square_spec(t[3]),
                t[1].len() == 1,
                piece_of_char(t[1][0]) is Some,
                parse_unsigned_spec(t[2], 255) is Ok,
                !field_valid(field) ==> !fen_valid(fen@),
                forall|r: int| 0 <= r < k ==> #[trigger] row_ok(fen_rows(field)[r]),
                forall|q: Piece, s: int|
                    0 <= s < 81 ==> #[trigger] board@.has(q, s) == (rank_of(s) < k && field_cell_in(field, s) == Some(q)),
            decreases nrows - k,
        {
            if k >= 9 {
                proof {
                    assert(fen_rows(field).len() > 9);
                }
                return None;
            }
            let row = &rows[nrows - 1 - k];
            proof {
                assert(fen_rows(field)[k as int] == split_on(field, '/')[nrows - 1 - k]);
            }
            let cells = match expand_row_exec(row.as_slice()) {
                Some(c) => c,
                None => {
                    proof {
                        assert(!row_ok(fen_rows(field)[k as int]));
                    }
                    return None;
                },
            };
            if cells.len() != 9 {
                proof {
                    assert(!row_ok(fen_rows(field)[k as int]));
                }
                return None;
            }
            let mut f: usize = 0;
            while f < 9
                invariant
                    k < 9,
                    k < nrows,
                    nrows == split_on(field, '/').len(),
                    f <= 9,
                    cells@.len() == 9,
                    expand_row(fen_rows(field)[k as int]) == Some(cells@),
                    board@.wf(),
                    board@.hash == board@.zobrist_hash(),
                    board@.large == empty_large,
                    board@.stm == stm_piece,
                    board@.ply == ply_spec,
                    board@.prev_mv == prev_spec,
                    forall|q: Piece, s: int|
                        0 <= s < 81 ==> #[trigger] board@.has(q, s) == ((rank_of(s) < k || (rank_of(s) == k
                            && file_of(s) < f)) && field_cell_in(field, s) == Some(q)),
                decreases 9 - f,
            {
                match cells[f] {
                    Some(p) => {
                        let sq = Square::new(File::index(f), Rank::index(k));
                        proof {
                            lemma_file_rank(k as int, f as int);
                            law_xor_piece_keeps_hash(board@, p, sq@);
                        }
                        board.xor_piece(p, sq);
                    },
                    None => {},
                }
                proof {
                    lemma_file_rank(k as int, f as int);
                }
                f += 1;
            }
            proof {
                assert(row_ok(fen_rows(field)[k as int]));
                assert forall|r: int| 0 <= r < k + 1 implies #[trigger] row_ok(fen_rows(field)[r]) by {
                }
            }
            k += 1;
        }
        proof {
            assert(fen_rows(field).len() == nrows);
            assert(field_valid(field));
            assert(fen_valid(fen@));
            assert forall|j: int, q: Piece| 0 <= j < 9 implies !#[trigger] board@.large.has_spec(q, j) by {
                TicTacToe::lemma_empty_has(q, j);
            }
        }
        let mut i: usize = 0;
        while i < 9
            invariant
                i <= 9,
                board@.wf(),
                board@.hash == board@.zobrist_hash(),
                forall|j: int, q: Piece| 0 <= j < 9 ==> #[trigger] board@.large.has_spec(q, j) == (j < i && board@.small[j].state()
                    == Some(TerminalState::Victory(q))),
                fen_valid(fen@),
                t == split_ws(trim(fen@)),
                t[0] == field,
                stm_piece == piece_of_char(t[1][0]).unwrap(),
                ply_spec == parse_unsigned_spec(t[2], 255).unwrap(),
                prev_spec == parse_square_spec(t[3]),
                board@.stm == stm_piece,
                board@.ply == ply_spec,
                board@.prev_mv == prev_spec,
                forall|q: Piece, s: int| 0 <= s < 81 ==> #[trigger] board@.has(q, s) == (field_cell(field, s) == Some(q)),
            decreases 9 - i,
        {
            let ghost before = board@;
            match board.small_board(i).terminal_state() {
                Some(TerminalState::Victory(p)) => {
                    proof {
                        before.large.lemma_with_mark_wf(p, i as int);
                        crate::board::laws::lemma_hash_same_small(before, board@);
                    }
                    board.set_large(p, i);
                    proof {
                        crate::board::laws::lemma_hash_same_small(before, board@);
                        assert(board@.small == before.small);
                        assert forall|q: Piece, s: int| 0 <= s < 81 implies #[trigger] board@.has(q, s) == before.has(q, s) by {
                        }
                    }
                },
                _ => {},
            }
            i += 1;
        }
        proof {
            assert(board@.large_consistent());
        }
        Some(board)
    }
}

/// The piece the field puts on square `s`, as `field_cell`.
pub open spec fn field_cell_in(field: Seq<char>, s: int) -> Option<Piece> {
    field_cell(field, s)
}

/// The digit for a run of `n` empty cells (nothing for no run).
pub open spec fn run_digit(n: int) -> Seq<char> {
    if n > 0 {
        seq![('0' as int + n) as char]
    } else {
        Seq::empty()
    }
}

/// The text of the first `f` cells of rank `r`, and the run of empty cells
/// it ends with that is not yet written.
pub open spec fn row_fold(m: BoardModel, r: int, f: nat) -> (Seq<char>, int)
    decreases f,
{
    if f == 0 {
        (Seq::empty(), 0)
    } else {
        let (t, run) = row_fold(m, r, (f - 1) as nat);
        match m.piece_at(r * 9 + f - 1) {
            Some(p) => (t + run_digit(run) + seq![crate::types::piece::char_of_piece(p)], 0),
            None => (t, run + 1),
        }
    }
}

/// The text of rank `r`: pieces as letters, runs of empty cells as digits.
pub open spec fn row_text(m: BoardModel, r: int) -> Seq<char> {
    row_fold(m, r, 9).0 + run_digit(row_fold(m, r, 9).1)
}

/// The text of the top `k` ranks, top first, each followed by `/` except
/// the bottom rank.
pub open spec fn field_text(m: BoardModel, k: nat) -> Seq<char>
    decreases k,
{
    if k == 0 {
        Seq::empty()
    } else {
        field_text(m, (k - 1) as nat) + row_text(m, 9 - k) + if 9 - k > 0 {
            seq!['/']
        } else {
            Seq::<char>::empty()
        }
    }
}

/// The position string of a board: the piece field and the side to move.
pub open spec fn fen_text(m: BoardModel) -> Seq<char> {
    field_text(m, 9) + seq![' ', crate::types::piece::char_of_piece(m.stm)]
}

proof fn lemma_row_fold_run(m: BoardModel, r: int, f: nat)
    ensures
        0 <= row_fold(m, r, f).1 <= f,
    decreases f,
{
    if f > 0 {
        lemma_row_fold_run(m, r, (f - 1) as nat);
    }
}

/// Appends the digit of a run of `run` empty cells (nothing for none).
fn push_run(s: &mut String, run: u32)
    requires
        run <= 9,
    ensures
        final(s)@ == old(s)@ + run_digit(run as int),
{
    if run > 0 {
        let b: u8 = '0' as u8 + run as u8;
        crate::text::push_char(s, b as char);
        assert(final(s)@ =~= old(s)@ + run_digit(run as int));
    } else {
        assert(old(s)@ + run_digit(run as int) =~= old(s)@);
    }
}

impl Board {
    /// The position string of this board (see `fen_text`).
    pub fn to_fen(&self) -> (r: String)
        ensures
            r@ == fen_text(self@),
    {
        let mut fen = String::new();
        let mut k: usize = 0;
        while k < 9
            invariant
                k <= 9,
                fen@ == field_text(self@, k as nat),
            decreases 9 - k,
        {
            let rank = Rank::index(8 - k);
            let ghost before = fen@;
            let mut empty: u32 = 0;
            let mut f: usize = 0;
            while f < 9
                invariant
                    f <= 9,
                    k < 9,
                    rank@ == 8 - k,
                    fen@ == before + row_fold(self@, 8 - k, f as nat).0,
                    empty == row_fold(self@, 8 - k, f as nat).1,
                    empty <= f,
                decreases 9 - f,
            {
                let sq = Square::new(File::index(f), rank);
                proof {
                    lemma_row_fold_run(self@, 8 - k, f as nat);
                }
                match self.piece_on(sq) {
                    Some(piece) => {
                        push_run(&mut fen, empty);
                        crate::text::push_char(&mut fen, piece.to_char());
                        empty = 0;
                        proof {
                            assert(fen@ =~= before + row_fold(self@, 8 - k, f as nat + 1).0);
                        }
                    },
                    None => {
                        empty += 1;
                    },
                }
                f += 1;
            }
            push_run(&mut fen, empty);
            if k < 8 {
                crate::text::push_char(&mut fen, '/');
            }
            proof {
                assert(fen@ =~= field_text(self@, k as nat + 1));
            }
            k += 1;
        }
        crate::text::push_char(&mut fen, ' ');
        crate::text::push_char(&mut fen, self.stm().to_char());
        proof {
            assert(fen@ =~= fen_text(self@));
        }
        fen
    }
}


/// A character that `to_fen` writes in a rank: a digit from 1 to 9 or a
/// piece letter.
pub open spec fn row_char(c: char) -> bool {
    ('1' <= c <= '9') || c == 'x' || c == 'o'
}

/// A run digit is a row character and stands for its run of empty cells.
proof fn lemma_run_digit(n: int)
    requires
        0 <= n <= 9,
    ensures
        forall|i: int| 0 <= i < run_digit(n).len() ==> row_char(#[trigger] run_digit(n)[i]),
        expand_row(run_digit(n)) == Some(Seq::new(n as nat, |i: int| None::<Piece>)),
{
    if n > 0 {
        let c = ('0' as int + n) as char;
        assert(run_digit(n) =~= seq![c]);
        assert(seq![c].drop_last() =~= Seq::<char>::empty());
        assert(expand_row(seq![c].drop_last()) == Some(Seq::<Option<Piece>>::empty()));
        assert(c as int == '0' as int + n);
        assert(is_digit(c));
        assert(digit_value(c) == n);
        assert(Seq::<Option<Piece>>::empty() + Seq::new(n as nat, |i: int| None::<Piece>) =~= Seq::new(
            n as nat,
            |i: int| None::<Piece>,
        ));
    } else {
        assert(Seq::new(0nat, |i: int| None::<Piece>) =~= Seq::<Option<Piece>>::empty());
    }
}

/// A piece letter stands for its piece.
proof fn lemma_expand_piece(p: Piece)
    ensures
        expand_row(seq![crate::types::piece::char_of_piece(p)]) == Some(seq![Some(p)]),
        row_char(crate::types::piece::char_of_piece(p)),
{
    let c = crate::types::piece::char_of_piece(p);
    assert(seq![c].drop_last() =~= Seq::<char>::empty());
    assert(expand_row(seq![c].drop_last()) == Some(Seq::<Option<Piece>>::empty()));
    assert(seq![c].last() == c);
    assert(Seq::<Option<Piece>>::empty().push(Some(p)) =~= seq![Some(p)]);
}

/// The cells of two rows written one after the other are the cells of the
/// first followed by those of the second.
proof fn lemma_expand_append(a: Seq<char>, b: Seq<char>, ca: Seq<Option<Piece>>, cb: Seq<Option<Piece>>)
    requires
        expand_row(a) == Some(ca),
        expand_row(b) == Some(cb),
    ensures
        expand_row(a + b) == Some(ca + cb),
    decreases b.len(),
{
    if b.len() == 0 {
        assert(a + b =~= a);
        assert(ca + cb =~= ca);
    } else {
        let b1 = b.drop_last();
        let c = b.last();
        assert((a + b).drop_last() =~= a + b1);
        assert((a + b).last() == c);
        assert(expand_row(b1) is Some);
        let cb1 = expand_row(b1)->Some_0;
        lemma_expand_append(a, b1, ca, cb1);
        if is_digit(c) {
            let z = Seq::new(digit_value(c) as nat, |i: int| None::<Piece>);
            assert((ca + cb1) + z =~= ca + (cb1 + z));
        } else {
            let q = piece_of_char(c)->Some_0;
            assert((ca + cb1).push(Some(q)) =~= ca + cb1.push(Some(q)));
        }
    }
}

/// The text of the first `f` cells of rank `r` is made of row characters and
/// stands for those cells but the run of empty ones it ends with.
proof fn lemma_row_fold_expand(m: BoardModel, r: int, f: nat)
    requires
        f <= 9,
    ensures
        forall|i: int| 0 <= i < row_fold(m, r, f).0.len() ==> row_char(#[trigger] row_fold(m, r, f).0[i]),
        expand_row(row_fold(m, r, f).0) == Some(
            Seq::new((f - row_fold(m, r, f).1) as nat, |i: int| m.piece_at(r * 9 + i)),
        ),
        forall|i: int| f - row_fold(m, r, f).1 <= i < f ==> (#[trigger] m.piece_at(r * 9 + i)) is None,
    decreases f,
{
    lemma_row_fold_run(m, r, f);
    if f == 0 {
        assert(Seq::new(0nat, |i: int| m.piece_at(r * 9 + i)) =~= Seq::<Option<Piece>>::empty());
    } else {
        let f1 = (f - 1) as nat;
        lemma_row_fold_expand(m, r, f1);
        lemma_row_fold_run(m, r, f1);
        let t = row_fold(m, r, f1).0;
        let run = row_fold(m, r, f1).1;
        let cells = Seq::new((f1 - run) as nat, |i: int| m.piece_at(r * 9 + i));
        match m.piece_at(r * 9 + f - 1) {
            Some(p) => {
                let ch = crate::types::piece::char_of_piece(p);
                let rd = run_digit(run);
                let nones = Seq::new(run as nat, |i: int| None::<Piece>);
                lemma_run_digit(run);
                lemma_expand_piece(p);
                lemma_expand_append(t, rd, cells, nones);
                lemma_expand_append(t + rd, seq![ch], cells + nones, seq![Some(p)]);
                let t2 = t + rd + seq![ch];
                assert(row_fold(m, r, f).0 == t2);
                assert forall|i: int| 0 <= i < t2.len() implies row_char(#[trigger] t2[i]) by {
                    if i < t.len() {
                        assert(t2[i] == t[i]);
                    } else if i < t.len() + rd.len() {
                        assert(t2[i] == rd[i - t.len()]);
                    } else {
                        assert(t2[i] == ch);
                    }
                }
                assert(cells + nones + seq![Some(p)] =~= Seq::new(f, |i: int| m.piece_at(r * 9 + i)));
            },
            None => {
                assert(cells =~= Seq::new((f - (run + 1)) as nat, |i: int| m.piece_at(r * 9 + i)));
            },
        }
    }
}

/// A rank's text is a nonempty run of row characters that stands for the
/// rank's nine cells.
proof fn lemma_row_text(m: BoardModel, r: int)
    ensures
        forall|i: int| 0 <= i < row_text(m, r).len() ==> row_char(#[trigger] row_text(m, r)[i]),
        row_text(m, r).len() > 0,
        expand_row(row_text(m, r)) == Some(Seq::new(9, |i: int| m.piece_at(r * 9 + i))),
{
    lemma_row_fold_expand(m, r, 9);
    lemma_row_fold_run(m, r, 9);
    let t = row_fold(m, r, 9).0;
    let run = row_fold(m, r, 9).1;
    let cells = Seq::new((9 - run) as nat, |i: int| m.piece_at(r * 9 + i));
    let nones = Seq::new(run as nat, |i: int| None::<Piece>);
    lemma_run_digit(run);
    lemma_expand_append(t, run_digit(run), cells, nones);
    assert(cells + nones =~= Seq::new(9, |i: int| m.piece_at(r * 9 + i)));
    let rt = row_text(m, r);
    assert forall|i: int| 0 <= i < rt.len() implies row_char(#[trigger] rt[i]) by {
        if i < t.len() {
            assert(rt[i] == t[i]);
        } else {
            assert(rt[i] == run_digit(run)[i - t.len()]);
        }
    }
    if rt.len() == 0 {
        assert(rt =~= Seq::<char>::empty());
    }
}

/// Appending text without a separator extends the last piece.
proof fn lemma_split_on_no_sep(a: Seq<char>, b: Seq<char>, sep: char)
    requires
        forall|i: int| 0 <= i < b.len() ==> b[i] != sep,
    ensures
        split_on(a + b, sep) == split_on(a, sep).update(split_on(a, sep).len() - 1, split_on(a, sep).last() + b),
    decreases b.len(),
{
    lemma_split_on_len(a, sep);
    let s = split_on(a, sep);
    if b.len() == 0 {
        assert(a + b =~= a);
        assert(s.last() + b =~= s.last());
        assert(s.update(s.len() - 1, s.last() + b) =~= s);
    } else {
        let b1 = b.drop_last();
        assert((a + b).drop_last() =~= a + b1);
        assert((a + b).last() == b.last());
        lemma_split_on_no_sep(a, b1, sep);
        let s1 = s.update(s.len() - 1, s.last() + b1);
        assert(s.last() + b =~= (s.last() + b1).push(b.last()));
        assert(s1.update(s1.len() - 1, s1.last().push(b.last())) =~= s.update(s.len() - 1, s.last() + b));
    }
}

/// The ranks of the board from the top, the first `k` of them.
pub open spec fn rows_top(m: BoardModel, k: nat) -> Seq<Seq<char>> {
    Seq::new(k, |i: int| row_text(m, 8 - i))
}

/// The top `k` ranks of the field split into their texts (with an empty
/// piece after the `/` that follows all but the bottom rank), and the field
/// is made of row characters and `/`.
proof fn lemma_field_split(m: BoardModel, k: nat)
    requires
        k <= 9,
    ensures
        k < 9 ==> split_on(field_text(m, k), '/') == rows_top(m, k).push(Seq::<char>::empty()),
        k == 9 ==> split_on(field_text(m, k), '/') == rows_top(m, 9),
        forall|i: int| 0 <= i < field_text(m, k).len() ==> row_char(#[trigger] field_text(m, k)[i])
            || field_text(m, k)[i] == '/',
        k > 0 ==> field_text(m, k).len() > 0,
    decreases k,
{
    if k == 0 {
        assert(rows_top(m, 0).push(Seq::<char>::empty()) =~= seq![Seq::<char>::empty()]);
    } else {
        let k1 = (k - 1) as nat;
        lemma_field_split(m, k1);
        lemma_row_text(m, 9 - k);
        let a = field_text(m, k1);
        let row = row_text(m, 9 - k);
        lemma_split_on_no_sep(a, row, '/');
        assert(rows_top(m, k1).push(Seq::<char>::empty()).update(k1 as int, Seq::<char>::empty() + row) =~= rows_top(
            m,
            k,
        ));
        let ar = a + row;
        if 9 - k > 0 {
            assert(field_text(m, k) == ar + seq!['/']);
            assert((ar + seq!['/']).drop_last() =~= ar);
        } else {
            assert(field_text(m, k) =~= ar);
        }
        let ft = field_text(m, k);
        assert forall|i: int| 0 <= i < ft.len() implies row_char(#[trigger] ft[i]) || ft[i] == '/' by {
            if i < a.len() {
                assert(ft[i] == a[i]);
            } else if i < a.len() + row.len() {
                assert(ft[i] == row[i - a.len()]);
            }
        }
    }
}

/// Text without white space splits into itself alone.
proof fn lemma_split_ws_word(s: Seq<char>)
    requires
        s.len() > 0,
        forall|i: int| 0 <= i < s.len() ==> !crate::text::is_ascii_ws(#[trigger] s[i]),
    ensures
        split_ws(s) == seq![s],
    decreases s.len(),
{
    let s1 = s.drop_last();
    assert(!crate::text::is_ascii_ws(s[s.len() - 1]));
    if s1.len() == 0 {
        assert(s1 =~= Seq::<char>::empty());
        assert(split_ws(s1) == Seq::<Seq<char>>::empty());
        assert(s =~= seq![s.last()]);
        assert(Seq::<Seq<char>>::empty().push(seq![s.last()]) =~= seq![s]);
    } else {
        lemma_split_ws_word(s1);
        assert(!crate::text::is_ascii_ws(s[s.len() - 2]));
        assert(s1.push(s.last()) =~= s);
        assert(seq![s1].update(0, s1.push(s.last())) =~= seq![s]);
    }
}

/// A space then a word add the word as a new piece.
proof fn lemma_split_ws_then_word(a: Seq<char>, b: Seq<char>)
    requires
        b.len() > 0,
        forall|i: int| 0 <= i < b.len() ==> !crate::text::is_ascii_ws(#[trigger] b[i]),
    ensures
        split_ws(a.push(' ') + b) == split_ws(a).push(b),
    decreases b.len(),
{
    let b1 = b.drop_last();
    let x = a.push(' ') + b;
    assert(x.drop_last() =~= a.push(' ') + b1);
    assert(a.push(' ').drop_last() =~= a);
    assert(split_ws(a.push(' ')) == split_ws(a));
    assert(x.last() == b.last());
    assert(!crate::text::is_ascii_ws(b[b.len() - 1]));
    if b1.len() == 0 {
        assert(a.push(' ') + b1 =~= a.push(' '));
        assert(x[x.len() - 2] == ' ');
        assert(b =~= seq![b.last()]);
    } else {
        lemma_split_ws_then_word(a, b1);
        assert(x[x.len() - 2] == b1.last());
        assert(!crate::text::is_ascii_ws(b[b.len() - 2]));
        assert(b1.push(b.last()) =~= b);
        let r = split_ws(a).push(b1);
        assert(r.update(r.len() - 1, r.last().push(b.last())) =~= split_ws(a).push(b));
    }
}

/// The position string of `m` completed with a ply counter of 0 and no
/// previous move.
pub open spec fn fen_line(m: BoardModel) -> Seq<char> {
    fen_text(m) + seq![' ', '0', ' ', '-']
}

/// The fields of the completed position string.
proof fn lemma_fen_line_fields(m: BoardModel)
    ensures
        split_ws(trim(fen_line(m))) == seq![
            field_text(m, 9),
            seq![crate::types::piece::char_of_piece(m.stm)],
            seq!['0'],
            seq!['-'],
        ],
        split_on(field_text(m, 9), '/') == rows_top(m, 9),
{
    lemma_field_split(m, 9);
    let f = field_text(m, 9);
    let c = crate::types::piece::char_of_piece(m.stm);
    let t = fen_line(m);
    assert forall|i: int| 0 <= i < f.len() implies !crate::text::is_ascii_ws(#[trigger] f[i]) by {
        assert(row_char(f[i]) || f[i] == '/');
    }
    assert(!crate::text::is_unicode_ws(t[0])) by {
        assert(t[0] == f[0]);
        assert(row_char(f[0]) || f[0] == '/');
    }
    assert(crate::text::trim_front(t) == t);
    assert(crate::text::trim_back(t) == t);
    lemma_split_ws_word(f);
    lemma_split_ws_then_word(f, seq![c]);
    let a1 = f.push(' ') + seq![c];
    lemma_split_ws_then_word(a1, seq!['0']);
    let a2 = a1.push(' ') + seq!['0'];
    lemma_split_ws_then_word(a2, seq!['-']);
    assert(a2.push(' ') + seq!['-'] =~= t);
    assert(seq![f].push(seq![c]).push(seq!['0']).push(seq!['-']) =~= seq![f, seq![c], seq!['0'], seq!['-']]);
}

/// Law: the position string of a board, completed with a ply counter of 0
/// and no previous move, is valid, and every board it describes (the one
/// `from_fen` reads) has the same marks and side to move, ply 0 and no
/// previous move.
pub proof fn law_fen_round_trip(m: BoardModel, b: BoardModel)
    ensures
        fen_valid(fen_line(m)),
        fen_board(fen_line(m), b) ==> {
            &&& b.stm == m.stm
            &&& b.ply == 0
            &&& b.prev_mv is None
            &&& forall|s: int| 0 <= s < 81 ==> #[trigger] b.piece_at(s) == m.piece_at(s)
        },
{
    lemma_fen_line_fields(m);
    let f = field_text(m, 9);
    let rows = fen_rows(f);
    assert(rows =~= Seq::new(9, |r: int| row_text(m, r)));
    assert forall|r: int| 0 <= r < rows.len() implies #[trigger] row_ok(rows[r]) by {
        lemma_row_text(m, r);
    }
    assert(seq!['0'].drop_last() =~= Seq::<char>::empty());
    assert(crate::text::read_digits(Seq::<char>::empty(), 255, crate::text::IntErrorKind::PosOverflow) == Ok::<int, crate::text::IntErrorKind>(0));
    assert(crate::text::read_digits(seq!['0'].drop_last(), 255, crate::text::IntErrorKind::PosOverflow) == Ok::<int, crate::text::IntErrorKind>(0));
    assert(is_digit('0') && digit_value('0') == 0);
    assert(crate::text::read_digits(seq!['0'], 255, crate::text::IntErrorKind::PosOverflow) == Ok::<int, crate::text::IntErrorKind>(0));
    assert(parse_unsigned_spec(seq!['0'], 255) == Ok::<int, crate::text::IntErrorKind>(0));
    assert forall|s: int| 0 <= s < 81 implies #[trigger] field_cell(f, s) == m.piece_at(s) by {
        lemma_row_text(m, rank_of(s));
        assert(rank_of(s) * 9 + file_of(s) == s);
    }
    if fen_board(fen_line(m), b) {
        assert forall|s: int| 0 <= s < 81 implies #[trigger] b.piece_at(s) == m.piece_at(s) by {
            assert(field_cell(f, s) == m.piece_at(s));
        }
    }
}

} // verus!
