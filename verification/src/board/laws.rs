use vstd::prelude::*;
use crate::board::board::{BoardModel, Board, piece_of, lemma_board_of_bound};
use crate::board::tictactoe::{TerminalState, TicTacToe};
use crate::board::zobrist::{piece_key, stm_key, prev_move_key};
use crate::types::{Piece, Square};
use crate::types::piece::opponent;
use crate::types::square::{board_of, cell_of, square_in, lemma_board_cell, lemma_square_index};

verus! {

/// The laws of `xor` that the hash proofs use.
proof fn lemma_xor(a: u64, b: u64, c: u64)
    ensures
        a ^ 0 == a,
        (a ^ b) ^ c == (a ^ c) ^ b,
        (a ^ b) ^ b == a,
{
    assert(a ^ 0 == a) by (bit_vector);
    assert((a ^ b) ^ c == (a ^ c) ^ b) by (bit_vector);
    assert((a ^ b) ^ b == a) by (bit_vector);
}

/// Mark number `k` of piece `p` on square `s`.
pub open spec fn mark_number(p: Piece, s: int) -> int {
    p@ * 81 + s
}

/// A mark number splits back into its piece and square.
proof fn lemma_mark_number(p: Piece, s: int)
    requires
        0 <= s < 81,
    ensures
        0 <= mark_number(p, s) < 162,
        mark_number(p, s) / 81 == p@,
        mark_number(p, s) % 81 == s,
        piece_of(mark_number(p, s) / 81) == p,
{
    vstd::arithmetic::div_mod::lemma_fundamental_div_mod_converse(mark_number(p, s), 81, p@, s);
}

/// Playing `mv` adds exactly one mark: that of the side to move on `mv`.
proof fn lemma_after_move_marks(m: BoardModel, mv: Square)
    requires
        m.wf(),
    ensures
        forall|k: int|
            0 <= k < 162 ==> #[trigger] m.after_move(mv).has_mark(k) == (m.has_mark(k) || k
                == mark_number(m.stm, mv@)),
{
    lemma_square_index(mv);
    lemma_board_cell(mv@);
    let b = board_of(mv@);
    let c = cell_of(mv@);
    let t0 = m.small[b];
    t0.lemma_with_mark_wf(m.stm, c);
    assert forall|k: int|
        0 <= k < 162 implies #[trigger] m.after_move(mv).has_mark(k) == (m.has_mark(k) || k
            == mark_number(m.stm, mv@)) by {
        let p = piece_of(k / 81);
        let s = k % 81;
        lemma_board_cell(s);
        if board_of(s) == b {
            assert(m.after_move(mv).small[b] == t0.with_mark(m.stm, c));
            if p == m.stm && cell_of(s) == c {
                assert(s == mv@);
            }
            if k == mark_number(m.stm, mv@) {
                assert(s == mv@ && p == m.stm);
            }
        } else {
            if k == mark_number(m.stm, mv@) {
                assert(s == mv@);
            }
        }
    }
}

/// When two boards have the same marks except mark `k0`, which only the
/// second has, their hashes of the first `n` marks differ by the key of
/// `k0` exactly when `k0` is among those marks.
proof fn lemma_marks_hash_add(m1: BoardModel, m2: BoardModel, k0: int, n: nat)
    requires
        0 <= k0 < 162,
        n <= 162,
        forall|k: int| 0 <= k < 162 && k != k0 ==> #[trigger] m2.has_mark(k) == m1.has_mark(k),
        !m1.has_mark(k0),
        m2.has_mark(k0),
    ensures
        m2.marks_hash(n) == m1.marks_hash(n) ^ (if k0 < n {
            piece_key(k0 / 81, k0 % 81)
        } else {
            0
        }),
    decreases n,
{
    if n == 0 {
        lemma_xor(0, 0, 0);
    } else {
        let k = (n - 1) as int;
        lemma_marks_hash_add(m1, m2, k0, k as nat);
        let key = piece_key(k0 / 81, k0 % 81);
        let e1: u64 = if m1.has_mark(k) {
            piece_key(k / 81, k % 81)
        } else {
            0
        };
        lemma_xor(m1.marks_hash(k as nat), key, e1);
        lemma_xor(m1.marks_hash(k as nat), 0, e1);
        lemma_xor(m1.marks_hash(k as nat), e1, 0);
        lemma_xor(m1.marks_hash(k as nat) ^ e1, 0, 0);
    }
}

/// A board with no marks hashes its marks to 0.
proof fn lemma_marks_hash_empty(m: BoardModel, n: nat)
    requires
        n <= 162,
        forall|k: int| 0 <= k < 162 ==> !#[trigger] m.has_mark(k),
    ensures
        m.marks_hash(n) == 0,
    decreases n,
{
    if n > 0 {
        lemma_marks_hash_empty(m, (n - 1) as nat);
        lemma_xor(0, 0, 0);
    }
}

/// Law: playing a move on an empty square keeps the incrementally kept
/// hash equal to the hash computed from scratch.
pub proof fn law_make_move_keeps_hash(m: BoardModel, mv: Square)
    requires
        m.wf(),
        m.hash == m.zobrist_hash(),
        m.piece_at(mv@) is None,
    ensures
        m.after_move(mv).hash == m.after_move(mv).zobrist_hash(),
{
    lemma_square_index(mv);
    let m2 = m.after_move(mv);
    let k0 = mark_number(m.stm, mv@);
    lemma_after_move_marks(m, mv);
    lemma_mark_number(m.stm, mv@);
    assert(!m.has_mark(k0));
    lemma_marks_hash_add(m, m2, k0, 162);
    let mh1 = m.marks_hash(162);
    let key = piece_key(m.stm@, mv@);
    let s1: u64 = if m.stm == Piece::O {
        stm_key()
    } else {
        0
    };
    let s2: u64 = if m2.stm == Piece::O {
        stm_key()
    } else {
        0
    };
    let p1: u64 = match m.prev_mv {
        Some(x) => prev_move_key(x@),
        None => 0,
    };
    let p2 = prev_move_key(mv@);
    let sk = stm_key();
    assert(s1 ^ sk == s2) by {
        assert(0u64 ^ sk == sk) by (bit_vector);
        assert(sk ^ sk == 0u64) by (bit_vector);
    }
    assert(((((mh1 ^ s1) ^ p1) ^ key) ^ p1 ^ p2) ^ sk == (((mh1 ^ key) ^ (s1 ^ sk)) ^ p2)) by (bit_vector);
}

/// Law: a new board's hash is the hash computed from scratch.
pub proof fn law_new_board_hash(m: BoardModel)
    requires
        m.wf(),
        forall|i: int| 0 <= i < 9 ==> #[trigger] m.small[i] == TicTacToe::empty_spec(),
        m.stm == Piece::X,
        m.hash == 0,
        m.prev_mv is None,
    ensures
        m.hash == m.zobrist_hash(),
{
    assert forall|k: int| 0 <= k < 162 implies !#[trigger] m.has_mark(k) by {
        let s = k % 81;
        lemma_board_cell(s);
        TicTacToe::lemma_empty_has(piece_of(k / 81), cell_of(s));
    }
    lemma_marks_hash_empty(m, 162);
    lemma_xor(0, 0, 0);
}

/// Law: playing a move on an empty square puts the mover's piece there
/// and leaves every other square as it was.
pub proof fn law_make_move_places_piece(m: BoardModel, mv: Square)
    requires
        m.wf(),
        m.piece_at(mv@) is None,
    ensures
        m.after_move(mv).piece_at(mv@) == Some(m.stm),
        forall|s: int| 0 <= s < 81 && s != mv@ ==> #[trigger] m.after_move(mv).piece_at(s) == m.piece_at(s),
{
    lemma_square_index(mv);
    lemma_after_move_marks(m, mv);
    let m2 = m.after_move(mv);
    lemma_mark_number(Piece::X, mv@);
    lemma_mark_number(Piece::O, mv@);
    assert(m2.has_mark(mark_number(m.stm, mv@)));
    assert(m2.has_mark(mark_number(opponent(m.stm), mv@)) == m.has_mark(mark_number(opponent(m.stm), mv@)));
    assert forall|s: int| 0 <= s < 81 && s != mv@ implies #[trigger] m2.piece_at(s) == m.piece_at(s) by {
        lemma_mark_number(Piece::X, s);
        lemma_mark_number(Piece::O, s);
        assert(m2.has_mark(mark_number(Piece::X, s)) == m.has_mark(mark_number(Piece::X, s)));
        assert(m2.has_mark(mark_number(Piece::O, s)) == m.has_mark(mark_number(Piece::O, s)));
    }
}

/// Law: playing a move in a small board that is still open keeps the large
/// board marking exactly the won small boards.
pub proof fn law_make_move_keeps_large(m: BoardModel, mv: Square)
    requires
        m.wf(),
        m.large_consistent(),
        m.small[board_of(mv@)].state() is None,
    ensures
        m.after_move(mv).large_consistent(),
{
    lemma_square_index(mv);
    lemma_board_cell(mv@);
    let b = board_of(mv@);
    let t = m.small[b].with_mark(m.stm, cell_of(mv@));
    let m2 = m.after_move(mv);
    assert forall|i: int, p: Piece|
        0 <= i < 9 implies (#[trigger] m2.large.has_spec(p, i) <==> m2.small[i].state() == Some(
            TerminalState::Victory(p),
        )) by {
        match t.state() {
            Some(TerminalState::Victory(w)) => {
                m.large.lemma_with_mark_wf(w, b);
            },
            _ => {},
        }
        if i != b {
            assert(m2.small[i] == m.small[i]);
            assert(m.large.has_spec(p, i) <==> m.small[i].state() == Some(TerminalState::Victory(p)));
        } else {
            assert(!m.large.has_spec(p, i));
        }
    }
}

/// The number of empty squares among squares `0..n`.
pub open spec fn empties_upto(m: BoardModel, n: nat) -> nat
    decreases n,
{
    if n == 0 {
        0
    } else {
        empties_upto(m, (n - 1) as nat) + if m.piece_at(n - 1) is None {
            1nat
        } else {
            0nat
        }
    }
}

/// The number of empty squares.
pub open spec fn empties(m: BoardModel) -> nat {
    empties_upto(m, 81)
}

/// A move keeps every board's marks within its nine cells.
pub proof fn lemma_after_move_wf(m: BoardModel, mv: Square)
    requires
        m.wf(),
    ensures
        m.after_move(mv).wf(),
{
    lemma_square_index(mv);
    lemma_board_of_bound(mv@);
    let b = board_of(mv@);
    let t = m.small[b].with_mark(m.stm, cell_of(mv@));
    TicTacToe::lemma_with_mark_wf(m.small[b], m.stm, cell_of(mv@));
    match t.state() {
        Some(TerminalState::Victory(p)) => {
            TicTacToe::lemma_with_mark_wf(m.large, p, b);
        },
        _ => {},
    }
    let m2 = m.after_move(mv);
    assert forall|i: int| 0 <= i < 9 implies (#[trigger] m2.small[i]).wf() by {
        if i != b {
            assert(m2.small[i] == m.small[i]);
        }
    }
}

/// At most `n` of the first `n` squares are empty.
pub proof fn lemma_empties_bound(m: BoardModel, n: nat)
    ensures
        empties_upto(m, n) <= n,
    decreases n,
{
    if n > 0 {
        lemma_empties_bound(m, (n - 1) as nat);
    }
}

proof fn lemma_empties_upto(m: BoardModel, m2: BoardModel, k: int, n: nat)
    requires
        0 <= k < 81,
        n <= 81,
        m.piece_at(k) is None,
        m2.piece_at(k) is Some,
        forall|s: int| 0 <= s < 81 && s != k ==> #[trigger] m2.piece_at(s) == m.piece_at(s),
    ensures
        empties_upto(m2, n) + (if k < n { 1int } else { 0int }) == empties_upto(m, n),
        empties_upto(m, n) <= n,
    decreases n,
{
    if n > 0 {
        lemma_empties_upto(m, m2, k, (n - 1) as nat);
    }
}

/// Law: a move on an empty square fills exactly one empty square, so a
/// board with a legal move has an empty square and at most 81 of them.
pub proof fn law_make_move_fills_one(m: BoardModel, mv: Square)
    requires
        m.wf(),
        m.piece_at(mv@) is None,
    ensures
        empties(m.after_move(mv)) + 1 == empties(m),
        1 <= empties(m) <= 81,
{
    lemma_square_index(mv);
    law_make_move_places_piece(m, mv);
    lemma_empties_upto(m, m.after_move(mv), mv@, 81);
}

/// The board with a mark of `p` on square `s` and its key taken into the
/// hash, as `Board::xor_piece` leaves it.
pub open spec fn with_piece(m: BoardModel, p: Piece, s: int) -> BoardModel {
    BoardModel {
        small: m.small.update(board_of(s), m.small[board_of(s)].with_mark(p, cell_of(s))),
        hash: m.hash ^ piece_key(p@, s),
        ..m
    }
}

/// Placing a mark on an empty square adds exactly that mark, keeps the
/// board well formed, and keeps a from-scratch hash equal to the kept one.
pub proof fn law_xor_piece_keeps_hash(m: BoardModel, p: Piece, s: int)
    requires
        m.wf(),
        0 <= s < 81,
        m.piece_at(s) is None,
    ensures
        with_piece(m, p, s).wf(),
        forall|q: Piece, t: int| 0 <= t < 81 ==> #[trigger] with_piece(m, p, s).has(q, t) == (m.has(q, t) || (q == p && t == s)),
        m.hash == m.zobrist_hash() ==> with_piece(m, p, s).hash == with_piece(m, p, s).zobrist_hash(),
{
    let m2 = with_piece(m, p, s);
    let b = board_of(s);
    let c = cell_of(s);
    lemma_board_cell(s);
    m.small[b].lemma_with_mark_wf(p, c);
    assert forall|i: int| 0 <= i < 9 implies (#[trigger] m2.small[i]).wf() by {
        if i != b {
            assert(m2.small[i] == m.small[i]);
        }
    }
    assert forall|q: Piece, t: int| 0 <= t < 81 implies #[trigger] m2.has(q, t) == (m.has(q, t) || (q == p && t == s)) by {
        lemma_board_cell(t);
        if board_of(t) == b && cell_of(t) == c {
            assert(t == s);
        }
    }
    let k0 = mark_number(p, s);
    lemma_mark_number(p, s);
    assert forall|k: int| 0 <= k < 162 && k != k0 implies #[trigger] m2.has_mark(k) == m.has_mark(k) by {
        let q = piece_of(k / 81);
        let t = k % 81;
        if q == p && t == s {
            lemma_mark_number(q, t);
            assert(k == k0) by {
                vstd::arithmetic::div_mod::lemma_fundamental_div_mod(k, 81);
            }
        }
    }
    if m.hash == m.zobrist_hash() {
        lemma_marks_hash_add(m, m2, k0, 162);
        let mh1 = m.marks_hash(162);
        let key = piece_key(p@, s);
        let st: u64 = if m.stm == Piece::O {
            stm_key()
        } else {
            0
        };
        let pm: u64 = match m.prev_mv {
            Some(x) => prev_move_key(x@),
            None => 0,
        };
        assert(((mh1 ^ st) ^ pm) ^ key == ((mh1 ^ key) ^ st) ^ pm) by (bit_vector);
    }
}

/// Handing the move to the other side keeps the hash consistent.
pub proof fn law_toggle_keeps_hash(m: BoardModel)
    requires
        m.hash == m.zobrist_hash(),
    ensures
        (BoardModel { stm: opponent(m.stm), hash: m.hash ^ stm_key(), ..m }).hash == (BoardModel {
            stm: opponent(m.stm),
            hash: m.hash ^ stm_key(),
            ..m
        }).zobrist_hash(),
{
    let mh = m.marks_hash(162);
    let sk = stm_key();
    let pm: u64 = match m.prev_mv {
        Some(x) => prev_move_key(x@),
        None => 0,
    };
    let m2 = BoardModel { stm: opponent(m.stm), hash: m.hash ^ stm_key(), ..m };
    assert(m2.marks_hash(162) == mh) by {
        lemma_marks_hash_same(m, m2, 162);
    }
    assert(((mh ^ 0) ^ pm) ^ sk == (mh ^ sk) ^ pm) by (bit_vector);
    assert(((mh ^ sk) ^ pm) ^ sk == (mh ^ 0) ^ pm) by (bit_vector);
}

/// Recording a previous move keeps the hash consistent.
pub proof fn law_xor_move_keeps_hash(m: BoardModel, mv: Square)
    requires
        m.hash == m.zobrist_hash(),
    ensures
        ({
            let m2 = BoardModel {
                prev_mv: Some(mv),
                hash: m.hash ^ (match m.prev_mv {
                    Some(x) => prev_move_key(x@),
                    None => 0,
                }) ^ prev_move_key(mv@),
                ..m
            };
            m2.hash == m2.zobrist_hash()
        }),
{
    let m2 = BoardModel {
        prev_mv: Some(mv),
        hash: m.hash ^ (match m.prev_mv {
            Some(x) => prev_move_key(x@),
            None => 0,
        }) ^ prev_move_key(mv@),
        ..m
    };
    lemma_marks_hash_same(m, m2, 162);
    let mh = m.marks_hash(162);
    let st: u64 = if m.stm == Piece::O {
        stm_key()
    } else {
        0
    };
    let pm: u64 = match m.prev_mv {
        Some(x) => prev_move_key(x@),
        None => 0,
    };
    let nk = prev_move_key(mv@);
    assert((((mh ^ st) ^ pm) ^ pm) ^ nk == (mh ^ st) ^ nk) by (bit_vector);
}

/// Boards with the same small boards hash their marks alike.
proof fn lemma_marks_hash_same(m1: BoardModel, m2: BoardModel, n: nat)
    requires
        m1.small == m2.small,
    ensures
        m1.marks_hash(n) == m2.marks_hash(n),
    decreases n,
{
    if n > 0 {
        lemma_marks_hash_same(m1, m2, (n - 1) as nat);
    }
}

/// The hash does not depend on the ply counter.
pub proof fn lemma_hash_ignores_ply(m: BoardModel)
    ensures
        forall|ply: u8| #[trigger] (BoardModel { ply, ..m }).zobrist_hash() == m.zobrist_hash(),
{
    assert forall|ply: u8| #[trigger] (BoardModel { ply, ..m }).zobrist_hash() == m.zobrist_hash() by {
        lemma_marks_hash_same(m, BoardModel { ply, ..m }, 162);
    }
}

/// Boards with the same small boards, side to move and previous move have
/// the same from-scratch hash.
pub proof fn lemma_hash_same_small(m1: BoardModel, m2: BoardModel)
    requires
        m1.small == m2.small,
        m1.stm == m2.stm,
        m1.prev_mv == m2.prev_mv,
    ensures
        m1.zobrist_hash() == m2.zobrist_hash(),
{
    lemma_marks_hash_same(m1, m2, 162);
}

} // verus!
