use vstd::prelude::*;
use crate::board::Board;
use crate::search::weights::W;
use crate::search::search::DEPTH_SCALE;
use crate::types::{Piece, Square};

verus! {

/// The largest magnitude a history entry reaches.
pub const MAX_HISTORY: i32 = 16384;

/// Integer division rounding toward zero, as Rust's `/` does.
pub open spec fn trunc_div(a: int, b: int) -> int
    recommends
        b != 0,
{
    if a >= 0 {
        a / b
    } else {
        -((-a) / b)
    }
}

/// `x` limited to `lo..=hi`.
pub open spec fn clamp(x: int, lo: int, hi: int) -> int {
    if x < lo {
        lo
    } else if x > hi {
        hi
    } else {
        x
    }
}

/// The absolute value of `x`.
pub open spec fn abs(x: int) -> int {
    if x < 0 {
        -x
    } else {
        x
    }
}

/// The amount a gravity update adds: `amount` clamped to `max_bonus`.
pub open spec fn gravity_amount(amount: int, max_bonus: int) -> int {
    clamp(amount, -max_bonus, max_bonus)
}

/// The pull toward zero of a gravity update, before its cast to `i16`.
pub open spec fn gravity_decay(decay: int, amount: int, max_bonus: int, max_value: int) -> int {
    trunc_div(decay * abs(gravity_amount(amount, max_bonus)), max_value)
}

/// The change that a gravity update makes to an entry: the clamped amount
/// and the pull, each cast to `i16` as the code does.
pub open spec fn gravity_delta(decay: int, amount: int, max_bonus: int, max_value: int) -> int {
    (gravity_amount(amount, max_bonus) as i16) - (gravity_decay(decay, amount, max_bonus, max_value) as i16)
}

/// A gravity update overflows nothing.
pub open spec fn gravity_fits(entry: int, decay: int, amount: int, max_bonus: int, max_value: int) -> bool {
    let prod = decay * abs(gravity_amount(amount, max_bonus));
    &&& i32::MIN <= prod <= i32::MAX
    &&& !(prod == i32::MIN && max_value == -1)
    &&& i16::MIN <= gravity_delta(decay, amount, max_bonus, max_value) <= i16::MAX
    &&& i16::MIN <= entry + gravity_delta(decay, amount, max_bonus, max_value) <= i16::MAX
}

/// Adds `amount` (clamped to `max_bonus`) to `entry`, pulling it back toward
/// zero by `decay * |amount| / max_value`.
pub fn gravity_with_decay(entry: &mut i16, decay: i32, amount: i32, max_bonus: i32, max_value: i32)
    requires
        max_bonus >= 0,
        max_value > 0,
        gravity_fits(*old(entry) as int, decay as int, amount as int, max_bonus as int, max_value as int),
    ensures
        *final(entry) == *old(entry) + gravity_delta(decay as int, amount as int, max_bonus as int, max_value as int),
{
    let ghost old_amount = amount;
    let amount: i32 = if amount < -max_bonus {
        -max_bonus
    } else if amount > max_bonus {
        max_bonus
    } else {
        amount
    };
    let mag: i32 = if amount < 0 { -amount } else { amount };
    assert(mag == abs(gravity_amount(old_amount as int, max_bonus as int)));
    let prod: i32 = decay * mag;
    let q: i32 = prod / max_value;
    assert(q == trunc_div(prod as int, max_value as int));
    let d: i16 = q as i16;
    *entry += amount as i16 - d;
}

/// A gravity update that decays by the entry itself.
pub fn gravity(entry: &mut i16, amount: i32, max_bonus: i32, max_value: i32)
    requires
        max_bonus >= 0,
        max_value > 0,
        gravity_fits(*old(entry) as int, *old(entry) as int, amount as int, max_bonus as int, max_value as int),
    ensures
        *final(entry) == *old(entry) + gravity_delta(*old(entry) as int, amount as int, max_bonus as int, max_value as int),
{
    let decay: i32 = *entry as i32;
    gravity_with_decay(entry, decay, amount, max_bonus, max_value);
}

/// The history bonus or malus for a search of `depth` (in 1/1024 plies):
/// `base + scale * depth / 1024`, at most `max`.
pub open spec fn history_amount(base: int, scale: int, max: int, depth: int) -> int {
    let v = base + trunc_div(scale * depth, DEPTH_SCALE as int);
    if v < max {
        v
    } else {
        max
    }
}

/// For `|e| <= M` and `|a| < M`, a gravity update with bound `M`
/// overflows nothing and leaves the entry within `-M..=M`.
#[verifier::spinoff_prover]
pub proof fn lemma_gravity_bounded(e: int, a: int)
    requires
        -MAX_HISTORY <= e <= MAX_HISTORY,
        -MAX_HISTORY < a < MAX_HISTORY,
    ensures
        gravity_fits(e, e, a, MAX_HISTORY as int, MAX_HISTORY as int),
        -MAX_HISTORY <= e + gravity_delta(e, a, MAX_HISTORY as int, MAX_HISTORY as int) <= MAX_HISTORY,
{
    let m: int = MAX_HISTORY as int;
    let g = abs(a);
    assert(gravity_amount(a, m) == a);
    assert(0 <= abs(e) * g <= 16384 * 16383) by (nonlinear_arith)
        requires
            0 <= abs(e) <= 16384,
            0 <= g <= 16383,
    ;
    assert(abs(e * g) == abs(e) * g) by (nonlinear_arith)
        requires
            g >= 0,
    ;
    let p = e * g;
    let t = trunc_div(p, m);
    let q = abs(p) / m;
    vstd::arithmetic::div_mod::lemma_fundamental_div_mod(abs(p), m);
    vstd::arithmetic::div_mod::lemma_mod_bound(abs(p), m);
    let r = abs(p) % m;
    assert(abs(p) == q * m + r);
    assert(0 <= q <= g) by (nonlinear_arith)
        requires
            abs(p) == q * m + r,
            0 <= r < m,
            abs(p) == abs(e) * g,
            abs(e) <= m,
            m == 16384,
            g >= 0,
    ;
    if e >= 0 {
        assert(p >= 0) by (nonlinear_arith)
            requires
                p == e * g,
                e >= 0,
                g >= 0,
        ;
        assert(t == q);
        if a >= 0 {
            assert(q >= e + a - m) by (nonlinear_arith)
                requires
                    e * a == q * m + r,
                    0 <= r < m,
                    0 <= e <= m,
                    0 <= a <= m,
            ;
        } else {
            assert(q <= e) by (nonlinear_arith)
                requires
                    e * g == q * m + r,
                    0 <= r,
                    0 <= e,
                    0 <= g <= m,
                    m > 0,
            ;
            assert((m + e) * (m - g) >= 0) by (nonlinear_arith)
                requires
                    0 <= e <= m,
                    0 <= g <= m,
            ;
            assert(q * m <= (e - g + m) * m) by (nonlinear_arith)
                requires
                    e * g == q * m + r,
                    0 <= r,
                    (m + e) * (m - g) >= 0,
            ;
            assert(q <= e - g + m) by (nonlinear_arith)
                requires
                    q * m <= (e - g + m) * m,
                    m > 0,
            ;
        }
    } else {
        assert(p <= 0) by (nonlinear_arith)
            requires
                p == e * g,
                e < 0,
                g >= 0,
        ;
        if p == 0 {
            assert(0int / m == 0);
        }
        assert(t == -q);
        if a >= 0 {
            assert(q >= -e - m - a) by (nonlinear_arith)
                requires
                    -e * a == q * m + r,
                    0 <= r < m,
                    0 < -e <= m,
                    0 <= a <= m,
            ;
            assert(q <= -e) by (nonlinear_arith)
                requires
                    -e * a == q * m + r,
                    0 <= r,
                    0 < -e,
                    0 <= a <= m,
                    m > 0,
            ;
        } else {
            assert(q >= -e + g - m) by (nonlinear_arith)
                requires
                    -e * g == q * m + r,
                    0 <= r < m,
                    0 < -e <= m,
                    0 <= g <= m,
            ;
        }
    }
}

/// History entries as numbers: row `p` (the side to move), column `s`
/// (the square).
pub type HistoryTable = Seq<Seq<i16>>;

/// The table after a gravity update of `amount` to entry (`p`, `s`).
pub open spec fn gravity_update(v: HistoryTable, p: int, s: int, amount: int) -> HistoryTable {
    let e = v[p][s] as int;
    v.update(p, v[p].update(s, (e + gravity_delta(e, amount, MAX_HISTORY as int, MAX_HISTORY as int)) as i16))
}

/// A table of two rows of 81 entries, all within `-MAX_HISTORY..=MAX_HISTORY`.
pub open spec fn table_bounded(v: HistoryTable) -> bool {
    &&& v.len() == 2
    &&& forall|p: int| 0 <= p < 2 ==> (#[trigger] v[p]).len() == 81
    &&& forall|p: int, s: int| 0 <= p < 2 && 0 <= s < 81 ==> -MAX_HISTORY <= #[trigger] v[p][s] <= MAX_HISTORY
}

/// A gravity update with `|amount| < MAX_HISTORY` keeps a bounded table
/// bounded.
pub proof fn lemma_gravity_update_bounded(v: HistoryTable, p: int, s: int, amount: int)
    requires
        table_bounded(v),
        0 <= p < 2,
        0 <= s < 81,
        -MAX_HISTORY < amount < MAX_HISTORY,
    ensures
        table_bounded(gravity_update(v, p, s, amount)),
        gravity_fits(v[p][s] as int, v[p][s] as int, amount, MAX_HISTORY as int, MAX_HISTORY as int),
{
    lemma_gravity_bounded(v[p][s] as int, amount);
    let w = gravity_update(v, p, s, amount);
    assert forall|q: int, t: int| 0 <= q < 2 && 0 <= t < 81 implies -MAX_HISTORY <= #[trigger] w[q][t] <= MAX_HISTORY by {
        if q == p && t == s {
        } else if q == p {
            assert(w[q][t] == v[q][t]);
        } else {
            assert(w[q] == v[q]);
        }
    }
}

/// A history entry.
#[derive(Debug, Copy, Clone)]
pub struct MainEntry(pub i16);

/// Changing one entry of the table changes that entry of its view.
proof fn lemma_entries_update(e: [[MainEntry; 81]; 2], f: [[MainEntry; 81]; 2], p: int, s: int, v: i16)
    requires
        0 <= p < 2,
        0 <= s < 81,
        f@ == e@.update(p, f@[p]),
        f@[p]@ == e@[p]@.update(s, MainEntry(v)),
    ensures
        f@.map_values(|row: [MainEntry; 81]| row@.map_values(|x: MainEntry| x.0)) == e@.map_values(
            |row: [MainEntry; 81]| row@.map_values(|x: MainEntry| x.0),
        ).update(p, e@[p]@.map_values(|x: MainEntry| x.0).update(s, v)),
{
    let fv = f@.map_values(|row: [MainEntry; 81]| row@.map_values(|x: MainEntry| x.0));
    let ev = e@.map_values(|row: [MainEntry; 81]| row@.map_values(|x: MainEntry| x.0));
    assert(fv[p] =~= ev[p].update(s, v));
    assert(fv =~= ev.update(p, ev[p].update(s, v)));
}

/// The move-ordering history: one entry per side to move and square.
#[derive(Debug, Copy, Clone)]
pub struct MainHistory {
    entries: [[MainEntry; 81]; 2],
}

impl View for MainHistory {
    type V = HistoryTable;

    closed spec fn view(&self) -> HistoryTable {
        self.entries@.map_values(|row: [MainEntry; 81]| row@.map_values(|e: MainEntry| e.0))
    }
}

impl MainHistory {
    /// A history with every entry 0.
    pub fn new() -> (r: MainHistory)
        ensures
            r@.len() == 2,
            forall|p: int| 0 <= p < 2 ==> (#[trigger] r@[p]).len() == 81,
            forall|p: int, s: int| 0 <= p < 2 && 0 <= s < 81 ==> #[trigger] r@[p][s] == 0,
            table_bounded(r@),
    {
        MainHistory { entries: [[MainEntry(0); 81]; 2] }
    }

    /// The bonus for the move that caused a cutoff at `depth`.
    pub fn bonus(depth: i32) -> (r: i32)
        ensures
            r == history_amount(128, 128, 2048, depth as int),
    {
        let depth = depth as i64;
        let depth_scale = DEPTH_SCALE as i64;
        let base = W::main_bonus_base();
        let scale = W::main_bonus_scale1() * depth / depth_scale;
        let max = W::main_bonus_max();
        let v = base + scale;
        (if v < max {
            v
        } else {
            max
        }) as i32
    }

    /// The malus for the moves tried before the cutoff move at `depth`.
    pub fn malus(depth: i32) -> (r: i32)
        ensures
            r == history_amount(128, 128, 2048, depth as int),
    {
        let depth = depth as i64;
        let depth_scale = DEPTH_SCALE as i64;
        let base = W::main_malus_base();
        let scale = W::main_malus_scale1() * depth / depth_scale;
        let max = W::main_malus_max();
        let v = base + scale;
        (if v < max {
            v
        } else {
            max
        }) as i32
    }

    /// The entry of the side to move of `board` for `mv`.
    pub fn entry(&self, board: &Board, mv: Square) -> (r: i32)
        requires
            self@.len() == 2,
        ensures
            r == self@[board@.stm@][mv@],
    {
        self.entries[board.stm().idx()][mv.idx()].0 as i32
    }

    /// The entry of the side to move of `board` for `mv`, to change in place.
    pub fn entry_mut(&mut self, board: &Board, mv: Square) -> (r: &mut i16)
        ensures
            *r == old(self)@[board@.stm@][mv@],
            final(self)@ == old(self)@.update(
                board@.stm@,
                old(self)@[board@.stm@].update(mv@, *final(r)),
            ),
    {
        let p = board.stm().idx();
        let s = mv.idx();
        let ghost e0 = self.entries;
        let r = &mut self.entries[p][s].0;
        proof {
            lemma_entries_update(e0, after_borrow(self).entries, p as int, s as int, *final(r));
        }
        r
    }

    /// Rewards (`bonus`) or penalises `mv` for the side to move of `board`.
    pub fn update(&mut self, board: &Board, depth: i32, mv: Square, bonus: bool)
        requires
            gravity_fits(
                old(self)@[board@.stm@][mv@] as int,
                old(self)@[board@.stm@][mv@] as int,
                if bonus {
                    history_amount(128, 128, 2048, depth as int)
                } else {
                    -history_amount(128, 128, 2048, depth as int)
                },
                MAX_HISTORY as int,
                MAX_HISTORY as int,
            ),
        ensures
            final(self)@ == gravity_update(
                old(self)@,
                board@.stm@,
                mv@,
                if bonus {
                    history_amount(128, 128, 2048, depth as int)
                } else {
                    -history_amount(128, 128, 2048, depth as int)
                },
            ),
    {
        let amount = if bonus {
            Self::bonus(depth)
        } else {
            -Self::malus(depth)
        };
        let e = self.entry_mut(board, mv);
        gravity(e, amount, MAX_HISTORY, MAX_HISTORY);
    }
}

/// The table after penalising each of `moves` in turn for side `p`.
pub open spec fn malus_all(v: HistoryTable, p: int, depth: int, moves: Seq<Square>) -> HistoryTable
    decreases moves.len(),
{
    if moves.len() == 0 {
        v
    } else {
        gravity_update(
            malus_all(v, p, depth, moves.drop_last()),
            p,
            moves.last()@,
            -history_amount(128, 128, 2048, depth),
        )
    }
}

/// The table after a cutoff at `depth` by `best` for side `p`: `best` is
/// rewarded, then each of `moves` is penalised in turn.
pub open spec fn cutoff_update(v: HistoryTable, p: int, depth: int, best: Square, moves: Seq<Square>) -> HistoryTable {
    malus_all(gravity_update(v, p, best@, history_amount(128, 128, 2048, depth)), p, depth, moves)
}

/// The history tables the search keeps.
#[derive(Debug, Copy, Clone)]
pub struct History {
    main: MainHistory,
}

impl View for History {
    type V = HistoryTable;

    closed spec fn view(&self) -> HistoryTable {
        self.main@
    }
}

impl History {
    /// Every entry lies within `-MAX_HISTORY..=MAX_HISTORY`.
    #[verifier::type_invariant]
    pub open spec fn entries_bounded(self) -> bool {
        table_bounded(self@)
    }

    /// A history with every entry 0.
    pub fn new() -> (r: History)
        ensures
            forall|p: int, s: int| 0 <= p < 2 && 0 <= s < 81 ==> #[trigger] r@[p][s] == 0,
            table_bounded(r@),
    {
        History { main: MainHistory::new() }
    }

    /// The ordering score of `mv` for the side to move of `board`.
    pub fn score(&self, board: &Board, mv: Square) -> (r: i32)
        ensures
            r == self@[board@.stm@][mv@],
    {
        proof {
            use_type_invariant(self);
        }
        self.main.entry(board, mv)
    }

    /// Records a cutoff at `depth` by `best_move` after `moves` were tried.
    /// The bonus stays above `-MAX_HISTORY`: from there on the malus is
    /// `MAX_HISTORY`, whose update of an entry at `-MAX_HISTORY` overflows
    /// an `i16`.
    pub fn update(&mut self, board: &Board, depth: i32, best_move: Square, moves: &[Square])
        requires
            -MAX_HISTORY < history_amount(128, 128, 2048, depth as int),
        ensures
            final(self)@ == cutoff_update(old(self)@, board@.stm@, depth as int, best_move, moves@),
            table_bounded(final(self)@),
    {
        proof {
            use_type_invariant(&*self);
        }
        let ghost p = board@.stm@;
        let ghost amount = history_amount(128, 128, 2048, depth as int);
        proof {
            lemma_gravity_update_bounded(self@, p, best_move@, amount);
        }
        let mut main = self.main;
        main.update(board, depth, best_move, true);
        let ghost start = main@;
        let mut i: usize = 0;
        while i < moves.len()
            invariant
                i <= moves@.len(),
                p == board@.stm@,
                -MAX_HISTORY < amount <= 2048,
                amount == history_amount(128, 128, 2048, depth as int),
                start == gravity_update(old(self)@, p, best_move@, amount),
                main@ == malus_all(start, p, depth as int, moves@.take(i as int)),
                table_bounded(main@),
            decreases moves@.len() - i,
        {
            let mv = moves[i];
            proof {
                lemma_gravity_update_bounded(main@, p, mv@, -amount);
                assert(moves@.take(i as int + 1).drop_last() =~= moves@.take(i as int));
            }
            main.update(board, depth, mv, false);
            i += 1;
        }
        proof {
            assert(moves@.take(moves@.len() as int) =~= moves@);
        }
        self.main = main;
    }
}

} // verus!
