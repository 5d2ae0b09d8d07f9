use vstd::prelude::*;
use vstd::wrapping::u64_specs::wrapping_add;
use crate::board::{Board, BoardModel, TerminalState};
use crate::board::movegen::{legal, legal_moves};
use crate::score::{Score, mated_score};
use crate::types::{Piece, Square};
use crate::types::square::{cell_of, square_at, square_text, lemma_square_index, lemma_square_at};
use crate::text::{chars_of, push_chars, push_char};
use crate::board::laws::{empties, law_make_move_fills_one, lemma_after_move_wf};
use crate::board::movegen::{law_legal_moves, law_open_game_has_moves};
use crate::position::{Position, law_unmake_undoes_make};
use crate::search::history::{History, HistoryTable, table_bounded, cutoff_update};
use crate::search::move_picker::{
    MovePicker, ScoredMove, Stage, holds_square, swap_removed, lemma_swap_removed_squares,
    lemma_scored_legal_squares, SquareBuffer, squares_held, square_buffer_new, square_buffer_push,
    square_buffer_as_slice,
};
use crate::search::thread::{SharedData, ThreadData};

verus! {

broadcast use {lemma_square_index, lemma_square_at};

pub const MAX_PLY: usize = 81;
pub const MAX_DEPTH: usize = 255;
pub const DEPTH_SCALE: i32 = 1024;
pub const MAX_FRAC_DEPTH: i32 = 261120;

/// The weight of a cell of a small board: 20 for the centre, 10 for a
/// corner, 5 for an edge.
pub open spec fn cell_weight(c: int) -> int {
    if c == 4 {
        20
    } else if c == 0 || c == 2 || c == 6 || c == 8 {
        10
    } else {
        5
    }
}

/// The weight of square `s`: the weight of its cell in its small board.
pub open spec fn psqt(s: int) -> int {
    cell_weight(cell_of(s))
}

/// The evaluation of squares `0..n`: the weights of the side to move's
/// squares minus those of the opponent's.
pub open spec fn eval_upto(m: BoardModel, n: nat) -> int
    decreases n,
{
    if n == 0 {
        0
    } else {
        eval_upto(m, (n - 1) as nat) + match m.piece_at(n - 1) {
            Some(p) => if p == m.stm {
                psqt(n - 1)
            } else {
                -psqt(n - 1)
            },
            None => 0,
        }
    }
}

/// The static evaluation of a board for the side to move.
pub open spec fn eval_spec(m: BoardModel) -> int {
    eval_upto(m, 81)
}

proof fn lemma_eval_bounds(m: BoardModel, n: nat)
    ensures
        -20 * n <= eval_upto(m, n) <= 20 * n,
    decreases n,
{
    if n > 0 {
        lemma_eval_bounds(m, (n - 1) as nat);
    }
}

/// The weight of the cell numbered `c`.
fn cell_weight_of(c: usize) -> (r: i32)
    ensures
        r == cell_weight(c as int),
{
    if c == 4 {
        20
    } else if c == 0 || c == 2 || c == 6 || c == 8 {
        10
    } else {
        5
    }
}

/// The static evaluation of `board` for the side to move (see `eval_spec`).
pub fn eval(board: &Board) -> (r: Score)
    ensures
        r.0 == eval_spec(board@),
        -1620 <= r.0 <= 1620,
{
    let stm = board.stm();
    let mut score: i32 = 0;
    let mut i: usize = 0;
    while i < 81
        invariant
            i <= 81,
            stm == board@.stm,
            score == eval_upto(board@, i as nat),
            -20 * i <= score <= 20 * i,
        decreases 81 - i,
    {
        let sq = Square::index(i);
        let w = cell_weight_of(sq.indices().1);
        match board.piece_on(sq) {
            Some(p) => {
                if p == stm {
                    score = score + w;
                } else {
                    score = score - w;
                }
            },
            None => {},
        }
        i += 1;
    }
    Score(score)
}

/// The score of a finished game, or the static evaluation when the game
/// goes on, for a node `ply` moves from the root.
pub open spec fn leaf_value(m: BoardModel, ply: int) -> int {
    match m.state() {
        Some(TerminalState::Victory(_)) => mated_score(ply),
        Some(TerminalState::Draw) => 0,
        None => eval_spec(m),
    }
}

/// The part of a depth that counts toward termination.
pub open spec fn depth_measure(d: int) -> int {
    if d > 0 {
        d
    } else {
        0
    }
}

/// The negamax value of a node `ply` moves from the root, searched to
/// `depth` (in 1/1024 plies): a finished game scores as such, a node
/// without depth left scores its evaluation, and any other node scores the
/// best of its moves.
pub open spec fn node_value(m: BoardModel, depth: int, ply: int) -> int
    decreases depth_measure(depth), 2int, 0int,
{
    match m.state() {
        Some(_) => leaf_value(m, ply),
        None => if depth <= 0 {
            eval_spec(m)
        } else {
            children_max(m, legal_moves(m), depth, ply, None)
        },
    }
}

/// Move `x` counts at a node that searches only the moves of `only`.
pub open spec fn allowed(x: Square, only: Option<Seq<Square>>) -> bool {
    match only {
        Some(s) => s.contains(x),
        None => true,
    }
}

/// The score of move `x` for the side to move of `m`: minus the value of
/// the position after it, one ply deeper.
pub open spec fn child_score(m: BoardModel, x: Square, depth: int, ply: int) -> int
    decreases depth_measure(depth), 0int, 0int,
{
    if depth > 0 {
        -node_value(m.after_move(x), depth - 1024, ply + 1)
    } else {
        -leaf_value(m.after_move(x), ply + 1)
    }
}

/// The best score among the moves of `ms` that count, starting from
/// `Score::NONE`.
pub open spec fn children_max(m: BoardModel, ms: Seq<Square>, depth: int, ply: int, only: Option<Seq<Square>>) -> int
    decreases depth_measure(depth), 1int, ms.len(),
{
    if ms.len() == 0 {
        Score::NONE as int
    } else {
        let rest = children_max(m, ms.drop_last(), depth, ply, only);
        if allowed(ms.last(), only) {
            let f = child_score(m, ms.last(), depth, ply);
            if f > rest {
                f
            } else {
                rest
            }
        } else {
            rest
        }
    }
}

/// The value of the root: the best of its legal moves that count.
pub open spec fn root_value(m: BoardModel, depth: int, root_moves: Seq<Square>) -> int {
    children_max(m, legal_moves(m), depth, 0, Some(root_moves))
}

/// Restricting the moves to a list that holds all of them changes nothing.
proof fn lemma_children_max_all_allowed(m: BoardModel, ms: Seq<Square>, depth: int, ply: int, only: Seq<Square>)
    requires
        forall|i: int| 0 <= i < ms.len() ==> only.contains(#[trigger] ms[i]),
    ensures
        children_max(m, ms, depth, ply, Some(only)) == children_max(m, ms, depth, ply, None),
    decreases ms.len(),
{
    if ms.len() > 0 {
        assert(only.contains(ms[ms.len() - 1]));
        lemma_children_max_all_allowed(m, ms.drop_last(), depth, ply, only);
    }
}

/// Law: when every legal move may be searched, the value of the root is
/// the negamax value of the position.
pub proof fn law_root_value_all_moves(m: BoardModel, depth: int)
    requires
        m.state() is None,
        depth > 0,
    ensures
        root_value(m, depth, legal_moves(m)) == node_value(m, depth, 0),
{
    let ms = legal_moves(m);
    assert forall|i: int| 0 <= i < ms.len() implies ms.contains(#[trigger] ms[i]) by {
        assert(ms[i] == ms[i]);
    }
    lemma_children_max_all_allowed(m, ms, depth, 0, ms);
}

/// The value of a node lies within the mate scores.
proof fn lemma_node_value_bounds(m: BoardModel, depth: int, ply: int)
    requires
        m.wf(),
        0 <= ply <= 1000,
        ply * 1024 + depth <= 1024000,
    ensures
        -Score::MATE <= node_value(m, depth, ply) <= Score::MATE,
    decreases depth_measure(depth), 2int, 0int,
{
    match m.state() {
        Some(_) => {},
        None => {
            if depth <= 0 {
                lemma_eval_bounds(m, 81);
            } else {
                law_open_game_has_moves(m);
                lemma_children_max_bounds(m, legal_moves(m), depth, ply);
            }
        },
    }
}

/// The best score of a non-empty list of moves lies within the mate
/// scores.
#[verifier::spinoff_prover]
proof fn lemma_children_max_bounds(m: BoardModel, ms: Seq<Square>, depth: int, ply: int)
    requires
        m.wf(),
        0 <= ply < 1000,
        depth > 0,
        ply * 1024 + depth <= 1024000,
        ms.len() > 0,
    ensures
        -Score::MATE <= children_max(m, ms, depth, ply, None) <= Score::MATE,
    decreases depth_measure(depth), 1int, ms.len(),
{
    let f = child_score(m, ms.last(), depth, ply);
    let rest = children_max(m, ms.drop_last(), depth, ply, None);
    assert(children_max(m, ms, depth, ply, None) == if f > rest {
        f
    } else {
        rest
    });
    lemma_child_score_bounds(m, ms.last(), depth, ply);
    if ms.len() > 1 {
        lemma_children_max_bounds(m, ms.drop_last(), depth, ply);
    } else {
        assert(ms.drop_last().len() == 0);
    }
}

/// The score of a move lies within the mate scores.
proof fn lemma_child_score_bounds(m: BoardModel, x: Square, depth: int, ply: int)
    requires
        m.wf(),
        0 <= ply < 1000,
        ply * 1024 + depth <= 1024000,
    ensures
        -Score::MATE <= child_score(m, x, depth, ply) <= Score::MATE,
    decreases depth_measure(depth), 0int, 0int,
{
    lemma_after_move_wf(m, x);
    if depth > 0 {
        lemma_node_value_bounds(m.after_move(x), depth - 1024, ply + 1);
    } else {
        lemma_eval_bounds(m.after_move(x), 81);
    }
}

/// Law: a search of a node with the full window (`-INF`, `INF`) that was
/// not stopped gives the node's exact negamax value.
pub proof fn law_full_window_exact(m: BoardModel, depth: int, ply: int, r: int)
    requires
        m.wf(),
        0 <= ply <= 1000,
        ply * 1024 + depth <= 1024000,
        fail_soft(r, node_value(m, depth, ply), -Score::INF as int, Score::INF as int),
    ensures
        r == node_value(m, depth, ply),
{
    lemma_node_value_bounds(m, depth, ply);
}

/// `r` is a fail-soft alpha-beta result for true value `v` and window
/// (`alpha`, `beta`): exact inside the window, an upper bound at or below
/// `alpha`, a lower bound at or above `beta`.
pub open spec fn fail_soft(r: int, v: int, alpha: int, beta: int) -> bool {
    &&& r <= alpha ==> v <= r
    &&& r >= beta ==> v >= r
    &&& alpha < r < beta ==> v == r
}

/// `children_max` is the least value, not below `Score::NONE`, that bounds
/// the scores of all counting moves, and it is `Score::NONE` or one of them.
pub proof fn lemma_children_max(m: BoardModel, ms: Seq<Square>, depth: int, ply: int, only: Option<Seq<Square>>)
    ensures
        children_max(m, ms, depth, ply, only) >= Score::NONE,
        forall|i: int|
            0 <= i < ms.len() && allowed(ms[i], only) ==> children_max(m, ms, depth, ply, only) >= child_score(
                m,
                #[trigger] ms[i],
                depth,
                ply,
            ),
        children_max(m, ms, depth, ply, only) == Score::NONE || exists|i: int|
            0 <= i < ms.len() && allowed(ms[i], only) && children_max(m, ms, depth, ply, only) == child_score(
                m,
                #[trigger] ms[i],
                depth,
                ply,
            ),
    decreases ms.len(),
{
    if ms.len() > 0 {
        let init = ms.drop_last();
        lemma_children_max(m, init, depth, ply, only);
        let c = children_max(m, ms, depth, ply, only);
        let rest = children_max(m, init, depth, ply, only);
        assert forall|i: int|
            0 <= i < ms.len() && allowed(ms[i], only) implies c >= child_score(m, #[trigger] ms[i], depth, ply) by {
            if i < ms.len() - 1 {
                assert(ms[i] == init[i]);
            }
        }
        if c != Score::NONE {
            if c == rest {
                let i = choose|i: int|
                    0 <= i < init.len() && allowed(init[i], only) && rest == child_score(m, #[trigger] init[i], depth, ply);
                assert(ms[i] == init[i]);
            } else {
                assert(c == child_score(m, ms[ms.len() - 1], depth, ply));
            }
        }
    }
}

/// Two lists holding the same moves have the same best score.
pub proof fn lemma_children_max_same_moves(
    m: BoardModel,
    a: Seq<Square>,
    b: Seq<Square>,
    depth: int,
    ply: int,
    only: Option<Seq<Square>>,
)
    requires
        forall|x: Square| a.contains(x) <==> b.contains(x),
    ensures
        children_max(m, a, depth, ply, only) == children_max(m, b, depth, ply, only),
{
    lemma_children_max(m, a, depth, ply, only);
    lemma_children_max(m, b, depth, ply, only);
    let ca = children_max(m, a, depth, ply, only);
    let cb = children_max(m, b, depth, ply, only);
    if ca != Score::NONE {
        let i = choose|i: int| 0 <= i < a.len() && allowed(a[i], only) && ca == child_score(m, #[trigger] a[i], depth, ply);
        assert(a.contains(a[i]));
        let j = choose|j: int| 0 <= j < b.len() && b[j] == a[i];
        assert(cb >= child_score(m, b[j], depth, ply));
    }
    if cb != Score::NONE {
        let i = choose|i: int| 0 <= i < b.len() && allowed(b[i], only) && cb == child_score(m, #[trigger] b[i], depth, ply);
        assert(b.contains(b[i]));
        let j = choose|j: int| 0 <= j < a.len() && a[j] == b[i];
        assert(ca >= child_score(m, a[j], depth, ply));
    }
}

/// A principal variation: `len` moves in `moves[..len]`.
#[derive(Clone, Copy)]
pub struct PrincipalVariation {
    pub moves: [Option<Square>; 82],
    pub len: usize,
}

impl PrincipalVariation {
    /// An empty variation.
    pub fn new() -> (r: PrincipalVariation)
        ensures
            r.len == 0,
            forall|i: int| 0 <= i < 82 ==> (#[trigger] r.moves@[i]) is None,
    {
        PrincipalVariation { moves: [None; 82], len: 0 }
    }

    /// Makes this variation `mv` followed by `child_pv`.
    pub fn update(&mut self, mv: Square, child_pv: &PrincipalVariation)
        requires
            child_pv.len + 1 <= 82,
        ensures
            final(self).len == child_pv.len + 1,
            final(self).moves@[0] == Some(mv),
            forall|i: int| 1 <= i < final(self).len ==> #[trigger] final(self).moves@[i] == child_pv.moves@[i - 1],
            forall|i: int| final(self).len <= i < 82 ==> #[trigger] final(self).moves@[i] == old(self).moves@[i],
    {
        self.moves[0] = Some(mv);
        self.len = child_pv.len + 1;
        let mut i: usize = 0;
        while i < child_pv.len
            invariant
                child_pv.len + 1 <= 82,
                self.len == child_pv.len + 1,
                i <= child_pv.len,
                self.moves@[0] == Some(mv),
                forall|j: int| 1 <= j < i + 1 ==> #[trigger] self.moves@[j] == child_pv.moves@[j - 1],
                forall|j: int| self.len <= j < 82 ==> #[trigger] self.moves@[j] == old(self).moves@[j],
            decreases child_pv.len - i,
        {
            self.moves[i + 1] = child_pv.moves[i];
            i += 1;
        }
    }
}

/// How the moves `moves` are written: each move and a space, up to the
/// first gap.
pub open spec fn pv_text(moves: Seq<Option<Square>>) -> Seq<char>
    decreases moves.len(),
{
    if moves.len() == 0 {
        Seq::empty()
    } else {
        match moves[0] {
            None => Seq::empty(),
            Some(m) => square_text(m@) + seq![' '] + pv_text(moves.drop_first()),
        }
    }
}

impl PrincipalVariation {
    /// The variation as text (see `pv_text`).
    pub fn display(&self) -> (r: String)
        requires
            self.len <= 82,
        ensures
            r@ == pv_text(self.moves@.take(self.len as int)),
    {
        let ghost all = self.moves@.take(self.len as int);
        let mut out = String::new();
        let mut i: usize = 0;
        assert(all.skip(0) =~= all);
        assert(out@ + pv_text(all) =~= pv_text(all));
        while i < self.len
            invariant
                self.len <= 82,
                i <= self.len,
                all == self.moves@.take(self.len as int),
                pv_text(all) == out@ + pv_text(all.skip(i as int)),
            decreases self.len - i,
        {
            proof {
                assert(all.skip(i as int).drop_first() =~= all.skip(i as int + 1));
                assert(all.skip(i as int)[0] == self.moves@[i as int]);
            }
            match self.moves[i] {
                None => {
                    proof {
                        assert(out@ + Seq::<char>::empty() =~= out@);
                    }
                    return out;
                },
                Some(mv) => {
                    let name = mv.name();
                    let ghost before = out@;
                    let cs = chars_of(name.as_str());
                    push_chars(&mut out, cs.as_slice());
                    push_char(&mut out, ' ');
                    proof {
                        assert(before + (square_text(mv@) + seq![' '] + pv_text(all.skip(i as int + 1))) =~= out@
                            + pv_text(all.skip(i as int + 1)));
                    }
                },
            }
            i += 1;
        }
        proof {
            assert(all.skip(i as int) =~= Seq::<Option<Square>>::empty());
            assert(out@ + Seq::<char>::empty() =~= out@);
        }
        out
    }
}

/// A frame of the search stack.
#[derive(Clone, Copy)]
pub struct SearchStack {
    pub pv: PrincipalVariation,
}

impl SearchStack {
    /// A frame with an empty variation.
    pub fn new() -> (r: SearchStack)
        ensures
            r.pv.len == 0,
    {
        SearchStack { pv: PrincipalVariation::new() }
    }
}

/// One step of the fail-soft loop: a move whose score `s` came back from a
/// child searched with window (`-beta`, `-alpha`), with true score `f`.
proof fn lemma_alpha_beta_step(v: int, f: int, best: int, alpha: int, alpha0: int, beta: int, s: int, counted: bool)
    requires
        v <= best,
        best > alpha0 ==> v == best,
        alpha == (if best > alpha0 && counted { best } else { alpha0 }),
        !counted ==> best == Score::NONE && v == Score::NONE,
        Score::NONE <= s,
        counted ==> best < beta,
        alpha0 < beta,
        fail_soft(-s, -f, -beta, -alpha),
    ensures
        s >= beta ==> f >= s && (if s > best { s } else { best }) == s,
        s < beta ==> ({
            let best2 = if s > best { s } else { best };
            let v2 = if f > v { f } else { v };
            let alpha2 = if s > alpha { s } else { alpha };
            &&& v2 <= best2
            &&& best2 > alpha0 ==> v2 == best2
            &&& alpha2 == (if best2 > alpha0 { best2 } else { alpha0 })
            &&& best2 < beta
        }),
{
}

/// The yielded moves and the moves still pending together stay the
/// legal moves when one more is yielded.
proof fn lemma_yield_step(lm: Seq<Square>, yielded: Seq<Square>, pend: Seq<ScoredMove>, i: int)
    requires
        0 <= i < pend.len(),
        forall|x: Square| (yielded.contains(x) || holds_square(pend, x)) <==> lm.contains(x),
        yielded.len() + pend.len() == lm.len(),
        forall|k: int| 0 <= k < yielded.len() ==> lm.contains(#[trigger] yielded[k]),
    ensures
        forall|x: Square|
            (yielded.push(pend[i].0).contains(x) || holds_square(swap_removed(pend, i), x)) <==> lm.contains(x),
        yielded.push(pend[i].0).len() + swap_removed(pend, i).len() == lm.len(),
        lm.contains(pend[i].0),
        forall|k: int| 0 <= k < yielded.push(pend[i].0).len() ==> lm.contains(#[trigger] yielded.push(pend[i].0)[k]),
{
    let mv = pend[i].0;
    let y2 = yielded.push(mv);
    assert(holds_square(pend, mv));
    assert forall|x: Square| (y2.contains(x) || holds_square(swap_removed(pend, i), x)) <==> lm.contains(x) by {
        lemma_swap_removed_squares(pend, i, x);
        if y2.contains(x) && !yielded.contains(x) {
            let k = choose|k: int| 0 <= k < y2.len() && y2[k] == x;
            if k < yielded.len() {
                assert(yielded[k] == x);
            }
        }
        if yielded.contains(x) {
            let k = choose|k: int| 0 <= k < yielded.len() && yielded[k] == x;
            assert(y2[k] == x);
        }
        if x == mv {
            assert(y2[yielded.len() as int] == x);
        }
    }
    lemma_swap_removed_squares(pend, i, mv);
    assert forall|k: int| 0 <= k < y2.len() implies lm.contains(#[trigger] y2[k]) by {
        if k < yielded.len() {
            assert(y2[k] == yielded[k]);
        }
    }
}

/// The best score over one more move.
proof fn lemma_children_max_push(
    m: BoardModel,
    ms: Seq<Square>,
    x: Square,
    depth: int,
    ply: int,
    only: Option<Seq<Square>>,
)
    ensures
        children_max(m, ms.push(x), depth, ply, only) == if allowed(x, only) {
            let f = child_score(m, x, depth, ply);
            let rest = children_max(m, ms, depth, ply, only);
            if f > rest {
                f
            } else {
                rest
            }
        } else {
            children_max(m, ms, depth, ply, only)
        },
{
    assert(ms.push(x).drop_last() =~= ms);
}

/// The kind of a node of the search tree: the root, a node on the
/// principal variation, or any other node.
#[derive(Debug, Copy, Clone, PartialEq, Eq, Structural)]
pub enum NodeType {
    Root,
    PV,
    NonPV,
}

/// The kind of the children of a node of kind `n`.
pub open spec fn next_kind(n: NodeType) -> NodeType {
    if n == NodeType::NonPV {
        NodeType::NonPV
    } else {
        NodeType::PV
    }
}

impl NodeType {
    /// The node is on the principal variation.
    pub fn is_pv(self) -> (r: bool)
        ensures
            r == (self != NodeType::NonPV),
    {
        match self {
            NodeType::NonPV => false,
            _ => true,
        }
    }

    /// The node is the root.
    pub fn is_root(self) -> (r: bool)
        ensures
            r == (self == NodeType::Root),
    {
        match self {
            NodeType::Root => true,
            _ => false,
        }
    }

    /// The kind of this node's children.
    pub fn next(self) -> (r: NodeType)
        ensures
            r == next_kind(self),
    {
        match self {
            NodeType::NonPV => NodeType::NonPV,
            _ => NodeType::PV,
        }
    }
}

/// The search stack has `MAX_PLY + 1` frames and the variation in frame
/// `i` fits in the plies left after `i`.
pub open spec fn stack_ok(s: Seq<SearchStack>) -> bool {
    &&& s.len() == MAX_PLY + 1
    &&& forall|i: int| 0 <= i < s.len() ==> (#[trigger] s[i]).pv.len + i <= MAX_PLY
}

/// Whether `stack` has a frame for every ply and every frame's variation
/// fits (see `stack_ok`).
pub fn stack_is_ok(stack: &Vec<SearchStack>) -> (r: bool)
    ensures
        r == stack_ok(stack@),
{
    if stack.len() != MAX_PLY + 1 {
        return false;
    }
    let mut i: usize = 0;
    while i < stack.len()
        invariant
            stack@.len() == MAX_PLY + 1,
            i <= stack@.len(),
            forall|j: int| 0 <= j < i ==> (#[trigger] stack@[j]).pv.len + j <= MAX_PLY,
        decreases stack@.len() - i,
    {
        if stack[i].pv.len > MAX_PLY - i {
            return false;
        }
        i += 1;
    }
    true
}

/// The value a search of this node computes: at the root, the best of the
/// root moves; elsewhere, the node's negamax value.
pub open spec fn search_value(m: BoardModel, node: NodeType, depth: int, ply: int, root_moves: Seq<Square>) -> int {
    if node == NodeType::Root {
        root_value(m, depth, root_moves)
    } else {
        node_value(m, depth, ply)
    }
}

/// `after` is the variation `before` becomes when it is made `mv`
/// followed by `child`: the moves past the new length stay as they were.
pub open spec fn pv_updated(
    before: PrincipalVariation,
    mv: Square,
    child: PrincipalVariation,
    after: PrincipalVariation,
) -> bool {
    &&& after.len == child.len + 1
    &&& after.moves@[0] == Some(mv)
    &&& forall|i: int| 1 <= i < after.len ==> #[trigger] after.moves@[i] == child.moves@[i - 1]
    &&& forall|i: int| after.len <= i < 82 ==> #[trigger] after.moves@[i] == before.moves@[i]
}

/// Makes the variation of frame `ply` be `mv` followed by that of frame
/// `ply + 1`; the other frames stay as they were.
fn update_pv(stack: &mut Vec<SearchStack>, ply: usize, mv: Square)
    requires
        stack_ok(old(stack)@),
        ply < MAX_PLY,
    ensures
        stack_ok(final(stack)@),
        final(stack)@.len() == old(stack)@.len(),
        forall|i: int| 0 <= i < old(stack)@.len() && i != ply ==> #[trigger] final(stack)@[i] == old(stack)@[i],
        pv_updated(old(stack)@[ply as int].pv, mv, old(stack)@[ply + 1].pv, final(stack)@[ply as int].pv),
{
    let child = stack[ply + 1].pv;
    let mut parent = stack[ply].pv;
    parent.update(mv, &child);
    stack.set(ply, SearchStack { pv: parent });
    proof {
        assert forall|i: int| 0 <= i < stack@.len() implies (#[trigger] stack@[i]).pv.len + i <= MAX_PLY by {
            if i != ply {
                assert(stack@[i] == old(stack)@[i]);
            }
        }
    }
}

/// The picker and the moves it has handed out so far account for exactly
/// the legal moves `lm`, each once.
#[verifier::opaque]
pub open spec fn yield_ok(lm: Seq<Square>, yielded: Seq<Square>, picker: MovePicker) -> bool {
    &&& lm.len() <= 81
    &&& picker.stage_spec() == Stage::GenMoves ==> picker.remaining().len() == 0 && yielded.len() == 0
    &&& picker.stage_spec() != Stage::GenMoves ==> (forall|x: Square|
        (yielded.contains(x) || holds_square(picker.remaining(), x)) <==> lm.contains(x))
    &&& picker.stage_spec() != Stage::GenMoves ==> yielded.len() + picker.remaining().len() == lm.len()
    &&& picker.stage_spec() == Stage::Finished ==> picker.remaining().len() == 0
    &&& forall|k: int| 0 <= k < yielded.len() ==> lm.contains(#[trigger] yielded[k])
}

/// How far a picker is from finishing.
pub open spec fn picker_measure(picker: MovePicker) -> int {
    if picker.stage_spec() == Stage::GenMoves {
        200
    } else if picker.stage_spec() == Stage::YieldMoves {
        2 * picker.remaining().len() as int + 2
    } else {
        0
    }
}

proof fn lemma_yield_ok_start(lm: Seq<Square>, picker: MovePicker)
    requires
        lm.len() <= 81,
        picker.stage_spec() == Stage::GenMoves,
        picker.remaining().len() == 0,
    ensures
        yield_ok(lm, Seq::empty(), picker),
{
    reveal(yield_ok);
}

/// After the picker hands out a move, the accounting still holds with that
/// move added to the handed-out ones, and the move is legal.
proof fn lemma_yield_ok_next(
    m: BoardModel,
    h: crate::search::history::HistoryTable,
    lm: Seq<Square>,
    yielded: Seq<Square>,
    before: MovePicker,
    after: MovePicker,
    mv: Square,
    r: Option<ScoredMove>,
)
    requires
        lm == legal_moves(m),
        yield_ok(lm, yielded, before),
        before.stage_spec() != Stage::Finished,
        before.pending(m, h).len() > 0,
        exists|i: int|
            crate::search::move_picker::is_last_max(before.pending(m, h), i) && r == Some(before.pending(m, h)[i])
                && after.remaining() == swap_removed(before.pending(m, h), i) && after.stage_spec()
                == Stage::YieldMoves,
        r matches Some(sm) && sm.0 == mv,
    ensures
        yield_ok(lm, yielded.push(mv), after),
        lm.contains(mv),
        picker_measure(after) < picker_measure(before),
{
    reveal(yield_ok);
    let pend = before.pending(m, h);
    let i = choose|i: int|
        crate::search::move_picker::is_last_max(pend, i) && r == Some(pend[i]) && after.remaining() == swap_removed(
            pend,
            i,
        ) && after.stage_spec() == Stage::YieldMoves;
    if before.stage_spec() == Stage::GenMoves {
        assert forall|x: Square| (yielded.contains(x) || holds_square(pend, x)) <==> lm.contains(x) by {
            lemma_scored_legal_squares(m, h, x);
        }
        lemma_scored_legal_squares(m, h, mv);
    }
    lemma_yield_step(lm, yielded, pend, i);
}

/// When the picker hands out nothing, the handed-out moves are all the
/// legal moves.
proof fn lemma_yield_ok_done(
    m: BoardModel,
    h: crate::search::history::HistoryTable,
    lm: Seq<Square>,
    yielded: Seq<Square>,
    before: MovePicker,
    after: MovePicker,
)
    requires
        lm == legal_moves(m),
        yield_ok(lm, yielded, before),
        before.stage_spec() == Stage::Finished ==> after == before,
        before.stage_spec() != Stage::Finished ==> before.pending(m, h).len() == 0 && after.stage_spec()
            == Stage::Finished && after.remaining() == before.pending(m, h),
    ensures
        forall|x: Square| yielded.contains(x) <==> lm.contains(x),
        yield_ok(lm, yielded, after),
        after.stage_spec() == Stage::Finished,
{
    reveal(yield_ok);
    if before.stage_spec() == Stage::GenMoves {
        lemma_scored_legal_squares(m, h, square_at(0));
        assert forall|x: Square| yielded.contains(x) <==> lm.contains(x) by {
            lemma_scored_legal_squares(m, h, x);
            if lm.contains(x) {
                let j = choose|j: int| 0 <= j < lm.len() && lm[j] == x;
            }
        }
    } else {
        assert forall|x: Square| yielded.contains(x) <==> lm.contains(x) by {
            if holds_square(before.remaining(), x) {
                let j = choose|j: int| 0 <= j < before.remaining().len() && (#[trigger] before.remaining()[j]).0 == x;
            }
        }
    }
}

/// The scores found so far bound the true values of the moves searched
/// so far as fail-soft alpha-beta requires.
#[verifier::opaque]
pub open spec fn scores_ok(
    m: BoardModel,
    lm: Seq<Square>,
    yielded: Seq<Square>,
    depth: int,
    ply: int,
    only: Option<Seq<Square>>,
    best: int,
    alpha: int,
    alpha0: int,
    beta: int,
    cutoff: bool,
) -> bool {
    let v = children_max(m, yielded, depth, ply, only);
    &&& !cutoff ==> v <= best && (best > alpha0 ==> v == best) && alpha == (if best > alpha0 && counted(
        yielded,
        only,
    ) {
        best
    } else {
        alpha0
    }) && (counted(yielded, only) ==> best < beta)
    &&& !cutoff && !counted(yielded, only) ==> best == Score::NONE && v == Score::NONE
    &&& cutoff ==> best >= beta && children_max(m, lm, depth, ply, only) >= best
}

/// Some move of `yielded` counts (see `allowed`).
pub open spec fn counted(yielded: Seq<Square>, only: Option<Seq<Square>>) -> bool {
    exists|k: int| 0 <= k < yielded.len() && allowed(#[trigger] yielded[k], only)
}

proof fn lemma_scores_ok_start(m: BoardModel, lm: Seq<Square>, depth: int, ply: int, only: Option<Seq<Square>>, alpha0: int, beta: int)
    requires
        alpha0 < beta,
    ensures
        scores_ok(m, lm, Seq::empty(), depth, ply, only, Score::NONE as int, alpha0, alpha0, beta, false),
{
    reveal(scores_ok);
    assert(!counted(Seq::<Square>::empty(), only));
}

/// A move that does not count leaves the scores as they were.
proof fn lemma_scores_ok_skip(
    m: BoardModel,
    lm: Seq<Square>,
    yielded: Seq<Square>,
    mv: Square,
    depth: int,
    ply: int,
    only: Option<Seq<Square>>,
    best: int,
    alpha: int,
    alpha0: int,
    beta: int,
)
    requires
        scores_ok(m, lm, yielded, depth, ply, only, best, alpha, alpha0, beta, false),
        !allowed(mv, only),
    ensures
        scores_ok(m, lm, yielded.push(mv), depth, ply, only, best, alpha, alpha0, beta, false),
        counted(yielded.push(mv), only) == counted(yielded, only),
{
    reveal(scores_ok);
    lemma_children_max_push(m, yielded, mv, depth, ply, only);
    let y2 = yielded.push(mv);
    if counted(y2, only) {
        let k = choose|k: int| 0 <= k < y2.len() && allowed(#[trigger] y2[k], only);
        assert(k < yielded.len());
        assert(yielded[k] == y2[k]);
    }
    if counted(yielded, only) {
        let k = choose|k: int| 0 <= k < yielded.len() && allowed(#[trigger] yielded[k], only);
        assert(y2[k] == yielded[k]);
    }
}

/// A searched move updates the scores as the search loop does.
proof fn lemma_scores_ok_step(
    m: BoardModel,
    lm: Seq<Square>,
    yielded: Seq<Square>,
    mv: Square,
    depth: int,
    ply: int,
    only: Option<Seq<Square>>,
    best: int,
    alpha: int,
    alpha0: int,
    beta: int,
    s: int,
)
    requires
        scores_ok(m, lm, yielded, depth, ply, only, best, alpha, alpha0, beta, false),
        allowed(mv, only),
        lm.contains(mv),
        alpha0 < beta,
        Score::NONE <= s,
        fail_soft(-s, -child_score(m, mv, depth, ply), -beta, -alpha),
    ensures
        scores_ok(
            m,
            lm,
            yielded.push(mv),
            depth,
            ply,
            only,
            if s > best { s } else { best },
            if s > alpha { s } else { alpha },
            alpha0,
            beta,
            s >= beta,
        ),
        s < beta ==> (if s > alpha { s } else { alpha }) < beta,
        s > alpha ==> (if s > best { s } else { best }) == s,
        s <= alpha && (if s > best { s } else { best }) > alpha0 ==> counted(yielded, only) && best > alpha0
            && (if s > best { s } else { best }) == best,
{
    reveal(scores_ok);
    let f = child_score(m, mv, depth, ply);
    lemma_children_max_push(m, yielded, mv, depth, ply, only);
    let y2 = yielded.push(mv);
    assert(allowed(y2[yielded.len() as int], only));
    assert(counted(y2, only));
    lemma_alpha_beta_step(
        children_max(m, yielded, depth, ply, only),
        f,
        best,
        alpha,
        alpha0,
        beta,
        s,
        counted(yielded, only),
    );
    if s >= beta {
        lemma_children_max(m, lm, depth, ply, only);
        let k = choose|k: int| 0 <= k < lm.len() && lm[k] == mv;
        assert(lm[k] == mv);
    }
}

/// When the loop ends, the result is a fail-soft bound on the value.
proof fn lemma_scores_ok_end(
    m: BoardModel,
    lm: Seq<Square>,
    yielded: Seq<Square>,
    depth: int,
    ply: int,
    only: Option<Seq<Square>>,
    best: int,
    alpha: int,
    alpha0: int,
    beta: int,
    cutoff: bool,
)
    requires
        scores_ok(m, lm, yielded, depth, ply, only, best, alpha, alpha0, beta, cutoff),
        !cutoff ==> forall|x: Square| yielded.contains(x) <==> lm.contains(x),
        alpha0 < beta,
    ensures
        fail_soft(best, children_max(m, lm, depth, ply, only), alpha0, beta),
        !cutoff && counted(yielded, only) ==> best < beta,
        cutoff ==> best >= beta,
{
    reveal(scores_ok);
    if !cutoff {
        lemma_children_max_same_moves(m, yielded, lm, depth, ply, only);
    }
}

/// The root frame of `stack` holds a variation whose first move is one of
/// the legal moves `lm` that count (see `allowed`).
pub open spec fn root_frame_ok(stack: Seq<SearchStack>, only: Option<Seq<Square>>, lm: Seq<Square>) -> bool {
    &&& stack[0].pv.len >= 1
    &&& stack[0].pv.moves@[0] matches Some(x) && allowed(x, only) && lm.contains(x)
}

/// Frame `ply` of `stack` holds a variation whose first move is a legal
/// move of `m` that counts (see `allowed`) and scores `r`.
pub open spec fn best_move_ok(
    stack: Seq<SearchStack>,
    ply: int,
    m: BoardModel,
    depth: int,
    only: Option<Seq<Square>>,
    r: int,
) -> bool {
    &&& stack[ply].pv.len >= 1
    &&& stack[ply].pv.moves@[0] matches Some(x) && allowed(x, only) && legal_moves(m).contains(x)
        && child_score(m, x, depth, ply) == r
}

/// Frame `ply` of `stack` starts with a move `x`, and `hist` is a table as
/// a cutoff by `x` at `depth` for the side to move of `m` leaves it.
#[verifier::opaque]
pub open spec fn cutoff_recorded(
    stack: Seq<SearchStack>,
    ply: int,
    m: BoardModel,
    depth: int,
    hist: HistoryTable,
) -> bool {
    stack[ply].pv.moves@[0] matches Some(x) && exists|h: HistoryTable, q: Seq<Square>|
        hist == cutoff_update(h, m.stm@, depth, x, q)
}

/// The number of plies below a node searched to `depth` (in 1/1024 plies)
/// whose nodes still search moves: one for each whole or partial ply of
/// depth left.
pub open spec fn depth_plies(depth: int) -> int {
    if depth <= 0 {
        0
    } else {
        (depth + 1023) / 1024
    }
}

/// Every node of the search of `m` to `depth` at `ply` that searches moves
/// (an open game with depth left) stands below `MAX_PLY`, so that its
/// variation and its children's plies fit: such nodes lie on the next
/// `depth_plies(depth)` plies, and each fills one of the empty cells.
pub open spec fn plies_fit(m: BoardModel, depth: int, ply: int) -> bool {
    let e = empties(m) as int;
    let d = depth_plies(depth);
    ply + (if e < d { e } else { d }) <= MAX_PLY
}

/// An open game has an empty cell.
proof fn lemma_open_game_has_empty(m: BoardModel)
    requires
        m.wf(),
        m.state() is None,
    ensures
        empties(m) >= 1,
{
    law_open_game_has_moves(m);
    let mv = legal_moves(m)[0];
    law_legal_moves(m, mv);
    assert(legal_moves(m).contains(mv));
    law_make_move_fills_one(m, mv);
}

/// A legal move fills one cell and keeps the board well formed.
proof fn lemma_fill_step(m: BoardModel, x: Square)
    requires
        m.wf(),
        legal_moves(m).contains(x),
    ensures
        m.after_move(x).wf(),
        empties(m.after_move(x)) + 1 == empties(m),
        empties(m) <= 81,
{
    law_legal_moves(m, x);
    law_make_move_fills_one(m, x);
    lemma_after_move_wf(m, x);
}

/// Below the root every node fits (see `plies_fit`).
proof fn lemma_root_plies_fit(m: BoardModel, depth: int, ply: int)
    requires
        m.wf(),
        ply == 0,
    ensures
        forall|x: Square| legal_moves(m).contains(x) ==> #[trigger] plies_fit(m.after_move(x), depth - 1024, ply + 1),
{
    assert forall|x: Square| legal_moves(m).contains(x) implies #[trigger] plies_fit(m.after_move(x), depth - 1024, ply + 1) by {
        lemma_fill_step(m, x);
    }
}

/// A node that searches moves and fits stands below `MAX_PLY`, and its
/// moves lead to nodes that fit (see `plies_fit`).
proof fn lemma_plies_fit_children(m: BoardModel, depth: int, ply: int)
    requires
        m.wf(),
        plies_fit(m, depth, ply),
        m.state() is None,
        depth > 0,
    ensures
        ply < MAX_PLY,
        forall|x: Square| legal_moves(m).contains(x) ==> #[trigger] plies_fit(m.after_move(x), depth - 1024, ply + 1),
{
    lemma_open_game_has_empty(m);
    assert(depth_plies(depth - 1024) == depth_plies(depth) - 1);
    assert forall|x: Square| legal_moves(m).contains(x) implies #[trigger] plies_fit(m.after_move(x), depth - 1024, ply + 1) by {
        lemma_fill_step(m, x);
    }
}

/// At the end of a move loop that saw every legal move, some move counted
/// when the node searches moves (see `searches_moves`).
proof fn lemma_counted_at_end(
    m: BoardModel,
    node: NodeType,
    depth: int,
    root_moves: Seq<Square>,
    yielded: Seq<Square>,
)
    requires
        m.wf(),
        searches_moves(m, node, depth, root_moves),
        forall|x: Square| yielded.contains(x) <==> legal_moves(m).contains(x),
    ensures
        counted(yielded, counting_moves(node, root_moves)),
{
    let lm = legal_moves(m);
    let only = counting_moves(node, root_moves);
    let x = if node == NodeType::Root {
        let k = choose|k: int| 0 <= k < lm.len() && root_moves.contains(#[trigger] lm[k]);
        lm[k]
    } else {
        law_open_game_has_moves(m);
        lm[0]
    };
    assert(lm.contains(x));
    assert(yielded.contains(x));
    let j = choose|j: int| 0 <= j < yielded.len() && yielded[j] == x;
    assert(allowed(yielded[j], only));
}

/// Searches the position after the legal move `mv` with the window
/// negated, and returns its score from this node's point of view.
fn search_child(
    pos: &mut Position,
    thread: &mut ThreadData,
    shared: &SharedData,
    node: NodeType,
    depth: i32,
    ply: u8,
    alpha: Score,
    beta: Score,
    mv: Square,
) -> (score: Score)
    requires
        old(pos)@.wf(),
        legal(old(pos)@.current, mv@),
        table_bounded(old(thread).hist@),
        stack_ok(old(thread).stack@),
        ply < MAX_PLY,
        plies_fit(old(pos)@.current.after_move(mv), depth - DEPTH_SCALE, ply + 1),
        i32::MIN < alpha.0 < beta.0,
        node == NodeType::Root ==> ply == 0 && depth > -132096,
        node != NodeType::Root ==> depth > 0,
    ensures
        final(pos)@ == old(pos)@,
        table_bounded(final(thread).hist@),
        stack_ok(final(thread).stack@),
        final(thread).id == old(thread).id,
        final(thread).root_moves@ == old(thread).root_moves@,
        old(thread).stop ==> final(thread).stop,
        Score::NONE <= score.0 <= -Score::NONE,
        !final(thread).stop ==> fail_soft(
            -score.0,
            -child_score(old(pos)@.current, mv, depth as int, ply as int),
            -beta.0,
            -alpha.0,
        ),
        forall|i: int| 0 <= i <= ply ==> #[trigger] final(thread).stack@[i] == old(thread).stack@[i],
    decreases depth_measure(depth as int), if node == NodeType::Root { 1int } else { 0int }, 0int,
{
    let ghost p0 = pos@;
    let ghost m = p0.current;
    proof {
        law_make_move_fills_one(m, mv);
    }
    pos.make_move(mv);
    let rc = search(pos, thread, shared, node.next(), depth - DEPTH_SCALE, ply + 1, beta.neg(), alpha.neg());
    pos.unmake_move();
    proof {
        law_unmake_undoes_make(p0, mv);
        if depth <= 0 {
            assert(node_value(m.after_move(mv), depth - 1024, ply + 1) == leaf_value(m.after_move(mv), ply + 1));
        }
    }
    rc.neg()
}

/// The history bonus stays above `-MAX_HISTORY` for depths above -129
/// plies.
proof fn lemma_history_amount_bound(depth: int)
    requires
        depth > -132096,
    ensures
        crate::search::history::history_amount(128, 128, 2048, depth) > -crate::search::history::MAX_HISTORY,
{
    let p = 128 * depth;
    assert(p >= -16908160);
    if p < 0 {
        vstd::arithmetic::div_mod::lemma_div_is_ordered(-p, 16908160, 1024);
        assert(16908160int / 1024 == 16511);
    }
}

/// The running results of the move loop of a search.
struct LoopState {
    alpha: Score,
    best_score: Score,
    best_move: Option<Square>,
    move_count: u32,
    cutoff: bool,
}

/// The loop state holds scores in range and, unless the search stopped,
/// bounds the values of the moves searched so far (see `scores_ok`).
spec fn state_ok(
    st: LoopState,
    m: BoardModel,
    lm: Seq<Square>,
    yielded: Seq<Square>,
    depth: int,
    ply: int,
    only: Option<Seq<Square>>,
    alpha0: int,
    beta: int,
    stopped: bool,
) -> bool {
    &&& Score::NONE <= st.best_score.0 <= -Score::NONE
    &&& !st.cutoff ==> i32::MIN < alpha0 <= st.alpha.0 < beta
    &&& !stopped ==> scores_ok(m, lm, yielded, depth, ply, only, st.best_score.0 as int, st.alpha.0 as int, alpha0, beta, st.cutoff)
}

/// Folds the score `score` of the searched move `mv` into the loop state:
/// a better score becomes the best, a score above alpha raises alpha and
/// updates the principal variation, and a score at or above beta is a
/// cutoff that updates the history.
fn record_score(
    thread: &mut ThreadData,
    board: &Board,
    depth: i32,
    ply: u8,
    beta: Score,
    st: &mut LoopState,
    moves: &mut SquareBuffer,
    mv: Square,
    score: Score,
    Ghost(lm): Ghost<Seq<Square>>,
    Ghost(yielded): Ghost<Seq<Square>>,
    Ghost(only): Ghost<Option<Seq<Square>>>,
    Ghost(alpha0): Ghost<int>,
)
    requires
        table_bounded(old(thread).hist@),
        stack_ok(old(thread).stack@),
        ply < MAX_PLY,
        depth > -132096,
        !old(st).cutoff,
        squares_held(*old(moves)).len() <= yielded.len() < 81,
        allowed(mv, only),
        lm == legal_moves(board@),
        lm.contains(mv),
        i32::MIN < alpha0 < beta.0,
        Score::NONE <= score.0 <= -Score::NONE,
        !old(thread).stop,
        state_ok(*old(st), board@, lm, yielded, depth as int, ply as int, only, alpha0, beta.0 as int, false),
        fail_soft(-score.0, -child_score(board@, mv, depth as int, ply as int), -beta.0, -old(st).alpha.0),
        counted(yielded, only) && old(st).best_score.0 > alpha0 ==> best_move_ok(
            old(thread).stack@,
            ply as int,
            board@,
            depth as int,
            only,
            old(st).best_score.0 as int,
        ),
    ensures
        table_bounded(final(thread).hist@),
        stack_ok(final(thread).stack@),
        final(thread).id == old(thread).id,
        final(thread).root_moves@ == old(thread).root_moves@,
        final(thread).stop == old(thread).stop,
        final(st).move_count == old(st).move_count,
        squares_held(*final(moves)).len() <= yielded.len() + 1,
        state_ok(*final(st), board@, lm, yielded.push(mv), depth as int, ply as int, only, alpha0, beta.0 as int, false),
        forall|i: int| 0 <= i < ply ==> #[trigger] final(thread).stack@[i] == old(thread).stack@[i],
        ply == 0 && root_frame_ok(old(thread).stack@, only, lm) ==> root_frame_ok(final(thread).stack@, only, lm),
        final(st).cutoff ==> final(st).move_count == old(st).move_count,
        !final(st).cutoff && final(st).best_score.0 > alpha0 ==> best_move_ok(
            final(thread).stack@,
            ply as int,
            board@,
            depth as int,
            only,
            final(st).best_score.0 as int,
        ),
        final(thread).hist@ == if final(st).cutoff {
            cutoff_update(old(thread).hist@, board@.stm@, depth as int, mv, squares_held(*old(moves)))
        } else {
            old(thread).hist@
        },
        final(st).cutoff ==> final(thread).stack@[ply as int].pv.moves@[0] == Some(mv),
{
    proof {
        lemma_scores_ok_step(
            board@,
            lm,
            yielded,
            mv,
            depth as int,
            ply as int,
            only,
            st.best_score.0 as int,
            st.alpha.0 as int,
            alpha0,
            beta.0 as int,
            score.0 as int,
        );
    }
    if score.0 > st.best_score.0 {
        st.best_score = score;
    }
    if score.0 > st.alpha.0 {
        update_pv(&mut thread.stack, ply as usize, mv);
        st.best_move = Some(mv);
        st.alpha = score;
    }
    if score.0 >= beta.0 {
        let mv_best = match st.best_move {
            Some(b) => b,
            None => mv,
        };
        let quiet = square_buffer_as_slice(moves);
        proof {
            lemma_history_amount_bound(depth as int);
        }
        thread.hist.update(board, depth, mv_best, quiet);
        st.cutoff = true;
    } else if st.best_move != Some(mv) {
        square_buffer_push(moves, mv);
    }
}

/// Searches the legal, counting move `mv` and folds its score into the
/// loop state (see `record_score`). Returns whether the search was
/// stopped.
fn visit_move(
    pos: &mut Position,
    thread: &mut ThreadData,
    shared: &SharedData,
    node: NodeType,
    depth: i32,
    ply: u8,
    beta: Score,
    st: &mut LoopState,
    moves: &mut SquareBuffer,
    mv: Square,
    Ghost(lm): Ghost<Seq<Square>>,
    Ghost(yielded): Ghost<Seq<Square>>,
    Ghost(only): Ghost<Option<Seq<Square>>>,
    Ghost(alpha0): Ghost<int>,
) -> (stopped: bool)
    requires
        old(pos)@.wf(),
        legal(old(pos)@.current, mv@),
        lm == legal_moves(old(pos)@.current),
        lm.contains(mv),
        only == (if node == NodeType::Root { Some(old(thread).root_moves@) } else { None::<Seq<Square>> }),
        table_bounded(old(thread).hist@),
        stack_ok(old(thread).stack@),
        ply < MAX_PLY,
        plies_fit(old(pos)@.current.after_move(mv), depth - DEPTH_SCALE, ply + 1),
        node == NodeType::Root ==> ply == 0 && depth > -132096,
        node != NodeType::Root ==> depth > 0,
        !old(st).cutoff,
        old(st).move_count <= yielded.len() < 81,
        squares_held(*old(moves)).len() <= yielded.len(),
        allowed(mv, only),
        i32::MIN < alpha0 < beta.0,
        state_ok(*old(st), old(pos)@.current, lm, yielded, depth as int, ply as int, only, alpha0, beta.0 as int, old(thread).stop),
        node == NodeType::Root && old(st).move_count == 0 ==> !counted(yielded, only),
        !old(thread).stop && counted(yielded, only) && old(st).best_score.0 > alpha0 ==> best_move_ok(
            old(thread).stack@,
            ply as int,
            old(pos)@.current,
            depth as int,
            only,
            old(st).best_score.0 as int,
        ),
    ensures
        final(pos)@ == old(pos)@,
        table_bounded(final(thread).hist@),
        stack_ok(final(thread).stack@),
        final(thread).id == old(thread).id,
        final(thread).root_moves@ == old(thread).root_moves@,
        old(thread).stop ==> final(thread).stop,
        stopped == final(thread).stop,
        final(st).move_count <= yielded.len() + 1,
        squares_held(*final(moves)).len() <= yielded.len() + 1,
        !stopped ==> state_ok(*final(st), old(pos)@.current, lm, yielded.push(mv), depth as int, ply as int, only, alpha0, beta.0 as int, false),
        final(st).move_count == old(st).move_count + 1,
        forall|i: int| 0 <= i < ply ==> #[trigger] final(thread).stack@[i] == old(thread).stack@[i],
        node == NodeType::Root && (old(st).move_count == 0 || root_frame_ok(old(thread).stack@, only, lm))
            ==> root_frame_ok(final(thread).stack@, only, lm),
        !stopped && !final(st).cutoff && final(st).best_score.0 > alpha0 ==> best_move_ok(
            final(thread).stack@,
            ply as int,
            old(pos)@.current,
            depth as int,
            only,
            final(st).best_score.0 as int,
        ),
        !stopped && final(st).cutoff ==> cutoff_recorded(
            final(thread).stack@,
            ply as int,
            old(pos)@.current,
            depth as int,
            final(thread).hist@,
        ),
    decreases depth_measure(depth as int), if node == NodeType::Root { 1int } else { 0int }, 1int,
{
    proof {
        law_make_move_fills_one(old(pos)@.current, mv);
    }
    let score = search_child(pos, thread, shared, node, depth, ply, st.alpha, beta, mv);
    st.move_count = st.move_count + 1;
    if node.is_root() && st.move_count == 1 {
        update_pv(&mut thread.stack, ply as usize, mv);
    }
    if thread.stop {
        return true;
    }
    let ghost h_mid = thread.hist@;
    let ghost q_mid = squares_held(*moves);
    record_score(
        thread,
        pos.board(),
        depth,
        ply,
        beta,
        st,
        moves,
        mv,
        score,
        Ghost(lm),
        Ghost(yielded),
        Ghost(only),
        Ghost(alpha0),
    );
    proof {
        if st.cutoff {
            reveal(cutoff_recorded);
            assert(thread.hist@ == cutoff_update(h_mid, pos@.current.stm@, depth as int, mv, q_mid));
        }
    }
    false
}

/// The moves that count at a node of kind `node` (see `allowed`): the root
/// searches only the root moves.
pub open spec fn counting_moves(node: NodeType, root_moves: Seq<Square>) -> Option<Seq<Square>> {
    if node == NodeType::Root {
        Some(root_moves)
    } else {
        None
    }
}

/// The node searches at least one move that counts: at the root, some legal
/// move is a root move; elsewhere, the game is open with depth left.
pub open spec fn searches_moves(m: BoardModel, node: NodeType, depth: int, root_moves: Seq<Square>) -> bool {
    if node == NodeType::Root {
        exists|k: int| 0 <= k < legal_moves(m).len() && root_moves.contains(#[trigger] legal_moves(m)[k])
    } else {
        m.state() is None && depth > 0
    }
}

/// Fail-soft alpha-beta search of `pos` to `depth` (in 1/1024 plies) with
/// window (`alpha`, `beta`). Unless the search was stopped (by the time
/// manager or another thread), the result is a fail-soft bound on the
/// node's value (see `search_value` and `fail_soft`). Cutoffs update the
/// history, and improving moves update the principal variation. A node
/// below the root that is stopped on entry returns 0 and counts nothing; a
/// search that becomes stopped returns 0. A finished game or a node without
/// depth left counts one node, records its ply as the selective depth and
/// returns its leaf value and leaves the history as it was. At the root,
/// when some legal move is a root move, the root variation starts with such
/// a move. When a node that searches moves (see `searches_moves`) returns
/// a score inside the window, its variation starts with a move that scores
/// it; when it returns a score at or above `beta`, its variation starts
/// with the move that cut off, and the history was last updated for that
/// cutoff. A node that searches moves takes a window with
/// `alpha < beta` (with `alpha >= beta`, a score between them would leave
/// the cutoff without a best move); every node that searches moves stands
/// below `MAX_PLY` (see `plies_fit`); the root depth stays above -129
/// plies, which keeps the history bonus above `-MAX_HISTORY`.
#[verifier::spinoff_prover]
#[verifier::rlimit(100)]
pub fn search(
    pos: &mut Position,
    thread: &mut ThreadData,
    shared: &SharedData,
    node: NodeType,
    depth: i32,
    ply: u8,
    alpha: Score,
    beta: Score,
) -> (r: Score)
    requires
        stack_ok(old(thread).stack@),
        node == NodeType::Root || (old(pos)@.current.state() is None && depth > 0) ==> i32::MIN < alpha.0
            < beta.0,
        node == NodeType::Root ==> ply == 0 && depth > -132096,
        node != NodeType::Root ==> plies_fit(old(pos)@.current, depth as int, ply as int),
    ensures
        final(pos)@ == old(pos)@,
        table_bounded(final(thread).hist@),
        stack_ok(final(thread).stack@),
        final(thread).id == old(thread).id,
        final(thread).root_moves@ == old(thread).root_moves@,
        old(thread).stop ==> final(thread).stop,
        Score::NONE <= r.0 <= -Score::NONE,
        !final(thread).stop ==> fail_soft(
            r.0 as int,
            search_value(old(pos)@.current, node, depth as int, ply as int, old(thread).root_moves@),
            alpha.0 as int,
            beta.0 as int,
        ),
        final(thread).stop && (!old(thread).stop || node != NodeType::Root) ==> r.0 == 0,
        forall|i: int| 0 <= i < ply ==> #[trigger] final(thread).stack@[i] == old(thread).stack@[i],
        node == NodeType::Root && (exists|k: int|
            0 <= k < legal_moves(old(pos)@.current).len() && old(thread).root_moves@.contains(
                #[trigger] legal_moves(old(pos)@.current)[k],
            )) ==> root_frame_ok(
            final(thread).stack@,
            Some(old(thread).root_moves@),
            legal_moves(old(pos)@.current),
        ),
        node != NodeType::Root && old(thread).stop ==> final(thread).nodes == old(thread).nodes
            && final(thread).sel_depth == old(thread).sel_depth,
        node != NodeType::Root && !final(thread).stop && (old(pos)@.current.state() is Some || depth <= 0) ==> {
            &&& final(thread).nodes.count() == wrapping_add(old(thread).nodes.count(), 1)
            &&& final(thread).sel_depth == if ply as int > old(thread).sel_depth {
                ply as int
            } else {
                old(thread).sel_depth as int
            }
            &&& r.0 == leaf_value(old(pos)@.current, ply as int)
        },
        node != NodeType::Root && (old(thread).stop || old(pos)@.current.state() is Some || depth <= 0)
            ==> final(thread).hist@ == old(thread).hist@,
        !final(thread).stop && alpha.0 < r.0 < beta.0 && searches_moves(
            old(pos)@.current,
            node,
            depth as int,
            old(thread).root_moves@,
        ) ==> best_move_ok(
            final(thread).stack@,
            ply as int,
            old(pos)@.current,
            depth as int,
            counting_moves(node, old(thread).root_moves@),
            r.0 as int,
        ),
        !final(thread).stop && r.0 >= beta.0 && searches_moves(
            old(pos)@.current,
            node,
            depth as int,
            old(thread).root_moves@,
        ) ==> cutoff_recorded(
            final(thread).stack@,
            ply as int,
            old(pos)@.current,
            depth as int,
            final(thread).hist@,
        ),
    decreases depth_measure(depth as int), if node == NodeType::Root { 1int } else { 0int }, 2int,
{
    let current = pos.board();
    let hist: &History = &thread.hist;
    proof {
        use_type_invariant(current);
        use_type_invariant(hist);
    }
    let root = node.is_root();
    let ghost m = pos@.current;
    let ghost p0 = pos@;
    let ghost root_moves = thread.root_moves@;
    if !root && (thread.stop || shared.time_man.stop_search(thread)) {
        if thread.id == 0 {
            shared.time_man.set_stop(true);
        }
        thread.stop = true;
        return Score(0);
    }
    if !root {
        thread.nodes.inc();
        let p: usize = ply as usize;
        if p > thread.sel_depth {
            thread.sel_depth = p;
        }
        match pos.terminal_state() {
            Some(TerminalState::Victory(_)) => {
                return Score::mated(ply);
            },
            Some(TerminalState::Draw) => {
                return Score(0);
            },
            None => {},
        }
        if depth <= 0 {
            return eval(pos.board());
        }
    }
    let ghost only: Option<Seq<Square>> = if root { Some(root_moves) } else { None };
    let ghost lm = legal_moves(m);
    let ghost alpha0 = alpha.0 as int;
    proof {
        law_legal_moves(m, square_at(0));
        if root {
            lemma_root_plies_fit(m, depth as int, ply as int);
        } else {
            lemma_plies_fit_children(m, depth as int, ply as int);
        }
    }
    let mut st = LoopState {
        alpha,
        best_score: Score(Score::NONE),
        best_move: None,
        move_count: 0,
        cutoff: false,
    };
    let mut move_picker = MovePicker::new();
    let mut moves = square_buffer_new();
    let ghost mut yielded: Seq<Square> = Seq::empty();
    let mut done = false;
    proof {
        lemma_yield_ok_start(lm, move_picker);
        lemma_scores_ok_start(m, lm, depth as int, ply as int, only, alpha0, beta.0 as int);
    }
    while !done
        invariant
            pos@ == p0,
            p0 == old(pos)@,
            root_moves == old(thread).root_moves@,
            p0.current == m,
            m.wf(),
            p0.wf(),
            lm == legal_moves(m),
            root == (node == NodeType::Root),
            only == (if root { Some(root_moves) } else { None::<Seq<Square>> }),
            root_moves == thread.root_moves@,
            table_bounded(thread.hist@),
            stack_ok(thread.stack@),
            ply < MAX_PLY,
            forall|x: Square| lm.contains(x) ==> #[trigger] plies_fit(m.after_move(x), depth - 1024, ply + 1),
            i32::MIN < alpha0 < beta.0,
            !root ==> depth > 0 && m.state() is None,
            root ==> ply == 0 && depth > -132096,
            !thread.stop && !st.cutoff && counted(yielded, only) && st.best_score.0 > alpha0 ==> best_move_ok(
                thread.stack@,
                ply as int,
                m,
                depth as int,
                only,
                st.best_score.0 as int,
            ),
            !thread.stop && st.cutoff ==> cutoff_recorded(thread.stack@, ply as int, m, depth as int, thread.hist@),
            yield_ok(lm, yielded, move_picker),
            st.move_count <= yielded.len() <= 81,
            squares_held(moves).len() <= yielded.len(),
            old(thread).stop ==> thread.stop,
            (!old(thread).stop || !root) ==> !thread.stop,
            forall|i: int| 0 <= i < ply ==> #[trigger] thread.stack@[i] == old(thread).stack@[i],
            root && st.move_count > 0 ==> root_frame_ok(thread.stack@, only, lm),
            root && st.move_count == 0 ==> forall|k: int| 0 <= k < yielded.len() ==> !allowed(#[trigger] yielded[k], only),
            st.cutoff ==> st.move_count > 0,
            thread.id == old(thread).id,
            state_ok(st, m, lm, yielded, depth as int, ply as int, only, alpha0, beta.0 as int, thread.stop),
            st.cutoff ==> done,
            done && !st.cutoff ==> forall|x: Square| yielded.contains(x) <==> lm.contains(x),
        decreases picker_measure(move_picker) + (if done { 0int } else { 1int }),
    {
        let ghost before = move_picker;
        let ghost hist_now = thread.hist@;
        assert(before.stage_spec() == Stage::GenMoves ==> before.remaining().len() == 0) by {
            reveal(yield_ok);
        }
        let next = move_picker.next(pos, &thread.hist);
        match next {
            None => {
                proof {
                    lemma_yield_ok_done(m, hist_now, lm, yielded, before, move_picker);
                }
                done = true;
            },
            Some(ScoredMove(mv, _)) => {
                proof {
                    lemma_yield_ok_next(m, hist_now, lm, yielded, before, move_picker, mv, next);
                    reveal(yield_ok);
                }
                let ghost prev_yielded = yielded;
                proof {
                    yielded = yielded.push(mv);
                }
                if root && !thread.root_moves.contains(mv) {
                    proof {
                        if !thread.stop {
                            lemma_scores_ok_skip(m, lm, prev_yielded, mv, depth as int, ply as int, only, st.best_score.0 as int, st.alpha.0 as int, alpha0, beta.0 as int);
                        }
                    }
                } else {
                    proof {
                        law_legal_moves(m, mv);
                    }
                    let stopped = visit_move(
                        pos,
                        thread,
                        shared,
                        node,
                        depth,
                        ply,
                        beta,
                        &mut st,
                        &mut moves,
                        mv,
                        Ghost(lm),
                        Ghost(prev_yielded),
                        Ghost(only),
                        Ghost(alpha0),
                    );
                    if stopped {
                        return Score(0);
                    }
                    if st.cutoff {
                        done = true;
                    }
                }
            },
        }
    }
    proof {
        if root && st.move_count == 0 && (exists|k: int|
            0 <= k < lm.len() && root_moves.contains(#[trigger] lm[k])) {
            let k = choose|k: int| 0 <= k < lm.len() && root_moves.contains(#[trigger] lm[k]);
            assert(lm.contains(lm[k]));
            assert(yielded.contains(lm[k]));
            let j = choose|j: int| 0 <= j < yielded.len() && yielded[j] == lm[k];
            assert(!allowed(yielded[j], only));
        }
        if !thread.stop {
            lemma_scores_ok_end(m, lm, yielded, depth as int, ply as int, only, st.best_score.0 as int, st.alpha.0 as int, alpha0, beta.0 as int, st.cutoff);
            if !st.cutoff && searches_moves(m, node, depth as int, root_moves) {
                lemma_counted_at_end(m, node, depth as int, root_moves, yielded);
            }
        }
    }
    st.best_score
}

/// The scored legal moves of `m` under history `h`.
pub open spec fn scored_legal_moves_of(m: BoardModel, h: crate::search::history::HistoryTable) -> Seq<ScoredMove> {
    crate::search::move_picker::scored_legal_moves(m, h)
}


/// The evaluation of squares `0..n` of two boards that differ only in a
/// mark of `p` on square `s`, which `m1` leaves empty.
proof fn lemma_eval_upto_mark(m1: BoardModel, m2: BoardModel, s: int, p: Piece, n: nat)
    requires
        0 <= s < 81,
        n <= 81,
        m1.stm == m2.stm,
        m1.piece_at(s) is None,
        m2.piece_at(s) == Some(p),
        forall|t: int| 0 <= t < 81 && t != s ==> #[trigger] m2.piece_at(t) == m1.piece_at(t),
    ensures
        eval_upto(m2, n) == eval_upto(m1, n) + if s < n {
            if p == m1.stm {
                psqt(s)
            } else {
                -psqt(s)
            }
        } else {
            0
        },
    decreases n,
{
    if n > 0 {
        lemma_eval_upto_mark(m1, m2, s, p, (n - 1) as nat);
        if n - 1 != s {
            assert(m2.piece_at(n - 1) == m1.piece_at(n - 1));
        }
    }
}

/// Law: adding one mark on square `s` changes the evaluation by the weight
/// of the cell `s` is within its small board, whichever small board that
/// is: 20 for the centre cell, 10 for a corner cell, 5 for an edge cell;
/// added for a mark of the side to move, taken off for the opponent's.
pub proof fn law_eval_mark(m1: BoardModel, m2: BoardModel, s: int, p: Piece)
    requires
        0 <= s < 81,
        m1.stm == m2.stm,
        m1.piece_at(s) is None,
        m2.piece_at(s) == Some(p),
        forall|t: int| 0 <= t < 81 && t != s ==> #[trigger] m2.piece_at(t) == m1.piece_at(t),
    ensures
        eval_spec(m2) == eval_spec(m1) + {
            let w = if cell_of(s) == 4 {
                20int
            } else if cell_of(s) % 2 == 0 {
                10int
            } else {
                5int
            };
            if p == m1.stm {
                w
            } else {
                -w
            }
        },
{
    lemma_eval_upto_mark(m1, m2, s, p, 81);
    assert(0 <= cell_of(s) < 9);
}

/// The evaluation of squares `0..n` of a board without marks is 0.
proof fn lemma_eval_upto_empty(m: BoardModel, n: nat)
    requires
        n <= 81,
        forall|t: int| 0 <= t < 81 ==> (#[trigger] m.piece_at(t)) is None,
    ensures
        eval_upto(m, n) == 0,
    decreases n,
{
    if n > 0 {
        lemma_eval_upto_empty(m, (n - 1) as nat);
        assert(m.piece_at(n - 1) is None);
    }
}

/// Law: a board without marks evaluates to 0.
pub proof fn law_eval_empty(m: BoardModel)
    requires
        forall|t: int| 0 <= t < 81 ==> (#[trigger] m.piece_at(t)) is None,
    ensures
        eval_spec(m) == 0,
{
    lemma_eval_upto_empty(m, 81);
}

} // verus!
