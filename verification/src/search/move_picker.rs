use vstd::prelude::*;
use smallvec::SmallVec;
use crate::board::Board;
use crate::board::movegen::legal_moves;
use crate::position::Position;
use crate::search::history::{History, HistoryTable, table_bounded};
use crate::types::Square;

verus! {

/// A move with its ordering score.
#[derive(Debug, Copy, Clone, PartialEq, Eq, Structural)]
pub struct ScoredMove(pub Square, pub i32);

/// A `SmallVec` of scored moves with room for 32 before it spills to the
/// heap. Verus cannot declare `SmallVec` itself (its parameter is bound by
/// the outside trait `smallvec::Array`), so it is held here, out of Verus's
/// sight, and reached only through the functions below.
#[verifier::external_body]
pub struct MoveBuffer {
    inner: SmallVec<[ScoredMove; 32]>,
}

/// What a move buffer holds, in order.
pub uninterp spec fn scored_moves(v: MoveBuffer) -> Seq<ScoredMove>;

/// `SmallVec::new`: an empty buffer.
#[verifier::external_body]
fn buffer_new() -> (r: MoveBuffer)
    ensures
        scored_moves(r) == Seq::<ScoredMove>::empty(),
{
    MoveBuffer { inner: SmallVec::new() }
}

/// `SmallVec::push`: appends `item` (the call panics only when the length
/// would pass `usize::MAX` or memory runs out).
#[verifier::external_body]
fn buffer_push(v: &mut MoveBuffer, item: ScoredMove)
    requires
        scored_moves(*old(v)).len() < usize::MAX,
    ensures
        scored_moves(*final(v)) == scored_moves(*old(v)).push(item),
{
    v.inner.push(item)
}

/// `SmallVec::pop`: removes and returns the last item, if any.
#[verifier::external_body]
fn buffer_pop(v: &mut MoveBuffer) -> (r: Option<ScoredMove>)
    ensures
        scored_moves(*old(v)).len() == 0 ==> r is None && scored_moves(*final(v)) == scored_moves(*old(v)),
        scored_moves(*old(v)).len() > 0 ==> r == Some(scored_moves(*old(v)).last()) && scored_moves(*final(v))
            == scored_moves(*old(v)).drop_last(),
{
    v.inner.pop()
}

/// `SmallVec::len`: the number of items.
#[verifier::external_body]
fn buffer_len(v: &MoveBuffer) -> (r: usize)
    ensures
        r == scored_moves(*v).len(),
{
    v.inner.len()
}

/// `SmallVec::as_slice`: the items as a slice.
#[verifier::external_body]
fn buffer_as_slice(v: &MoveBuffer) -> (r: &[ScoredMove])
    ensures
        r@ == scored_moves(*v),
{
    v.inner.as_slice()
}

/// `swap` on the buffer's items (through `DerefMut` to a slice): exchanges
/// items `i` and `j`.
#[verifier::external_body]
fn buffer_swap(v: &mut MoveBuffer, i: usize, j: usize)
    requires
        i < scored_moves(*old(v)).len(),
        j < scored_moves(*old(v)).len(),
    ensures
        scored_moves(*final(v)) == scored_moves(*old(v)).update(i as int, scored_moves(*old(v))[j as int]).update(
            j as int,
            scored_moves(*old(v))[i as int],
        ),
{
    v.inner.swap(i, j)
}

/// A `SmallVec` of squares with room for 32 before it spills to the heap,
/// held out of Verus's sight like `MoveBuffer`.
#[verifier::external_body]
pub struct SquareBuffer {
    inner: SmallVec<[Square; 32]>,
}

/// What a square buffer holds, in order.
pub uninterp spec fn squares_held(v: SquareBuffer) -> Seq<Square>;

/// `SmallVec::new`: an empty buffer.
#[verifier::external_body]
pub(crate) fn square_buffer_new() -> (r: SquareBuffer)
    ensures
        squares_held(r) == Seq::<Square>::empty(),
{
    SquareBuffer { inner: SmallVec::new() }
}

/// `SmallVec::push`: appends `sq` (the call panics only when the length
/// would pass `usize::MAX` or memory runs out).
#[verifier::external_body]
pub(crate) fn square_buffer_push(v: &mut SquareBuffer, sq: Square)
    requires
        squares_held(*old(v)).len() < usize::MAX,
    ensures
        squares_held(*final(v)) == squares_held(*old(v)).push(sq),
{
    v.inner.push(sq)
}

/// `SmallVec::as_slice`: the squares as a slice.
#[verifier::external_body]
pub(crate) fn square_buffer_as_slice(v: &SquareBuffer) -> (r: &[Square])
    ensures
        r@ == squares_held(*v),
{
    v.inner.as_slice()
}

/// Some item of `s` is a move to `x`.
pub open spec fn holds_square(s: Seq<ScoredMove>, x: Square) -> bool {
    exists|i: int| 0 <= i < s.len() && (#[trigger] s[i]).0 == x
}

/// Removing item `i` the swap way removes its square and keeps the others.
pub proof fn lemma_swap_removed_squares(s: Seq<ScoredMove>, i: int, x: Square)
    requires
        0 <= i < s.len(),
    ensures
        holds_square(s, x) <==> (holds_square(swap_removed(s, i), x) || s[i].0 == x),
        swap_removed(s, i).len() == s.len() - 1,
{
    let t = swap_removed(s, i);
    if holds_square(s, x) && s[i].0 != x {
        let j = choose|j: int| 0 <= j < s.len() && (#[trigger] s[j]).0 == x;
        if j == s.len() - 1 {
            assert(t[i].0 == x);
        } else {
            assert(t[j].0 == x);
        }
    }
    if holds_square(t, x) {
        let j = choose|j: int| 0 <= j < t.len() && (#[trigger] t[j]).0 == x;
        if j == i {
            assert(s[s.len() - 1].0 == x);
        } else {
            assert(s[j].0 == x);
        }
    }
    if s[i].0 == x {
        assert(s[i].0 == x);
    }
}

/// The scored legal moves hold exactly the legal moves' squares.
pub proof fn lemma_scored_legal_squares(board: crate::board::BoardModel, h: HistoryTable, x: Square)
    ensures
        holds_square(scored_legal_moves(board, h), x) <==> legal_moves(board).contains(x),
        scored_legal_moves(board, h).len() == legal_moves(board).len(),
{
    let s = scored_legal_moves(board, h);
    let l = legal_moves(board);
    if holds_square(s, x) {
        let j = choose|j: int| 0 <= j < s.len() && (#[trigger] s[j]).0 == x;
        assert(l[j] == x);
    }
    if l.contains(x) {
        let j = choose|j: int| 0 <= j < l.len() && l[j] == x;
        assert(s[j].0 == x);
    }
}

/// Removes item `index` by moving the last item into its place, and
/// returns it; `None` (and no change) when `index` is out of range.
pub fn swap_pop(vec: &mut MoveBuffer, index: usize) -> (r: Option<ScoredMove>)
    ensures
        index >= scored_moves(*old(vec)).len() ==> r is None && scored_moves(*final(vec)) == scored_moves(*old(vec)),
        index < scored_moves(*old(vec)).len() ==> r == Some(scored_moves(*old(vec))[index as int])
            && scored_moves(*final(vec)) == swap_removed(scored_moves(*old(vec)), index as int),
{
    let len = buffer_len(vec);
    if index >= len {
        return None;
    }
    buffer_swap(vec, index, len - 1);
    let r = buffer_pop(vec);
    proof {
        let s = scored_moves(*old(vec));
        assert(scored_moves(*vec) =~= swap_removed(s, index as int));
    }
    r
}

/// `s` with item `i` replaced by the last item and the last item dropped.
pub open spec fn swap_removed(s: Seq<ScoredMove>, i: int) -> Seq<ScoredMove> {
    s.update(i, s.last()).drop_last()
}

/// Law: taking item `i` out the swap way removes exactly that item, so a
/// picker hands out each of its moves once.
pub proof fn law_swap_removed_multiset(s: Seq<ScoredMove>, i: int)
    requires
        0 <= i < s.len(),
    ensures
        swap_removed(s, i).to_multiset() =~= s.to_multiset().remove(s[i]),
{
    broadcast use vstd::multiset::group_multiset_axioms;

    let last = s.last();
    let u = s.update(i, last);
    let t = u.drop_last();
    assert(t.push(last) =~= u);
    vstd::seq_lib::to_multiset_build(t, last);
    vstd::seq_lib::to_multiset_update(s, i, last);
    vstd::seq_lib::to_multiset_contains(s, s[i]);
    assert(s.contains(s[i]));
    assert forall|x: ScoredMove| t.to_multiset().count(x) == s.to_multiset().remove(s[i]).count(x) by {
        assert(t.to_multiset().insert(last).count(x) == s.to_multiset().insert(last).remove(s[i]).count(x));
    }
}

/// The items handed out and the items left when, one after another, the
/// items at the positions `idx` are taken out the swap way (a position out
/// of range takes nothing).
pub open spec fn swap_run(s: Seq<ScoredMove>, idx: Seq<int>) -> (Seq<ScoredMove>, Seq<ScoredMove>)
    decreases idx.len(),
{
    if idx.len() == 0 {
        (Seq::empty(), s)
    } else {
        let prev = swap_run(s, idx.drop_last());
        let i = idx.last();
        if 0 <= i < prev.1.len() {
            (prev.0.push(prev.1[i]), swap_removed(prev.1, i))
        } else {
            prev
        }
    }
}

/// Law: whichever positions a picker takes its moves from, the moves it has
/// handed out and the moves it still holds are together exactly the moves
/// it started with, each as often as at the start.
pub proof fn law_picker_run(s: Seq<ScoredMove>, idx: Seq<int>)
    ensures
        swap_run(s, idx).0.to_multiset().add(swap_run(s, idx).1.to_multiset()) =~= s.to_multiset(),
    decreases idx.len(),
{
    broadcast use vstd::multiset::group_multiset_axioms;

    if idx.len() == 0 {
        assert(Seq::<ScoredMove>::empty().to_multiset() =~= vstd::multiset::Multiset::empty()) by {
            broadcast use vstd::seq_lib::group_to_multiset_ensures;
        }
    } else {
        law_picker_run(s, idx.drop_last());
        let prev = swap_run(s, idx.drop_last());
        let out = prev.0;
        let rest = prev.1;
        let i = idx.last();
        if 0 <= i < rest.len() {
            let x = rest[i];
            law_swap_removed_multiset(rest, i);
            vstd::seq_lib::to_multiset_build(out, x);
            vstd::seq_lib::to_multiset_contains(rest, x);
            assert(rest.contains(x));
            assert forall|y: ScoredMove|
                out.push(x).to_multiset().add(swap_removed(rest, i).to_multiset()).count(y) == s.to_multiset().count(y) by {
                assert(out.to_multiset().add(rest.to_multiset()).count(y) == s.to_multiset().count(y));
            }
        }
    }
}

/// Law: a picker that takes, each time, an item with the highest score
/// of those it still holds (as `MovePicker::next` does, see `is_last_max`)
/// hands out one item per step, with scores that never increase, and none
/// of the items it still holds scores above one it handed out.
pub proof fn law_picker_order(s: Seq<ScoredMove>, idx: Seq<int>)
    requires
        forall|k: int| 0 <= k < idx.len() ==> is_last_max(#[trigger] swap_run(s, idx.take(k)).1, idx[k]),
    ensures
        swap_run(s, idx).0.len() == idx.len(),
        forall|a: int, b: int|
            0 <= a < b < idx.len() ==> #[trigger] swap_run(s, idx).0[b].1 <= #[trigger] swap_run(s, idx).0[a].1,
        forall|a: int, b: int|
            0 <= a < idx.len() && 0 <= b < swap_run(s, idx).1.len() ==> #[trigger] swap_run(s, idx).1[b].1
                <= #[trigger] swap_run(s, idx).0[a].1,
    decreases idx.len(),
{
    if idx.len() > 0 {
        let pre = idx.drop_last();
        assert forall|k: int| 0 <= k < pre.len() implies is_last_max(#[trigger] swap_run(s, pre.take(k)).1, pre[k]) by {
            assert(pre.take(k) =~= idx.take(k));
            assert(is_last_max(swap_run(s, idx.take(k)).1, idx[k]));
        }
        law_picker_order(s, pre);
        let out = swap_run(s, pre).0;
        let rest = swap_run(s, pre).1;
        let i = idx.last();
        assert(idx.take(idx.len() - 1) =~= pre);
        assert(is_last_max(swap_run(s, idx.take(idx.len() - 1)).1, idx[idx.len() - 1]));
        assert(is_last_max(rest, i));
        let x = rest[i];
        let left = swap_removed(rest, i);
        assert(swap_run(s, idx).0 == out.push(x));
        assert(swap_run(s, idx).1 == left);
        assert forall|b: int| 0 <= b < left.len() implies exists|j: int| 0 <= j < rest.len() && #[trigger] left[b] == rest[j] by {
            if b == i {
                assert(left[b] == rest[rest.len() - 1]);
            } else {
                assert(left[b] == rest[b]);
            }
        }
        assert forall|a: int, b: int|
            0 <= a < idx.len() && 0 <= b < left.len() implies #[trigger] left[b].1 <= #[trigger] out.push(x)[a].1 by {
            let j = choose|j: int| 0 <= j < rest.len() && left[b] == rest[j];
            assert(rest[j].1 <= x.1);
            if a < out.len() {
                assert(rest[j].1 <= out[a].1);
                assert(out.push(x)[a] == out[a]);
            }
        }
        assert forall|a: int, b: int| 0 <= a < b < idx.len() implies #[trigger] out.push(x)[b].1 <= #[trigger] out.push(x)[a].1 by {
            assert(out.push(x)[a] == out[a]);
            if b < out.len() {
                assert(out.push(x)[b] == out[b]);
            } else {
                assert(rest[i].1 <= out[a].1);
            }
        }
    }
}

/// Position `i` holds the highest score of `s`, and no later position
/// holds as high a score.
pub open spec fn is_last_max(s: Seq<ScoredMove>, i: int) -> bool {
    &&& 0 <= i < s.len()
    &&& forall|j: int| 0 <= j < s.len() ==> #[trigger] s[j].1 <= s[i].1
    &&& forall|j: int| i < j < s.len() ==> #[trigger] s[j].1 < s[i].1
}

/// The position of the highest score, the last one when several tie;
/// `None` for an empty list.
pub fn select_next(moves: &[ScoredMove]) -> (r: Option<usize>)
    ensures
        moves@.len() == 0 <==> r is None,
        r matches Some(i) ==> is_last_max(moves@, i as int),
{
    if moves.len() == 0 {
        return None;
    }
    let mut best: usize = 0;
    let mut i: usize = 1;
    while i < moves.len()
        invariant
            1 <= i <= moves@.len(),
            is_last_max(moves@.take(i as int), best as int),
        decreases moves@.len() - i,
    {
        if moves[i].1 >= moves[best].1 {
            best = i;
        }
        i += 1;
        proof {
            let t = moves@.take(i as int);
            assert forall|j: int| 0 <= j < t.len() implies #[trigger] t[j].1 <= t[best as int].1 by {
                if j < i - 1 {
                    assert(t[j] == moves@.take(i - 1)[j]);
                }
            }
        }
    }
    proof {
        assert(moves@.take(moves@.len() as int) =~= moves@);
    }
    Some(best)
}

/// The picker's progress.
#[derive(Debug, Clone, Copy, PartialEq, Eq, PartialOrd, Ord, Structural)]
pub enum Stage {
    GenMoves,
    YieldMoves,
    Finished,
}

/// The legal moves of `m`, each with its history score for the side to move.
pub open spec fn scored_legal_moves(board: crate::board::BoardModel, h: HistoryTable) -> Seq<ScoredMove> {
    legal_moves(board).map_values(|mv: Square| ScoredMove(mv, h[board.stm@][mv@] as i32))
}

/// Hands out the legal moves of a position, best history score first.
pub struct MovePicker {
    stage: Stage,
    moves: MoveBuffer,
}

impl MovePicker {
    /// The moves still to be handed out.
    pub closed spec fn remaining(self) -> Seq<ScoredMove> {
        scored_moves(self.moves)
    }

    /// The moves not yet handed out when the position's board is `board`
    /// and the history is `h`: before generation, all scored legal moves.
    pub open spec fn pending(self, board: crate::board::BoardModel, h: HistoryTable) -> Seq<ScoredMove> {
        if self.stage_spec() == Stage::GenMoves {
            scored_legal_moves(board, h)
        } else {
            self.remaining()
        }
    }

    /// The picker's stage.
    pub closed spec fn stage_spec(self) -> Stage {
        self.stage
    }

    /// A picker that has not yet generated its moves.
    pub fn new() -> (r: MovePicker)
        ensures
            r.stage_spec() == Stage::GenMoves,
            r.remaining() == Seq::<ScoredMove>::empty(),
    {
        MovePicker { stage: Stage::GenMoves, moves: buffer_new() }
    }

    /// The picker's stage.
    pub fn stage(&self) -> (r: Stage)
        ensures
            r == self.stage_spec(),
    {
        self.stage
    }

    /// The next move: on the first call the legal moves of `pos` are
    /// scored by `hist`; each call hands out the remaining move with the
    /// highest score (the last one among ties) and moves the last remaining
    /// move into its place; `None` once all are handed out.
    pub fn next(&mut self, pos: &mut Position, hist: &History) -> (r: Option<ScoredMove>)
        requires
            old(self).stage_spec() == Stage::GenMoves ==> old(self).remaining().len() == 0,
        ensures
            final(pos)@ == old(pos)@,
            old(self).stage_spec() == Stage::Finished ==> r is None && *final(self) == *old(self),
            old(self).stage_spec() != Stage::Finished && old(self).pending(old(pos)@.current, hist@).len() == 0 ==> r is None
                && final(self).stage_spec() == Stage::Finished && final(self).remaining() == old(self).pending(
                old(pos)@.current,
                hist@,
            ),
            old(self).stage_spec() != Stage::Finished && old(self).pending(old(pos)@.current, hist@).len() > 0 ==> exists|i: int|
                is_last_max(old(self).pending(old(pos)@.current, hist@), i) && r == Some(old(self).pending(old(pos)@.current, hist@)[i])
                    && final(self).remaining() == swap_removed(old(self).pending(old(pos)@.current, hist@), i)
                    && final(self).stage_spec() == Stage::YieldMoves,
    {
        let current = pos.board();
        proof {
            use_type_invariant(current);
            use_type_invariant(hist);
        }
        if self.stage == Stage::GenMoves {
            let board = pos.board();
            let list = board.gen_moves();
            let ghost want = scored_legal_moves(pos@.current, hist@);
            proof {
                crate::board::movegen::law_legal_moves(pos@.current, Square { file: crate::types::File::A, rank: crate::types::Rank::First });
            }
            let mut i: usize = 0;
            while i < list.len()
                invariant
                    list@ == legal_moves(pos@.current),
                    list@.len() <= 81,
                    i <= list@.len(),
                    want == scored_legal_moves(pos@.current, hist@),
                    table_bounded(hist@),
                    scored_moves(self.moves) == want.take(i as int),
                decreases list@.len() - i,
            {
                let mv = list.get(i);
                let score = hist.score(pos.board(), mv);
                buffer_push(&mut self.moves, ScoredMove(mv, score));
                proof {
                    assert(want.take(i as int + 1) =~= want.take(i as int).push(ScoredMove(mv, score)));
                }
                i += 1;
            }
            proof {
                assert(want.take(list@.len() as int) =~= want);
            }
            self.stage = Stage::YieldMoves;
        }
        if self.stage == Stage::YieldMoves {
            let ghost rem = scored_moves(self.moves);
            let slice = buffer_as_slice(&self.moves);
            match select_next(slice) {
                Some(index) => {
                    let r = swap_pop(&mut self.moves, index);
                    assert(is_last_max(rem, index as int) && r == Some(rem[index as int])
                        && self.remaining() == swap_removed(rem, index as int));
                    return r;
                },
                None => {},
            }
            self.stage = Stage::Finished;
        }
        None
    }
}

} // verus!
