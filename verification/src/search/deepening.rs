use vstd::prelude::*;
use crate::board::laws::{empties, lemma_empties_bound};
use crate::position::Position;
use crate::score::Score;
use crate::search::history::table_bounded;
use crate::board::movegen::legal_moves;
use crate::search::search::{
    search, NodeType, stack_ok, fail_soft, search_value, node_value, law_root_value_all_moves, law_full_window_exact,
    child_score,
};
use crate::search::thread::{SharedData, ThreadData};
use crate::types::Square;

verus! {

/// The progress of iterative deepening.
pub struct IdState {
    /// The depth, in plies, of the next iteration.
    pub depth: i32,
    /// The number of iterations completed.
    pub completed_depth: u8,
    /// The score of the last completed iteration (`Score::NONE` before one).
    pub score: Score,
    /// The first move of the last completed iteration's variation.
    pub best_move: Option<Square>,
}

impl IdState {
    /// Nothing searched yet; the first iteration searches one ply.
    pub fn new() -> (r: IdState)
        ensures
            r.depth == 1,
            r.completed_depth == 0,
            r.score == Score(Score::NONE),
            r.best_move is None,
    {
        IdState { depth: 1, completed_depth: 0, score: Score(Score::NONE), best_move: None }
    }
}

/// How an iteration of deepening ended.
#[derive(Debug, Copy, Clone, PartialEq, Eq, Structural)]
pub enum IdOutcome {
    /// The search was stopped during an iteration after the first; its
    /// result is thrown away and deepening ends.
    Stopped,
    /// The iteration counts; `report` says whether this thread reports it.
    Completed { report: bool },
}

/// Runs one iteration of iterative deepening: a full-window root search
/// at `st.depth` plies. Unless it was stopped (and was not the first), the
/// iteration is counted, the root variation, its first move and the score
/// are kept, and the main thread (number 0) reports it. When every legal
/// move may be searched and the game is open, the score kept is the
/// negamax value of the position at that depth. When some legal move is a
/// root move, the best move kept is such a move, and when the score is
/// inside the window, the best move scores it.
pub fn id_iteration(st: &mut IdState, pos: &mut Position, thread: &mut ThreadData, shared: &SharedData) -> (r:
    IdOutcome)
    requires
        stack_ok(old(thread).stack@),
        old(st).depth == old(st).completed_depth + 1,
        old(st).completed_depth < 255,
    ensures
        final(pos)@ == old(pos)@,
        table_bounded(final(thread).hist@),
        stack_ok(final(thread).stack@),
        final(thread).id == old(thread).id,
        final(thread).root_moves@ == old(thread).root_moves@,
        old(thread).stop ==> final(thread).stop,
        final(st).depth == final(st).completed_depth + 1,
        (r == IdOutcome::Stopped) <==> (old(st).depth > 1 && final(thread).stop),
        r == IdOutcome::Stopped ==> *final(st) == *old(st),
        r matches IdOutcome::Completed { report } ==> {
            &&& report == (old(thread).id == 0)
            &&& final(st).completed_depth == old(st).completed_depth + 1
            &&& final(thread).root_pv == final(thread).stack@[0].pv
            &&& final(st).best_move == final(thread).root_pv.moves@[0]
            &&& (!final(thread).stop ==> fail_soft(
                final(st).score.0 as int,
                search_value(
                    old(pos)@.current,
                    NodeType::Root,
                    old(st).depth * 1024,
                    0,
                    old(thread).root_moves@,
                ),
                -Score::INF as int,
                Score::INF as int,
            ))
            &&& ((exists|k: int|
                0 <= k < legal_moves(old(pos)@.current).len() && old(thread).root_moves@.contains(
                    #[trigger] legal_moves(old(pos)@.current)[k],
                )) ==> (final(st).best_move matches Some(x) && old(thread).root_moves@.contains(x)
                && legal_moves(old(pos)@.current).contains(x)))
            &&& (!final(thread).stop && -Score::INF < final(st).score.0 < Score::INF && (exists|k: int|
                0 <= k < legal_moves(old(pos)@.current).len() && old(thread).root_moves@.contains(
                    #[trigger] legal_moves(old(pos)@.current)[k],
                )) ==> (final(st).best_move matches Some(x) && child_score(
                old(pos)@.current,
                x,
                old(st).depth * 1024,
                0,
            ) == final(st).score.0))
            &&& (!final(thread).stop && old(thread).root_moves@ == legal_moves(old(pos)@.current)
                && old(pos)@.current.state() is None ==> final(st).score.0 == node_value(
                old(pos)@.current,
                old(st).depth * 1024,
                0,
            ))
        },
{
    let current = pos.board();
    proof {
        use_type_invariant(current);
    }
    thread.sel_depth = 0;
    proof {
        lemma_empties_bound(pos@.current, 81);
    }
    let ghost m = pos@.current;
    let ghost root_moves = thread.root_moves@;
    let new_score = search(pos, thread, shared, NodeType::Root, st.depth * 1024, 0, Score(-Score::INF), Score(Score::INF));
    proof {
        if !thread.stop && root_moves == legal_moves(m) && m.state() is None {
            law_root_value_all_moves(m, st.depth * 1024);
            law_full_window_exact(m, st.depth * 1024, 0, new_score.0 as int);
        }
    }
    thread.nodes.flush();
    if st.depth > 1 && thread.stop {
        return IdOutcome::Stopped;
    }
    st.completed_depth = st.completed_depth + 1;
    st.depth = st.depth + 1;
    thread.root_pv = thread.stack[0].pv;
    st.best_move = thread.root_pv.moves[0];
    st.score = new_score;
    IdOutcome::Completed { report: thread.id == 0 }
}

/// After a completed iteration, the main thread ends deepening when the
/// time manager says so (see `TimeManager::stop_id`), and then tells the
/// other threads to stop. Other threads go on until they are stopped.
pub fn id_should_finish(st: &IdState, thread: &ThreadData, shared: &SharedData) -> (r: bool)
    ensures
        r ==> thread.id == 0,
        thread.id == 0 && st.completed_depth == u8::MAX ==> r,
{
    if thread.id == 0 && shared.time_man.stop_id(st.completed_depth, thread.nodes.global()) {
        shared.time_man.set_stop(true);
        true
    } else {
        false
    }
}

} // verus!
