use ristinolla::board::Board;
use ristinolla::position::Position;
use ristinolla::score::Score;
use ristinolla::search::deepening::{id_iteration, id_should_finish, IdOutcome, IdState};
use ristinolla::search::history::{gravity, gravity_with_decay, History, MainHistory};
use ristinolla::search::move_picker::{select_next, MovePicker, ScoredMove, Stage};
use ristinolla::search::search::{eval, search, stack_is_ok, NodeType, PrincipalVariation, SearchStack};
use ristinolla::search::thread::{SharedData, ThreadData};
use ristinolla::search::time::root_moves;
use ristinolla::types::{Piece, Square};
use std::sync::atomic::AtomicU64;
use std::sync::Arc;

fn sq(name: &str) -> Square {
    let chars: Vec<char> = name.chars().collect();
    Square::from_chars(&chars).unwrap()
}

const WIN_IN_ONE: &str = "9/9/9/9/9/2o6/9/9/xxxxxxxx1 x 10 c4";

fn thread_for(board: &Board) -> ThreadData {
    let mut thread = ThreadData::new(0, Arc::new(AtomicU64::new(0)));
    thread.root_moves = root_moves(&[], board);
    thread
}

#[test]
fn eval_counts_cell_weights_for_side_to_move() {
    assert_eq!(eval(&Board::new()).0, 0);
    let board = Board::from_fen("9/9/9/9/4x4/9/9/9/9 o 1 e5").unwrap();
    assert_eq!(eval(&board).0, -20);
    let board = Board::from_fen("9/9/9/9/4x4/9/9/9/o8 x 2 a1").unwrap();
    assert_eq!(eval(&board).0, 20 - 10);
}

#[test]
fn search_finds_the_winning_move() {
    let board = Board::from_fen(WIN_IN_ONE).unwrap();
    let shared = SharedData::new();
    let mut thread = thread_for(&board);
    let mut pos = Position::new(board);
    let mut st = IdState::new();
    let outcome = id_iteration(&mut st, &mut pos, &mut thread, &shared);
    assert_eq!(outcome, IdOutcome::Completed { report: true });
    assert_eq!(st.completed_depth, 1);
    assert_eq!(st.depth, 2);
    assert_eq!(st.best_move, Some(sq("i1")));
    assert_eq!(st.score, Score(Score::MATE - 1));
    assert_eq!(thread.root_pv.len, 1);
    assert_eq!(pos.board().hash(), board.hash());
    let outcome = id_iteration(&mut st, &mut pos, &mut thread, &shared);
    assert_eq!(outcome, IdOutcome::Completed { report: true });
    assert_eq!(st.best_move, Some(sq("i1")));
    assert_eq!(st.score, Score(Score::MATE - 1));
}

#[test]
fn other_threads_do_not_report_or_finish() {
    let board = Board::from_fen(WIN_IN_ONE).unwrap();
    let shared = SharedData::new();
    let mut thread = ThreadData::new(3, Arc::new(AtomicU64::new(0)));
    thread.root_moves = root_moves(&[], &board);
    let mut pos = Position::new(board);
    let mut st = IdState::new();
    assert_eq!(id_iteration(&mut st, &mut pos, &mut thread, &shared), IdOutcome::Completed { report: false });
    assert!(!id_should_finish(&st, &thread, &shared));
}

#[test]
fn stopped_iteration_after_the_first_is_discarded() {
    let board = Board::new();
    let shared = SharedData::new();
    let mut thread = thread_for(&board);
    let mut pos = Position::new(board);
    let mut st = IdState::new();
    assert!(matches!(id_iteration(&mut st, &mut pos, &mut thread, &shared), IdOutcome::Completed { .. }));
    thread.stop = true;
    let before = (st.depth, st.completed_depth, st.score, st.best_move);
    assert_eq!(id_iteration(&mut st, &mut pos, &mut thread, &shared), IdOutcome::Stopped);
    assert_eq!((st.depth, st.completed_depth, st.score, st.best_move), before);
}

#[test]
fn root_search_full_window_value() {
    let board = Board::from_fen(WIN_IN_ONE).unwrap();
    let shared = SharedData::new();
    let mut thread = thread_for(&board);
    let mut pos = Position::new(board);
    let score = search(&mut pos, &mut thread, &shared, NodeType::Root, 1024, 0, Score(-Score::INF), Score(Score::INF));
    assert_eq!(score.0, Score::MATE - 1);
    assert_eq!(thread.stack[0].pv.moves[0], Some(sq("i1")));
}

#[test]
fn node_types() {
    assert!(NodeType::Root.is_root() && NodeType::Root.is_pv());
    assert!(!NodeType::PV.is_root() && NodeType::PV.is_pv());
    assert!(!NodeType::NonPV.is_pv());
    assert_eq!(NodeType::Root.next(), NodeType::PV);
    assert_eq!(NodeType::PV.next(), NodeType::PV);
    assert_eq!(NodeType::NonPV.next(), NodeType::NonPV);
}

#[test]
fn principal_variation_update_and_display() {
    let mut child = PrincipalVariation::new();
    child.update(sq("e4"), &PrincipalVariation::new());
    let mut pv = PrincipalVariation::new();
    pv.update(sq("e5"), &child);
    assert_eq!(pv.len, 2);
    assert_eq!(pv.display(), "e5 e4 ");
    assert_eq!(PrincipalVariation::new().display(), "");
    let stack = SearchStack::new();
    assert_eq!(stack.pv.len, 0);
}

#[test]
fn gravity_updates() {
    let mut e: i16 = 0;
    gravity(&mut e, 256, 16384, 16384);
    assert_eq!(e, 256);
    gravity(&mut e, 256, 16384, 16384);
    assert_eq!(e, 508);
    gravity(&mut e, -100000, 16384, 16384);
    assert_eq!(e, 508 - 16384 - 508);
    let mut f: i16 = 100;
    gravity_with_decay(&mut f, 50, 30, 20, 10);
    assert_eq!(f, 100 + 20 - 100);
    let mut g: i16 = 0;
    gravity_with_decay(&mut g, -7, 3, 10, 2);
    assert_eq!(g, 3 - (-10));
}

#[test]
fn history_bonus_and_malus() {
    assert_eq!(MainHistory::bonus(0), 128);
    assert_eq!(MainHistory::bonus(1024), 256);
    assert_eq!(MainHistory::bonus(20 * 1024), 2048);
    assert_eq!(MainHistory::malus(2048), 384);
    assert_eq!(MainHistory::bonus(-1024), 0);
    assert_eq!(MainHistory::bonus(-1023), 1);
}

#[test]
fn history_update_rewards_best_and_punishes_others() {
    let board = Board::new();
    let mut hist = History::new();
    hist.update(&board, 1024, sq("e5"), &[sq("a1"), sq("b1")]);
    assert_eq!(hist.score(&board, sq("e5")), 256);
    assert_eq!(hist.score(&board, sq("a1")), -256);
    assert_eq!(hist.score(&board, sq("b1")), -256);
    assert_eq!(hist.score(&board, sq("c1")), 0);
    let mut other = board;
    other.make_move(sq("i9"));
    assert_eq!(hist.score(&other, sq("e5")), 0);
}

#[test]
fn select_next_picks_the_last_best() {
    assert_eq!(select_next(&[]), None);
    let moves = [ScoredMove(sq("a1"), 5), ScoredMove(sq("b1"), 9), ScoredMove(sq("c1"), 9), ScoredMove(sq("d1"), 1)];
    assert_eq!(select_next(&moves), Some(2));
}

#[test]
fn move_picker_yields_every_move_best_first() {
    let board = Board::from_fen("9/9/9/9/4x4/9/9/9/9 o 1 e5").unwrap();
    let mut hist = History::new();
    hist.update(&board, 1024, sq("f6"), &[sq("d4")]);
    let mut pos = Position::new(board);
    let mut picker = MovePicker::new();
    assert_eq!(picker.stage(), Stage::GenMoves);
    let mut seen = Vec::new();
    while let Some(ScoredMove(mv, score)) = picker.next(&mut pos, &hist) {
        seen.push((mv, score));
    }
    assert_eq!(picker.stage(), Stage::Finished);
    assert_eq!(seen.len(), 8);
    let mut squares: Vec<usize> = seen.iter().map(|(m, _)| m.idx()).collect();
    squares.sort();
    let legal = board.gen_moves();
    let expected: Vec<usize> = (0..legal.len()).map(|i| legal.get(i).idx()).collect();
    assert_eq!(squares, expected);
    assert_eq!(seen[0], (sq("f6"), 256));
    assert_eq!(seen[7], (sq("d4"), -256));
    assert!(picker.next(&mut pos, &hist).is_none());
}

#[test]
fn thread_reset_keeps_history() {
    let board = Board::new();
    let mut thread = ThreadData::new(2, Arc::new(AtomicU64::new(0)));
    thread.hist.update(&board, 1024, sq("e5"), &[]);
    thread.stop = true;
    thread.sel_depth = 7;
    thread.reset();
    assert_eq!(thread.id, 2);
    assert!(!thread.stop);
    assert_eq!(thread.sel_depth, 0);
    assert_eq!(thread.hist.score(&board, sq("e5")), 256);
    assert_eq!(thread.stack.len(), 82);
    assert_eq!(Piece::X, board.stm());
}

#[test]
fn stack_soundness_check() {
    let thread = ThreadData::new(0, Arc::new(AtomicU64::new(0)));
    assert!(stack_is_ok(&thread.stack));
    let mut short = thread.stack.clone();
    short.pop();
    assert!(!stack_is_ok(&short));
    let mut long_pv = thread.stack.clone();
    long_pv[81].pv.len = 1;
    assert!(!stack_is_ok(&long_pv));
    long_pv[81].pv.len = 0;
    long_pv[80].pv.len = 1;
    assert!(stack_is_ok(&long_pv));
}

#[test]
fn wide_window_fails_high() {
    let board = Board::from_fen(WIN_IN_ONE).unwrap();
    let shared = SharedData::new();
    let mut thread = thread_for(&board);
    let mut pos = Position::new(board);
    let score = search(&mut pos, &mut thread, &shared, NodeType::Root, 1024, 0, Score(-100000), Score(-50000));
    assert!(score.0 >= -50000);
    let mut thread = thread_for(&board);
    let score = search(&mut pos, &mut thread, &shared, NodeType::Root, 1024, 0, Score(i32::MIN + 1), Score(i32::MAX));
    assert_eq!(score.0, Score::MATE - 1);
}

#[test]
fn leaves_return_their_value_and_count_a_node() {
    let board = Board::from_fen("9/9/9/9/9/9/9/9/xxxxxxxxx o 9 i1").unwrap();
    let shared = SharedData::new();
    let mut thread = thread_for(&board);
    let mut pos = Position::new(board);
    let score = search(&mut pos, &mut thread, &shared, NodeType::PV, 4096, 3, Score(-Score::INF), Score(Score::INF));
    assert_eq!(score, Score::mated(3));
    assert_eq!(thread.nodes.local(), 1);
    assert_eq!(thread.sel_depth, 3);
    let quiet = Board::from_fen("9/9/9/9/4x4/9/9/9/9 o 1 e5").unwrap();
    let mut pos = Position::new(quiet);
    let score = search(&mut pos, &mut thread, &shared, NodeType::NonPV, 0, 1, Score(-Score::INF), Score(Score::INF));
    assert_eq!(score, eval(&quiet));
    assert_eq!(thread.nodes.local(), 2);
    assert_eq!(thread.sel_depth, 3);
}

#[test]
fn stopped_node_returns_zero_and_counts_nothing() {
    let board = Board::from_fen(WIN_IN_ONE).unwrap();
    let shared = SharedData::new();
    let mut thread = thread_for(&board);
    thread.stop = true;
    let mut pos = Position::new(board);
    let score = search(&mut pos, &mut thread, &shared, NodeType::PV, 4096, 1, Score(-Score::INF), Score(Score::INF));
    assert_eq!(score, Score(0));
    assert_eq!(thread.nodes.local(), 0);
}

#[test]
fn deep_ply_shallow_search_records_its_best_move() {
    let board = Board::new();
    let shared = SharedData::new();
    let mut thread = thread_for(&board);
    let mut pos = Position::new(board);
    let score = search(&mut pos, &mut thread, &shared, NodeType::PV, 1024, 50, Score(-Score::INF), Score(Score::INF));
    assert_eq!(score.0, 20);
    assert_eq!(thread.stack[50].pv.len, 1);
    let best = thread.stack[50].pv.moves[0].unwrap();
    let mut after = board;
    after.make_move(best);
    assert_eq!(-eval(&after).0, score.0);
    assert_eq!(pos.board().hash(), board.hash());
}

#[test]
fn leaves_take_any_window() {
    let quiet = Board::from_fen("9/9/9/9/4x4/9/9/9/9 o 1 e5").unwrap();
    let shared = SharedData::new();
    let mut thread = thread_for(&quiet);
    let mut pos = Position::new(quiet);
    let score = search(&mut pos, &mut thread, &shared, NodeType::NonPV, 0, 1, Score(100), Score(-100));
    assert_eq!(score, eval(&quiet));
    assert_eq!(thread.hist.score(&quiet, sq("a1")), 0);
}

#[test]
fn root_variation_starts_with_the_move_that_scores() {
    let board = Board::from_fen(WIN_IN_ONE).unwrap();
    let shared = SharedData::new();
    let mut thread = thread_for(&board);
    let mut pos = Position::new(board);
    let score = search(&mut pos, &mut thread, &shared, NodeType::Root, 1024, 0, Score(-Score::INF), Score(Score::INF));
    assert_eq!(score.0, Score::MATE - 1);
    assert_eq!(thread.stack[0].pv.moves[0], Some(sq("i1")));
}

#[test]
fn root_cutoff_rewards_the_cutoff_move() {
    let board = Board::new();
    let shared = SharedData::new();
    let mut thread = thread_for(&board);
    let mut pos = Position::new(board);
    let score = search(&mut pos, &mut thread, &shared, NodeType::Root, 1024, 0, Score(-100000), Score(-50000));
    assert!(score.0 >= -50000);
    let cut = thread.stack[0].pv.moves[0].unwrap();
    assert_eq!(thread.hist.score(&board, cut), 256);
}
