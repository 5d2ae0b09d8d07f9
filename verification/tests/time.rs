use ristinolla::board::{Board, MoveList};
use ristinolla::search::thread::ThreadData;
use ristinolla::search::time::{
    capped_sum, clock_for, hard_node_limit, inc_share, iteration_stop, moves_to_go_soft, movetime_budget,
    root_moves, search_stop, summarize_limits, time_budget, SearchInfo, SearchLimit, TimeManager,
    DEFAULT_OVERHEAD,
};
use std::sync::atomic::AtomicU64;
use std::sync::Arc;
use ristinolla::types::{Piece, Square};

fn sq(name: &str) -> Square {
    let chars: Vec<char> = name.chars().collect();
    Square::from_chars(&chars).unwrap()
}

#[test]
fn no_limits_means_infinite() {
    let s = summarize_limits(&[]);
    assert!(s.infinite);
    assert!(!s.check_time);
    assert_eq!(s.x_time, u64::MAX);
    assert_eq!(s.nodes, u64::MAX);
    assert_eq!(s.depth, 255);
    assert_eq!(s.move_time, None);
}

#[test]
fn limits_are_summarized_in_order() {
    let limits = [
        SearchLimit::XTime(1000),
        SearchLimit::XTime(2000),
        SearchLimit::OInc(5),
        SearchLimit::Depth(9),
        SearchLimit::Depth(12),
        SearchLimit::Nodes(500),
        SearchLimit::MovesToGo(30),
    ];
    let s = summarize_limits(&limits);
    assert_eq!(s.x_time, 2000);
    assert_eq!(s.o_time, u64::MAX);
    assert_eq!(s.o_inc, 5);
    assert_eq!(s.depth, 9);
    assert_eq!(s.nodes, 500);
    assert_eq!(s.moves_to_go, Some(30));
    assert!(!s.infinite);
    assert!(s.check_time);
    let s = summarize_limits(&[SearchLimit::XInc(4), SearchLimit::SearchMoves(MoveList::new())]);
    assert!(s.infinite);
    assert!(!s.check_time);
}

#[test]
fn clock_of_the_side_to_move() {
    let s = summarize_limits(&[SearchLimit::XTime(1000), SearchLimit::OTime(30), SearchLimit::OInc(7)]);
    assert_eq!(clock_for(&s, Piece::X, DEFAULT_OVERHEAD), (950, 0));
    assert_eq!(clock_for(&s, Piece::O, DEFAULT_OVERHEAD), (0, 7));
}

#[test]
fn node_and_move_time_budgets() {
    assert_eq!(hard_node_limit(5, true), 10000);
    assert_eq!(hard_node_limit(5, false), 5);
    assert_eq!(hard_node_limit(u64::MAX, true), u64::MAX);
    assert_eq!(movetime_budget(1000, false), (1000, 1000, 1000));
    assert_eq!(movetime_budget(1000, true), (1000, 1000, 3000));
    assert_eq!(movetime_budget(5000, true), (5000, 5000, 10000));
}

#[test]
fn time_control_helpers() {
    assert_eq!(moves_to_go_soft(10000, 10, 100, 500), 500);
    assert_eq!(moves_to_go_soft(10000, 10, 100, 5000), 1100);
    assert_eq!(inc_share(4096, 2048), 2048);
    assert_eq!(inc_share(100, 4027), 98);
    assert_eq!(capped_sum(3, 4, 5), 5);
    assert_eq!(capped_sum(3, 1, 5), 4);
}

#[test]
fn root_moves_follow_searchmoves() {
    let board = Board::new();
    assert_eq!(root_moves(&[], &board).len(), 81);
    let mut only = MoveList::new();
    only.push(sq("e5"));
    let mut later = MoveList::new();
    later.push(sq("a1"));
    let limits = [SearchLimit::Depth(3), SearchLimit::SearchMoves(only), SearchLimit::SearchMoves(later)];
    let r = root_moves(&limits, &board);
    assert_eq!(r.len(), 1);
    assert_eq!(r.get(0), sq("e5"));
}

#[test]
fn search_info_reporting() {
    assert!(SearchInfo::Ugi { minimal: false }.reports(false));
    assert!(!SearchInfo::Ugi { minimal: true }.reports(false));
    assert!(SearchInfo::Ugi { minimal: true }.reports(true));
    assert!(!SearchInfo::Silent.reports(true));
    assert!(SearchInfo::Ugi { minimal: true }.reports_best_move());
    assert!(!SearchInfo::Silent.reports_best_move());
}

#[test]
fn time_manager_stop_flag() {
    let tm = TimeManager::new();
    assert!(!tm.should_stop());
    assert!(tm.infinite());
    tm.set_stop(true);
    assert!(tm.should_stop());
    let s = summarize_limits(&[SearchLimit::Depth(3)]);
    tm.start_search(&s, false, 0, 0, 0);
    assert!(!tm.should_stop());
    assert!(!tm.infinite());
    assert!(!tm.stop_id(2, 0));
    assert!(tm.stop_id(3, 0));
}

#[test]
fn iteration_stop_rule() {
    assert!(iteration_stop(true, 0, 255, 0, u64::MAX, false, 0, 0));
    assert!(iteration_stop(false, 3, 3, 0, u64::MAX, false, 0, 0));
    assert!(!iteration_stop(false, 2, 3, 999, 1000, false, 0, 0));
    assert!(iteration_stop(false, 2, 3, 1000, 1000, false, 0, 0));
    assert!(!iteration_stop(false, 2, 3, 0, 1000, true, 50, 50));
    assert!(iteration_stop(false, 2, 3, 0, 1000, true, 51, 50));
    assert!(!iteration_stop(false, 2, 3, 0, 1000, false, 51, 50));
}

#[test]
fn search_stop_rule() {
    assert!(search_stop(true, 0, u64::MAX, 1, 3, false, 0, 0));
    assert!(search_stop(false, 10, 10, 1, 3, false, 0, 0));
    assert!(!search_stop(false, 9, 10, 1, 3, true, 100, 0));
    assert!(search_stop(false, 9, 10, 2048, 0, true, 100, 50));
    assert!(!search_stop(false, 9, 10, 2047, 0, true, 100, 50));
    assert!(!search_stop(false, 9, 10, 2048, 1, true, 100, 50));
    assert!(!search_stop(false, 9, 10, 2048, 0, false, 100, 50));
}

#[test]
fn time_budgets() {
    let s = summarize_limits(&[SearchLimit::MoveTime(1000)]);
    assert_eq!(time_budget(&s, Piece::X, 50, true, 0, 0), Some((1000, 1000, 3000)));
    let s = summarize_limits(&[SearchLimit::MoveTime(u64::MAX)]);
    assert_eq!(time_budget(&s, Piece::X, 50, true, 0, 0), None);
    assert_eq!(time_budget(&s, Piece::X, 50, false, 0, 0), Some((u64::MAX, u64::MAX, u64::MAX)));
    let s = summarize_limits(&[SearchLimit::XTime(10050), SearchLimit::XInc(100), SearchLimit::MovesToGo(10)]);
    assert_eq!(time_budget(&s, Piece::X, 50, false, 400, 0), Some((500, 500, 500)));
    assert_eq!(time_budget(&s, Piece::X, 50, false, 5000, 0), Some((1100, 1100, 5100)));
    let s = summarize_limits(&[SearchLimit::XTime(10050), SearchLimit::MovesToGo(0)]);
    assert_eq!(time_budget(&s, Piece::X, 50, false, 400, 0), None);
    let s = summarize_limits(&[SearchLimit::XTime(10050), SearchLimit::XInc(4096)]);
    assert_eq!(time_budget(&s, Piece::X, 50, false, 1000, 300), Some((300 + 4027, 300 + 4027, 1000 + 3877)));
    assert_eq!(time_budget(&s, Piece::X, 50, false, 9000, 300), Some((4327, 4327, 10000)));
}

#[test]
fn manager_after_depth_and_node_limits() {
    let tm = TimeManager::new();
    tm.set_stop(true);
    let s = summarize_limits(&[SearchLimit::Depth(3), SearchLimit::Depth(5), SearchLimit::Nodes(1000)]);
    tm.start_search(&s, false, 0, 0, 0);
    assert!(!tm.should_stop());
    assert!(!tm.infinite());
    assert!(tm.stop_id(3, 0));
    assert!(!tm.stop_id(2, 999));
    assert!(tm.stop_id(2, 1000));
    assert!(tm.stop_id(255, 0));
    let thread = ThreadData::new(1, Arc::new(AtomicU64::new(0)));
    assert!(!tm.stop_search(&thread));
}
