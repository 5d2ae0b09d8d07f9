use ristinolla::board::Board;
use ristinolla::engine::{
    nodes_per_second, option_action, perft, perft_checked, split_perft, Abort, EngineOptions, OptionAction,
};
use ristinolla::search::thread::MAX_THREADS;
use ristinolla::text::IntErrorKind;
use ristinolla::types::Square;

fn sq(name: &str) -> Square {
    let chars: Vec<char> = name.chars().collect();
    Square::from_chars(&chars).unwrap()
}

#[test]
fn perft_counts_from_the_start() {
    let board = Board::new();
    assert_eq!(perft::<false>(&board, 0), 1);
    assert_eq!(perft::<false>(&board, 1), 81);
    assert_eq!(perft::<false>(&board, 2), 720);
    assert_eq!(perft::<true>(&board, 1), 81);
    assert_eq!(perft::<true>(&board, 2), 720);
}

#[test]
fn bulk_and_plain_perft_agree() {
    let board = Board::from_fen("9/9/9/9/4x4/9/9/9/9 o 1 e5").unwrap();
    for depth in 0..4 {
        assert_eq!(perft::<true>(&board, depth), perft::<false>(&board, depth), "depth {depth}");
    }
}

#[test]
fn checked_perft_matches_perft() {
    let board = Board::new();
    assert_eq!(perft_checked::<true>(&board, 3), Some(perft::<false>(&board, 3)));
    assert_eq!(perft_checked::<false>(&board, 2), Some(720));
}

#[test]
fn split_perft_sums_to_perft_one_deeper() {
    let board = Board::new();
    let (per_move, total) = split_perft(&board, 1, true).unwrap();
    assert_eq!(per_move.len(), 81);
    assert_eq!(total, perft::<true>(&board, 2));
    assert_eq!(per_move[0], (sq("a1"), 8));
    assert_eq!(per_move[1], (sq("b1"), 9));
    let (_, plain_total) = split_perft(&board, 1, false).unwrap();
    assert_eq!(plain_total, total);
}

#[test]
fn split_perft_of_finished_game_is_empty() {
    let board = Board::from_fen("9/9/9/9/9/9/9/9/xxxxxxxxx o 9 i1").unwrap();
    let (per_move, total) = split_perft(&board, 3, true).unwrap();
    assert!(per_move.is_empty());
    assert_eq!(total, 0);
}

#[test]
fn nodes_per_second_values() {
    assert_eq!(nodes_per_second(1000, 0), 0);
    assert_eq!(nodes_per_second(1000, 1_000_000_000), 1000);
    assert_eq!(nodes_per_second(3, 2_000_000_000), 1);
    assert_eq!(nodes_per_second(u64::MAX, 1), u64::MAX as u128 * 1_000_000_000);
}

#[test]
fn option_threads() {
    assert_eq!(option_action("Threads", "4", false), OptionAction::SetThreads(4));
    assert_eq!(option_action("Threads", "4", true), OptionAction::ThreadsWhileSearching);
    assert_eq!(option_action("Threads", "0", false), OptionAction::InvalidThreads(0));
    assert_eq!(
        option_action("Threads", "1025", false),
        OptionAction::InvalidThreads(MAX_THREADS + 1)
    );
    assert_eq!(option_action("Threads", "1024", false), OptionAction::SetThreads(1024));
    assert_eq!(
        option_action("Threads", "abc", false),
        OptionAction::InvalidInteger(IntErrorKind::InvalidDigit)
    );
    assert_eq!(
        option_action("Threads", "4294967296", false),
        OptionAction::InvalidInteger(IntErrorKind::PosOverflow)
    );
    assert_eq!(option_action("Threads", "", false), OptionAction::InvalidInteger(IntErrorKind::Empty));
}

#[test]
fn option_flags_and_overhead() {
    assert_eq!(option_action("Minimal", "true", false), OptionAction::SetMinimal(true));
    assert_eq!(option_action("Minimal", "True", false), OptionAction::InvalidBool);
    assert_eq!(option_action("SoftTarget", "false", true), OptionAction::SetSoftTarget(false));
    assert_eq!(option_action("MoveOverhead", "5000", false), OptionAction::SetMoveOverhead(5000));
    assert_eq!(option_action("MoveOverhead", "5001", false), OptionAction::InvalidMoveOverhead(5001));
    assert_eq!(
        option_action("MoveOverhead", "-1", false),
        OptionAction::InvalidInteger(IntErrorKind::InvalidDigit)
    );
    assert_eq!(option_action("Hash", "16", false), OptionAction::UnknownOption);
    assert_eq!(option_action("threads", "4", false), OptionAction::UnknownOption);
}

#[test]
fn options_default_and_apply() {
    let mut options = EngineOptions::default();
    assert!(!options.minimal);
    assert!(!options.soft_target);
    assert_eq!(options.move_overhead, 50);
    options.apply(OptionAction::SetMinimal(true));
    options.apply(OptionAction::SetMoveOverhead(10));
    options.apply(OptionAction::SetThreads(3));
    options.apply(OptionAction::SetSoftTarget(true));
    assert!(options.minimal);
    assert!(options.soft_target);
    assert_eq!(options.move_overhead, 10);
    assert_eq!(Abort::Yes, Abort::Yes);
    assert_ne!(Abort::Yes, Abort::No);
}
