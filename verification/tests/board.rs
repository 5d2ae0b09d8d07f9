use ristinolla::board::{Board, MoveList, TerminalState, TicTacToe};
use ristinolla::types::{Piece, Square};

fn sq(name: &str) -> Square {
    let chars: Vec<char> = name.chars().collect();
    Square::from_chars(&chars).unwrap()
}

fn moves_of(list: &MoveList) -> Vec<Square> {
    (0..list.len()).map(|i| list.get(i)).collect()
}

#[test]
fn start_board_has_every_square_legal() {
    let board = Board::new();
    assert_eq!(board.gen_moves().len(), 81);
    assert_eq!(board.stm(), Piece::X);
    assert_eq!(board.hash(), 0);
    assert_eq!(board.ply(), 0);
    assert!(board.prev_move().is_none());
    assert!(board.terminal_state().is_none());
}

#[test]
fn default_board_is_the_start_board() {
    let board = Board::default();
    assert_eq!(board.to_fen(), "9/9/9/9/9/9/9/9/9 x");
}

#[test]
fn move_sends_opponent_to_matching_small_board() {
    let mut board = Board::new();
    board.make_move(sq("e5"));
    assert_eq!(board.piece_on(sq("e5")), Some(Piece::X));
    assert_eq!(board.stm(), Piece::O);
    assert_eq!(board.prev_move(), Some(sq("e5")));
    let moves = moves_of(&board.gen_moves());
    assert_eq!(moves.len(), 8);
    for name in ["d4", "f4", "d5", "f5", "d6", "e6", "f6", "e4"] {
        assert!(moves.contains(&sq(name)), "{name}");
    }
    assert!(!board.is_legal(sq("a1")));
    assert!(!board.is_legal(sq("e5")));
}

#[test]
fn moves_come_in_square_order() {
    let mut board = Board::new();
    board.make_move(sq("a1"));
    let moves = moves_of(&board.gen_moves());
    let idx: Vec<usize> = moves.iter().map(|m| m.idx()).collect();
    let mut sorted = idx.clone();
    sorted.sort();
    assert_eq!(idx, sorted);
    assert_eq!(moves.len(), 8);
}

#[test]
fn from_fen_reads_marks_and_fields() {
    let board = Board::from_fen("9/9/9/9/9/9/9/9/xxx6 o 3 c1").unwrap();
    assert_eq!(board.piece_on(sq("a1")), Some(Piece::X));
    assert_eq!(board.piece_on(sq("b1")), Some(Piece::X));
    assert_eq!(board.piece_on(sq("d1")), None);
    assert_eq!(board.stm(), Piece::O);
    assert_eq!(board.ply(), 3);
    assert_eq!(board.prev_move(), Some(sq("c1")));
    assert_eq!(board.small_board(0).terminal_state(), Some(TerminalState::Victory(Piece::X)));
    assert!(board.large_board().has(Piece::X, 0));
    assert_eq!(board.gen_moves().len(), 9);
}

#[test]
fn sent_to_finished_board_plays_anywhere_open() {
    let board = Board::from_fen("9/9/9/9/9/9/9/9/xxx6 o 3 a1").unwrap();
    assert_eq!(board.gen_moves().len(), 72);
}

#[test]
fn from_fen_rejects_bad_strings() {
    assert!(Board::from_fen("").is_none());
    assert!(Board::from_fen("9/9/9/9/9/9/9/9/9 x 0").is_none());
    assert!(Board::from_fen("9/9/9/9/9/9/9/9/9 x 0 - extra").is_none());
    assert!(Board::from_fen("9/9/9/9/9/9/9/9/9/ x 0 -").is_none());
    assert!(Board::from_fen("9/9/9/9/9/9/9/9/9/9 x 0 -").is_none());
    assert!(Board::from_fen("8/9/9/9/9/9/9/9/9 x 0 -").is_none());
    assert!(Board::from_fen("9/9/9/9/9/9/9/9/9 z 0 -").is_none());
    assert!(Board::from_fen("9/9/9/9/9/9/9/9/9 xo 0 -").is_none());
    assert!(Board::from_fen("9/9/9/9/9/9/9/9/9 x 256 -").is_none());
    assert!(Board::from_fen("9/9/9/9/9/9/9/9/q8 x 0 -").is_none());
}

#[test]
fn from_fen_fills_missing_top_ranks_with_empty_squares() {
    let board = Board::from_fen("x8 x 0 -").unwrap();
    assert_eq!(board.piece_on(sq("a1")), Some(Piece::X));
    assert_eq!(board.to_fen(), "9/9/9/9/9/9/9/9/x8 x");
}

#[test]
fn from_fen_accepts_case_and_padding() {
    let board = Board::from_fen("  9/9/9/9/9/9/9/9/X8 O 255 zz  ").unwrap();
    assert_eq!(board.piece_on(sq("a1")), Some(Piece::X));
    assert_eq!(board.stm(), Piece::O);
    assert_eq!(board.ply(), 255);
    assert!(board.prev_move().is_none());
    let trimmed = Board::from_fen("\u{a0}9/9/9/9/9/9/9/9/9 x 0 -\u{3000}");
    assert!(trimmed.is_some());
}

#[test]
fn to_fen_writes_marks_and_side() {
    let board = Board::from_fen("9/9/9/9/9/2o6/9/9/xx7 x 4 c4").unwrap();
    assert_eq!(board.to_fen(), "9/9/9/9/9/2o6/9/9/xx7 x");
}

#[test]
fn incremental_hash_matches_hash_from_scratch() {
    let mut board = Board::new();
    for name in ["e5", "e4", "d2", "c6", "h8"] {
        board.make_move(sq(name));
    }
    let fen = format!("{} 0 h8", board.to_fen());
    let reread = Board::from_fen(&fen).unwrap();
    assert_eq!(reread.hash(), board.hash());
    assert_ne!(board.hash(), 0);
}

#[test]
fn large_board_win_ends_the_game() {
    let board = Board::from_fen("9/9/9/9/9/9/9/9/xxxxxxxxx o 9 i1").unwrap();
    assert_eq!(board.terminal_state(), Some(TerminalState::Victory(Piece::X)));
    assert!(board.gen_moves().is_empty());
}

#[test]
fn winning_a_small_board_marks_the_large_board() {
    let mut board = Board::from_fen("9/9/9/9/9/2o6/9/9/xx7 x 4 c4").unwrap();
    assert!(!board.large_board().has(Piece::X, 0));
    board.make_move(sq("c1"));
    assert!(board.large_board().has(Piece::X, 0));
    assert_eq!(board.small_board(0).terminal_state(), Some(TerminalState::Victory(Piece::X)));
}

#[test]
fn rank_pieces_reads_a_rank() {
    let board = Board::from_fen("9/9/9/9/9/2o6/9/9/xx7 x 4 c4").unwrap();
    let rank4 = board.rank_pieces(3);
    assert_eq!(rank4.len(), 9);
    assert_eq!(rank4[2], Some(Piece::O));
    assert_eq!(rank4[0], None);
    let rank1 = board.rank_pieces(0);
    assert_eq!(rank1[0], Some(Piece::X));
    assert_eq!(rank1[1], Some(Piece::X));
}

#[test]
fn move_list_basics() {
    let mut list = MoveList::new();
    assert!(list.is_empty());
    list.push(sq("a1"));
    list.push(sq("i9"));
    assert_eq!(list.len(), 2);
    assert_eq!(list.get(1), sq("i9"));
    assert!(list.contains(sq("a1")));
    assert!(!list.contains(sq("e5")));
    list.clear();
    assert!(list.is_empty());
}

fn empties(board: &Board) -> usize {
    (0..9).map(|r| board.rank_pieces(r).iter().filter(|p| p.is_none()).count()).sum()
}

#[test]
fn each_move_fills_one_square() {
    let mut board = Board::new();
    assert_eq!(empties(&board), 81);
    for (i, name) in ["e5", "e4", "d2"].iter().enumerate() {
        board.make_move(sq(name));
        assert_eq!(empties(&board), 80 - i);
    }
}

#[test]
fn same_string_same_board() {
    let a = Board::from_fen("9/9/9/9/9/2o6/9/9/xx7 x 4 c4").unwrap();
    let b = Board::from_fen("9/9/9/9/9/2o6/9/9/xx7   X 4 c4").unwrap();
    assert_eq!(a.to_fen(), b.to_fen());
    assert_eq!(a.hash(), b.hash());
    assert_eq!(a.ply(), b.ply());
    assert_eq!(a.prev_move(), b.prev_move());
}

#[test]
fn small_board_draw_and_stray_marks() {
    let mut t = TicTacToe::new();
    for c in [0, 2, 3, 7, 8] {
        t.set(Piece::X, c);
    }
    for c in [1, 4, 5, 6] {
        t.set(Piece::O, c);
    }
    assert_eq!(t.terminal_state(), Some(TerminalState::Draw));
    t.set(Piece::X, 9);
    assert_eq!(t.terminal_state(), None);
    let mut w = TicTacToe::new();
    for c in [2, 4, 6, 12] {
        w.set(Piece::O, c);
    }
    assert_eq!(w.terminal_state(), Some(TerminalState::Victory(Piece::O)));
}

#[test]
fn fen_round_trip_keeps_marks_and_side() {
    let mut board = Board::new();
    for name in ["e5", "e4", "d2", "c6", "h8", "g5"] {
        board.make_move(sq(name));
    }
    let fen = format!("{} 0 -", board.to_fen());
    let reread = Board::from_fen(&fen).unwrap();
    for i in 0..81 {
        let s = Square::index(i);
        assert_eq!(reread.piece_on(s), board.piece_on(s));
    }
    assert_eq!(reread.stm(), board.stm());
    assert_eq!(reread.to_fen(), board.to_fen());
}
