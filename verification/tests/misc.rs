use ristinolla::board::zobrist::{
    piece_key_of, prev_move_key_of, splitmix_nth, stm_key_of, SplitMix64, Zobrist, ZOBRIST_SEED,
};
use ristinolla::board::Board;
use ristinolla::position::Position;
use ristinolla::score::Score;
use ristinolla::types::{Piece, Square};
use ristinolla::util::batched_atomic::global_of;
use ristinolla::util::{low_u64, saturating_u64, AtomicInstant, BatchedAtomicCounter};
use std::sync::atomic::{AtomicU64, Ordering};
use std::sync::Arc;
use std::time::{Duration, Instant};

fn sq(name: &str) -> Square {
    let chars: Vec<char> = name.chars().collect();
    Square::from_chars(&chars).unwrap()
}

#[test]
fn splitmix_known_outputs() {
    let mut rng = SplitMix64::new(1234567);
    assert_eq!(rng.next(), 6457827717110365317);
    assert_eq!(rng.next(), 3203168211198807973);
    assert_eq!(rng.next(), 9817491932198370423);
    assert_eq!(splitmix_nth(1234567, 1), 6457827717110365317);
    assert_eq!(splitmix_nth(1234567, 3), 9817491932198370423);
}

#[test]
fn zobrist_table_is_the_generator_stream() {
    let table = Zobrist::new(ZOBRIST_SEED);
    assert_eq!(table.pieces[0][0], splitmix_nth(ZOBRIST_SEED, 1));
    assert_eq!(table.pieces[1][80], splitmix_nth(ZOBRIST_SEED, 162));
    assert_eq!(table.stm, splitmix_nth(ZOBRIST_SEED, 163));
    assert_eq!(table.prev_move[0], splitmix_nth(ZOBRIST_SEED, 164));
    assert_eq!(piece_key_of(Piece::X, sq("a1")), table.pieces[0][0]);
    assert_eq!(piece_key_of(Piece::O, sq("e5")), table.pieces[1][40]);
    assert_eq!(stm_key_of(), table.stm);
    assert_eq!(prev_move_key_of(sq("i9")), table.prev_move[80]);
}

#[test]
fn hash_of_one_move() {
    let mut board = Board::new();
    board.make_move(sq("e5"));
    assert_eq!(board.hash(), piece_key_of(Piece::X, sq("e5")) ^ prev_move_key_of(sq("e5")) ^ stm_key_of());
}

#[test]
fn unmake_restores_the_position() {
    let mut pos = Position::new(Board::new());
    pos.make_move(sq("e5"));
    let hash = pos.hash();
    pos.make_move(sq("d4"));
    assert_eq!(pos.prev_move(1), Some(sq("d4")));
    assert_eq!(pos.prev_move(2), Some(sq("e5")));
    assert_eq!(pos.prev_move(3), None);
    assert_eq!(pos.stm(), Piece::X);
    pos.unmake_move();
    assert_eq!(pos.hash(), hash);
    assert_eq!(pos.board().to_fen(), "9/9/9/9/4x4/9/9/9/9 o");
    pos.unmake_move();
    assert_eq!(pos.hash(), 0);
    assert!(pos.terminal_state().is_none());
    pos.set_board(Board::from_fen("9/9/9/9/9/9/9/9/xxxxxxxxx o 9 i1").unwrap());
    assert!(pos.terminal_state().is_some());
    assert_eq!(pos.prev_move(1), None);
}

#[test]
fn scores() {
    assert_eq!(Score::mated(0).0, -31000);
    assert_eq!(Score::mated(3).0, -30997);
    assert_eq!(Score(12).neg(), Score(-12));
}

#[test]
fn batched_counter() {
    let global = Arc::new(AtomicU64::new(0));
    let mut c = BatchedAtomicCounter::new(global.clone());
    for _ in 0..3 {
        c.inc();
    }
    assert_eq!(c.local(), 3);
    assert_eq!(c.global(), 3);
    assert_eq!(global.load(Ordering::Relaxed), 0);
    c.flush();
    assert_eq!(c.global(), 3);
    assert_eq!(global.load(Ordering::Relaxed), 3);
    for _ in 0..2048 {
        c.inc();
    }
    assert_eq!(c.global(), 2051);
    let d = c.clone();
    assert_eq!(d.local(), 0);
    assert_eq!(d.global(), 2051);
    c.reset();
    assert_eq!(c.local(), 0);
    assert_eq!(global.load(Ordering::Relaxed), 0);
}

#[test]
fn atomic_instant_keeps_instants() {
    let base = Instant::now();
    let a = AtomicInstant::new(base);
    let later = base + Duration::from_millis(1500);
    a.store(later, Ordering::Relaxed);
    assert_eq!(a.load(Ordering::Relaxed), later);
    a.store(base, Ordering::Relaxed);
    assert_eq!(a.load(Ordering::Relaxed), base);
}

#[test]
fn wide_integers() {
    assert_eq!(saturating_u64(5), 5);
    assert_eq!(saturating_u64(u128::MAX), u64::MAX);
    assert_eq!(low_u64((1u128 << 64) + 7), 7);
}

#[test]
fn global_total_with_buffer() {
    assert_eq!(global_of(10, 5), 15);
    assert_eq!(global_of(u64::MAX, 2), 1);
}
