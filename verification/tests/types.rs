use ristinolla::types::{Color, File, Move, Piece, Rank, Square};

fn sq(name: &str) -> Square {
    let chars: Vec<char> = name.chars().collect();
    Square::from_chars(&chars).unwrap()
}

#[test]
fn square_names_round_trip() {
    for i in 0..81 {
        let s = Square::index(i);
        let name = s.name();
        assert_eq!(sq(&name), s);
        assert_eq!(s.idx(), i);
    }
    assert_eq!(sq("a1").idx(), 0);
    assert_eq!(sq("i1").idx(), 8);
    assert_eq!(sq("a2").idx(), 9);
    assert_eq!(sq("i9").idx(), 80);
    assert_eq!(Square::index(40).name(), "e5");
}

#[test]
fn square_names_rejected() {
    for bad in ["", "a", "j1", "a0", "a10", "A1", "1a", " a1"] {
        let chars: Vec<char> = bad.chars().collect();
        assert!(Square::from_chars(&chars).is_none(), "{bad:?}");
    }
}

#[test]
fn square_board_and_cell() {
    assert_eq!(sq("a1").indices(), (0, 0));
    assert_eq!(sq("e5").indices(), (4, 4));
    assert_eq!(sq("i9").indices(), (8, 8));
    assert_eq!(sq("d1").indices(), (1, 0));
    assert_eq!(sq("a4").indices(), (3, 0));
    assert_eq!(sq("c3").indices(), (0, 8));
    for i in 0..81 {
        let s = Square::index(i);
        let (b, c) = s.indices();
        assert_eq!(Square::from_indices(b, c), s);
    }
}

#[test]
fn square_geometry() {
    let s = sq("b2");
    assert_eq!(s.file(), File::index(1));
    assert_eq!(s.rank(), Rank::index(1));
    assert_eq!(s.flip_file(), sq("h2"));
    assert_eq!(s.flip_rank(), sq("b8"));
    assert_eq!(s.offset(1, 2), sq("c4"));
    assert_eq!(s.try_offset(-2, 0), None);
    assert_eq!(s.try_offset(-1, -1), Some(sq("a1")));
    assert_eq!(Square::try_index(81), None);
    assert_eq!(Square::new(File::index(4), Rank::index(4)), sq("e5"));
    assert_eq!(s.bitboard().0, 1u128 << 10);
}

#[test]
fn files_and_ranks() {
    assert_eq!(File::index(0).flip(), File::index(8));
    assert_eq!(Rank::index(2).flip(), Rank::index(6));
    assert_eq!(File::try_index(9), None);
    assert_eq!(File::index(3).try_offset(5), Some(File::index(8)));
    assert_eq!(File::index(3).try_offset(6), None);
    assert_eq!(Rank::index(3).try_offset(-4), None);
    assert_eq!(Rank::index(3).offset(-3), Rank::index(0));
}

#[test]
fn pieces_and_colors() {
    assert_eq!(Piece::X.not(), Piece::O);
    assert_eq!(Piece::O.not(), Piece::X);
    assert_eq!(Piece::from_char('x'), Some(Piece::X));
    assert_eq!(Piece::from_char('O'), Some(Piece::O));
    assert_eq!(Piece::from_char('y'), None);
    assert_eq!(Piece::X.to_char(), 'x');
    assert_eq!(Piece::O.idx(), 1);
    assert_eq!(Color::White.not(), Color::Black);
}

#[test]
fn moves_keep_their_square() {
    let m = Move::new(sq("g7"));
    assert_eq!(m.dest(), sq("g7"));
}
