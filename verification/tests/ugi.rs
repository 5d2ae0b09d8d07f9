use ristinolla::board::Board;
use ristinolla::search::time::SearchLimit;
use ristinolla::text::IntErrorKind;
use ristinolla::types::Square;
use ristinolla::ugi::{UgiCommand, UgiParseError};

fn sq(name: &str) -> Square {
    let chars: Vec<char> = name.chars().collect();
    Square::from_chars(&chars).unwrap()
}

fn parse(input: &str) -> Result<UgiCommand, UgiParseError> {
    UgiCommand::parse(input, &Board::new())
}

#[test]
fn simple_commands() {
    assert!(matches!(parse("ugi"), Ok(UgiCommand::Ugi)));
    assert!(matches!(parse("uginewgame"), Ok(UgiCommand::NewGame)));
    assert!(matches!(parse("  isready  "), Ok(UgiCommand::IsReady)));
    assert!(matches!(parse("display"), Ok(UgiCommand::Display)));
    assert!(matches!(parse("d"), Ok(UgiCommand::Display)));
    assert!(matches!(parse("wait"), Ok(UgiCommand::Wait)));
    assert!(matches!(parse("stop extra tokens"), Ok(UgiCommand::Stop)));
    assert!(matches!(parse("quit"), Ok(UgiCommand::Quit)));
    assert!(matches!(parse("q"), Ok(UgiCommand::Quit)));
}

#[test]
fn missing_and_unknown_commands() {
    assert!(matches!(parse(""), Err(UgiParseError::MissingCommand)));
    assert!(matches!(parse(" \t\n"), Err(UgiParseError::MissingCommand)));
    match parse("hello world") {
        Err(UgiParseError::UnknownCommand(c)) => assert_eq!(c, "hello"),
        _ => panic!("expected an unknown command"),
    }
    assert!(matches!(parse("UGI"), Err(UgiParseError::UnknownCommand(_))));
}

#[test]
fn position_startpos_with_moves() {
    match parse("position startpos moves e5 d4") {
        Ok(UgiCommand::Position { board, moves }) => {
            assert_eq!(board.to_fen(), "9/9/9/9/9/9/9/9/9 x");
            assert_eq!(moves, vec![sq("e5"), sq("d4")]);
        },
        _ => panic!("expected a position"),
    }
    match parse("pos startpos") {
        Ok(UgiCommand::Position { moves, .. }) => assert!(moves.is_empty()),
        _ => panic!("expected a position"),
    }
    match parse("position startpos moves") {
        Ok(UgiCommand::Position { moves, .. }) => assert!(moves.is_empty()),
        _ => panic!("expected a position"),
    }
}

#[test]
fn position_fen() {
    match parse("position fen 9/9/9/9/9/9/9/9/xxx6 o 3 c1 moves g1") {
        Ok(UgiCommand::Position { board, moves }) => {
            assert_eq!(board.ply(), 3);
            assert_eq!(board.prev_move(), Some(sq("c1")));
            assert_eq!(moves, vec![sq("g1")]);
        },
        _ => panic!("expected a position"),
    }
    match parse("position fen 9/9/9/9/9/9/9/9/9/9 x 0 -") {
        Err(UgiParseError::InvalidFen(f)) => assert_eq!(f, "9/9/9/9/9/9/9/9/9/9 x 0 -"),
        _ => panic!("expected an invalid position string"),
    }
    match parse("position fen 9/9/9/9/9/9/9/9/9 x") {
        Err(UgiParseError::InvalidFen(f)) => assert_eq!(f, "9/9/9/9/9/9/9/9/9 x"),
        _ => panic!("expected an invalid position string"),
    }
}

#[test]
fn position_errors() {
    assert!(matches!(parse("position"), Err(UgiParseError::MissingPositionType)));
    assert!(matches!(parse("position start"), Err(UgiParseError::MissingPositionType)));
    assert!(matches!(parse("position startpos e5"), Err(UgiParseError::MissingPositionMovesToken)));
    match parse("position startpos moves e5 a1") {
        Err(UgiParseError::InvalidMove(m)) => assert_eq!(m, "a1"),
        _ => panic!("expected an illegal move"),
    }
    match parse("position startpos moves z9") {
        Err(UgiParseError::InvalidMove(m)) => assert_eq!(m, "z9"),
        _ => panic!("expected a bad move"),
    }
    match parse("position startpos moves e5 e5") {
        Err(UgiParseError::InvalidMove(m)) => assert_eq!(m, "e5"),
        _ => panic!("expected an occupied square"),
    }
}

#[test]
fn moves_are_trimmed_of_unicode_space() {
    match parse("position startpos moves \u{a0}e5\u{2003}") {
        Ok(UgiCommand::Position { moves, .. }) => assert_eq!(moves, vec![sq("e5")]),
        _ => panic!("expected a position"),
    }
}

#[test]
fn go_limits() {
    match parse("go depth 5 nodes 100 movetime 250 movestogo 20 xtime 1000 otime -7 xinc 3 oinc 9 infinite") {
        Ok(UgiCommand::Search(limits)) => {
            assert_eq!(limits.len(), 8);
            assert!(matches!(limits[0], SearchLimit::Depth(5)));
            assert!(matches!(limits[1], SearchLimit::Nodes(100)));
            assert!(matches!(limits[2], SearchLimit::MoveTime(250)));
            assert!(matches!(limits[3], SearchLimit::MovesToGo(20)));
            assert!(matches!(limits[4], SearchLimit::XTime(1000)));
            assert!(matches!(limits[5], SearchLimit::OTime(0)));
            assert!(matches!(limits[6], SearchLimit::XInc(3)));
            assert!(matches!(limits[7], SearchLimit::XInc(9)));
        },
        _ => panic!("expected a search"),
    }
    match parse("go") {
        Ok(UgiCommand::Search(limits)) => assert!(limits.is_empty()),
        _ => panic!("expected a search"),
    }
}

#[test]
fn go_searchmoves() {
    match parse("go searchmoves e5 a1 depth 3") {
        Ok(UgiCommand::Search(limits)) => {
            assert_eq!(limits.len(), 2);
            match &limits[0] {
                SearchLimit::SearchMoves(m) => {
                    assert_eq!(m.len(), 2);
                    assert_eq!(m.get(0), sq("e5"));
                    assert_eq!(m.get(1), sq("a1"));
                },
                _ => panic!("expected moves"),
            }
            assert!(matches!(limits[1], SearchLimit::Depth(3)));
        },
        _ => panic!("expected a search"),
    }
    let board = Board::from_fen("9/9/9/9/4x4/9/9/9/9 o 1 e5").unwrap();
    match UgiCommand::parse("go searchmoves a1", &board) {
        Err(UgiParseError::InvalidMove(m)) => assert_eq!(m, "a1"),
        _ => panic!("expected an illegal move"),
    }
    match parse("go searchmoves") {
        Ok(UgiCommand::Search(limits)) => {
            assert_eq!(limits.len(), 1);
            assert!(matches!(&limits[0], SearchLimit::SearchMoves(m) if m.is_empty()));
        },
        _ => panic!("expected a search"),
    }
}

#[test]
fn go_errors() {
    match parse("go depth") {
        Err(UgiParseError::MissingLimitValue(t)) => assert_eq!(t, "depth"),
        _ => panic!("expected a missing value"),
    }
    assert!(matches!(parse("go depth x"), Err(UgiParseError::InvalidInteger(IntErrorKind::InvalidDigit))));
    assert!(matches!(parse("go depth 256"), Err(UgiParseError::InvalidInteger(IntErrorKind::PosOverflow))));
    assert!(matches!(
        parse("go xtime -9223372036854775809"),
        Err(UgiParseError::InvalidInteger(IntErrorKind::NegOverflow))
    ));
    match parse("go ponder") {
        Err(UgiParseError::UnknownLimit(t)) => assert_eq!(t, "ponder"),
        _ => panic!("expected an unknown limit"),
    }
    match parse("go searchmoves zz") {
        Err(UgiParseError::InvalidMove(m)) => assert_eq!(m, "zz"),
        _ => panic!("expected a bad move"),
    }
}

#[test]
fn perft_and_bench() {
    assert!(matches!(parse("perft 3 true"), Ok(UgiCommand::Perft { depth: 3, bulk: true })));
    assert!(matches!(parse("splitperft 2 false"), Ok(UgiCommand::SplitPerft { depth: 2, bulk: false })));
    assert!(matches!(parse("perft"), Err(UgiParseError::MissingPerftDepth)));
    assert!(matches!(parse("perft 3"), Err(UgiParseError::MissingPerftBulk)));
    assert!(matches!(parse("perft x true"), Err(UgiParseError::InvalidInteger(IntErrorKind::InvalidDigit))));
    assert!(matches!(parse("splitperft 3 yes"), Err(UgiParseError::InvalidBool)));
    assert!(matches!(parse("bench"), Ok(UgiCommand::Bench { depth: 5 })));
    assert!(matches!(parse("bench +7"), Ok(UgiCommand::Bench { depth: 7 })));
    assert!(matches!(parse("bench -1"), Err(UgiParseError::InvalidInteger(IntErrorKind::InvalidDigit))));
}

#[test]
fn setoption() {
    match parse("setoption name Threads value 4") {
        Ok(UgiCommand::SetOption { name, value }) => {
            assert_eq!(name, "Threads");
            assert_eq!(value, "4");
        },
        _ => panic!("expected an option"),
    }
    assert!(matches!(parse("setoption"), Err(UgiParseError::MissingOptionNameToken)));
    assert!(matches!(parse("setoption Threads"), Err(UgiParseError::MissingOptionNameToken)));
    assert!(matches!(parse("setoption name"), Err(UgiParseError::MissingOptionName)));
    assert!(matches!(parse("setoption name Threads"), Err(UgiParseError::MissingOptionValueToken)));
    assert!(matches!(parse("setoption name Threads 4"), Err(UgiParseError::MissingOptionValueToken)));
    assert!(matches!(parse("setoption name Threads value"), Err(UgiParseError::MissingOptionValue)));
}
