use vstd::prelude::*;
use crate::board::{Board, BoardModel, MoveList};
use crate::board::board::start_model;
use crate::board::movegen::legal;
use crate::board::parse::{fen_valid, fen_model, lemma_fen_model};
use crate::search::time::{SearchLimit, LimitModel, limits_view};
use crate::text::{
    IntErrorKind, chars_of, chars_is, string_of, trim, trim_chars, split_whitespace, split_ws, parse_unsigned,
    parse_unsigned_spec, parse_i64, parse_i64_spec, parse_bool, parse_bool_spec,
};
use crate::types::Square;
use crate::types::square::parse_square_spec;

verus! {

/// A command of the UGI protocol.
#[derive(Debug, Clone)]
pub enum UgiCommand {
    Ugi,
    NewGame,
    IsReady,
    Display,
    Position { board: Board, moves: Vec<Square> },
    Search(Vec<SearchLimit>),
    Perft { depth: u8, bulk: bool },
    SplitPerft { depth: u8, bulk: bool },
    Bench { depth: u8 },
    SetOption { name: String, value: String },
    Wait,
    Stop,
    Quit,
}

/// Why a command line could not be read.
#[derive(Debug, Clone)]
pub enum UgiParseError {
    MissingCommand,
    UnknownCommand(String),
    InvalidFen(String),
    InvalidMove(String),
    MissingPositionType,
    MissingPositionMovesToken,
    UnknownLimit(String),
    MissingLimitValue(String),
    MissingPerftDepth,
    MissingPerftBulk,
    MissingOptionNameToken,
    MissingOptionValueToken,
    MissingOptionName,
    MissingOptionValue,
    InvalidInteger(IntErrorKind),
    InvalidBool,
}

/// A command as a mathematical value.
pub enum CommandModel {
    Ugi,
    NewGame,
    IsReady,
    Display,
    Position { board: BoardModel, moves: Seq<Square> },
    Search(Seq<LimitModel>),
    Perft { depth: u8, bulk: bool },
    SplitPerft { depth: u8, bulk: bool },
    Bench { depth: u8 },
    SetOption { name: Seq<char>, value: Seq<char> },
    Wait,
    Stop,
    Quit,
}

/// A reading error as a mathematical value.
pub enum ErrorModel {
    MissingCommand,
    UnknownCommand(Seq<char>),
    InvalidFen(Seq<char>),
    InvalidMove(Seq<char>),
    MissingPositionType,
    MissingPositionMovesToken,
    UnknownLimit(Seq<char>),
    MissingLimitValue(Seq<char>),
    MissingPerftDepth,
    MissingPerftBulk,
    MissingOptionNameToken,
    MissingOptionValueToken,
    MissingOptionName,
    MissingOptionValue,
    InvalidInteger(IntErrorKind),
    InvalidBool,
}

impl View for UgiCommand {
    type V = CommandModel;

    open spec fn view(&self) -> CommandModel {
        match self {
            UgiCommand::Ugi => CommandModel::Ugi,
            UgiCommand::NewGame => CommandModel::NewGame,
            UgiCommand::IsReady => CommandModel::IsReady,
            UgiCommand::Display => CommandModel::Display,
            UgiCommand::Position { board, moves } => CommandModel::Position { board: board@, moves: moves@ },
            UgiCommand::Search(limits) => CommandModel::Search(limits_view(limits@)),
            UgiCommand::Perft { depth, bulk } => CommandModel::Perft { depth: *depth, bulk: *bulk },
            UgiCommand::SplitPerft { depth, bulk } => CommandModel::SplitPerft { depth: *depth, bulk: *bulk },
            UgiCommand::Bench { depth } => CommandModel::Bench { depth: *depth },
            UgiCommand::SetOption { name, value } => CommandModel::SetOption { name: name@, value: value@ },
            UgiCommand::Wait => CommandModel::Wait,
            UgiCommand::Stop => CommandModel::Stop,
            UgiCommand::Quit => CommandModel::Quit,
        }
    }
}

impl View for UgiParseError {
    type V = ErrorModel;

    open spec fn view(&self) -> ErrorModel {
        match self {
            UgiParseError::MissingCommand => ErrorModel::MissingCommand,
            UgiParseError::UnknownCommand(s) => ErrorModel::UnknownCommand(s@),
            UgiParseError::InvalidFen(s) => ErrorModel::InvalidFen(s@),
            UgiParseError::InvalidMove(s) => ErrorModel::InvalidMove(s@),
            UgiParseError::MissingPositionType => ErrorModel::MissingPositionType,
            UgiParseError::MissingPositionMovesToken => ErrorModel::MissingPositionMovesToken,
            UgiParseError::UnknownLimit(s) => ErrorModel::UnknownLimit(s@),
            UgiParseError::MissingLimitValue(s) => ErrorModel::MissingLimitValue(s@),
            UgiParseError::MissingPerftDepth => ErrorModel::MissingPerftDepth,
            UgiParseError::MissingPerftBulk => ErrorModel::MissingPerftBulk,
            UgiParseError::MissingOptionNameToken => ErrorModel::MissingOptionNameToken,
            UgiParseError::MissingOptionValueToken => ErrorModel::MissingOptionValueToken,
            UgiParseError::MissingOptionName => ErrorModel::MissingOptionName,
            UgiParseError::MissingOptionValue => ErrorModel::MissingOptionValue,
            UgiParseError::InvalidInteger(k) => ErrorModel::InvalidInteger(*k),
            UgiParseError::InvalidBool => ErrorModel::InvalidBool,
        }
    }
}

/// The model of an outcome of reading.
pub open spec fn outcome<T: View, E: View>(r: Result<T, E>) -> Result<T::V, E::V> {
    match r {
        Ok(c) => Ok(c@),
        Err(e) => Err(e@),
    }
}

/// The tokens held in `v`, as character sequences.
pub open spec fn tokens_view(v: Seq<Vec<char>>) -> Seq<Seq<char>> {
    v.map_values(|t: Vec<char>| t@)
}

/// The parts `p` joined into one string: a space goes before each part
/// once the string is no longer empty.
pub open spec fn join_parts(p: Seq<Seq<char>>) -> Seq<char>
    decreases p.len(),
{
    if p.len() == 0 {
        Seq::empty()
    } else {
        let a = join_parts(p.drop_last());
        if a.len() > 0 {
            a + seq![' '] + p.last()
        } else {
            a + p.last()
        }
    }
}

/// `r` with `x` put in front of its value.
pub open spec fn prepend<T, E>(x: T, r: Result<Seq<T>, E>) -> Result<Seq<T>, E> {
    match r {
        Ok(s) => Ok(seq![x] + s),
        Err(e) => Err(e),
    }
}

/// `r` with `acc` put in front of its value.
pub open spec fn then<T, E>(acc: Seq<T>, r: Result<Seq<T>, E>) -> Result<Seq<T>, E> {
    match r {
        Ok(s) => Ok(acc + s),
        Err(e) => Err(e),
    }
}

/// The moves of a `position` command, read from `t` and played in turn
/// from `cur`: each must name a square (after trimming) and be legal
/// where it is played.
pub open spec fn moves_spec(cur: BoardModel, t: Seq<Seq<char>>) -> Result<Seq<Square>, ErrorModel>
    decreases t.len(),
{
    if t.len() == 0 {
        Ok(Seq::empty())
    } else {
        match parse_square_spec(trim(t[0])) {
            None => Err(ErrorModel::InvalidMove(t[0])),
            Some(mv) => if !legal(cur, mv@) {
                Err(ErrorModel::InvalidMove(t[0]))
            } else {
                prepend(mv, moves_spec(cur.after_move(mv), t.drop_first()))
            },
        }
    }
}

/// What follows the start position of a `position` command: nothing, or
/// the token `moves` and then the moves.
pub open spec fn position_rest(start: BoardModel, t: Seq<Seq<char>>) -> Result<CommandModel, ErrorModel> {
    if t.len() > 0 && t[0] != "moves"@ {
        Err(ErrorModel::MissingPositionMovesToken)
    } else {
        let ms = if t.len() > 0 {
            t.drop_first()
        } else {
            t
        };
        match moves_spec(start, ms) {
            Ok(moves) => Ok(CommandModel::Position { board: start, moves }),
            Err(e) => Err(e),
        }
    }
}

/// A `position` command with arguments `t`: `startpos`, or `fen` and up to
/// four parts of a position string, then optionally the moves.
pub open spec fn position_spec(t: Seq<Seq<char>>) -> Result<CommandModel, ErrorModel> {
    if t.len() == 0 {
        Err(ErrorModel::MissingPositionType)
    } else if t[0] == "startpos"@ {
        position_rest(start_model(), t.drop_first())
    } else if t[0] == "fen"@ {
        let n = if t.len() - 1 < 4 {
            t.len() - 1
        } else {
            4
        };
        let fen = join_parts(t.subrange(1, 1 + n));
        if !fen_valid(fen) {
            Err(ErrorModel::InvalidFen(fen))
        } else {
            position_rest(fen_model(fen), t.skip(1 + n))
        }
    } else {
        Err(ErrorModel::MissingPositionType)
    }
}

/// The tokens that end a list of `searchmoves` moves.
pub open spec fn is_keyword(t: Seq<char>) -> bool {
    ||| t == "searchmoves"@
    ||| t == "xtime"@
    ||| t == "otime"@
    ||| t == "xinc"@
    ||| t == "oinc"@
    ||| t == "movetime"@
    ||| t == "movestogo"@
    ||| t == "depth"@
    ||| t == "nodes"@
    ||| t == "infinite"@
}

/// The limits that take a number.
pub open spec fn is_value_limit(t: Seq<char>) -> bool {
    ||| t == "xtime"@
    ||| t == "otime"@
    ||| t == "xinc"@
    ||| t == "oinc"@
    ||| t == "movetime"@
    ||| t == "movestogo"@
    ||| t == "depth"@
    ||| t == "nodes"@
}

/// The error of a failed integer reading.
pub open spec fn int_error<T>(r: Result<int, IntErrorKind>) -> Result<T, ErrorModel>
    recommends
        r is Err,
{
    Err(ErrorModel::InvalidInteger(r->Err_0))
}

/// The limit `tok` with value `v`. Times are read as signed numbers and
/// negative ones count as zero; `oinc` sets the increment of `X`.
pub open spec fn limit_value(tok: Seq<char>, v: Seq<char>) -> Result<LimitModel, ErrorModel> {
    if tok == "xtime"@ || tok == "otime"@ {
        match parse_i64_spec(v) {
            Ok(x) => {
                let t: u64 = if x < 0 {
                    0
                } else {
                    x as u64
                };
                Ok(if tok == "xtime"@ { LimitModel::XTime(t) } else { LimitModel::OTime(t) })
            },
            Err(k) => Err(ErrorModel::InvalidInteger(k)),
        }
    } else if tok == "movestogo"@ {
        match parse_unsigned_spec(v, u16::MAX as int) {
            Ok(x) => Ok(LimitModel::MovesToGo(x as u16)),
            Err(k) => Err(ErrorModel::InvalidInteger(k)),
        }
    } else if tok == "depth"@ {
        match parse_unsigned_spec(v, u8::MAX as int) {
            Ok(x) => Ok(LimitModel::Depth(x as u8)),
            Err(k) => Err(ErrorModel::InvalidInteger(k)),
        }
    } else {
        match parse_unsigned_spec(v, u64::MAX as int) {
            Ok(x) => Ok(
                if tok == "movetime"@ {
                    LimitModel::MoveTime(x as u64)
                } else if tok == "nodes"@ {
                    LimitModel::Nodes(x as u64)
                } else {
                    LimitModel::XInc(x as u64)
                },
            ),
            Err(k) => Err(ErrorModel::InvalidInteger(k)),
        }
    }
}

/// The limits of a `go` command with arguments `t` on board `b`. While
/// `pending` holds moves, a `searchmoves` list is being read: it runs up
/// to the next keyword, and each of its moves must be legal on `b`.
pub open spec fn go_spec(b: BoardModel, t: Seq<Seq<char>>, pending: Option<Seq<Square>>) -> Result<
    Seq<LimitModel>,
    ErrorModel,
>
    decreases t.len(), if pending is Some {
        1int
    } else {
        0int
    },
{
    match pending {
        Some(ms) => if t.len() == 0 || is_keyword(t[0]) {
            prepend(LimitModel::SearchMoves(ms), go_spec(b, t, None))
        } else {
            match parse_square_spec(trim(t[0])) {
                None => Err(ErrorModel::InvalidMove(t[0])),
                Some(mv) => if !legal(b, mv@) {
                    Err(ErrorModel::InvalidMove(t[0]))
                } else {
                    go_spec(b, t.drop_first(), Some(ms.push(mv)))
                },
            }
        },
        None => if t.len() == 0 {
            Ok(Seq::empty())
        } else {
            let tok = t[0];
            let rest = t.drop_first();
            if tok == "infinite"@ {
                go_spec(b, rest, None)
            } else if tok == "searchmoves"@ {
                go_spec(b, rest, Some(Seq::empty()))
            } else if is_value_limit(tok) {
                if rest.len() == 0 {
                    Err(ErrorModel::MissingLimitValue(tok))
                } else {
                    match limit_value(tok, rest[0]) {
                        Ok(l) => prepend(l, go_spec(b, rest.drop_first(), None)),
                        Err(e) => Err(e),
                    }
                }
            } else {
                Err(ErrorModel::UnknownLimit(tok))
            }
        },
    }
}

/// The depth and bulk flag of a `perft` or `splitperft` command `t`.
pub open spec fn perft_args(t: Seq<Seq<char>>) -> Result<(u8, bool), ErrorModel> {
    if t.len() < 2 {
        Err(ErrorModel::MissingPerftDepth)
    } else {
        match parse_unsigned_spec(t[1], u8::MAX as int) {
            Err(k) => Err(ErrorModel::InvalidInteger(k)),
            Ok(d) => if t.len() < 3 {
                Err(ErrorModel::MissingPerftBulk)
            } else {
                match parse_bool_spec(t[2]) {
                    None => Err(ErrorModel::InvalidBool),
                    Some(bulk) => Ok((d as u8, bulk)),
                }
            },
        }
    }
}

/// A `bench` command `t`: depth 5 unless a depth follows.
pub open spec fn bench_spec(t: Seq<Seq<char>>) -> Result<CommandModel, ErrorModel> {
    if t.len() < 2 {
        Ok(CommandModel::Bench { depth: 5 })
    } else {
        match parse_unsigned_spec(t[1], u8::MAX as int) {
            Ok(d) => Ok(CommandModel::Bench { depth: d as u8 }),
            Err(k) => Err(ErrorModel::InvalidInteger(k)),
        }
    }
}

/// A `setoption` command `t`: `name`, the name, `value`, the value.
pub open spec fn setoption_spec(t: Seq<Seq<char>>) -> Result<CommandModel, ErrorModel> {
    if t.len() < 2 || t[1] != "name"@ {
        Err(ErrorModel::MissingOptionNameToken)
    } else if t.len() < 3 {
        Err(ErrorModel::MissingOptionName)
    } else if t.len() < 4 || t[3] != "value"@ {
        Err(ErrorModel::MissingOptionValueToken)
    } else if t.len() < 5 {
        Err(ErrorModel::MissingOptionValue)
    } else {
        Ok(CommandModel::SetOption { name: t[2], value: t[4] })
    }
}

/// The command that the tokens `t` give on board `b`. The first token
/// names the command; tokens after those a command reads are ignored.
pub open spec fn command_spec(t: Seq<Seq<char>>, b: BoardModel) -> Result<CommandModel, ErrorModel> {
    if t.len() == 0 {
        Err(ErrorModel::MissingCommand)
    } else {
        let c = t[0];
        if c == "ugi"@ {
            Ok(CommandModel::Ugi)
        } else if c == "uginewgame"@ {
            Ok(CommandModel::NewGame)
        } else if c == "isready"@ {
            Ok(CommandModel::IsReady)
        } else if c == "display"@ || c == "d"@ {
            Ok(CommandModel::Display)
        } else if c == "wait"@ {
            Ok(CommandModel::Wait)
        } else if c == "stop"@ {
            Ok(CommandModel::Stop)
        } else if c == "quit"@ || c == "q"@ {
            Ok(CommandModel::Quit)
        } else if c == "position"@ || c == "pos"@ {
            position_spec(t.drop_first())
        } else if c == "go"@ {
            match go_spec(b, t.drop_first(), None) {
                Ok(ls) => Ok(CommandModel::Search(ls)),
                Err(e) => Err(e),
            }
        } else if c == "perft"@ {
            match perft_args(t) {
                Ok((depth, bulk)) => Ok(CommandModel::Perft { depth, bulk }),
                Err(e) => Err(e),
            }
        } else if c == "splitperft"@ {
            match perft_args(t) {
                Ok((depth, bulk)) => Ok(CommandModel::SplitPerft { depth, bulk }),
                Err(e) => Err(e),
            }
        } else if c == "bench"@ {
            bench_spec(t)
        } else if c == "setoption"@ {
            setoption_spec(t)
        } else {
            Err(ErrorModel::UnknownCommand(c))
        }
    }
}

/// Whether token `t` is the word `lit`.
fn tok_is(t: &Vec<char>, lit: &str) -> (r: bool)
    ensures
        r == (t@ == lit@),
{
    chars_is(t.as_slice(), lit)
}

/// Whether token `t` ends a list of `searchmoves` moves.
fn is_keyword_exec(t: &Vec<char>) -> (r: bool)
    ensures
        r == is_keyword(t@),
{
    tok_is(t, "searchmoves") || tok_is(t, "xtime") || tok_is(t, "otime") || tok_is(t, "xinc") || tok_is(
        t,
        "oinc",
    ) || tok_is(t, "movetime") || tok_is(t, "movestogo") || tok_is(t, "depth") || tok_is(t, "nodes")
        || tok_is(t, "infinite")
}

/// Whether token `t` is a limit that takes a number.
fn is_value_limit_exec(t: &Vec<char>) -> (r: bool)
    ensures
        r == is_value_limit(t@),
{
    tok_is(t, "xtime") || tok_is(t, "otime") || tok_is(t, "xinc") || tok_is(t, "oinc") || tok_is(
        t,
        "movetime",
    ) || tok_is(t, "movestogo") || tok_is(t, "depth") || tok_is(t, "nodes")
}

/// Appends the characters `s` to `v`.
fn append_chars(v: &mut Vec<char>, s: &[char])
    ensures
        final(v)@ == old(v)@ + s@,
{
    let mut i: usize = 0;
    while i < s.len()
        invariant
            i <= s@.len(),
            v@ == old(v)@ + s@.take(i as int),
        decreases s@.len() - i,
    {
        v.push(s[i]);
        proof {
            assert(s@.take(i as int + 1) =~= s@.take(i as int).push(s@[i as int]));
            assert(old(v)@ + s@.take(i as int + 1) =~= (old(v)@ + s@.take(i as int)).push(s@[i as int]));
        }
        i += 1;
    }
    proof {
        assert(s@.take(s@.len() as int) =~= s@);
    }
}

/// Putting a value in front and then a prefix is putting the prefix with
/// that value appended in front.
proof fn lemma_then_prepend<T, E>(acc: Seq<T>, x: T, r: Result<Seq<T>, E>)
    ensures
        then(acc, prepend(x, r)) == then(acc.push(x), r),
{
    match r {
        Ok(s) => {
            assert(acc + (seq![x] + s) =~= acc.push(x) + s);
        },
        Err(_) => {},
    }
}

/// Putting an empty prefix in front changes nothing.
proof fn lemma_then_empty<T, E>(r: Result<Seq<T>, E>)
    ensures
        then(Seq::<T>::empty(), r) == r,
{
    match r {
        Ok(s) => {
            assert(Seq::<T>::empty() + s =~= s);
        },
        Err(_) => {},
    }
}

/// The tokens from `i` on start with token `i` and go on with those from
/// `i + 1`.
proof fn lemma_skip_step(t: Seq<Seq<char>>, i: int)
    requires
        0 <= i < t.len(),
    ensures
        t.skip(i).len() > 0,
        t.skip(i)[0] == t[i],
        t.skip(i).drop_first() == t.skip(i + 1),
{
    assert(t.skip(i).drop_first() =~= t.skip(i + 1));
}

/// Reads the value `v` of limit `tok` (see `limit_value`).
fn read_limit(tok: &Vec<char>, v: &Vec<char>) -> (r: Result<SearchLimit, UgiParseError>)
    requires
        is_value_limit(tok@),
    ensures
        match limit_value(tok@, v@) {
            Ok(l) => r matches Ok(x) && x@ == l,
            Err(e) => r matches Err(x) && x@ == e,
        },
{
    if tok_is(tok, "xtime") || tok_is(tok, "otime") {
        match parse_i64(v.as_slice()) {
            Ok(x) => {
                let t: u64 = if x < 0 {
                    0
                } else {
                    x as u64
                };
                if tok_is(tok, "xtime") {
                    Ok(SearchLimit::XTime(t))
                } else {
                    Ok(SearchLimit::OTime(t))
                }
            },
            Err(k) => Err(UgiParseError::InvalidInteger(k)),
        }
    } else if tok_is(tok, "movestogo") {
        match parse_unsigned(v.as_slice(), 65535) {
            Ok(x) => Ok(SearchLimit::MovesToGo(x as u16)),
            Err(k) => Err(UgiParseError::InvalidInteger(k)),
        }
    } else if tok_is(tok, "depth") {
        match parse_unsigned(v.as_slice(), 255) {
            Ok(x) => Ok(SearchLimit::Depth(x as u8)),
            Err(k) => Err(UgiParseError::InvalidInteger(k)),
        }
    } else {
        match parse_unsigned(v.as_slice(), u64::MAX) {
            Ok(x) => {
                if tok_is(tok, "movetime") {
                    Ok(SearchLimit::MoveTime(x))
                } else if tok_is(tok, "nodes") {
                    Ok(SearchLimit::Nodes(x))
                } else {
                    Ok(SearchLimit::XInc(x))
                }
            },
            Err(k) => Err(UgiParseError::InvalidInteger(k)),
        }
    }
}

/// Reads the moves in tokens `from..` and plays them in turn from `start`
/// (see `moves_spec`).
fn parse_moves(toks: &Vec<Vec<char>>, from: usize, start: &Board) -> (r: Result<Vec<Square>, UgiParseError>)
    requires
        from <= toks@.len(),
    ensures
        outcome(r) == moves_spec(start@, tokens_view(toks@).skip(from as int)),
{
    proof {
        use_type_invariant(start);
    }
    let ghost t = tokens_view(toks@);
    let mut current: Board = *start;
    let mut moves: Vec<Square> = Vec::new();
    let mut i: usize = from;
    proof {
        lemma_then_empty(moves_spec(start@, t.skip(from as int)));
    }
    while i < toks.len()
        invariant
            from <= i <= toks@.len(),
            t == tokens_view(toks@),
            current@.wf(),
            moves_spec(start@, t.skip(from as int)) == then(moves@, moves_spec(current@, t.skip(i as int))),
        decreases toks@.len() - i,
    {
        let tok = &toks[i];
        proof {
            lemma_skip_step(t, i as int);
        }
        let trimmed = trim_chars(tok.as_slice());
        match Square::from_chars(trimmed.as_slice()) {
            None => {
                return Err(UgiParseError::InvalidMove(string_of(tok.as_slice())));
            },
            Some(mv) => {
                if !current.is_legal(mv) {
                    return Err(UgiParseError::InvalidMove(string_of(tok.as_slice())));
                }
                let ghost before = current@;
                proof {
                    lemma_then_prepend(moves@, mv, moves_spec(before.after_move(mv), t.skip(i as int + 1)));
                }
                moves.push(mv);
                current.make_move(mv);
            },
        }
        i += 1;
    }
    proof {
        assert(t.skip(i as int).len() == 0);
        assert(moves@ + Seq::<Square>::empty() =~= moves@);
    }
    Ok(moves)
}

impl UgiCommand {
    /// Reads a command line on board `board` (see `command_spec`): the
    /// line is split at ASCII white space into tokens.
    pub fn parse(input: &str, board: &Board) -> (r: Result<UgiCommand, UgiParseError>)
        ensures
            outcome(r) == command_spec(split_ws(input@), board@),
    {
        let chars = chars_of(input);
        let toks = split_whitespace(chars.as_slice());
        let ghost t = tokens_view(toks@);
        assert(t =~= split_ws(input@));
        if toks.len() == 0 {
            return Err(UgiParseError::MissingCommand);
        }
        proof {
            assert(t.skip(1) =~= t.drop_first());
        }
        let cmd = &toks[0];
        if tok_is(cmd, "ugi") {
            Ok(UgiCommand::Ugi)
        } else if tok_is(cmd, "uginewgame") {
            Ok(UgiCommand::NewGame)
        } else if tok_is(cmd, "isready") {
            Ok(UgiCommand::IsReady)
        } else if tok_is(cmd, "display") || tok_is(cmd, "d") {
            Ok(UgiCommand::Display)
        } else if tok_is(cmd, "wait") {
            Ok(UgiCommand::Wait)
        } else if tok_is(cmd, "stop") {
            Ok(UgiCommand::Stop)
        } else if tok_is(cmd, "quit") || tok_is(cmd, "q") {
            Ok(UgiCommand::Quit)
        } else if tok_is(cmd, "position") || tok_is(cmd, "pos") {
            Self::parse_pos(&toks)
        } else if tok_is(cmd, "go") {
            match Self::parse_go(&toks, board) {
                Ok(limits) => Ok(UgiCommand::Search(limits)),
                Err(e) => Err(e),
            }
        } else if tok_is(cmd, "perft") {
            match Self::parse_perft_args(&toks) {
                Ok((depth, bulk)) => Ok(UgiCommand::Perft { depth, bulk }),
                Err(e) => Err(e),
            }
        } else if tok_is(cmd, "splitperft") {
            match Self::parse_perft_args(&toks) {
                Ok((depth, bulk)) => Ok(UgiCommand::SplitPerft { depth, bulk }),
                Err(e) => Err(e),
            }
        } else if tok_is(cmd, "bench") {
            if toks.len() < 2 {
                Ok(UgiCommand::Bench { depth: 5 })
            } else {
                match parse_unsigned(toks[1].as_slice(), 255) {
                    Ok(d) => Ok(UgiCommand::Bench { depth: d as u8 }),
                    Err(k) => Err(UgiParseError::InvalidInteger(k)),
                }
            }
        } else if tok_is(cmd, "setoption") {
            if toks.len() < 2 || !tok_is(&toks[1], "name") {
                return Err(UgiParseError::MissingOptionNameToken);
            }
            if toks.len() < 3 {
                return Err(UgiParseError::MissingOptionName);
            }
            let name = string_of(toks[2].as_slice());
            if toks.len() < 4 || !tok_is(&toks[3], "value") {
                return Err(UgiParseError::MissingOptionValueToken);
            }
            if toks.len() < 5 {
                return Err(UgiParseError::MissingOptionValue);
            }
            let value = string_of(toks[4].as_slice());
            Ok(UgiCommand::SetOption { name, value })
        } else {
            Err(UgiParseError::UnknownCommand(string_of(cmd.as_slice())))
        }
    }

    /// The depth and bulk flag of a `perft` or `splitperft` command (see
    /// `perft_args`).
    fn parse_perft_args(toks: &Vec<Vec<char>>) -> (r: Result<(u8, bool), UgiParseError>)
        ensures
            match perft_args(tokens_view(toks@)) {
                Ok(a) => r == Ok::<(u8, bool), UgiParseError>(a),
                Err(e) => r matches Err(x) && x@ == e,
            },
    {
        if toks.len() < 2 {
            return Err(UgiParseError::MissingPerftDepth);
        }
        let depth = match parse_unsigned(toks[1].as_slice(), 255) {
            Ok(d) => d as u8,
            Err(k) => {
                return Err(UgiParseError::InvalidInteger(k));
            },
        };
        if toks.len() < 3 {
            return Err(UgiParseError::MissingPerftBulk);
        }
        match parse_bool(toks[2].as_slice()) {
            Some(bulk) => Ok((depth, bulk)),
            None => Err(UgiParseError::InvalidBool),
        }
    }

    /// Reads a `position` command (see `position_spec`).
    fn parse_pos(toks: &Vec<Vec<char>>) -> (r: Result<UgiCommand, UgiParseError>)
        requires
            toks@.len() >= 1,
        ensures
            outcome(r) == position_spec(tokens_view(toks@).skip(1)),
    {
        let ghost t = tokens_view(toks@);
        let ghost a = t.skip(1);
        if toks.len() < 2 {
            return Err(UgiParseError::MissingPositionType);
        }
        proof {
            lemma_skip_step(t, 1);
        }
        let kind = &toks[1];
        let mut next: usize;
        let start: Board;
        if tok_is(kind, "startpos") {
            start = Board::default();
            next = 2;
            proof {
                assert(a.drop_first() == t.skip(2));
            }
        } else if tok_is(kind, "fen") {
            let end: usize = if toks.len() < 6 {
                toks.len()
            } else {
                6
            };
            let mut fen: Vec<char> = Vec::new();
            let mut k: usize = 2;
            proof {
                assert(t.subrange(2, 2) =~= Seq::<Seq<char>>::empty());
            }
            while k < end
                invariant
                    2 <= k <= end <= toks@.len(),
                    t == tokens_view(toks@),
                    fen@ == join_parts(t.subrange(2, k as int)),
                decreases end - k,
            {
                proof {
                    assert(t.subrange(2, k as int + 1).drop_last() =~= t.subrange(2, k as int));
                }
                if fen.len() > 0 {
                    fen.push(' ');
                }
                append_chars(&mut fen, toks[k].as_slice());
                proof {
                    assert(fen@ =~= join_parts(t.subrange(2, k as int + 1)));
                }
                k += 1;
            }
            let fen_s = string_of(fen.as_slice());
            proof {
                let n = if a.len() - 1 < 4 {
                    a.len() - 1
                } else {
                    4
                };
                assert(a.subrange(1, 1 + n) =~= t.subrange(2, end as int));
                assert(a.skip(1 + n) =~= t.skip(end as int));
            }
            match Board::from_fen(fen_s.as_str()) {
                None => {
                    return Err(UgiParseError::InvalidFen(fen_s));
                },
                Some(b) => {
                    proof {
                        lemma_fen_model(fen_s@, b@);
                    }
                    start = b;
                    next = end;
                },
            }
        } else {
            return Err(UgiParseError::MissingPositionType);
        }
        let ghost rest = t.skip(next as int);
        if next < toks.len() {
            proof {
                lemma_skip_step(t, next as int);
            }
            if !tok_is(&toks[next], "moves") {
                return Err(UgiParseError::MissingPositionMovesToken);
            }
            next = next + 1;
        } else {
            assert(rest.len() == 0);
        }
        match parse_moves(toks, next, &start) {
            Ok(moves) => Ok(UgiCommand::Position { board: start, moves }),
            Err(e) => Err(e),
        }
    }

    /// Reads the limits of a `go` command on board `board` (see `go_spec`).
    fn parse_go(toks: &Vec<Vec<char>>, board: &Board) -> (r: Result<Vec<SearchLimit>, UgiParseError>)
        requires
            toks@.len() >= 1,
        ensures
            match r {
                Ok(v) => go_spec(board@, tokens_view(toks@).skip(1), None) == Ok::<
                    Seq<LimitModel>,
                    ErrorModel,
                >(limits_view(v@)),
                Err(e) => go_spec(board@, tokens_view(toks@).skip(1), None) == Err::<
                    Seq<LimitModel>,
                    ErrorModel,
                >(e@),
            },
    {
        proof {
            use_type_invariant(board);
        }
        let ghost t = tokens_view(toks@);
        let mut limits: Vec<SearchLimit> = Vec::new();
        let mut in_moves = false;
        let mut moves = MoveList::new();
        let mut i: usize = 1;
        proof {
            assert(limits_view(limits@) =~= Seq::<LimitModel>::empty());
            lemma_then_empty(go_spec(board@, t.skip(1), None));
        }
        while i < toks.len() || in_moves
            invariant
                1 <= i <= toks@.len(),
                t == tokens_view(toks@),
                board@.wf(),
                go_spec(board@, t.skip(1), None) == then(
                    limits_view(limits@),
                    go_spec(
                        board@,
                        t.skip(i as int),
                        if in_moves {
                            Some(moves@)
                        } else {
                            None
                        },
                    ),
                ),
            decreases toks@.len() - i, if in_moves {
                1int
            } else {
                0int
            },
        {
            if in_moves {
                let at_end = i >= toks.len();
                if at_end || is_keyword_exec(&toks[i]) {
                    proof {
                        if !at_end {
                            lemma_skip_step(t, i as int);
                        }
                        lemma_then_prepend(
                            limits_view(limits@),
                            LimitModel::SearchMoves(moves@),
                            go_spec(board@, t.skip(i as int), None),
                        );
                    }
                    let done = moves;
                    moves = MoveList::new();
                    let ghost before = limits@;
                    limits.push(SearchLimit::SearchMoves(done));
                    proof {
                        assert(limits_view(limits@) =~= limits_view(before).push(LimitModel::SearchMoves(done@)));
                    }
                    in_moves = false;
                } else {
                    let tok = &toks[i];
                    proof {
                        lemma_skip_step(t, i as int);
                    }
                    let trimmed = trim_chars(tok.as_slice());
                    match Square::from_chars(trimmed.as_slice()) {
                        None => {
                            return Err(UgiParseError::InvalidMove(string_of(tok.as_slice())));
                        },
                        Some(mv) => {
                            if !board.is_legal(mv) {
                                return Err(UgiParseError::InvalidMove(string_of(tok.as_slice())));
                            }
                            moves.push(mv);
                        },
                    }
                    i += 1;
                }
            } else {
                let tok = &toks[i];
                proof {
                    lemma_skip_step(t, i as int);
                }
                if tok_is(tok, "infinite") {
                    i += 1;
                } else if tok_is(tok, "searchmoves") {
                    in_moves = true;
                    moves = MoveList::new();
                    i += 1;
                } else if is_value_limit_exec(tok) {
                    if i + 1 >= toks.len() {
                        return Err(UgiParseError::MissingLimitValue(string_of(tok.as_slice())));
                    }
                    proof {
                        lemma_skip_step(t, i as int + 1);
                    }
                    match read_limit(tok, &toks[i + 1]) {
                        Ok(l) => {
                            proof {
                                lemma_then_prepend(
                                    limits_view(limits@),
                                    l@,
                                    go_spec(board@, t.skip(i as int + 2), None),
                                );
                            }
                            let ghost before = limits@;
                            limits.push(l);
                            proof {
                                assert(limits_view(limits@) =~= limits_view(before).push(l@));
                            }
                        },
                        Err(e) => {
                            return Err(e);
                        },
                    }
                    i += 2;
                } else {
                    return Err(UgiParseError::UnknownLimit(string_of(tok.as_slice())));
                }
            }
        }
        proof {
            assert(t.skip(i as int).len() == 0);
            assert(limits_view(limits@) + Seq::<LimitModel>::empty() =~= limits_view(limits@));
        }
        Ok(limits)
    }
}


/// Law: a `searchmoves` list ends at the next limit word of `go`: with
/// any moves read so far, tokens that start with `searchmoves`, `xtime`,
/// `otime`, `xinc`, `oinc`, `movetime`, `movestogo`, `depth`, `nodes` or
/// `infinite` give those moves, then what the tokens give on their own.
pub proof fn law_searchmoves_ends_at_limit(b: BoardModel, t: Seq<Seq<char>>, ms: Seq<Square>)
    requires
        t.len() > 0,
        t[0] == "searchmoves"@ || t[0] == "xtime"@ || t[0] == "otime"@ || t[0] == "xinc"@ || t[0] == "oinc"@
            || t[0] == "movetime"@ || t[0] == "movestogo"@ || t[0] == "depth"@ || t[0] == "nodes"@ || t[0]
            == "infinite"@,
    ensures
        go_spec(b, t, Some(ms)) == prepend(LimitModel::SearchMoves(ms), go_spec(b, t, None)),
{
}

/// Law: `movetime` followed by a number sets the move time to that number:
/// with or without a `searchmoves` list before it, the limits read are
/// that list, then the move time, then what the rest gives.
pub proof fn law_go_movetime(b: BoardModel, v: Seq<char>, rest: Seq<Seq<char>>, x: int, ms: Seq<Square>)
    requires
        parse_unsigned_spec(v, u64::MAX as int) == Ok::<int, IntErrorKind>(x),
    ensures
        go_spec(b, seq!["movetime"@, v] + rest, None) == prepend(
            LimitModel::MoveTime(x as u64),
            go_spec(b, rest, None),
        ),
        go_spec(b, seq!["movetime"@, v] + rest, Some(ms)) == prepend(
            LimitModel::SearchMoves(ms),
            prepend(LimitModel::MoveTime(x as u64), go_spec(b, rest, None)),
        ),
{
    reveal_strlit("movetime");
    reveal_strlit("infinite");
    reveal_strlit("searchmoves");
    reveal_strlit("xtime");
    reveal_strlit("otime");
    reveal_strlit("movestogo");
    reveal_strlit("depth");
    reveal_strlit("nodes");
    let t = seq!["movetime"@, v] + rest;
    assert(t[0] == "movetime"@);
    assert(t.drop_first()[0] == v);
    assert(t.drop_first().drop_first() =~= rest);
    assert("movetime"@ != "infinite"@);
    assert("movetime"@ != "searchmoves"@);
    assert("movetime"@ != "xtime"@);
    assert("movetime"@ != "otime"@);
    assert("movetime"@ != "movestogo"@);
    assert("movetime"@ != "depth"@);
    assert("movetime"@ != "nodes"@);
    assert(limit_value("movetime"@, v) == Ok::<LimitModel, ErrorModel>(LimitModel::MoveTime(x as u64)));
}

} // verus!
