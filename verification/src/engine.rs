use vstd::prelude::*;
use crate::board::{Board, BoardModel};
use crate::board::movegen::{legal_moves, law_legal_moves};
use crate::types::Square;
use crate::search::thread::MAX_THREADS;
use crate::text::{
    IntErrorKind, chars_of, chars_is, parse_unsigned, parse_unsigned_spec, parse_bool, parse_bool_spec,
};

verus! {

/// Whether the command loop should end.
#[derive(Debug, Copy, Clone, PartialEq, Eq, Structural)]
pub enum Abort {
    Yes,
    No,
}

/// The engine's settings.
#[derive(Copy, Clone)]
pub struct EngineOptions {
    pub minimal: bool,
    pub soft_target: bool,
    pub move_overhead: u64,
}

impl Default for EngineOptions {
    fn default() -> (r: Self)
        ensures
            r.minimal == false,
            r.soft_target == false,
            r.move_overhead == 50,
    {
        EngineOptions { minimal: false, soft_target: false, move_overhead: 50 }
    }
}

/// The number of move sequences of length `d` from position `m`.
pub open spec fn perft_count(m: BoardModel, d: nat) -> nat
    decreases d, 0int,
{
    if d == 0 {
        1
    } else {
        perft_sum(m, legal_moves(m), (d - 1) as nat)
    }
}

/// The sum, over the moves `ms` from `m`, of the number of move sequences
/// of length `d` after each.
pub open spec fn perft_sum(m: BoardModel, ms: Seq<Square>, d: nat) -> nat
    decreases d, ms.len(),
{
    if ms.len() == 0 {
        0
    } else {
        perft_sum(m, ms.drop_last(), d) + perft_count(m.after_move(ms.last()), d)
    }
}

/// A sum over a prefix of the moves is at most the sum over all of them.
proof fn lemma_perft_sum_prefix(m: BoardModel, ms: Seq<Square>, d: nat, i: int)
    requires
        0 <= i <= ms.len(),
    ensures
        perft_sum(m, ms.take(i), d) <= perft_sum(m, ms, d),
    decreases ms.len(),
{
    if i < ms.len() {
        assert(ms.drop_last().take(i) =~= ms.take(i));
        lemma_perft_sum_prefix(m, ms.drop_last(), d, i);
    } else {
        assert(ms.take(i) =~= ms);
    }
}

/// Summing one more move adds that move's count.
proof fn lemma_perft_sum_step(m: BoardModel, ms: Seq<Square>, d: nat, i: int)
    requires
        0 <= i < ms.len(),
    ensures
        perft_sum(m, ms.take(i + 1), d) == perft_sum(m, ms.take(i), d) + perft_count(
            m.after_move(ms[i]),
            d,
        ),
{
    assert(ms.take(i + 1).drop_last() =~= ms.take(i));
}

/// At depth 0 every move counts once.
proof fn lemma_perft_sum_depth0(m: BoardModel, ms: Seq<Square>)
    ensures
        perft_sum(m, ms, 0) == ms.len(),
    decreases ms.len(),
{
    if ms.len() > 0 {
        lemma_perft_sum_depth0(m, ms.drop_last());
        assert(perft_count(m.after_move(ms.last()), 0) == 1);
    }
}

/// Counts the move sequences of length `depth` from `board`. With `BULK`
/// the last level is counted by the length of the move list instead of
/// playing each move; both ways give the same number.
pub fn perft<const BULK: bool>(board: &Board, depth: u8) -> (r: u64)
    requires
        perft_count(board@, depth as nat) <= u64::MAX,
    ensures
        r == perft_count(board@, depth as nat),
    decreases depth,
{
    proof {
        use_type_invariant(board);
    }
    if depth == 0 {
        return 1;
    }
    let ghost m = board@;
    let ghost d = (depth - 1) as nat;
    let move_list = board.gen_moves();
    let ghost ms = move_list@;
    if BULK && depth == 1 {
        proof {
            lemma_perft_sum_depth0(m, ms);
        }
        return move_list.len() as u64;
    }
    let mut nodes: u64 = 0;
    let mut i: usize = 0;
    while i < move_list.len()
        invariant
            m == board@,
            m.wf(),
            ms == move_list@,
            ms == legal_moves(m),
            d == depth - 1,
            depth >= 1,
            i <= ms.len(),
            perft_count(m, depth as nat) == perft_sum(m, ms, d),
            perft_sum(m, ms, d) <= u64::MAX,
            nodes == perft_sum(m, ms.take(i as int), d),
        decreases ms.len() - i,
    {
        let mv = move_list.get(i);
        let mut child = *board;
        child.make_move(mv);
        proof {
            lemma_perft_sum_step(m, ms, d, i as int);
            lemma_perft_sum_prefix(m, ms, d, i as int + 1);
        }
        let sub = perft::<BULK>(&child, depth - 1);
        nodes = nodes + sub;
        i += 1;
    }
    proof {
        assert(ms.take(ms.len() as int) =~= ms);
    }
    nodes
}

/// Law: counting one ply deep counts the legal moves.
pub proof fn law_perft_depth_one(m: BoardModel)
    ensures
        perft_count(m, 1) == legal_moves(m).len(),
{
    lemma_perft_sum_depth0(m, legal_moves(m));
}

/// Law: the counts after each legal move, at depth `d`, add up to the
/// count one ply deeper.
pub proof fn law_split_perft_total(m: BoardModel, d: nat)
    ensures
        perft_sum(m, legal_moves(m), d) == perft_count(m, d + 1),
{
}

/// Counts the move sequences of length `depth` from `board`, as `perft`
/// does, or gives `None` when the count does not fit in 64 bits.
pub fn perft_checked<const BULK: bool>(board: &Board, depth: u8) -> (r: Option<u64>)
    ensures
        r is Some <==> perft_count(board@, depth as nat) <= u64::MAX,
        r matches Some(v) ==> v == perft_count(board@, depth as nat),
    decreases depth,
{
    proof {
        use_type_invariant(board);
    }
    if depth == 0 {
        return Some(1);
    }
    let ghost m = board@;
    let ghost d = (depth - 1) as nat;
    let move_list = board.gen_moves();
    let ghost ms = move_list@;
    if BULK && depth == 1 {
        proof {
            lemma_perft_sum_depth0(m, ms);
        }
        return Some(move_list.len() as u64);
    }
    let mut nodes: u64 = 0;
    let mut i: usize = 0;
    while i < move_list.len()
        invariant
            m == board@,
            m.wf(),
            ms == move_list@,
            ms == legal_moves(m),
            d == depth - 1,
            depth >= 1,
            i <= ms.len(),
            perft_count(m, depth as nat) == perft_sum(m, ms, d),
            nodes == perft_sum(m, ms.take(i as int), d),
        decreases ms.len() - i,
    {
        let mv = move_list.get(i);
        let mut child = *board;
        child.make_move(mv);
        proof {
            lemma_perft_sum_step(m, ms, d, i as int);
            lemma_perft_sum_prefix(m, ms, d, i as int + 1);
        }
        match perft_checked::<BULK>(&child, depth - 1) {
            None => {
                return None;
            },
            Some(sub) => {
                match nodes.checked_add(sub) {
                    None => {
                        return None;
                    },
                    Some(n) => {
                        nodes = n;
                    },
                }
            },
        }
        i += 1;
    }
    proof {
        assert(ms.take(ms.len() as int) =~= ms);
    }
    Some(nodes)
}

/// The count after each legal move of `board` (in move order) of the move
/// sequences of length `depth` that follow it, and the sum of the counts;
/// `None` when the sum does not fit in 64 bits.
pub fn split_perft(board: &Board, depth: u8, bulk: bool) -> (r: Option<(Vec<(Square, u64)>, u64)>)
    ensures
        r is Some <==> perft_sum(board@, legal_moves(board@), depth as nat) <= u64::MAX,
        r matches Some((v, total)) ==> {
            &&& total == perft_sum(board@, legal_moves(board@), depth as nat)
            &&& v@.len() == legal_moves(board@).len()
            &&& forall|i: int|
                0 <= i < v@.len() ==> (#[trigger] v@[i]).0 == legal_moves(board@)[i] && v@[i].1
                    == perft_count(board@.after_move(legal_moves(board@)[i]), depth as nat)
        },
{
    proof {
        use_type_invariant(board);
    }
    let ghost m = board@;
    let ghost d = depth as nat;
    let move_list = board.gen_moves();
    let ghost ms = move_list@;
    let mut out: Vec<(Square, u64)> = Vec::new();
    let mut nodes: u64 = 0;
    let mut i: usize = 0;
    while i < move_list.len()
        invariant
            m == board@,
            m.wf(),
            ms == move_list@,
            ms == legal_moves(m),
            d == depth,
            i <= ms.len(),
            nodes == perft_sum(m, ms.take(i as int), d),
            out@.len() == i,
            forall|j: int|
                0 <= j < i ==> (#[trigger] out@[j]).0 == ms[j] && out@[j].1 == perft_count(
                    m.after_move(ms[j]),
                    d,
                ),
        decreases ms.len() - i,
    {
        let mv = move_list.get(i);
        let mut child = *board;
        child.make_move(mv);
        proof {
            lemma_perft_sum_step(m, ms, d, i as int);
            lemma_perft_sum_prefix(m, ms, d, i as int + 1);
        }
        let sub = if bulk {
            perft_checked::<true>(&child, depth)
        } else {
            perft_checked::<false>(&child, depth)
        };
        match sub {
            None => {
                return None;
            },
            Some(c) => {
                match nodes.checked_add(c) {
                    None => {
                        return None;
                    },
                    Some(n) => {
                        nodes = n;
                        out.push((mv, c));
                    },
                }
            },
        }
        i += 1;
    }
    proof {
        assert(ms.take(ms.len() as int) =~= ms);
    }
    Some((out, nodes))
}

/// Nodes per second for `nodes` in `nanos` nanoseconds, rounded down; 0
/// when no time passed.
pub fn nodes_per_second(nodes: u64, nanos: u128) -> (r: u128)
    ensures
        nanos > 0 ==> r == nodes as int * 1_000_000_000 / nanos as int,
        nanos == 0 ==> r == 0,
{
    if nanos > 0 {
        let n: u128 = nodes as u128;
        assert(n * 1_000_000_000 <= u128::MAX) by (nonlinear_arith)
            requires
                n <= u64::MAX,
        ;
        (n * 1_000_000_000) / nanos
    } else {
        0
    }
}

/// What a `setoption` command does.
#[derive(Debug, Copy, Clone, PartialEq, Eq, Structural)]
pub enum OptionAction {
    SetThreads(u32),
    SetMinimal(bool),
    SetMoveOverhead(u64),
    SetSoftTarget(bool),
    /// The thread count cannot change during a search.
    ThreadsWhileSearching,
    InvalidInteger(IntErrorKind),
    InvalidBool,
    /// A thread count outside `1..=MAX_THREADS`.
    InvalidThreads(u32),
    /// A move overhead above 5000 milliseconds.
    InvalidMoveOverhead(u64),
    UnknownOption,
}

/// The action of setting option `name` to `value`, when a search is
/// running or not: `Threads` (a 32-bit count in `1..=MAX_THREADS`, not
/// during a search), `Minimal` and `SoftTarget` (`true` or `false`), and
/// `MoveOverhead` (milliseconds, at most 5000).
pub open spec fn option_spec(name: Seq<char>, value: Seq<char>, searching: bool) -> OptionAction {
    if name == "Threads"@ {
        if searching {
            OptionAction::ThreadsWhileSearching
        } else {
            match parse_unsigned_spec(value, u32::MAX as int) {
                Err(k) => OptionAction::InvalidInteger(k),
                Ok(v) => if v == 0 || v > MAX_THREADS {
                    OptionAction::InvalidThreads(v as u32)
                } else {
                    OptionAction::SetThreads(v as u32)
                },
            }
        }
    } else if name == "Minimal"@ {
        match parse_bool_spec(value) {
            None => OptionAction::InvalidBool,
            Some(b) => OptionAction::SetMinimal(b),
        }
    } else if name == "MoveOverhead"@ {
        match parse_unsigned_spec(value, u64::MAX as int) {
            Err(k) => OptionAction::InvalidInteger(k),
            Ok(v) => if v > 5000 {
                OptionAction::InvalidMoveOverhead(v as u64)
            } else {
                OptionAction::SetMoveOverhead(v as u64)
            },
        }
    } else if name == "SoftTarget"@ {
        match parse_bool_spec(value) {
            None => OptionAction::InvalidBool,
            Some(b) => OptionAction::SetSoftTarget(b),
        }
    } else {
        OptionAction::UnknownOption
    }
}

/// Decides what setting option `name` to `value` does (see `option_spec`).
pub fn option_action(name: &str, value: &str, searching: bool) -> (r: OptionAction)
    ensures
        r == option_spec(name@, value@, searching),
{
    let n = chars_of(name);
    let v = chars_of(value);
    if chars_is(n.as_slice(), "Threads") {
        if searching {
            return OptionAction::ThreadsWhileSearching;
        }
        match parse_unsigned(v.as_slice(), 4294967295) {
            Err(k) => OptionAction::InvalidInteger(k),
            Ok(x) => {
                if x == 0 || x > MAX_THREADS as u64 {
                    OptionAction::InvalidThreads(x as u32)
                } else {
                    OptionAction::SetThreads(x as u32)
                }
            },
        }
    } else if chars_is(n.as_slice(), "Minimal") {
        match parse_bool(v.as_slice()) {
            None => OptionAction::InvalidBool,
            Some(b) => OptionAction::SetMinimal(b),
        }
    } else if chars_is(n.as_slice(), "MoveOverhead") {
        match parse_unsigned(v.as_slice(), u64::MAX) {
            Err(k) => OptionAction::InvalidInteger(k),
            Ok(x) => {
                if x > 5000 {
                    OptionAction::InvalidMoveOverhead(x)
                } else {
                    OptionAction::SetMoveOverhead(x)
                }
            },
        }
    } else if chars_is(n.as_slice(), "SoftTarget") {
        match parse_bool(v.as_slice()) {
            None => OptionAction::InvalidBool,
            Some(b) => OptionAction::SetSoftTarget(b),
        }
    } else {
        OptionAction::UnknownOption
    }
}

impl EngineOptions {
    /// Takes in the setting that `action` makes, if it sets one of these
    /// options; anything else leaves them unchanged.
    pub fn apply(&mut self, action: OptionAction)
        ensures
            final(self).minimal == (match action {
                OptionAction::SetMinimal(b) => b,
                _ => old(self).minimal,
            }),
            final(self).soft_target == (match action {
                OptionAction::SetSoftTarget(b) => b,
                _ => old(self).soft_target,
            }),
            final(self).move_overhead == (match action {
                OptionAction::SetMoveOverhead(v) => v,
                _ => old(self).move_overhead,
            }),
    {
        match action {
            OptionAction::SetMinimal(b) => self.minimal = b,
            OptionAction::SetSoftTarget(b) => self.soft_target = b,
            OptionAction::SetMoveOverhead(v) => self.move_overhead = v,
            _ => {},
        }
    }
}


/// Law: setting `Minimal` or `SoftTarget` (while searching or not) to the
/// text `true` or `false` sets the option to that value, and any other
/// text is refused as an invalid boolean.
pub proof fn law_bool_options(value: Seq<char>, searching: bool)
    ensures
        option_spec("Minimal"@, value, searching) == if value == seq!['t', 'r', 'u', 'e'] {
            OptionAction::SetMinimal(true)
        } else if value == seq!['f', 'a', 'l', 's', 'e'] {
            OptionAction::SetMinimal(false)
        } else {
            OptionAction::InvalidBool
        },
        option_spec("SoftTarget"@, value, searching) == if value == seq!['t', 'r', 'u', 'e'] {
            OptionAction::SetSoftTarget(true)
        } else if value == seq!['f', 'a', 'l', 's', 'e'] {
            OptionAction::SetSoftTarget(false)
        } else {
            OptionAction::InvalidBool
        },
{
    reveal_strlit("Threads");
    reveal_strlit("Minimal");
    reveal_strlit("MoveOverhead");
    reveal_strlit("SoftTarget");
    assert("Minimal"@[0] != "Threads"@[0]);
    assert("Minimal"@ != "Threads"@);
    assert("SoftTarget"@.len() != "Threads"@.len());
    assert("SoftTarget"@ != "Threads"@);
    assert("SoftTarget"@ != "Minimal"@);
    assert("SoftTarget"@ != "MoveOverhead"@);
    assert(seq!['t', 'r', 'u', 'e'] != seq!['f', 'a', 'l', 's', 'e']);
}


/// Law: the thread count cannot change during a search; otherwise a count
/// is set exactly when the value reads as a number from 1 to `MAX_THREADS`,
/// and it is that number.
pub proof fn law_threads_option(value: Seq<char>, searching: bool, n: u32)
    ensures
        searching ==> option_spec("Threads"@, value, searching) == OptionAction::ThreadsWhileSearching,
        !searching ==> (option_spec("Threads"@, value, searching) == OptionAction::SetThreads(n) <==> (
        parse_unsigned_spec(value, u32::MAX as int) == Ok::<int, crate::text::IntErrorKind>(n as int) && 1 <= n
            <= MAX_THREADS)),
{
    crate::text::law_parse_unsigned_bounds(value, u32::MAX as int);
}

/// Law: the move overhead is set exactly when the value reads as a number
/// of at most 5000 milliseconds, and it is that number; a larger number is
/// refused with that number.
pub proof fn law_move_overhead_option(value: Seq<char>, searching: bool, n: u64)
    ensures
        option_spec("MoveOverhead"@, value, searching) == OptionAction::SetMoveOverhead(n) <==> (parse_unsigned_spec(
            value,
            u64::MAX as int,
        ) == Ok::<int, crate::text::IntErrorKind>(n as int) && n <= 5000),
        option_spec("MoveOverhead"@, value, searching) == OptionAction::InvalidMoveOverhead(n) <==> (
        parse_unsigned_spec(value, u64::MAX as int) == Ok::<int, crate::text::IntErrorKind>(n as int) && n > 5000),
{
    crate::text::law_parse_unsigned_bounds(value, u64::MAX as int);
    reveal_strlit("Threads");
    reveal_strlit("Minimal");
    reveal_strlit("MoveOverhead");
    assert("MoveOverhead"@.len() != "Threads"@.len());
    assert("MoveOverhead"@.len() != "Minimal"@.len());
}

} // verus!
