use vstd::prelude::*;
use std::sync::atomic::{AtomicBool, AtomicU8, AtomicU32, AtomicU64, Ordering};
use std::time::{Duration, Instant};
use crate::board::{Board, MoveList};
use crate::board::movegen::legal_moves;
use crate::search::thread::ThreadData;
use crate::types::{Piece, Square};
use crate::util::{AtomicInstant, low_u64};
use crate::util::atomic_instant::instant_now;
use crate::search::weights::W;

verus! {

/// The default time in milliseconds kept back for communication.
pub const DEFAULT_OVERHEAD: u64 = 50;

/// A limit on a search, as given by the `go` command.
#[derive(Debug, Clone)]
pub enum SearchLimit {
    SearchMoves(MoveList),
    XTime(u64),
    OTime(u64),
    XInc(u64),
    OInc(u64),
    MoveTime(u64),
    MovesToGo(u16),
    Nodes(u64),
    Depth(u8),
}

/// A search limit as a mathematical value: the moves of a `searchmoves`
/// limit as a sequence.
pub enum LimitModel {
    SearchMoves(Seq<Square>),
    XTime(u64),
    OTime(u64),
    XInc(u64),
    OInc(u64),
    MoveTime(u64),
    MovesToGo(u16),
    Nodes(u64),
    Depth(u8),
}

impl View for SearchLimit {
    type V = LimitModel;

    open spec fn view(&self) -> LimitModel {
        match self {
            SearchLimit::SearchMoves(m) => LimitModel::SearchMoves(m@),
            SearchLimit::XTime(t) => LimitModel::XTime(*t),
            SearchLimit::OTime(t) => LimitModel::OTime(*t),
            SearchLimit::XInc(t) => LimitModel::XInc(*t),
            SearchLimit::OInc(t) => LimitModel::OInc(*t),
            SearchLimit::MoveTime(t) => LimitModel::MoveTime(*t),
            SearchLimit::MovesToGo(n) => LimitModel::MovesToGo(*n),
            SearchLimit::Nodes(n) => LimitModel::Nodes(*n),
            SearchLimit::Depth(d) => LimitModel::Depth(*d),
        }
    }
}

/// The models of a list of limits.
pub open spec fn limits_view(s: Seq<SearchLimit>) -> Seq<LimitModel> {
    s.map_values(|l: SearchLimit| l@)
}

/// What a list of search limits asks for.
#[derive(Debug, Copy, Clone, PartialEq, Eq, Structural)]
pub struct LimitSummary {
    pub x_time: u64,
    pub o_time: u64,
    pub x_inc: u64,
    pub o_inc: u64,
    pub move_time: Option<u64>,
    pub moves_to_go: Option<u16>,
    pub nodes: u64,
    pub depth: u8,
    pub infinite: bool,
    pub check_time: bool,
}

/// The summary of no limits: unlimited time, nodes and depth.
pub open spec fn no_limits() -> LimitSummary {
    LimitSummary {
        x_time: u64::MAX,
        o_time: u64::MAX,
        x_inc: 0,
        o_inc: 0,
        move_time: None,
        moves_to_go: None,
        nodes: u64::MAX,
        depth: 255,
        infinite: true,
        check_time: false,
    }
}

/// The summary after taking in `limit`: a later time, increment, move time
/// or moves-to-go replaces an earlier one; node and depth limits keep the
/// smallest; time, move-time, depth and node limits end infinite search;
/// time and move-time limits turn on clock checks.
pub open spec fn add_limit(s: LimitSummary, limit: SearchLimit) -> LimitSummary {
    let t = match limit {
        SearchLimit::SearchMoves(_) => s,
        SearchLimit::XTime(t) => LimitSummary { x_time: t, ..s },
        SearchLimit::OTime(t) => LimitSummary { o_time: t, ..s },
        SearchLimit::XInc(i) => LimitSummary { x_inc: i, ..s },
        SearchLimit::OInc(i) => LimitSummary { o_inc: i, ..s },
        SearchLimit::MoveTime(t) => LimitSummary { move_time: Some(t), ..s },
        SearchLimit::MovesToGo(n) => LimitSummary { moves_to_go: Some(n), ..s },
        SearchLimit::Depth(d) => LimitSummary { depth: if d < s.depth { d } else { s.depth }, ..s },
        SearchLimit::Nodes(n) => LimitSummary { nodes: if n < s.nodes { n } else { s.nodes }, ..s },
    };
    let ends_infinite = match limit {
        SearchLimit::XTime(_) | SearchLimit::OTime(_) | SearchLimit::MoveTime(_) | SearchLimit::Depth(_)
        | SearchLimit::Nodes(_) => true,
        _ => false,
    };
    let checks_time = match limit {
        SearchLimit::XTime(_) | SearchLimit::OTime(_) | SearchLimit::MoveTime(_) => true,
        _ => false,
    };
    LimitSummary {
        infinite: t.infinite && !ends_infinite,
        check_time: t.check_time || checks_time,
        ..t
    }
}

/// The summary of `limits`, taken in order.
pub open spec fn summarize(limits: Seq<SearchLimit>) -> LimitSummary
    decreases limits.len(),
{
    if limits.len() == 0 {
        no_limits()
    } else {
        add_limit(summarize(limits.drop_last()), limits.last())
    }
}

/// Summarizes `limits` (see `add_limit`).
pub fn summarize_limits(limits: &[SearchLimit]) -> (r: LimitSummary)
    ensures
        r == summarize(limits@),
{
    let mut s = LimitSummary {
        x_time: u64::MAX,
        o_time: u64::MAX,
        x_inc: 0,
        o_inc: 0,
        move_time: None,
        moves_to_go: None,
        nodes: u64::MAX,
        depth: 255,
        infinite: true,
        check_time: false,
    };
    let mut i: usize = 0;
    while i < limits.len()
        invariant
            i <= limits@.len(),
            s == summarize(limits@.take(i as int)),
        decreases limits@.len() - i,
    {
        proof {
            assert(limits@.take(i as int + 1).drop_last() =~= limits@.take(i as int));
        }
        match &limits[i] {
            SearchLimit::SearchMoves(_) => {},
            SearchLimit::XTime(t) => {
                s.x_time = *t;
                s.infinite = false;
                s.check_time = true;
            },
            SearchLimit::OTime(t) => {
                s.o_time = *t;
                s.infinite = false;
                s.check_time = true;
            },
            SearchLimit::XInc(v) => {
                s.x_inc = *v;
            },
            SearchLimit::OInc(v) => {
                s.o_inc = *v;
            },
            SearchLimit::MoveTime(t) => {
                s.move_time = Some(*t);
                s.infinite = false;
                s.check_time = true;
            },
            SearchLimit::MovesToGo(n) => {
                s.moves_to_go = Some(*n);
            },
            SearchLimit::Depth(d) => {
                if *d < s.depth {
                    s.depth = *d;
                }
                s.infinite = false;
            },
            SearchLimit::Nodes(n) => {
                if *n < s.nodes {
                    s.nodes = *n;
                }
                s.infinite = false;
            },
        }
        i += 1;
    }
    proof {
        assert(limits@.take(limits@.len() as int) =~= limits@);
    }
    s
}

/// The time left and the increment of the side to move, after keeping
/// back `overhead`.
pub fn clock_for(s: &LimitSummary, stm: Piece, overhead: u64) -> (r: (u64, u64))
    ensures
        r.0 == (if (if stm == Piece::X { s.x_time } else { s.o_time }) >= overhead { (if stm == Piece::X { s.x_time } else { s.o_time }) - overhead } else { 0 }),
        r.1 == if stm == Piece::X { s.x_inc } else { s.o_inc },
{
    let (time, inc) = match stm {
        Piece::X => (s.x_time, s.x_inc),
        Piece::O => (s.o_time, s.o_inc),
    };
    (time.saturating_sub(overhead), inc)
}

/// The hard node limit: the soft limit times 2000 (saturating) with a soft
/// target, else the soft limit itself.
pub fn hard_node_limit(nodes: u64, soft_target: bool) -> (r: u64)
    ensures
        soft_target ==> r == if nodes * 2000 <= u64::MAX { nodes * 2000 } else { u64::MAX as int },
        !soft_target ==> r == nodes,
{
    if soft_target {
        match nodes.checked_mul(2000) {
            Some(v) => v,
            None => u64::MAX,
        }
    } else {
        nodes
    }
}

/// The time budget (base, soft, hard) in milliseconds for a fixed move
/// time: all `time`, except that a soft target lets the hard limit run to
/// twice the time, and at least 2 seconds more.
pub fn movetime_budget(time: u64, soft_target: bool) -> (r: (u64, u64, u64))
    requires
        soft_target ==> time + 2000 <= u64::MAX,
    ensures
        r.0 == time,
        r.1 == time,
        !soft_target ==> r.2 == time,
        soft_target ==> r.2 == ({
            let doubled = if time * 2 <= u64::MAX { time * 2 } else { u64::MAX as int };
            if doubled >= time + 2000 { doubled } else { time + 2000 }
        }),
{
    if soft_target {
        let doubled = match time.checked_mul(2) {
            Some(v) => v,
            None => u64::MAX,
        };
        let later = time + 2000;
        (time, time, if doubled >= later { doubled } else { later })
    } else {
        (time, time, time)
    }
}

/// Whether iterative deepening stops after an iteration to `depth` with
/// `nodes` searched: when the stop flag is set, the depth limit is reached,
/// the soft node limit is reached, or the clock is checked and more than
/// the soft time has passed.
pub fn iteration_stop(
    stop: bool,
    depth: u8,
    max_depth: u8,
    nodes: u64,
    soft_nodes: u64,
    check_time: bool,
    elapsed_ms: u64,
    soft_time: u64,
) -> (r: bool)
    ensures
        r == (stop || depth >= max_depth || nodes >= soft_nodes || (check_time && elapsed_ms > soft_time)),
{
    stop || depth >= max_depth || nodes >= soft_nodes || (check_time && elapsed_ms > soft_time)
}

/// Whether a search thread stops now: when the stop flag is set, the
/// shared node count reaches the hard node limit, or, for the main thread
/// (number 0) every 1024 of its own nodes and when the clock is checked,
/// more than the hard time has passed.
pub fn search_stop(
    stop: bool,
    global: u64,
    hard_nodes: u64,
    local: u64,
    id: usize,
    check_time: bool,
    elapsed_ms: u64,
    hard_time: u64,
) -> (r: bool)
    ensures
        r == (stop || global >= hard_nodes || (local % 1024 == 0 && id == 0 && check_time && elapsed_ms
            > hard_time)),
{
    stop || global >= hard_nodes || (local % 1024 == 0 && id == 0 && check_time && elapsed_ms > hard_time)
}

/// The side to move's time left after keeping back `overhead`.
pub open spec fn clock_time(s: LimitSummary, stm: Piece, overhead: u64) -> int {
    let t = if stm == Piece::X {
        s.x_time
    } else {
        s.o_time
    };
    if t >= overhead {
        t - overhead
    } else {
        0
    }
}

/// The side to move's increment.
pub open spec fn clock_inc(s: LimitSummary, stm: Piece) -> int {
    if stm == Piece::X {
        s.x_inc as int
    } else {
        s.o_inc as int
    }
}

/// The smaller of `a` and `b`.
pub open spec fn min_int(a: int, b: int) -> int {
    if a <= b {
        a
    } else {
        b
    }
}

/// The time budget (base, soft, hard) in milliseconds of a search with
/// limits `s`; `hard_scaled` and `soft_scaled` are the time left scaled by
/// the hard and soft time weights. With a move time, the budget of
/// `movetime_budget`. With moves to go, the hard limit is the scaled time
/// plus the increment and the soft limit an equal share of the time left
/// plus the increment, each capped (by the time left, and by the hard
/// limit). Else both limits are the scaled time plus a weighted part of the
/// increment (3877/4096 for the hard, 4027/4096 for the soft limit),
/// capped the same way. `None` where a sum or product passes 64 bits or
/// there are zero moves to go.
pub open spec fn time_budget_spec(
    s: LimitSummary,
    stm: Piece,
    overhead: u64,
    soft_target: bool,
    hard_scaled: u64,
    soft_scaled: u64,
) -> Option<(int, int, int)> {
    let time = clock_time(s, stm, overhead);
    let inc = clock_inc(s, stm);
    match s.move_time {
        Some(t) => if soft_target && t + 2000 > u64::MAX {
            None
        } else if soft_target {
            let doubled = if t * 2 <= u64::MAX {
                t * 2
            } else {
                u64::MAX as int
            };
            Some((t as int, t as int, if doubled >= t + 2000 { doubled } else { t + 2000 }))
        } else {
            Some((t as int, t as int, t as int))
        },
        None => match s.moves_to_go {
            Some(m) => if hard_scaled + inc > u64::MAX || m == 0 || time / (m as int) + inc > u64::MAX {
                None
            } else {
                let hard = min_int(hard_scaled + inc, time);
                let soft = min_int(time / (m as int) + inc, hard);
                Some((soft, soft, hard))
            },
            None => if inc * 3877 > u64::MAX || hard_scaled + inc * 3877 / 4096 > u64::MAX || inc * 4027
                > u64::MAX || soft_scaled + inc * 4027 / 4096 > u64::MAX {
                None
            } else {
                let hard = min_int(hard_scaled + inc * 3877 / 4096, time);
                let soft = min_int(soft_scaled + inc * 4027 / 4096, hard);
                Some((soft, soft, hard))
            },
        },
    }
}

/// The time budget (base, soft, hard) of a search with limits `s` (see
/// `time_budget_spec`).
pub fn time_budget(
    s: &LimitSummary,
    stm: Piece,
    overhead: u64,
    soft_target: bool,
    hard_scaled: u64,
    soft_scaled: u64,
) -> (r: Option<(u64, u64, u64)>)
    ensures
        r is None <==> time_budget_spec(*s, stm, overhead, soft_target, hard_scaled, soft_scaled) is None,
        r matches Some(v) ==> time_budget_spec(*s, stm, overhead, soft_target, hard_scaled, soft_scaled)
            == Some((v.0 as int, v.1 as int, v.2 as int)),
{
    match s.move_time {
        Some(t) => {
            if soft_target && t.checked_add(2000).is_none() {
                return None;
            }
            Some(movetime_budget(t, soft_target))
        },
        None => {
            let (time, inc) = clock_for(s, stm, overhead);
            match s.moves_to_go {
                Some(m) => {
                    if hard_scaled.checked_add(inc).is_none() || m == 0 {
                        return None;
                    }
                    let share = time / (m as u64);
                    if share.checked_add(inc).is_none() {
                        return None;
                    }
                    let hard = capped_sum(hard_scaled, inc, time);
                    let soft = moves_to_go_soft(time, m, inc, hard);
                    Some((soft, soft, hard))
                },
                None => {
                    let hard_w = W::hard_time_inc();
                    let soft_w = W::soft_time_inc();
                    if inc.checked_mul(hard_w).is_none() {
                        return None;
                    }
                    let hard_inc = inc_share(inc, hard_w);
                    if hard_scaled.checked_add(hard_inc).is_none() || inc.checked_mul(soft_w).is_none() {
                        return None;
                    }
                    let soft_inc = inc_share(inc, soft_w);
                    if soft_scaled.checked_add(soft_inc).is_none() {
                        return None;
                    }
                    let hard = capped_sum(hard_scaled, hard_inc, time);
                    let soft = capped_sum(soft_scaled, soft_inc, hard);
                    Some((soft, soft, hard))
                },
            }
        },
    }
}

/// `atomic_wait::wake_all`: wakes every thread waiting on `atomic`.
#[verifier::external_body]
fn wake_all(atomic: &AtomicU32) {
    atomic_wait::wake_all(atomic)
}

/// `Instant::elapsed`: the time since `start`.
#[verifier::external_body]
fn elapsed_since(start: Instant) -> Duration {
    start.elapsed()
}

/// `Duration::as_millis`.
#[verifier::external_body]
fn duration_millis(d: Duration) -> u128 {
    d.as_millis()
}

/// The soft time limit when the number of moves to the next time control
/// is known: an equal share of the time left plus the increment, but no
/// more than the hard limit.
pub fn moves_to_go_soft(time: u64, moves_to_go: u16, inc: u64, hard: u64) -> (r: u64)
    requires
        moves_to_go > 0,
        time / (moves_to_go as u64) + inc <= u64::MAX,
    ensures
        r == if time / (moves_to_go as u64) + inc <= hard {
            time / (moves_to_go as u64) + inc
        } else {
            hard as int
        },
{
    let share = time / (moves_to_go as u64) + inc;
    if share <= hard {
        share
    } else {
        hard
    }
}

/// The part `weight / 4096` of the increment `inc`, rounded down.
pub fn inc_share(inc: u64, weight: u64) -> (r: u64)
    requires
        inc * weight <= u64::MAX,
    ensures
        r == inc * weight / 4096,
{
    inc * weight / 4096
}

/// `base + extra`, but no more than `cap`.
pub fn capped_sum(base: u64, extra: u64, cap: u64) -> (r: u64)
    requires
        base + extra <= u64::MAX,
    ensures
        r == if base + extra <= cap {
            base + extra
        } else {
            cap as int
        },
{
    if base + extra <= cap {
        base + extra
    } else {
        cap
    }
}

/// The moves of the first `searchmoves` limit in `limits`, if there is one.
pub open spec fn first_search_moves(limits: Seq<SearchLimit>) -> Option<Seq<Square>>
    decreases limits.len(),
{
    if limits.len() == 0 {
        None
    } else {
        match limits[0] {
            SearchLimit::SearchMoves(m) => Some(m@),
            _ => first_search_moves(limits.drop_first()),
        }
    }
}

/// The moves a search starts from: those of the first `searchmoves` limit,
/// or else every legal move of `board`.
pub fn root_moves(limits: &[SearchLimit], board: &Board) -> (r: MoveList)
    ensures
        r@ == match first_search_moves(limits@) {
            Some(ms) => ms,
            None => legal_moves(board@),
        },
{
    let mut i: usize = 0;
    assert(limits@.skip(0) =~= limits@);
    while i < limits.len()
        invariant
            i <= limits@.len(),
            first_search_moves(limits@) == first_search_moves(limits@.skip(i as int)),
        decreases limits@.len() - i,
    {
        proof {
            assert(limits@.skip(i as int).drop_first() =~= limits@.skip(i as int + 1));
            assert(limits@.skip(i as int)[0] == limits@[i as int]);
        }
        match &limits[i] {
            SearchLimit::SearchMoves(moves) => {
                let mut r = MoveList::new();
                let mut j: usize = 0;
                while j < moves.len()
                    invariant
                        j <= moves@.len(),
                        r@ == moves@.take(j as int),
                    decreases moves@.len() - j,
                {
                    r.push(moves.get(j));
                    proof {
                        assert(moves@.take(j as int + 1) =~= moves@.take(j as int).push(moves@[j as int]));
                    }
                    j += 1;
                }
                proof {
                    assert(moves@.take(moves@.len() as int) =~= moves@);
                }
                return r;
            },
            _ => {},
        }
        i += 1;
    }
    board.gen_moves()
}

/// How a search reports its progress.
#[derive(Debug, Copy, Clone)]
pub enum SearchInfo {
    /// Report to a UGI client; when `minimal`, only the final iteration.
    Ugi { minimal: bool },
    /// Report nothing.
    Silent,
}

impl SearchInfo {
    /// Whether an iteration is reported (`last` for the final one).
    pub fn reports(&self, last: bool) -> (r: bool)
        ensures
            r == (match *self {
                SearchInfo::Ugi { minimal } => !minimal || last,
                SearchInfo::Silent => false,
            }),
    {
        match self {
            SearchInfo::Ugi { minimal } => !*minimal || last,
            SearchInfo::Silent => false,
        }
    }

    /// Whether the best move is reported.
    pub fn reports_best_move(&self) -> (r: bool)
        ensures
            r == (self is Ugi),
    {
        match self {
            SearchInfo::Ugi { .. } => true,
            SearchInfo::Silent => false,
        }
    }
}

/// The clock and limits of a search, shared by all search threads. The
/// values live in atomics that other threads write and the clock moves on
/// its own, so nothing is known here of what a read gives.
pub struct TimeManager {
    start: AtomicInstant,
    infinite: AtomicBool,
    check_time: AtomicBool,
    stop: AtomicU32,
    base_time: AtomicU64,
    soft_time: AtomicU64,
    hard_time: AtomicU64,
    soft_nodes: AtomicU64,
    hard_nodes: AtomicU64,
    depth: AtomicU8,
}

impl TimeManager {
    /// A manager with no limits, started now.
    pub fn new() -> TimeManager {
        TimeManager {
            start: AtomicInstant::now(),
            infinite: AtomicBool::new(true),
            check_time: AtomicBool::new(false),
            stop: AtomicU32::new(0),
            base_time: AtomicU64::new(0),
            soft_time: AtomicU64::new(0),
            hard_time: AtomicU64::new(0),
            soft_nodes: AtomicU64::new(u64::MAX),
            hard_nodes: AtomicU64::new(u64::MAX),
            depth: AtomicU8::new(255u8),
        }
    }

    /// Starts a search with the limits of `summary` and the time budget
    /// (`base`, `soft`, `hard`, in milliseconds): clears the stop flag,
    /// stores the limits and restarts the clock.
    pub fn start_search(&self, summary: &LimitSummary, soft_target: bool, base: u64, soft: u64, hard: u64) {
        self.set_stop(false);
        self.infinite.store(summary.infinite, Ordering::Relaxed);
        self.check_time.store(summary.check_time, Ordering::Relaxed);
        self.depth.store(summary.depth, Ordering::Relaxed);
        self.soft_nodes.store(summary.nodes, Ordering::Relaxed);
        self.hard_nodes.store(hard_node_limit(summary.nodes, soft_target), Ordering::Relaxed);
        self.base_time.store(base, Ordering::Relaxed);
        self.soft_time.store(soft, Ordering::Relaxed);
        self.hard_time.store(hard, Ordering::Relaxed);
        self.start.store(instant_now(), Ordering::Relaxed);
    }

    /// Sets or clears the stop flag, waking threads waiting on it when the
    /// search is infinite.
    pub fn set_stop(&self, stop: bool) {
        self.stop.store(if stop { 1u32 } else { 0u32 }, Ordering::Relaxed);
        if self.infinite() {
            wake_all(&self.stop);
        }
    }

    /// The atomic that holds the stop flag.
    pub closed spec fn stop_cell(&self) -> AtomicU32 {
        self.stop
    }

    /// The stop flag, for threads that wait on it.
    pub fn stop_flag(&self) -> (r: &AtomicU32)
        ensures
            *r == self.stop_cell(),
    {
        &self.stop
    }

    /// Whether a search thread should stop now: `search_stop` on the stop
    /// flag, the thread's node counts, the hard node limit, the clock-check
    /// flag, the time since the start and the hard time limit, as read now.
    /// The clock is read only when the answer depends on it.
    pub fn stop_search(&self, thread: &ThreadData) -> bool {
        let stop = self.should_stop();
        let global = thread.nodes.global();
        let hard_nodes = self.hard_nodes.load(Ordering::Relaxed);
        let local = thread.nodes.local();
        let check_time = self.check_time.load(Ordering::Relaxed);
        let hard_time = self.hard_time.load(Ordering::Relaxed);
        let elapsed = if !stop && global < hard_nodes && local % 1024 == 0 && thread.id == 0 && check_time {
            self.elapsed_millis()
        } else {
            0
        };
        search_stop(stop, global, hard_nodes, local, thread.id, check_time, elapsed, hard_time)
    }

    /// Whether iterative deepening should stop after `depth` with `nodes`
    /// searched: `iteration_stop` on the stop flag, the depth and soft node
    /// limits, the clock-check flag, the time since the start and the soft
    /// time limit, as read now. The clock is read only when the answer
    /// depends on it. Whatever is read, the deepest depth and the largest
    /// node count always stop.
    pub fn stop_id(&self, depth: u8, nodes: u64) -> (r: bool)
        ensures
            depth == u8::MAX ==> r,
            nodes == u64::MAX ==> r,
    {
        let stop = self.should_stop();
        let max_depth = self.depth.load(Ordering::Relaxed);
        let soft_nodes = self.soft_nodes.load(Ordering::Relaxed);
        let check_time = self.check_time.load(Ordering::Relaxed);
        let soft_time = self.soft_time.load(Ordering::Relaxed);
        let elapsed = if !stop && depth < max_depth && nodes < soft_nodes && check_time {
            self.elapsed_millis()
        } else {
            0
        };
        iteration_stop(stop, depth, max_depth, nodes, soft_nodes, check_time, elapsed, soft_time)
    }

    /// The time since the search started.
    pub fn elapsed(&self) -> Duration {
        elapsed_since(self.start.load(Ordering::Relaxed))
    }

    /// The milliseconds since the search started, in 64 bits.
    pub fn elapsed_millis(&self) -> u64 {
        low_u64(duration_millis(self.elapsed()))
    }

    /// The stop flag is set.
    pub fn should_stop(&self) -> bool {
        self.stop.load(Ordering::Relaxed) != 0
    }

    /// The search has no limit.
    pub fn infinite(&self) -> bool {
        self.infinite.load(Ordering::Relaxed)
    }
}


/// `l` is a time limit of either side or a move-time limit.
pub open spec fn is_clock_limit(l: SearchLimit) -> bool {
    l matches SearchLimit::XTime(_) || l matches SearchLimit::OTime(_) || l matches SearchLimit::MoveTime(_)
}

/// `l` bounds the search: a time, move-time, depth or node limit.
pub open spec fn is_bounding_limit(l: SearchLimit) -> bool {
    is_clock_limit(l) || l matches SearchLimit::Depth(_) || l matches SearchLimit::Nodes(_)
}

/// `l` is a move-time limit.
pub open spec fn is_move_time(l: SearchLimit) -> bool {
    l matches SearchLimit::MoveTime(_)
}

/// What taking in one limit does to the clock checks, the infinite flag
/// and the move time.
proof fn lemma_add_limit_flags(s: LimitSummary, l: SearchLimit)
    ensures
        add_limit(s, l).check_time == (s.check_time || is_clock_limit(l)),
        add_limit(s, l).infinite == (s.infinite && !is_bounding_limit(l)),
        add_limit(s, l).move_time == if is_move_time(l) {
            Some(l->MoveTime_0)
        } else {
            s.move_time
        },
{
}

/// Law: the clock is checked exactly when some limit is a time limit of
/// either side or a move-time limit.
pub proof fn law_summary_checks_time(limits: Seq<SearchLimit>)
    ensures
        summarize(limits).check_time <==> exists|i: int| 0 <= i < limits.len() && #[trigger] is_clock_limit(limits[i]),
    decreases limits.len(),
{
    if limits.len() > 0 {
        let pre = limits.drop_last();
        law_summary_checks_time(pre);
        let n = limits.len() - 1;
        lemma_add_limit_flags(summarize(pre), limits[n]);
        assert(limits.last() == limits[n]);
        if exists|i: int| 0 <= i < pre.len() && #[trigger] is_clock_limit(pre[i]) {
            let i = choose|i: int| 0 <= i < pre.len() && #[trigger] is_clock_limit(pre[i]);
            assert(pre[i] == limits[i]);
            assert(is_clock_limit(limits[i]));
        }
        if exists|i: int| 0 <= i < limits.len() && #[trigger] is_clock_limit(limits[i]) {
            let i = choose|i: int| 0 <= i < limits.len() && #[trigger] is_clock_limit(limits[i]);
            assert(is_clock_limit(limits[n]) ==> exists|k: int| 0 <= k < limits.len() && #[trigger] is_clock_limit(limits[k]));
            if i < n {
                assert(pre[i] == limits[i]);
                assert(is_clock_limit(pre[i]));
            }
        }
    }
}

/// Law: the search is infinite exactly when no limit is a time, move-time,
/// depth or node limit.
pub proof fn law_summary_infinite(limits: Seq<SearchLimit>)
    ensures
        summarize(limits).infinite <==> !exists|i: int|
            0 <= i < limits.len() && #[trigger] is_bounding_limit(limits[i]),
    decreases limits.len(),
{
    if limits.len() > 0 {
        let pre = limits.drop_last();
        law_summary_infinite(pre);
        let n = limits.len() - 1;
        lemma_add_limit_flags(summarize(pre), limits[n]);
        assert(limits.last() == limits[n]);
        if exists|i: int| 0 <= i < pre.len() && #[trigger] is_bounding_limit(pre[i]) {
            let i = choose|i: int| 0 <= i < pre.len() && #[trigger] is_bounding_limit(pre[i]);
            assert(pre[i] == limits[i]);
            assert(is_bounding_limit(limits[i]));
        }
        if exists|i: int| 0 <= i < limits.len() && #[trigger] is_bounding_limit(limits[i]) {
            let i = choose|i: int| 0 <= i < limits.len() && #[trigger] is_bounding_limit(limits[i]);
            if i < n {
                assert(pre[i] == limits[i]);
                assert(is_bounding_limit(pre[i]));
            }
        }
    }
}

/// Law: a move time is kept exactly when some limit is one.
pub proof fn law_summary_has_move_time(limits: Seq<SearchLimit>)
    ensures
        summarize(limits).move_time is Some <==> exists|i: int|
            0 <= i < limits.len() && #[trigger] is_move_time(limits[i]),
    decreases limits.len(),
{
    if limits.len() > 0 {
        let pre = limits.drop_last();
        law_summary_has_move_time(pre);
        let n = limits.len() - 1;
        lemma_add_limit_flags(summarize(pre), limits[n]);
        assert(limits.last() == limits[n]);
        if exists|i: int| 0 <= i < pre.len() && #[trigger] is_move_time(pre[i]) {
            let i = choose|i: int| 0 <= i < pre.len() && #[trigger] is_move_time(pre[i]);
            assert(pre[i] == limits[i]);
            assert(is_move_time(limits[i]));
        }
        if exists|i: int| 0 <= i < limits.len() && #[trigger] is_move_time(limits[i]) {
            let i = choose|i: int| 0 <= i < limits.len() && #[trigger] is_move_time(limits[i]);
            if i < n {
                assert(pre[i] == limits[i]);
                assert(is_move_time(pre[i]));
            }
        }
    }
}

/// Law: the move time kept is that of the last move-time limit.
pub proof fn law_summary_last_move_time(limits: Seq<SearchLimit>, i: int)
    requires
        0 <= i < limits.len(),
        is_move_time(limits[i]),
        forall|j: int| i < j < limits.len() ==> !#[trigger] is_move_time(limits[j]),
    ensures
        summarize(limits).move_time == Some(limits[i]->MoveTime_0),
    decreases limits.len(),
{
    let pre = limits.drop_last();
    let n = limits.len() - 1;
    lemma_add_limit_flags(summarize(pre), limits[n]);
    assert(limits.last() == limits[n]);
    if i < n {
        assert(!is_move_time(limits[n]));
        assert(pre[i] == limits[i]);
        assert forall|j: int| i < j < pre.len() implies !#[trigger] is_move_time(pre[j]) by {
            assert(pre[j] == limits[j]);
            assert(!is_move_time(limits[j]));
        }
        law_summary_last_move_time(pre, i);
    }
}


/// `l` is a depth limit.
pub open spec fn is_depth_limit(l: SearchLimit) -> bool {
    l matches SearchLimit::Depth(_)
}

/// `l` is a node limit.
pub open spec fn is_node_limit(l: SearchLimit) -> bool {
    l matches SearchLimit::Nodes(_)
}

/// Law: the depth searched is the smallest depth limit given, 255 when
/// none is.
pub proof fn law_summary_depth(limits: Seq<SearchLimit>)
    ensures
        forall|i: int|
            0 <= i < limits.len() && #[trigger] is_depth_limit(limits[i]) ==> summarize(limits).depth
                <= limits[i]->Depth_0,
        summarize(limits).depth == 255 || exists|i: int|
            0 <= i < limits.len() && #[trigger] is_depth_limit(limits[i]) && limits[i]->Depth_0 == summarize(
                limits,
            ).depth,
    decreases limits.len(),
{
    if limits.len() > 0 {
        let pre = limits.drop_last();
        law_summary_depth(pre);
        let n = limits.len() - 1;
        assert(limits.last() == limits[n]);
        assert forall|i: int| 0 <= i < limits.len() && #[trigger] is_depth_limit(limits[i]) implies summarize(
            limits,
        ).depth <= limits[i]->Depth_0 by {
            if i < n {
                assert(pre[i] == limits[i]);
                assert(is_depth_limit(pre[i]));
            }
        }
        if summarize(limits).depth != 255 && summarize(limits).depth != summarize(pre).depth {
            assert(is_depth_limit(limits[n]));
        } else if summarize(limits).depth != 255 {
            let i = choose|i: int|
                0 <= i < pre.len() && #[trigger] is_depth_limit(pre[i]) && pre[i]->Depth_0 == summarize(pre).depth;
            assert(pre[i] == limits[i]);
            assert(is_depth_limit(limits[i]));
        }
    }
}

/// Law: the node limit is the smallest node limit given, `u64::MAX` when
/// none is.
pub proof fn law_summary_nodes(limits: Seq<SearchLimit>)
    ensures
        forall|i: int|
            0 <= i < limits.len() && #[trigger] is_node_limit(limits[i]) ==> summarize(limits).nodes
                <= limits[i]->Nodes_0,
        summarize(limits).nodes == u64::MAX || exists|i: int|
            0 <= i < limits.len() && #[trigger] is_node_limit(limits[i]) && limits[i]->Nodes_0 == summarize(
                limits,
            ).nodes,
    decreases limits.len(),
{
    if limits.len() > 0 {
        let pre = limits.drop_last();
        law_summary_nodes(pre);
        let n = limits.len() - 1;
        assert(limits.last() == limits[n]);
        assert forall|i: int| 0 <= i < limits.len() && #[trigger] is_node_limit(limits[i]) implies summarize(
            limits,
        ).nodes <= limits[i]->Nodes_0 by {
            if i < n {
                assert(pre[i] == limits[i]);
                assert(is_node_limit(pre[i]));
            }
        }
        if summarize(limits).nodes != u64::MAX && summarize(limits).nodes != summarize(pre).nodes {
            assert(is_node_limit(limits[n]));
        } else if summarize(limits).nodes != u64::MAX {
            let i = choose|i: int|
                0 <= i < pre.len() && #[trigger] is_node_limit(pre[i]) && pre[i]->Nodes_0 == summarize(pre).nodes;
            assert(pre[i] == limits[i]);
            assert(is_node_limit(limits[i]));
        }
    }
}

} // verus!
