use vstd::prelude::*;
use std::sync::Arc;
use std::sync::atomic::{AtomicU32, AtomicU64};
use crate::board::MoveList;
use crate::search::history::{History, table_bounded};
use crate::search::search::{PrincipalVariation, SearchStack, MAX_PLY};
use crate::search::time::TimeManager;
use crate::util::BatchedAtomicCounter;

verus! {

/// The most search threads allowed.
pub const MAX_THREADS: u32 = 1024;

/// What all search threads share.
pub struct SharedData {
    pub num_searching: AtomicU32,
    pub time_man: TimeManager,
    pub nodes: Arc<AtomicU64>,
}

impl SharedData {
    /// Shared data with no search running and no nodes counted.
    pub fn new() -> SharedData {
        SharedData {
            num_searching: AtomicU32::new(0),
            time_man: TimeManager::new(),
            nodes: Arc::new(AtomicU64::new(0)),
        }
    }
}

/// One search thread's own state.
pub struct ThreadData {
    pub id: usize,
    pub sel_depth: usize,
    pub hist: Box<History>,
    pub root_moves: MoveList,
    pub root_pv: PrincipalVariation,
    pub stack: Vec<SearchStack>,
    pub nodes: BatchedAtomicCounter,
    pub stop: bool,
}

/// A stack of `MAX_PLY + 1` empty frames.
fn new_stack() -> (r: Vec<SearchStack>)
    ensures
        r@.len() == MAX_PLY + 1,
        forall|i: int| 0 <= i < r@.len() ==> (#[trigger] r@[i]).pv.len == 0,
{
    let mut v: Vec<SearchStack> = Vec::new();
    let mut i: usize = 0;
    while i < MAX_PLY + 1
        invariant
            i <= MAX_PLY + 1,
            v@.len() == i,
            forall|j: int| 0 <= j < v@.len() ==> (#[trigger] v@[j]).pv.len == 0,
        decreases MAX_PLY + 1 - i,
    {
        v.push(SearchStack::new());
        i += 1;
    }
    v
}

impl ThreadData {
    /// The state of thread `id`, counting nodes into `nodes`.
    pub fn new(id: usize, nodes: Arc<AtomicU64>) -> (r: ThreadData)
        ensures
            r.id == id,
            r.sel_depth == 0,
            forall|p: int, s: int| 0 <= p < 2 && 0 <= s < 81 ==> #[trigger] r.hist@[p][s] == 0,
            table_bounded(r.hist@),
            r.root_moves@.len() == 0,
            r.root_pv.len == 0,
            forall|i: int| 0 <= i < 82 ==> (#[trigger] r.root_pv.moves@[i]) is None,
            r.stack@.len() == MAX_PLY + 1,
            r.nodes.total() == nodes,
            r.nodes.local_spec() == 0,
            r.nodes.buffer_spec() == 0,
            !r.stop,
    {
        ThreadData {
            id,
            sel_depth: 0,
            hist: Box::new(History::new()),
            root_moves: MoveList::new(),
            root_pv: PrincipalVariation::new(),
            stack: new_stack(),
            nodes: BatchedAtomicCounter::new(nodes),
            stop: false,
        }
    }

    /// Clears everything but the history and the thread's number, for a
    /// new search.
    pub fn reset(&mut self)
        ensures
            final(self).id == old(self).id,
            final(self).hist == old(self).hist,
            final(self).sel_depth == 0,
            final(self).root_moves@.len() == 0,
            final(self).root_pv.len == 0,
            forall|i: int| 0 <= i < 82 ==> (#[trigger] final(self).root_pv.moves@[i]) is None,
            final(self).stack@.len() == MAX_PLY + 1,
            forall|i: int| 0 <= i < final(self).stack@.len() ==> (#[trigger] final(self).stack@[i]).pv.len == 0,
            final(self).nodes.total() == old(self).nodes.total(),
            final(self).nodes.local_spec() == 0,
            final(self).nodes.buffer_spec() == 0,
            !final(self).stop,
    {
        self.nodes.reset();
        self.root_moves.clear();
        self.root_pv = PrincipalVariation::new();
        self.stack = new_stack();
        self.sel_depth = 0;
        self.stop = false;
    }
}

} // verus!
