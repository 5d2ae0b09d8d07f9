use vstd::prelude::*;
use std::sync::Arc;
use std::sync::atomic::{AtomicU64, Ordering};
use vstd::wrapping::u64_specs::wrapping_add;

verus! {

/// `Arc::clone`: another handle to the same shared counter.
#[verifier::external_body]
fn share(global: &Arc<AtomicU64>) -> (r: Arc<AtomicU64>)
    ensures
        r == *global,
{
    Arc::clone(global)
}

/// A shared total `g` with `buffer` counts not yet added to it, wrapping
/// around at 2^64.
pub fn global_of(g: u64, buffer: u64) -> (r: u64)
    ensures
        r == wrapping_add(g, buffer),
{
    g.wrapping_add(buffer)
}

/// A node counter that adds to a shared atomic total in batches: counts
/// gather in `buffer` and move to the total every `BATCH_SIZE` counts.
pub struct BatchedAtomicCounter {
    global: Arc<AtomicU64>,
    local: u64,
    buffer: u64,
}

impl BatchedAtomicCounter {
    pub const BATCH_SIZE: u64 = 2048;

    #[verifier::type_invariant]
    spec fn inv(self) -> bool {
        self.buffer < Self::BATCH_SIZE
    }

    /// The counts already moved to the shared total by this counter.
    pub closed spec fn local_spec(self) -> u64 {
        self.local
    }

    /// The counts not yet moved to the shared total.
    pub closed spec fn buffer_spec(self) -> u64 {
        self.buffer
    }

    /// The nodes this counter has counted (wrapping around at 2^64).
    pub open spec fn count(self) -> u64 {
        wrapping_add(self.local_spec(), self.buffer_spec())
    }

    /// The shared total this counter adds to.
    pub closed spec fn total(self) -> Arc<AtomicU64> {
        self.global
    }

    /// A counter adding to `global`, with nothing counted yet.
    pub fn new(global: Arc<AtomicU64>) -> (r: BatchedAtomicCounter)
        ensures
            r.total() == global,
            r.local_spec() == 0,
            r.buffer_spec() == 0,
    {
        BatchedAtomicCounter { global, local: 0, buffer: 0 }
    }

    /// Counts one node; a full batch moves to the shared total. (The local
    /// count wraps around after 2^64 nodes.)
    pub fn inc(&mut self)
        ensures
            final(self).total() == old(self).total(),
            final(self).count() == wrapping_add(old(self).count(), 1),
            old(self).buffer_spec() + 1 < Self::BATCH_SIZE ==> final(self).buffer_spec() == old(self).buffer_spec() + 1
                && final(self).local_spec() == old(self).local_spec(),
            old(self).buffer_spec() + 1 >= Self::BATCH_SIZE ==> final(self).buffer_spec() == 0 && final(self).local_spec()
                == wrapping_add(old(self).local_spec(), Self::BATCH_SIZE),
    {
        proof {
            use_type_invariant(&*self);
        }
        let b = self.buffer + 1;
        if b >= Self::BATCH_SIZE {
            self.global.fetch_add(b, Ordering::Relaxed);
            self.buffer = 0;
            self.local = self.local.wrapping_add(b);
        } else {
            self.buffer = b;
        }
    }

    /// Moves the buffered counts to the shared total.
    pub fn flush(&mut self)
        ensures
            final(self).total() == old(self).total(),
            final(self).buffer_spec() == 0,
            final(self).local_spec() == wrapping_add(old(self).local_spec(), old(self).buffer_spec()),
    {
        proof {
            use_type_invariant(&*self);
        }
        let b = self.buffer;
        self.global.fetch_add(b, Ordering::Relaxed);
        self.buffer = 0;
        self.local = self.local.wrapping_add(b);
    }

    /// Clears the shared total and this counter.
    pub fn reset(&mut self)
        ensures
            final(self).total() == old(self).total(),
            final(self).buffer_spec() == 0,
            final(self).local_spec() == 0,
    {
        proof {
            use_type_invariant(&*self);
        }
        self.global.store(0, Ordering::Relaxed);
        self.local = 0;
        self.buffer = 0;
    }

    /// The shared total plus this counter's buffered counts (see
    /// `global_of`). The shared total is read from an atomic that other
    /// threads add to, so nothing is known of its value here.
    pub fn global(&self) -> (r: u64) {
        let g = self.global.load(Ordering::Relaxed);
        global_of(g, self.buffer)
    }

    /// The nodes this counter has counted.
    pub fn local(&self) -> (r: u64)
        ensures
            r == wrapping_add(self.local_spec(), self.buffer_spec()),
    {
        self.local.wrapping_add(self.buffer)
    }

    /// A counter adding to the same shared total, with nothing counted.
    pub fn clone(&self) -> (r: BatchedAtomicCounter)
        ensures
            r.total() == self.total(),
            r.local_spec() == 0,
            r.buffer_spec() == 0,
    {
        BatchedAtomicCounter { global: share(&self.global), local: 0, buffer: 0 }
    }
}

} // verus!
