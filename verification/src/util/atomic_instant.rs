use vstd::prelude::*;
use std::sync::atomic::{AtomicU64, Ordering};
use std::time::{Duration, Instant};
use crate::util::saturating_u64;

verus! {

#[verifier::external_type_specification]
#[verifier::external_body]
pub struct ExInstant(Instant);

/// `Instant::now`: the current time.
#[verifier::external_body]
pub(crate) fn instant_now() -> Instant {
    Instant::now()
}

/// `Instant::saturating_duration_since`: the time from `earlier` to
/// `later`, zero when `later` is not later.
#[verifier::external_body]
fn duration_since(later: Instant, earlier: Instant) -> Duration {
    later.saturating_duration_since(earlier)
}

/// `Duration::as_nanos`.
#[verifier::external_body]
fn duration_nanos(d: Duration) -> u128 {
    d.as_nanos()
}

/// `Duration::from_nanos`.
#[verifier::external_body]
fn duration_from_nanos(nanos: u64) -> Duration {
    Duration::from_nanos(nanos)
}

/// `Instant::checked_add`: `None` when the sum cannot be represented.
#[verifier::external_body]
fn instant_checked_add(i: Instant, d: Duration) -> Option<Instant> {
    i.checked_add(d)
}

/// An `Instant` that can be loaded and stored atomically: it keeps the
/// nanoseconds since its own epoch (the time it was made) in an `AtomicU64`.
pub struct AtomicInstant {
    epoch: Instant,
    bits: AtomicU64,
}

impl AtomicInstant {
    /// The nanoseconds from this cell's epoch to `instant` (0 before the
    /// epoch, `u64::MAX` after about 584 years).
    pub fn instant_to_bits(&self, instant: Instant) -> u64 {
        saturating_u64(duration_nanos(duration_since(instant, self.epoch)))
    }

    /// The instant `bits` nanoseconds after this cell's epoch (the epoch
    /// itself when that instant cannot be represented).
    pub fn bits_to_instant(&self, bits: u64) -> Instant {
        match instant_checked_add(self.epoch, duration_from_nanos(bits)) {
            Some(i) => i,
            None => self.epoch,
        }
    }

    /// The instant this cell counts from.
    pub closed spec fn epoch_spec(&self) -> Instant {
        self.epoch
    }

    /// A cell holding `instant`, which is also the instant it counts from.
    pub fn new(instant: Instant) -> (r: AtomicInstant)
        ensures
            r.epoch_spec() == instant,
    {
        let cell = AtomicInstant { epoch: instant, bits: AtomicU64::new(0) };
        let bits = cell.instant_to_bits(instant);
        cell.bits.store(bits, Ordering::Relaxed);
        cell
    }

    /// A cell holding the current time.
    pub fn now() -> AtomicInstant {
        Self::new(instant_now())
    }

    /// The instant held.
    pub fn load(&self, order: Ordering) -> Instant {
        self.bits_to_instant(self.bits.load(order))
    }

    /// Replaces the instant held by `instant`.
    pub fn store(&self, instant: Instant, order: Ordering) {
        self.bits.store(self.instant_to_bits(instant), order);
    }
}

} // verus!
