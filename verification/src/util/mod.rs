pub mod atomic_instant;
pub mod batched_atomic;

pub use atomic_instant::AtomicInstant;
pub use batched_atomic::BatchedAtomicCounter;

use vstd::prelude::*;

verus! {

/// `x` when it fits in a `u64`, else `u64::MAX`.
pub fn saturating_u64(x: u128) -> (r: u64)
    ensures
        r == if x <= u64::MAX as u128 {
            x
        } else {
            u64::MAX as u128
        },
{
    if x <= u64::MAX as u128 {
        x as u64
    } else {
        u64::MAX
    }
}

/// The low 64 bits of `x`.
pub fn low_u64(x: u128) -> (r: u64)
    ensures
        r == x as u64,
{
    x as u64
}

} // verus!
