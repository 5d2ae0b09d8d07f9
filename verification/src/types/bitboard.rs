use vstd::prelude::*;

verus! {

/// A set of squares: bit `i` stands for the square numbered `i`.
#[derive(Debug, Copy, Clone, PartialEq, Eq, Structural)]
pub struct Bitboard(pub u128);

impl Bitboard {
    pub fn new(bits: u128) -> (r: Bitboard)
        ensures
            r.0 == bits,
    {
        Bitboard(bits)
    }
}

} // verus!
