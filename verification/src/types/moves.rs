use vstd::prelude::*;
use crate::types::square::{Square, square_at, lemma_square_index, lemma_square_at};

verus! {

/// A move packed into one byte: bit 0 is always set (so the byte is never
/// zero) and bits 1..8 hold the destination square.
#[derive(Debug, Copy, Clone, PartialEq, Eq, Structural)]
pub struct Move(u8);

impl Move {
    #[verifier::type_invariant]
    spec fn inv(self) -> bool {
        &&& self.0 % 2 == 1
        &&& self.0 / 2 < 81
    }

    /// The packed byte.
    pub closed spec fn bits(self) -> u8 {
        self.0
    }

    /// The destination square, as a number.
    pub closed spec fn dest_spec(self) -> int {
        (self.0 / 2) as int
    }

    /// The move to `sq`.
    pub fn new(sq: Square) -> (r: Move)
        ensures
            r.bits() == 1 + 2 * sq@,
            r.bits() != 0,
            r.dest_spec() == sq@,
    {
        let s: u8 = sq.idx() as u8;
        assert(1u8 | (s << 1u8) == 1 + 2 * s) by (bit_vector)
            requires
                s < 81,
        ;
        Move(1u8 | (s << 1u8))
    }

    /// The square this move goes to.
    pub fn dest(self) -> (r: Square)
        ensures
            r@ == self.dest_spec(),
    {
        proof {
            use_type_invariant(&self);
        }
        let b: u8 = self.0;
        assert(b >> 1u8 == b / 2) by (bit_vector);
        Square::index((b >> 1u8) as usize)
    }
}

/// Law: packing a square into a move and reading it back gives the square.
pub proof fn law_move_round_trip(sq: Square, m: Move)
    requires
        m.dest_spec() == sq@,
    ensures
        square_at(m.dest_spec()) == sq,
{
    lemma_square_index(sq);
}

} // verus!
