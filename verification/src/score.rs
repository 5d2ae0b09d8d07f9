use vstd::prelude::*;

verus! {

/// A search score from the point of view of the side to move.
#[derive(Debug, Copy, Clone, PartialEq, Eq, Structural)]
pub struct Score(pub i32);

/// The score of the side to move when the game ended with the opponent's
/// win `ply` moves from the root: the sooner, the lower.
pub open spec fn mated_score(ply: int) -> int {
    -Score::MATE + ply
}

impl Score {
    /// The largest magnitude a search window takes.
    pub const INF: i32 = 32000;
    /// The score of a loss at the root.
    pub const MATE: i32 = 31000;
    /// Below every score a position can have: the start of a maximum.
    pub const NONE: i32 = -32001;

    /// The score of being mated `ply` moves from the root.
    pub fn mated(ply: u8) -> (r: Score)
        ensures
            r.0 == mated_score(ply as int),
    {
        Score(-Self::MATE + ply as i32)
    }

    /// The same score from the opponent's point of view.
    pub fn neg(self) -> (r: Score)
        requires
            self.0 > i32::MIN,
        ensures
            r.0 == -self.0,
    {
        Score(-self.0)
    }
}

} // verus!
