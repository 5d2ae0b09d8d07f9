use vstd::prelude::*;

verus! {

/// A row of the 9x9 grid, `First` (bottom) to `Ninth` (top).
#[derive(Debug, Copy, Clone, PartialEq, Eq, Structural)]
pub enum Rank {
    First,
    Second,
    Third,
    Fourth,
    Fifth,
    Sixth,
    Seventh,
    Eighth,
    Ninth,
}

impl View for Rank {
    type V = int;

    open spec fn view(&self) -> int {
        match self {
            Rank::First => 0,
            Rank::Second => 1,
            Rank::Third => 2,
            Rank::Fourth => 3,
            Rank::Fifth => 4,
            Rank::Sixth => 5,
            Rank::Seventh => 6,
            Rank::Eighth => 7,
            Rank::Ninth => 8,
        }
    }
}

/// The rank numbered `i`, counting from 0.
pub open spec fn rank_at(i: int) -> Rank
    recommends
        0 <= i < 9,
{
    if i == 0 {
        Rank::First
    } else if i == 1 {
        Rank::Second
    } else if i == 2 {
        Rank::Third
    } else if i == 3 {
        Rank::Fourth
    } else if i == 4 {
        Rank::Fifth
    } else if i == 5 {
        Rank::Sixth
    } else if i == 6 {
        Rank::Seventh
    } else if i == 7 {
        Rank::Eighth
    } else {
        Rank::Ninth
    }
}

/// Every rank has a number in `0..9`, and that number names it.
pub broadcast proof fn lemma_rank_index(x: Rank)
    ensures
        0 <= #[trigger] x@ < 9,
        rank_at(x@) == x,
{
}

/// The rank named by a number in `0..9` has that number.
pub broadcast proof fn lemma_rank_at(i: int)
    requires
        0 <= i < 9,
    ensures
        #[trigger] rank_at(i)@ == i,
{
}

impl Rank {
    pub const COUNT: usize = 9;

    /// The number of this rank, counting from 0.
    pub fn idx(self) -> (r: usize)
        ensures
            r == self@,
            r < 9,
    {
        match self {
            Rank::First => 0,
            Rank::Second => 1,
            Rank::Third => 2,
            Rank::Fourth => 3,
            Rank::Fifth => 4,
            Rank::Sixth => 5,
            Rank::Seventh => 6,
            Rank::Eighth => 7,
            Rank::Ninth => 8,
        }
    }

    /// The rank numbered `i`, which must be below 9.
    pub fn index(i: usize) -> (r: Rank)
        requires
            i < 9,
        ensures
            r@ == i,
            r == rank_at(i as int),
    {
        match i {
            0 => Rank::First,
            1 => Rank::Second,
            2 => Rank::Third,
            3 => Rank::Fourth,
            4 => Rank::Fifth,
            5 => Rank::Sixth,
            6 => Rank::Seventh,
            7 => Rank::Eighth,
            _ => Rank::Ninth,
        }
    }

    /// The rank numbered `i`, or `None` when `i` is 9 or more.
    pub fn try_index(i: usize) -> (r: Option<Rank>)
        ensures
            i < 9 ==> r == Some(rank_at(i as int)),
            i >= 9 ==> r is None,
    {
        if i < 9 {
            Some(Self::index(i))
        } else {
            None
        }
    }

    /// The rank `dy` steps away; the result must lie on the board.
    pub fn offset(self, dy: i8) -> (r: Rank)
        requires
            0 <= self@ + dy < 9,
        ensures
            r@ == self@ + dy,
    {
        let i: i8 = self.idx() as i8 + dy;
        Self::index(i as usize)
    }

    /// The rank `dy` steps away, or `None` when that leaves the board.
    pub fn try_offset(self, dy: i8) -> (r: Option<Rank>)
        ensures
            0 <= self@ + dy < 9 ==> r == Some(rank_at(self@ + dy)),
            !(0 <= self@ + dy < 9) ==> r is None,
    {
        let i: i16 = self.idx() as i16 + dy as i16;
        if i < 0 || i >= 9 {
            return None;
        }
        Self::try_index(i as usize)
    }

    /// The mirror image of this rank: number `i` becomes `8 - i`.
    pub fn flip(self) -> (r: Rank)
        ensures
            r@ == 8 - self@,
    {
        Self::index(8 - self.idx())
    }

}

} // verus!
