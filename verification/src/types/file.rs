use vstd::prelude::*;

verus! {

/// A column of the 9x9 grid, `A` (left) to `I` (right).
#[derive(Debug, Copy, Clone, PartialEq, Eq, Structural)]
pub enum File {
    A,
    B,
    C,
    D,
    E,
    F,
    G,
    H,
    I,
}

impl View for File {
    type V = int;

    open spec fn view(&self) -> int {
        match self {
            File::A => 0,
            File::B => 1,
            File::C => 2,
            File::D => 3,
            File::E => 4,
            File::F => 5,
            File::G => 6,
            File::H => 7,
            File::I => 8,
        }
    }
}

/// The file numbered `i`, counting from 0.
pub open spec fn file_at(i: int) -> File
    recommends
        0 <= i < 9,
{
    if i == 0 {
        File::A
    } else if i == 1 {
        File::B
    } else if i == 2 {
        File::C
    } else if i == 3 {
        File::D
    } else if i == 4 {
        File::E
    } else if i == 5 {
        File::F
    } else if i == 6 {
        File::G
    } else if i == 7 {
        File::H
    } else {
        File::I
    }
}

/// Every file has a number in `0..9`, and that number names it.
pub broadcast proof fn lemma_file_index(x: File)
    ensures
        0 <= #[trigger] x@ < 9,
        file_at(x@) == x,
{
}

/// The file named by a number in `0..9` has that number.
pub broadcast proof fn lemma_file_at(i: int)
    requires
        0 <= i < 9,
    ensures
        #[trigger] file_at(i)@ == i,
{
}

impl File {
    pub const COUNT: usize = 9;

    /// The number of this file, counting from 0.
    pub fn idx(self) -> (r: usize)
        ensures
            r == self@,
            r < 9,
    {
        match self {
            File::A => 0,
            File::B => 1,
            File::C => 2,
            File::D => 3,
            File::E => 4,
            File::F => 5,
            File::G => 6,
            File::H => 7,
            File::I => 8,
        }
    }

    /// The file numbered `i`, which must be below 9.
    pub fn index(i: usize) -> (r: File)
        requires
            i < 9,
        ensures
            r@ == i,
            r == file_at(i as int),
    {
        match i {
            0 => File::A,
            1 => File::B,
            2 => File::C,
            3 => File::D,
            4 => File::E,
            5 => File::F,
            6 => File::G,
            7 => File::H,
            _ => File::I,
        }
    }

    /// The file numbered `i`, or `None` when `i` is 9 or more.
    pub fn try_index(i: usize) -> (r: Option<File>)
        ensures
            i < 9 ==> r == Some(file_at(i as int)),
            i >= 9 ==> r is None,
    {
        if i < 9 {
            Some(Self::index(i))
        } else {
            None
        }
    }

    /// The file `dx` steps away; the result must lie on the board.
    pub fn offset(self, dx: i8) -> (r: File)
        requires
            0 <= self@ + dx < 9,
        ensures
            r@ == self@ + dx,
    {
        let i: i8 = self.idx() as i8 + dx;
        Self::index(i as usize)
    }

    /// The file `dx` steps away, or `None` when that leaves the board.
    pub fn try_offset(self, dx: i8) -> (r: Option<File>)
        ensures
            0 <= self@ + dx < 9 ==> r == Some(file_at(self@ + dx)),
            !(0 <= self@ + dx < 9) ==> r is None,
    {
        let i: i16 = self.idx() as i16 + dx as i16;
        if i < 0 || i >= 9 {
            return None;
        }
        Self::try_index(i as usize)
    }

    /// The mirror image of this file: number `i` becomes `8 - i`.
    pub fn flip(self) -> (r: File)
        ensures
            r@ == 8 - self@,
    {
        Self::index(8 - self.idx())
    }

}

} // verus!
