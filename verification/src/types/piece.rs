use vstd::prelude::*;

verus! {

/// One of the two players (and the mark it places).
#[derive(Debug, Copy, Clone, PartialEq, Eq, Structural)]
pub enum Piece {
    X,
    O,
}

impl View for Piece {
    type V = int;

    open spec fn view(&self) -> int {
        match self {
            Piece::X => 0,
            Piece::O => 1,
        }
    }
}

/// The opponent of `p`.
pub open spec fn opponent(p: Piece) -> Piece {
    match p {
        Piece::X => Piece::O,
        Piece::O => Piece::X,
    }
}

/// The piece a character names, ignoring case.
pub open spec fn piece_of_char(c: char) -> Option<Piece> {
    if c == 'x' || c == 'X' {
        Some(Piece::X)
    } else if c == 'o' || c == 'O' {
        Some(Piece::O)
    } else {
        None
    }
}

/// The lower-case letter of a piece.
pub open spec fn char_of_piece(p: Piece) -> char {
    match p {
        Piece::X => 'x',
        Piece::O => 'o',
    }
}

impl Piece {
    pub const COUNT: usize = 2;

    /// The number of the piece: 0 for `X`, 1 for `O`.
    pub fn idx(self) -> (r: usize)
        ensures
            r == self@,
            r < 2,
    {
        match self {
            Piece::X => 0,
            Piece::O => 1,
        }
    }

    /// The piece written as `c` (`x` or `o`, in either case).
    pub fn from_char(c: char) -> (r: Option<Piece>)
        ensures
            r == piece_of_char(c),
    {
        match c {
            'x' | 'X' => Some(Piece::X),
            'o' | 'O' => Some(Piece::O),
            _ => None,
        }
    }

    /// The lower-case letter of this piece.
    pub fn to_char(self) -> (r: char)
        ensures
            r == char_of_piece(self),
    {
        match self {
            Piece::X => 'x',
            Piece::O => 'o',
        }
    }

    pub fn not(self) -> (r: Piece)
        ensures
            r == opponent(self),
    {
        match self {
            Piece::X => Piece::O,
            Piece::O => Piece::X,
        }
    }
}

} // verus!
