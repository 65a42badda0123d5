use vstd::prelude::*;
use crate::coord::Square;

verus! {

/// The two sides. White is the first player. It starts on ranks 6 and 7 and
/// advances towards rank 0; Black starts on ranks 0 and 1 and advances
/// towards rank 7.
#[derive(PartialEq, Eq, Structural, Clone, Copy, Debug, Hash)]
pub enum Team {
    White,
    Black,
}

impl Team {
    /// The other side.
    pub open spec fn other(self) -> Team {
        match self {
            Team::White => Team::Black,
            Team::Black => Team::White,
        }
    }

    /// The change of rank when a pawn of this side advances.
    pub open spec fn forward(self) -> int {
        match self {
            Team::White => -1,
            Team::Black => 1,
        }
    }

    /// The rank on which this side's king and rooks start.
    pub open spec fn home_rank(self) -> int {
        match self {
            Team::White => 7,
            Team::Black => 0,
        }
    }

    /// The rank on which this side's pawns start.
    pub open spec fn pawn_rank(self) -> int {
        match self {
            Team::White => 6,
            Team::Black => 1,
        }
    }

    /// The rank on which this side's pawns promote.
    pub open spec fn last_rank(self) -> int {
        match self {
            Team::White => 0,
            Team::Black => 7,
        }
    }

    /// The place of this side in an array of two.
    pub open spec fn slot(self) -> int {
        match self {
            Team::White => 0,
            Team::Black => 1,
        }
    }

    /// The other side.
    pub fn opponent(self) -> (r: Team)
        ensures
            r == self.other(),
    {
        match self {
            Team::White => Team::Black,
            Team::Black => Team::White,
        }
    }

    /// The change of rank when a pawn of this side advances.
    pub fn advance(self) -> (r: i8)
        ensures
            r == self.forward(),
    {
        match self {
            Team::White => -1,
            Team::Black => 1,
        }
    }

    /// The rank on which this side's king and rooks start.
    pub fn back_rank(self) -> (r: usize)
        ensures
            r == self.home_rank(),
    {
        match self {
            Team::White => 7,
            Team::Black => 0,
        }
    }

    /// The rank on which this side's pawns start.
    pub fn start_rank(self) -> (r: usize)
        ensures
            r == self.pawn_rank(),
    {
        match self {
            Team::White => 6,
            Team::Black => 1,
        }
    }

    /// The rank on which this side's pawns promote.
    pub fn far_rank(self) -> (r: usize)
        ensures
            r == self.last_rank(),
    {
        match self {
            Team::White => 0,
            Team::Black => 7,
        }
    }

    pub(crate) fn place(self) -> (r: usize)
        ensures
            r == self.slot(),
    {
        match self {
            Team::White => 0,
            Team::Black => 1,
        }
    }
}

/// The six kinds of piece.
#[derive(PartialEq, Eq, Structural, Clone, Copy, Debug, Hash)]
pub enum Piece {
    Rook,
    Bishop,
    Knight,
    King,
    Queen,
    Pawn,
}

impl Piece {
    /// The place of this kind in an array of six.
    pub open spec fn slot(self) -> int {
        match self {
            Piece::Rook => 0,
            Piece::Bishop => 1,
            Piece::Knight => 2,
            Piece::King => 3,
            Piece::Queen => 4,
            Piece::Pawn => 5,
        }
    }

    /// Whether a pawn may promote to this kind.
    pub open spec fn promotable(self) -> bool {
        self is Queen || self is Rook || self is Bishop || self is Knight
    }

    /// The letter that stands for this kind on a printed board.
    pub open spec fn symbol(self) -> char {
        match self {
            Piece::Rook => 'R',
            Piece::Bishop => 'B',
            Piece::Knight => 'N',
            Piece::King => 'K',
            Piece::Queen => 'Q',
            Piece::Pawn => 'P',
        }
    }

    /// The letter that stands for this kind on a printed board.
    pub fn letter(self) -> (c: char)
        ensures
            c == self.symbol(),
    {
        match self {
            Piece::Rook => 'R',
            Piece::Bishop => 'B',
            Piece::Knight => 'N',
            Piece::King => 'K',
            Piece::Queen => 'Q',
            Piece::Pawn => 'P',
        }
    }

    pub(crate) fn place(self) -> (r: usize)
        ensures
            r == self.slot(),
    {
        match self {
            Piece::Rook => 0,
            Piece::Bishop => 1,
            Piece::Knight => 2,
            Piece::King => 3,
            Piece::Queen => 4,
            Piece::Pawn => 5,
        }
    }
}

/// What a move does beyond carrying a piece from one square to another.
#[derive(PartialEq, Eq, Structural, Clone, Copy, Debug, Hash)]
pub enum Special {
    /// Nothing more: a plain move or capture.
    Normal,
    /// A pawn advances two ranks from its starting rank.
    DoublePawnPush,
    /// A pawn takes the pawn that has just passed it.
    EnPassantCapture,
    /// A pawn reaches the last rank and becomes the given kind.
    Promotion(Piece),
    /// The king castles with the rook on file 7.
    CastleKingside,
    /// The king castles with the rook on file 0.
    CastleQueenside,
}

/// A move: where from, where to, and what is special about it.
#[derive(PartialEq, Eq, Structural, Clone, Copy, Debug, Hash)]
pub struct Move {
    pub original_pos: Square,
    pub to_pos: Square,
    pub special: Special,
}

impl Move {
    /// Whether both squares lie on the board.
    pub open spec fn valid(self) -> bool {
        self.original_pos.valid() && self.to_pos.valid()
    }

    /// The index of the square the move starts from.
    pub open spec fn from(self) -> int {
        self.original_pos.index()
    }

    /// The index of the square the move ends on.
    pub open spec fn to(self) -> int {
        self.to_pos.index()
    }

    /// The move from `origin` to `destination` with the given tag.
    pub fn new(origin: Square, destination: Square, special: Special) -> (m: Move)
        ensures
            m.original_pos == origin,
            m.to_pos == destination,
            m.special == special,
    {
        Move { original_pos: origin, to_pos: destination, special }
    }

    /// The square the move starts from.
    pub fn origin(&self) -> (s: Square)
        ensures
            s == self.original_pos,
    {
        self.original_pos
    }

    /// The square the move ends on.
    pub fn destination(&self) -> (s: Square)
        ensures
            s == self.to_pos,
    {
        self.to_pos
    }

    /// What is special about the move.
    pub fn special(&self) -> (s: Special)
        ensures
            s == self.special,
    {
        self.special
    }
}

} // verus!
