use vstd::prelude::*;
use crate::error::CoreError;

verus! {

/// Whether rank `r` and file `f` name a square of the board.
pub open spec fn on_board(r: int, f: int) -> bool {
    0 <= r < 8 && 0 <= f < 8
}

/// The index of the square on rank `r` and file `f`.
pub open spec fn index_of(r: int, f: int) -> int {
    8 * r + f
}

/// The rank of square `i`.
pub open spec fn rank_of(i: int) -> int {
    i / 8
}

/// The file of square `i`.
pub open spec fn file_of(i: int) -> int {
    i % 8
}

/// A square of the board by rank and file, each below 8 on a valid square.
#[derive(PartialEq, Eq, Structural, Clone, Copy, Debug, Hash)]
pub struct Square {
    pub rank: usize,
    pub file: usize,
}

/// The square with index `i`.
pub open spec fn square_of(i: int) -> Square {
    Square { rank: rank_of(i) as usize, file: file_of(i) as usize }
}

impl Square {
    /// Whether the square lies on the board.
    pub open spec fn valid(self) -> bool {
        self.rank < 8 && self.file < 8
    }

    /// The square's index.
    pub open spec fn index(self) -> int {
        index_of(self.rank as int, self.file as int)
    }

    /// The square on rank `j` and file `i`. Nothing is checked here: a square
    /// off the board is turned down where it is used.
    pub fn new(j: usize, i: usize) -> (s: Self)
        ensures
            s.rank == j,
            s.file == i,
    {
        let j_pos = j;
        let i_pos = i;
        Square { rank: j_pos, file: i_pos }
    }

    /// The square's rank.
    pub fn rank(&self) -> (r: usize)
        ensures
            r == self.rank,
    {
        self.rank
    }

    /// The square's file.
    pub fn file(&self) -> (f: usize)
        ensures
            f == self.file,
    {
        self.file
    }

    /// Whether the square lies on the board.
    pub fn is_valid(&self) -> (b: bool)
        ensures
            b == self.valid(),
    {
        self.rank < 8 && self.file < 8
    }
}

/// The square with index `location`.
pub fn loc_as_square(location: usize) -> (r: Result<Square, CoreError>)
    ensures
        location < 64 ==> r == Ok::<Square, CoreError>(square_of(location as int)),
        location >= 64 ==> r == Err::<Square, CoreError>(CoreError::IndexOutOfRange),
{
    if location >= 64 {
        return Err(CoreError::IndexOutOfRange);
    }
    Ok(Square::new(location / 8, location % 8))
}

/// The index of `square`.
pub fn square_as_loc(square: Square) -> (r: Result<usize, CoreError>)
    ensures
        square.valid() ==> r == Ok::<usize, CoreError>(square.index() as usize),
        !square.valid() ==> r == Err::<usize, CoreError>(CoreError::IndexOutOfRange),
{
    if square.rank >= 8 || square.file >= 8 {
        return Err(CoreError::IndexOutOfRange);
    }
    Ok(square.rank * 8 + square.file)
}

/// Every index below 64 is the index of its own square.
pub proof fn lemma_index_round_trip(i: int)
    requires
        0 <= i < 64,
    ensures
        square_of(i).valid(),
        square_of(i).index() == i,
{
}

/// Every valid square is the square of its own index.
pub proof fn lemma_square_round_trip(square: Square)
    requires
        square.valid(),
    ensures
        0 <= square.index() < 64,
        square_of(square.index()) == square,
        rank_of(square.index()) == square.rank,
        file_of(square.index()) == square.file,
{
}

/// The eight ways to step from a square to a neighbour. North is towards
/// rank 7 and east towards file 7.
#[derive(PartialEq, Eq, Structural, Clone, Copy, Debug, Hash)]
pub enum Direction {
    North,
    South,
    East,
    West,
    NorthEast,
    NorthWest,
    SouthEast,
    SouthWest,
}

impl Direction {
    /// The change of rank in one step: 1, 0 or -1.
    pub open spec fn dr(self) -> int {
        match self {
            Direction::North | Direction::NorthEast | Direction::NorthWest => 1,
            Direction::South | Direction::SouthEast | Direction::SouthWest => -1,
            Direction::East | Direction::West => 0,
        }
    }

    /// The change of file in one step: 1, 0 or -1.
    pub open spec fn df(self) -> int {
        match self {
            Direction::East | Direction::NorthEast | Direction::SouthEast => 1,
            Direction::West | Direction::NorthWest | Direction::SouthWest => -1,
            Direction::North | Direction::South => 0,
        }
    }

    /// The change of rank in one step.
    pub fn rank_step(self) -> (r: i8)
        ensures
            r == self.dr(),
    {
        match self {
            Direction::North | Direction::NorthEast | Direction::NorthWest => 1,
            Direction::South | Direction::SouthEast | Direction::SouthWest => -1,
            Direction::East | Direction::West => 0,
        }
    }

    /// The change of file in one step.
    pub fn file_step(self) -> (r: i8)
        ensures
            r == self.df(),
    {
        match self {
            Direction::East | Direction::NorthEast | Direction::SouthEast => 1,
            Direction::West | Direction::NorthWest | Direction::SouthWest => -1,
            Direction::North | Direction::South => 0,
        }
    }
}

/// The square `dr` ranks and `df` files away from `square`, if both lie on the board.
pub open spec fn shifted(square: Square, dr: int, df: int) -> Option<Square> {
    if square.valid() && on_board(square.rank + dr, square.file + df) {
        Some(Square { rank: (square.rank + dr) as usize, file: (square.file + df) as usize })
    } else {
        None
    }
}

/// The square `dr` ranks and `df` files away from `square`; `None` where that
/// leaves the board, or where `square` is itself off the board.
pub fn shift(square: Square, dr: i8, df: i8) -> (r: Option<Square>)
    ensures
        r == shifted(square, dr as int, df as int),
        r matches Some(s) ==> s.valid() && s.index() == square.index() + 8 * dr + df,
{
    if square.rank >= 8 || square.file >= 8 {
        return None;
    }
    let rank: i16 = square.rank as i16 + dr as i16;
    let file: i16 = square.file as i16 + df as i16;
    if 0 <= rank && rank < 8 && 0 <= file && file < 8 {
        Some(Square { rank: rank as usize, file: file as usize })
    } else {
        None
    }
}

/// The neighbour of `square` in `direction`; `None` at the edge of the board.
pub fn step(square: Square, direction: Direction) -> (r: Option<Square>)
    ensures
        r == shifted(square, direction.dr(), direction.df()),
        r matches Some(s) ==> s.valid(),
{
    shift(square, direction.rank_step(), direction.file_step())
}

} // verus!
