use vstd::prelude::*;

verus! {

/// Why a request was turned down.
#[derive(PartialEq, Eq, Structural, Clone, Copy, Debug, Hash)]
pub enum CoreError {
    /// A square index was not below 64, or a rank or file not below 8.
    IndexOutOfRange,
    /// The square holds a piece of the side that is not to move.
    NotYourPiece,
    /// The move is not among the legal moves of the position.
    IllegalMove,
    /// Two masks claim one square. A well-formed position never reports it.
    CorruptState,
}

} // verus!
