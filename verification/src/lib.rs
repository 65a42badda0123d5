//! Board state and move generation for chess.
//!
//! A [`Position`] holds the pieces of both sides as 64-bit occupancy masks,
//! together with the side to move, the castling rights, the en-passant target
//! and the move counters. It answers which moves are legal from a square and
//! applies a chosen move. Every function carries a contract over the
//! mathematical model in [`rules`], and the contracts are machine-checked.
//!
//! Squares are numbered 0 to 63, rank by rank: square `8 * rank + file`. Bit
//! `i` of a mask stands for square `i`. Black starts on ranks 0 and 1 and
//! White on ranks 6 and 7, so that the board reads from rank 0 down as White
//! sees it; file 0 is the queen's rook file, and the kings start on file 4.

pub mod error;
pub mod bitboard;
pub mod coord;
pub mod pieces;
pub mod rules;
pub mod position;
pub mod attacks;
pub mod movegen;
pub mod legality;
pub mod game;
pub mod laws;

pub use crate::bitboard::BitBoard;
pub use crate::coord::{loc_as_square, shift, square_as_loc, step, Direction, Square};
pub use crate::error::CoreError;
pub use crate::game::Chess;
pub use crate::pieces::{Move, Piece, Special, Team};
pub use crate::position::Position;
pub use crate::rules::Rights;
