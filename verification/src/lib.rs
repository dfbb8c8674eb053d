//! Precomputed chess attack tables.
//!
//! This crate builds, once at startup, exhaustive lookup tables mapping a
//! piece's color, board square, and the occupancy pattern of the squares it
//! could interact with, to the bitboard of squares it threatens or can move
//! to.  Squares are indexed 0..64 from the lower-right corner; a bitboard is
//! a `u64` whose bit `i` stands for square `i`.

pub mod bits;
pub mod color;
pub mod piece;
pub mod table;
pub mod coords;
pub mod constants;
pub mod subsets;
pub mod catalog;
pub mod attack;
pub mod combos;

pub use color::ChessColor;
pub use piece::ChessPiece;
pub use table::AttackTable;
pub use constants::Constants;
