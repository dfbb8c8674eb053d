//! The chess piece kinds.

use vstd::prelude::*;

verus! {

#[derive(Debug, PartialEq, Clone, Copy)]
pub enum ChessPiece {
    Pawn,
    Rook,
    Knight,
    Bishop,
    Queen,
    King,
}

} // verus!
