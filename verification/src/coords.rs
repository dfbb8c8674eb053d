//! The square codec: a linear square index in [0, 64) versus (column, row)
//! coordinates.  Index 0 is the lower-right corner, 63 the upper left;
//! column = index mod 8, row = index div 8.

use vstd::prelude::*;
use crate::constants::Constants;

verus! {

/// True when (col, row) is a coordinate of the 8x8 board.
pub open spec fn on_board(col: int, row: int) -> bool {
    0 <= col < 8 && 0 <= row < 8
}

/// The linear square index of a coordinate pair.
pub open spec fn square_of(col: int, row: int) -> int {
    row * 8 + col
}

/// The codec is an exact inverse pair on the board: decoding a square and
/// re-encoding it gives the square back, and encoding a coordinate pair and
/// decoding it gives the pair back.
pub proof fn lemma_square_coords_roundtrip()
    ensures
        forall|square: int|
            0 <= square < 64 ==> #[trigger] square_of(square % 8, square / 8) == square,
        forall|col: int, row: int|
            on_board(col, row) ==> #[trigger] square_of(col, row) % 8 == col && square_of(col, row)
                / 8 == row && 0 <= square_of(col, row) < 64,
{
    assert forall|col: int, row: int| on_board(col, row) implies #[trigger] square_of(col, row) % 8
        == col && square_of(col, row) / 8 == row && 0 <= square_of(col, row) < 64 by {
        assert((row * 8 + col) % 8 == col && (row * 8 + col) / 8 == row) by (nonlinear_arith)
            requires
                0 <= col < 8 && 0 <= row < 8,
        ;
    }
}

impl Constants {
    /// Decodes a square index into its (column, row) coordinates.
    pub fn get_coordinates_from_bit_position(bit_position: u64) -> (coords: (u64, u64))
        ensures
            coords.0 == bit_position % 8,
            coords.1 == bit_position / 8,
            bit_position < 64 ==> square_of(coords.0 as int, coords.1 as int) == bit_position
                && on_board(coords.0 as int, coords.1 as int),
    {
        proof {
            lemma_square_coords_roundtrip();
        }
        (bit_position % 8, bit_position / 8)
    }

    /// Encodes (column, row) coordinates into a square index.
    pub fn get_bit_position_from_coordinates(col: u64, row: u64) -> (bit_position: u64)
        requires
            on_board(col as int, row as int),
        ensures
            bit_position == square_of(col as int, row as int),
            bit_position < 64,
            bit_position % 8 == col && bit_position / 8 == row,
    {
        proof {
            lemma_square_coords_roundtrip();
        }
        row * 8 + col
    }
}

} // verus!
