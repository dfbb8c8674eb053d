//! The fully built set of lookup tables, constructed once at startup.

use vstd::prelude::*;
use std::collections::HashMap;
use crate::bits::{bit_positions, popcount};
use crate::piece::ChessPiece;
use crate::table::{table_spec, AttackTable};

verus! {

/// Every board column except the leftmost and the rightmost, one bit per
/// square: the squares whose column is 1 through 6.
pub const PAWN_MIDDLE_MASK: u64 = 9_114_861_777_597_660_798;

/// The leftmost board column: the squares whose column is 7.
pub const PAWN_LEFT_MASK: u64 = 9_259_542_123_273_814_144;

/// The rightmost board column: the squares whose column is 0.
pub const PAWN_RIGHT_MASK: u64 = 72_340_172_838_076_673;

/// The largest bit count the square-count cache is built for.
pub const NUM_TO_BIT_POSITION_MAX_VAL: u64 = 3;

/// The ten attack lookup tables (threat and move variants for each piece
/// kind), the fixed pawn file masks, and the square-count cache.
pub struct Constants {
    pub pawn_threat_hashmap: AttackTable,
    pub pawn_move_hashmap: AttackTable,
    pub rook_threat_hashmap: AttackTable,
    pub rook_move_hashmap: AttackTable,
    pub bishop_threat_hashmap: AttackTable,
    pub bishop_move_hashmap: AttackTable,
    pub knight_threat_hashmap: AttackTable,
    pub knight_move_hashmap: AttackTable,
    pub king_threat_hashmap: AttackTable,
    pub king_move_hashmap: AttackTable,
    pub pawn_middle_mask: u64,
    pub pawn_left_mask: u64,
    pub pawn_right_mask: u64,
    pub num_to_bit_position_hashmap: HashMap<u64, Vec<u64>>,
    pub num_to_bit_position_max_val: u64,
}

impl Constants {
    /// Builds every table eagerly: the ten threat and move tables, the
    /// three pawn file masks, and the square-count cache for masks of one
    /// to three bits.  Nothing is mutated afterwards.
    pub fn new() -> (c: Constants)
        ensures
            c.pawn_threat_hashmap@ == table_spec(ChessPiece::Pawn, true),
            c.pawn_move_hashmap@ == table_spec(ChessPiece::Pawn, false),
            c.rook_threat_hashmap@ == table_spec(ChessPiece::Rook, true),
            c.rook_move_hashmap@ == table_spec(ChessPiece::Rook, false),
            c.bishop_threat_hashmap@ == table_spec(ChessPiece::Bishop, true),
            c.bishop_move_hashmap@ == table_spec(ChessPiece::Bishop, false),
            c.knight_threat_hashmap@ == table_spec(ChessPiece::Knight, true),
            c.knight_move_hashmap@ == table_spec(ChessPiece::Knight, false),
            c.king_threat_hashmap@ == table_spec(ChessPiece::King, true),
            c.king_move_hashmap@ == table_spec(ChessPiece::King, false),
            c.pawn_middle_mask == PAWN_MIDDLE_MASK,
            c.pawn_left_mask == PAWN_LEFT_MASK,
            c.pawn_right_mask == PAWN_RIGHT_MASK,
            forall|b: u64| #[trigger]
                c.num_to_bit_position_hashmap@.contains_key(b) <==> 1 <= popcount(b)
                    <= NUM_TO_BIT_POSITION_MAX_VAL,
            forall|b: u64| #[trigger]
                c.num_to_bit_position_hashmap@.contains_key(b)
                    ==> c.num_to_bit_position_hashmap@[b]@ == bit_positions(b),
            c.num_to_bit_position_max_val == NUM_TO_BIT_POSITION_MAX_VAL,
    {
        Constants {
            pawn_threat_hashmap: Self::make_threat_or_move_hashmap(ChessPiece::Pawn, true),
            pawn_move_hashmap: Self::make_threat_or_move_hashmap(ChessPiece::Pawn, false),
            rook_threat_hashmap: Self::make_threat_or_move_hashmap(ChessPiece::Rook, true),
            rook_move_hashmap: Self::make_threat_or_move_hashmap(ChessPiece::Rook, false),
            bishop_threat_hashmap: Self::make_threat_or_move_hashmap(ChessPiece::Bishop, true),
            bishop_move_hashmap: Self::make_threat_or_move_hashmap(ChessPiece::Bishop, false),
            knight_threat_hashmap: Self::make_threat_or_move_hashmap(ChessPiece::Knight, true),
            knight_move_hashmap: Self::make_threat_or_move_hashmap(ChessPiece::Knight, false),
            king_threat_hashmap: Self::make_threat_or_move_hashmap(ChessPiece::King, true),
            king_move_hashmap: Self::make_threat_or_move_hashmap(ChessPiece::King, false),
            pawn_middle_mask: PAWN_MIDDLE_MASK,
            pawn_left_mask: PAWN_LEFT_MASK,
            pawn_right_mask: PAWN_RIGHT_MASK,
            num_to_bit_position_hashmap: Self::make_num_to_bit_positions_hashmap(
                NUM_TO_BIT_POSITION_MAX_VAL,
            ),
            num_to_bit_position_max_val: NUM_TO_BIT_POSITION_MAX_VAL,
        }
    }
}

/// The pawn file masks hold exactly the squares of their columns.
pub proof fn lemma_pawn_file_masks()
    ensures
        forall|s: u64|
            #[trigger] crate::bits::bit_set(PAWN_MIDDLE_MASK, s) <==> s < 64 && 1 <= s % 8 <= 6,
        forall|s: u64| #[trigger] crate::bits::bit_set(PAWN_LEFT_MASK, s) <==> s < 64 && s % 8 == 7,
        forall|s: u64|
            #[trigger] crate::bits::bit_set(PAWN_RIGHT_MASK, s) <==> s < 64 && s % 8 == 0,
{
    assert(forall|s: u64|
        crate::bits::bit_set(9_114_861_777_597_660_798u64, s) <==> s < 64 && 1 <= s % 8
            <= 6) by (bit_vector);
    assert(forall|s: u64|
        crate::bits::bit_set(9_259_542_123_273_814_144u64, s) <==> s < 64 && s % 8
            == 7) by (bit_vector);
    assert(forall|s: u64|
        crate::bits::bit_set(72_340_172_838_076_673u64, s) <==> s < 64 && s % 8
            == 0) by (bit_vector);
}

} // verus!
