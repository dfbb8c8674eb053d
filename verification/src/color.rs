//! The two piece colors.  Pawns are the only direction-asymmetric piece;
//! every table is still keyed by color for lookup uniformity.

use vstd::prelude::*;

verus! {

#[derive(Debug, PartialEq, Eq, Structural, Clone, Copy)]
pub enum ChessColor {
    White,
    Black,
}

/// 0 for White, 1 for Black: the order in which the tables are built.
pub open spec fn color_index(c: ChessColor) -> int {
    match c {
        ChessColor::White => 0,
        ChessColor::Black => 1,
    }
}

impl ChessColor {
    /// Both colors, in table-building order.
    pub fn get_color_vector() -> (v: Vec<ChessColor>)
        ensures
            v@ == seq![ChessColor::White, ChessColor::Black],
    {
        let mut v: Vec<ChessColor> = Vec::new();
        v.push(ChessColor::White);
        v.push(ChessColor::Black);
        proof {
            assert(v@ =~= seq![ChessColor::White, ChessColor::Black]);
        }
        v
    }
}

} // verus!
