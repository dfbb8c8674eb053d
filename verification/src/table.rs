//! A lookup table from (color, square, occupancy) to a result bitboard.
//!
//! The executable table is a hash map keyed by a packed 128-bit integer; its
//! view is the mathematical map keyed by the triple itself.

use vstd::prelude::*;
use std::collections::HashMap;
use crate::attack::{attack_spaces, footprint, lemma_attack_spaces_zero_occupancy};
use crate::bits::submask;
use crate::color::{color_index, ChessColor};
use crate::constants::Constants;
use crate::piece::ChessPiece;

verus! {

/// The packed key reserves the low 64 bits for the occupancy bitboard.
pub const TABLE_KEY_BASE: u128 = 0x1_0000_0000_0000_0000;

/// The packed hash-map key for a (color, square, occupancy) triple.
pub open spec fn key_of(c: ChessColor, position: u64, other_pieces: u64) -> u128 {
    (((color_index(c) * 64 + position) * TABLE_KEY_BASE) + other_pieces) as u128
}

/// Packing is injective on in-range squares, so distinct triples never
/// collide in the hash map.
pub proof fn lemma_key_of_injective(
    c1: ChessColor,
    p1: u64,
    o1: u64,
    c2: ChessColor,
    p2: u64,
    o2: u64,
)
    requires
        p1 < 64,
        p2 < 64,
        key_of(c1, p1, o1) == key_of(c2, p2, o2),
    ensures
        c1 == c2 && p1 == p2 && o1 == o2,
{
    let h1: int = color_index(c1) * 64 + p1;
    let h2: int = color_index(c2) * 64 + p2;
    let base: int = TABLE_KEY_BASE as int;
    assert(0 <= h1 < 128 && 0 <= h2 < 128);
    assert(h1 * base + o1 == h2 * base + o2);
    if h1 < h2 {
        assert(h1 * base + o1 < (h1 + 1) * base && (h1 + 1) * base <= h2 * base);
    }
    if h2 < h1 {
        assert(h2 * base + o2 < (h2 + 1) * base && (h2 + 1) * base <= h1 * base);
    }
    assert(h1 == h2 && o1 == o2);
}

/// Computes the packed key of a (color, square, occupancy) triple.
fn table_key(color: ChessColor, position: u64, other_pieces: u64) -> (key: u128)
    requires
        position < 64,
    ensures
        key == key_of(color, position, other_pieces),
{
    let ci: u64 = match color {
        ChessColor::White => 0,
        ChessColor::Black => 1,
    };
    let high: u128 = (ci * 64 + position) as u128;
    high * TABLE_KEY_BASE + (other_pieces as u128)
}

/// The mathematical contents of a packed map: the triples (with an in-range
/// square) whose packed key the map holds.
pub open spec fn abs_table(m: Map<u128, u64>) -> Map<(ChessColor, u64, u64), u64> {
    Map::new(
        |k: (ChessColor, u64, u64)| k.1 < 64 && m.contains_key(key_of(k.0, k.1, k.2)),
        |k: (ChessColor, u64, u64)| m[key_of(k.0, k.1, k.2)],
    )
}

/// A threat or move lookup table: maps (color, square, occupancy) to the
/// bitboard of threatened or reachable squares.
pub struct AttackTable {
    map: HashMap<u128, u64>,
}

impl View for AttackTable {
    type V = Map<(ChessColor, u64, u64), u64>;

    closed spec fn view(&self) -> Self::V {
        abs_table(self.map@)
    }
}

proof fn lemma_abs_insert(m: Map<u128, u64>, c: ChessColor, p: u64, o: u64, v: u64)
    requires
        p < 64,
    ensures
        abs_table(m.insert(key_of(c, p, o), v)) == abs_table(m).insert((c, p, o), v),
{
    let lhs = abs_table(m.insert(key_of(c, p, o), v));
    let rhs = abs_table(m).insert((c, p, o), v);
    assert forall|k: (ChessColor, u64, u64)|
        lhs.contains_key(k) == rhs.contains_key(k) && (lhs.contains_key(k) ==> lhs[k]
            == rhs[k]) by {
        if k.1 < 64 {
            if key_of(k.0, k.1, k.2) == key_of(c, p, o) {
                lemma_key_of_injective(k.0, k.1, k.2, c, p, o);
            }
        }
    }
    assert(lhs =~= rhs);
}

impl AttackTable {
    /// An empty table.
    fn new() -> (t: AttackTable)
        ensures
            t@ == Map::<(ChessColor, u64, u64), u64>::empty(),
    {
        let t = AttackTable { map: HashMap::new() };
        proof {
            assert(t@ =~= Map::<(ChessColor, u64, u64), u64>::empty());
        }
        t
    }

    /// Stores the result bitboard for one (color, square, occupancy) key.
    fn insert_entry(&mut self, color: ChessColor, position: u64, other_pieces: u64, value: u64)
        requires
            position < 64,
        ensures
            final(self)@ == old(self)@.insert((color, position, other_pieces), value),
    {
        let key: u128 = table_key(color, position, other_pieces);
        self.map.insert(key, value);
        proof {
            lemma_abs_insert(old(self).map@, color, position, other_pieces, value);
        }
    }

    /// Looks up the result bitboard stored for a (color, square, occupancy)
    /// key, or `None` when that occupancy was never stored for the square.
    pub fn get(&self, color: ChessColor, position: u64, other_pieces: u64) -> (r: Option<u64>)
        requires
            position < 64,
        ensures
            match r {
                Some(v) => self@.contains_key((color, position, other_pieces)) && v == self@[
                    (color, position, other_pieces)
                ],
                None => !self@.contains_key((color, position, other_pieces)),
            },
    {
        let key: u128 = table_key(color, position, other_pieces);
        match self.map.get(&key) {
            Some(v) => Some(*v),
            None => None,
        }
    }
}

/// The complete contents of a threat or move table for a piece kind: for
/// both colors, every square, and every occupancy pattern that is a submask
/// of the square's maximal footprint, the walked result for that occupancy.
pub open spec fn table_spec(piece: ChessPiece, include_piece_spaces: bool) -> Map<
    (ChessColor, u64, u64),
    u64,
> {
    Map::new(
        |k: (ChessColor, u64, u64)| k.1 < 64 && submask(k.2, footprint(piece, k.0, k.1)),
        |k: (ChessColor, u64, u64)| attack_spaces(piece, k.0, k.1, k.2, include_piece_spaces),
    )
}

/// Every table holds a zero-occupancy entry for every color and square, and
/// that stored result is exactly the square's maximal footprint, in the
/// threat and in the move table alike.
pub proof fn lemma_table_zero_occupancy(
    piece: ChessPiece,
    include_piece_spaces: bool,
    color: ChessColor,
    position: u64,
)
    requires
        position < 64,
    ensures
        table_spec(piece, include_piece_spaces).contains_key((color, position, 0u64)),
        table_spec(piece, include_piece_spaces)[(color, position, 0u64)] == footprint(
            piece,
            color,
            position,
        ),
{
    let fp: u64 = footprint(piece, color, position);
    assert(0u64 & fp == 0u64) by (bit_vector);
    lemma_attack_spaces_zero_occupancy(piece, color, position);
}

/// The table contents restricted to the (color, square) pairs built before
/// step `bound` of the build order (White first, squares ascending).
spec fn table_upto(piece: ChessPiece, include_piece_spaces: bool, bound: int) -> Map<
    (ChessColor, u64, u64),
    u64,
> {
    Map::new(
        |k: (ChessColor, u64, u64)| k.1 < 64 && submask(k.2, footprint(piece, k.0, k.1))
            && color_index(k.0) * 64 + k.1 < bound,
        |k: (ChessColor, u64, u64)| attack_spaces(piece, k.0, k.1, k.2, include_piece_spaces),
    )
}

/// The table contents after the earlier (color, square) pairs are complete
/// and, of the pair at step `bound`, exactly the occupancies `occs` are in.
spec fn table_upto_partial(
    piece: ChessPiece,
    include_piece_spaces: bool,
    bound: int,
    color: ChessColor,
    position: u64,
    occs: Seq<u64>,
) -> Map<(ChessColor, u64, u64), u64> {
    Map::new(
        |k: (ChessColor, u64, u64)| k.1 < 64 && submask(k.2, footprint(piece, k.0, k.1)) && (
        color_index(k.0) * 64 + k.1 < bound || (k.0 == color && k.1 == position && occs.contains(
            k.2,
        ))),
        |k: (ChessColor, u64, u64)| attack_spaces(piece, k.0, k.1, k.2, include_piece_spaces),
    )
}

impl Constants {
    /// Builds one complete lookup table: for each color and square, the
    /// square's footprint is computed with no blockers, every subset of the
    /// footprint is enumerated, and the walked result for that exact
    /// occupancy is stored under (color, square, occupancy).
    pub fn make_threat_or_move_hashmap(piece: ChessPiece, include_piece_spaces: bool) -> (t:
        AttackTable)
        ensures
            t@ == table_spec(piece, include_piece_spaces),
    {
        let mut t: AttackTable = AttackTable::new();
        proof {
            assert(t@ =~= table_upto(piece, include_piece_spaces, 0));
        }
        let colors: Vec<ChessColor> = ChessColor::get_color_vector();
        let nc: usize = colors.len();
        for ci in 0..nc
            invariant
                nc == 2,
                colors@ == seq![ChessColor::White, ChessColor::Black],
                t@ == table_upto(piece, include_piece_spaces, ci as int * 64),
        {
            let color: ChessColor = colors[ci];
            proof {
                assert(color_index(color) == ci as int);
            }
            for position in 0..64u64
                invariant
                    color == colors@[ci as int],
                    color_index(color) == ci as int,
                    t@ == table_upto(
                        piece,
                        include_piece_spaces,
                        ci as int * 64 + position as int,
                    ),
            {
                let ghost bound: int = ci as int * 64 + position as int;
                let attack_mask: u64 = Self::get_threat_and_move_spaces(
                    piece,
                    color,
                    position,
                    0,
                    include_piece_spaces,
                );
                proof {
                    lemma_attack_spaces_zero_occupancy(piece, color, position);
                    assert(attack_mask == footprint(piece, color, position));
                }
                let other_piece_combinations: Vec<u64> =
                    Self::get_all_possible_combinations_of_bits(attack_mask);
                let ghost combos: Seq<u64> = other_piece_combinations@;
                proof {
                    assert(t@ =~= table_upto_partial(
                        piece,
                        include_piece_spaces,
                        bound,
                        color,
                        position,
                        combos.take(0),
                    ));
                }
                let ncombo: usize = other_piece_combinations.len();
                for k in 0..ncombo
                    invariant
                        position < 64,
                        color == colors@[ci as int],
                        color_index(color) == ci as int,
                        bound == ci as int * 64 + position as int,
                        ncombo == combos.len(),
                        combos == other_piece_combinations@,
                        attack_mask == footprint(piece, color, position),
                        forall|i: int|
                            0 <= i < combos.len() ==> (#[trigger] combos[i]) & attack_mask
                                == combos[i],
                        t@ == table_upto_partial(
                            piece,
                            include_piece_spaces,
                            bound,
                            color,
                            position,
                            combos.take(k as int),
                        ),
                {
                    let combination: u64 = other_piece_combinations[k];
                    let value: u64 = Self::get_threat_and_move_spaces(
                        piece,
                        color,
                        position,
                        combination,
                        include_piece_spaces,
                    );
                    t.insert_entry(color, position, combination, value);
                    proof {
                        let tk: Seq<u64> = combos.take(k as int);
                        let tk1: Seq<u64> = combos.take(k as int + 1);
                        assert forall|s: u64| #[trigger] tk1.contains(s) == (tk.contains(s) || s
                            == combos[k as int]) by {
                            if tk.contains(s) {
                                let i: int = choose|i: int| 0 <= i < tk.len() && tk[i] == s;
                                assert(tk1[i] == s);
                            }
                            if s == combos[k as int] {
                                assert(tk1[k as int] == s);
                            }
                            if tk1.contains(s) {
                                let i: int = choose|i: int| 0 <= i < tk1.len() && tk1[i] == s;
                                if i < k as int {
                                    assert(tk[i] == s);
                                }
                            }
                        }
                        assert(t@ =~= table_upto_partial(
                            piece,
                            include_piece_spaces,
                            bound,
                            color,
                            position,
                            combos.take(k as int + 1),
                        ));
                    }
                }
                proof {
                    assert(combos.take(ncombo as int) =~= combos);
                    assert forall|k: (ChessColor, u64, u64)|
                        table_upto_partial(
                            piece,
                            include_piece_spaces,
                            bound,
                            color,
                            position,
                            combos,
                        ).contains_key(k) == table_upto(
                            piece,
                            include_piece_spaces,
                            bound + 1,
                        ).contains_key(k) by {
                        if k.1 < 64 && submask(k.2, footprint(piece, k.0, k.1)) {
                            if k.0 == color && k.1 == position {
                                assert(combos.contains(k.2));
                            }
                            if color_index(k.0) * 64 + k.1 == bound {
                                assert(color_index(k.0) == ci as int && k.1 == position);
                                assert(k.0 == color);
                            }
                        }
                    }
                    assert(t@ =~= table_upto(piece, include_piece_spaces, bound + 1));
                }
            }
        }
        proof {
            assert(t@ =~= table_spec(piece, include_piece_spaces));
        }
        t
    }
}

} // verus!
