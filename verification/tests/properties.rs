use chess_tables::{ChessColor, ChessPiece, Constants};

#[test]
fn test_make_pawn_threat_hashmap() {
    let hashmap = Constants::new().pawn_threat_hashmap;

    // One diagonal forward square; the other is off-board and dropped.
    assert_eq!(
        hashmap.get(ChessColor::White, 0, 0).unwrap(),
        512,
        "White pawn bit position 0, no other pieces."
    );
    // Both forward diagonals leave the board going toward decreasing rows.
    assert_eq!(
        hashmap.get(ChessColor::Black, 0, 0).unwrap(),
        0,
        "Black pawn bit position 0, no other pieces."
    );

    // A blocker on a destination square is still threatened.
    assert_eq!(
        hashmap.get(ChessColor::White, 20, 134_217_728).unwrap(),
        671_088_640,
        "White pawn bit position 20, blocker on a capture square."
    );
    assert_eq!(
        hashmap.get(ChessColor::Black, 20, 8_192).unwrap(),
        10_240,
        "Black pawn bit position 20, blocker on a capture square."
    );
}

#[test]
fn test_generator_rook_no_occupancy() {
    // A rook on square 0 with an empty board: its full rank and file minus
    // its own square.
    for color in ChessColor::get_color_vector() {
        assert_eq!(
            Constants::get_threat_and_move_spaces(ChessPiece::Rook, color, 0, 0, true),
            72_340_172_838_076_926
        );
        assert_eq!(
            Constants::get_threat_and_move_spaces(ChessPiece::Rook, color, 0, 0, false),
            72_340_172_838_076_926
        );
    }
}

#[test]
fn test_generator_knight_occupancy_changes_moves_only() {
    // A knight on square 0 reaches squares 10 and 17 regardless of color.
    for color in ChessColor::get_color_vector() {
        assert_eq!(
            Constants::get_threat_and_move_spaces(ChessPiece::Knight, color, 0, 0, true),
            132_096
        );
        // A blocker on square 17 is still threatened but no longer a
        // destination.
        assert_eq!(
            Constants::get_threat_and_move_spaces(ChessPiece::Knight, color, 0, 131_072, true),
            132_096
        );
        assert_eq!(
            Constants::get_threat_and_move_spaces(ChessPiece::Knight, color, 0, 131_072, false),
            1_024
        );
    }
}

#[test]
fn test_generator_queen_is_rook_and_bishop() {
    let spaces =
        Constants::get_threat_and_move_spaces(ChessPiece::Queen, ChessColor::White, 0, 0, true);
    assert_eq!(spaces, 72_340_172_838_076_926 | 9_241_421_688_590_303_744);
}

#[test]
fn test_generator_sliding_blocker_stops_ray() {
    // A rook on square 0 with a blocker on square 2: along that rank only
    // squares 1 and 2 are threatened, and only square 1 is a destination.
    let threat = Constants::get_threat_and_move_spaces(ChessPiece::Rook, ChessColor::White, 0, 4, true);
    let moves = Constants::get_threat_and_move_spaces(ChessPiece::Rook, ChessColor::White, 0, 4, false);
    let file: u64 = 72_340_172_838_076_926 & !0xFF;
    assert_eq!(threat, file | 2 | 4);
    assert_eq!(moves, file | 2);
}

#[test]
fn test_lookup_outside_footprint_is_absent() {
    let table = Constants::new().rook_threat_hashmap;
    // Square 0 itself is never part of the rook's footprint from square 0,
    // so no entry was stored for an occupancy naming it.
    assert!(table.get(ChessColor::White, 0, 1).is_none());
}

#[test]
fn test_pawn_file_masks() {
    let constants = Constants::new();
    assert_eq!(constants.pawn_middle_mask, 9_114_861_777_597_660_798);
    assert_eq!(constants.pawn_left_mask, 9_259_542_123_273_814_144);
    assert_eq!(constants.pawn_right_mask, 72_340_172_838_076_673);
    assert_eq!(constants.num_to_bit_position_max_val, 3);
    for square in 0..64u64 {
        let col = square % 8;
        assert_eq!(constants.pawn_left_mask >> square & 1 == 1, col == 7);
        assert_eq!(constants.pawn_right_mask >> square & 1 == 1, col == 0);
        assert_eq!(constants.pawn_middle_mask >> square & 1 == 1, (1..=6).contains(&col));
    }
}

#[test]
fn test_find_bit_positions_from_num_empty_and_order() {
    assert_eq!(Constants::find_bit_positions_from_num(0), Vec::<u64>::new());
    assert_eq!(Constants::find_bit_positions_from_num(u64::MAX).len(), 64);
    // Positions come out in ascending order.
    assert_eq!(Constants::find_bit_positions_from_num((1 << 63) + (1 << 3) + 1), vec![0, 3, 63]);
}

#[test]
fn test_subsets_of_full_footprint() {
    // Every enumerated occupancy is a subset of the mask, 0 and the mask
    // itself included, with no repeats.
    let mask: u64 = 0b1011_0001;
    let res = Constants::get_all_possible_combinations_of_bits(mask);
    assert_eq!(res.len(), 16);
    assert!(res.contains(&0));
    assert!(res.contains(&mask));
    for s in &res {
        assert_eq!(s & mask, *s);
    }
    let mut sorted = res.clone();
    sorted.sort();
    sorted.dedup();
    assert_eq!(sorted.len(), res.len());
}

#[test]
fn test_catalog_shapes() {
    assert_eq!(Constants::get_pawn_moves(ChessColor::White).len(), 2);
    assert_eq!(Constants::get_pawn_moves(ChessColor::Black).len(), 2);
    let rook = Constants::get_rook_moves(ChessColor::White);
    assert_eq!(rook.len(), 4);
    for ray in &rook {
        assert_eq!(ray.len(), 7);
    }
    let bishop = Constants::get_bishop_moves(ChessColor::White);
    assert_eq!(bishop.len(), 4);
    assert_eq!(Constants::get_knight_moves(ChessColor::White).len(), 8);
    assert_eq!(Constants::get_king_moves(ChessColor::White).len(), 8);
}
