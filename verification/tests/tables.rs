use chess_tables::{AttackTable, ChessColor, Constants};

#[test]
fn test_make_pawn_move_hashmap() {
    let hashmap: AttackTable = Constants::new().pawn_move_hashmap;

    // No other pieces
    assert_eq!(
        hashmap.get(ChessColor::White, 0, 0).unwrap(),
        512,
        "White pawn bit position 0, no other pieces."
    );
    assert_eq!(
        hashmap.get(ChessColor::Black, 0, 0).unwrap(),
        0,
        "Black pawn bit position 0, no other pieces."
    );

    assert_eq!(
        hashmap.get(ChessColor::White, 63, 0).unwrap(),
        0,
        "White pawn bit position 63, no other pieces."
    );
    assert_eq!(
        hashmap.get(ChessColor::Black, 63, 0).unwrap(),
        18_014_398_509_481_984,
        "Black pawn bit position 63, no other pieces."
    );

    assert_eq!(
        hashmap.get(ChessColor::White, 20, 0).unwrap(),
        671_088_640,
        "White pawn bit position 20, no other pieces."
    );
    assert_eq!(
        hashmap.get(ChessColor::Black, 20, 0).unwrap(),
        10_240,
        "Black pawn bit position 20, no other pieces."
    );

    // Other pieces
    assert_eq!(
        hashmap.get(ChessColor::White, 20, 134_217_728).unwrap(),
        536_870_912,
        "White pawn bit position 20, other pieces."
    );
    assert_eq!(
        hashmap.get(ChessColor::Black, 20, 8_192).unwrap(),
        2_048,
        "Black pawn bit position 20, other pieces."
    );
}

#[test]
fn test_make_rook_threat_hashmap() {
    let hashmap: AttackTable = Constants::new().rook_threat_hashmap;

    for color in ChessColor::get_color_vector() {
        // No other pieces
        assert_eq!(
            hashmap.get(color, 0, 0).unwrap(),
            72_340_172_838_076_926,
            "Rook bit position 0, no other pieces."
        );
        assert_eq!(
            hashmap.get(color, 7, 0).unwrap(),
            9_259_542_123_273_814_143,
            "Rook bit position 7, no other pieces."
        );
        assert_eq!(
            hashmap.get(color, 25, 0).unwrap(),
            144_680_349_887_234_562,
            "Rook bit position 25, no other pieces."
        );

        // Other pieces
        assert_eq!(
            hashmap.get(color, 28, 17_592_253_153_280).unwrap(),
            17_664_865_996_816,
            "Rook bit position 28, other pieces."
        );
        assert_eq!(
            hashmap.get(color, 4, 4_503_599_627_370_497).unwrap(),
            4_521_260_802_380_015,
            "Rook bit position 4, other pieces."
        );
    }
}

#[test]
fn test_make_rook_move_hashmap() {
    let hashmap: AttackTable = Constants::new().rook_move_hashmap;

    for color in ChessColor::get_color_vector() {
        // No other pieces
        assert_eq!(
            hashmap.get(color, 0, 0).unwrap(),
            72_340_172_838_076_926,
            "Rook bit position 0, no other pieces."
        );
        assert_eq!(
            hashmap.get(color, 7, 0).unwrap(),
            9_259_542_123_273_814_143,
            "Rook bit position 7, no other pieces."
        );
        assert_eq!(
            hashmap.get(color, 25, 0).unwrap(),
            144_680_349_887_234_562,
            "Rook bit position 25, no other pieces."
        );

        // Other pieces
        assert_eq!(
            hashmap.get(color, 28, 1_152_921_504_606_851_072).unwrap(),
            4_521_264_543_694_848,
            "Rook bit position 28, other pieces."
        );
        assert_eq!(
            hashmap.get(color, 4, 1_152_921_504_606_847_012).unwrap(),
            4_521_260_802_379_784,
            "Rook bit position 4, other pieces."
        );
    }
}

#[test]
fn test_make_bishop_threat_hashmap() {
    let hashmap: AttackTable = Constants::new().bishop_threat_hashmap;

    for color in ChessColor::get_color_vector() {
        // No other pieces
        assert_eq!(
            hashmap.get(color, 0, 0).unwrap(),
            9_241_421_688_590_303_744,
            "Bishop bit position 0, no other pieces."
        );
        assert_eq!(
            hashmap.get(color, 63, 0).unwrap(),
            18_049_651_735_527_937,
            "Bishop bit position 63, no other pieces."
        );

        // Other pieces
        assert_eq!(
            hashmap.get(color, 12, 67_108_864).unwrap(),
            550_899_286_056,
            "Bishop bit position 12, other pieces."
        );
        assert_eq!(
            hashmap.get(color, 14, 34_368_126_976).unwrap(),
            34_638_659_744,
            "Bishop bit position 14, other pieces."
        );
    }
}

#[test]
fn test_make_bishop_move_hashmap() {
    let hashmap: AttackTable = Constants::new().bishop_move_hashmap;

    for color in ChessColor::get_color_vector() {
        // No other pieces
        assert_eq!(
            hashmap.get(color, 0, 0).unwrap(),
            9_241_421_688_590_303_744,
            "Bishop bit position 0, no other pieces."
        );
        assert_eq!(
            hashmap.get(color, 63, 0).unwrap(),
            18_049_651_735_527_937,
            "Bishop bit position 63, no other pieces."
        );

        // Other pieces
        assert_eq!(
            hashmap.get(color, 12, 1_073_741_824).unwrap(),
            1_108_171_292_712,
            "Bishop bit position 12, other pieces."
        );
        assert_eq!(
            hashmap.get(color, 14, 8_388_736).unwrap(),
            72_624_976_668_131_360,
            "Bishop bit position 14 other pieces."
        );
    }
}

#[test]
fn test_make_knight_threat_hashmap() {
    let hashmap: AttackTable = Constants::new().knight_threat_hashmap;

    for color in ChessColor::get_color_vector() {
        // No other pieces
        assert_eq!(
            hashmap.get(color, 0, 0).unwrap(),
            132_096,
            "Knight bit position 0, no other pieces."
        );
        assert_eq!(
            hashmap.get(color, 28, 0).unwrap(),
            44_272_527_353_856,
            "Knight bit position 28, no other pieces."
        );

        // Other pieces
        assert_eq!(
            hashmap.get(color, 0, 131_072).unwrap(),
            132_096,
            "Knight bit position 0, other pieces."
        );
        assert_eq!(
            hashmap.get(color, 28, 43_980_469_315_584).unwrap(),
            44_272_527_353_856,
            "Knight bit position 28, other pieces."
        );
    }
}

#[test]
fn test_make_knight_move_hashmap() {
    let hashmap: AttackTable = Constants::new().knight_move_hashmap;

    for color in ChessColor::get_color_vector() {
        // No other pieces
        assert_eq!(
            hashmap.get(color, 0, 0).unwrap(),
            132_096,
            "Knight bit position 0, no other pieces."
        );
        assert_eq!(
            hashmap.get(color, 28, 0).unwrap(),
            44_272_527_353_856,
            "Knight bit position 28, no other pieces."
        );

        // Other pieces
        assert_eq!(
            hashmap.get(color, 0, 131_072).unwrap(),
            1_024,
            "Knight bit position 0, other pieces."
        );
        assert_eq!(
            hashmap.get(color, 28, 35_184_372_090_880).unwrap(),
            9_088_155_262_976,
            "Knight bit position 28, other pieces."
        );
    }
}

#[test]
fn test_make_king_threat_hashmap() {
    let hashmap: AttackTable = Constants::new().king_threat_hashmap;

    for color in ChessColor::get_color_vector() {
        // No other pieces
        assert_eq!(
            hashmap.get(color, 0, 0).unwrap(),
            770,
            "King bit position 0, no other pieces."
        );
        assert_eq!(
            hashmap.get(color, 14, 0).unwrap(),
            14_721_248,
            "King bit position 14, no other pieces."
        );

        // Other pieces
        assert_eq!(hashmap.get(color, 0, 2).unwrap(), 770, "King bit position 0, other pieces.");
        assert_eq!(
            hashmap.get(color, 14, 10_526_720).unwrap(),
            14_721_248,
            "King bit position 0, other pieces."
        );
    }
}

#[test]
fn test_make_king_move_hashmap() {
    let hashmap: AttackTable = Constants::new().king_move_hashmap;

    for color in ChessColor::get_color_vector() {
        // No other pieces
        assert_eq!(
            hashmap.get(color, 0, 0).unwrap(),
            770,
            "King bit position 0, no other pieces."
        );
        assert_eq!(
            hashmap.get(color, 14, 0).unwrap(),
            14_721_248,
            "King bit position 14, no other pieces."
        );

        // Other pieces
        assert_eq!(hashmap.get(color, 0, 2).unwrap(), 768, "King bit position 0, other pieces.");
        assert_eq!(
            hashmap.get(color, 14, 10_485_760).unwrap(),
            4_235_488,
            "King bit position 0, other pieces."
        );
    }
}
