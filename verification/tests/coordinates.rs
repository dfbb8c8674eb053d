use chess_tables::Constants;

#[test]
fn test_get_coordinates_from_bit_position() {
    assert_eq!(Constants::get_coordinates_from_bit_position(0), (0, 0), "Bit position 0.");
    assert_eq!(Constants::get_coordinates_from_bit_position(7), (7, 0), "Bit position 7.");
    assert_eq!(Constants::get_coordinates_from_bit_position(14), (6, 1), "Bit position 14.");
    assert_eq!(Constants::get_coordinates_from_bit_position(63), (7, 7), "Bit position 63.");
}

#[test]
fn test_get_bit_position_from_coordinates() {
    assert_eq!(Constants::get_bit_position_from_coordinates(0, 0), 0, "Coordinates (0,0).");
    assert_eq!(Constants::get_bit_position_from_coordinates(7, 0), 7, "Coordinates (7,0).");
    assert_eq!(Constants::get_bit_position_from_coordinates(6, 1), 14, "Coordinates (6,1).");
    assert_eq!(Constants::get_bit_position_from_coordinates(7, 7), 63, "Coordinates (7,7).");
}
