use std::collections::{HashMap, HashSet};

use chess_tables::Constants;

#[test]
fn test_get_all_possible_combinations_of_bits_0() {
    let res: Vec<u64> = Constants::get_all_possible_combinations_of_bits(0);
    assert_eq!(res.len(), 1, "There should be exactly 1 item in the vector.");

    let hashset: HashSet<u64> = HashSet::from_iter(res);
    assert!(hashset.contains(&0), "The vector should contain the item 0.");
}

#[test]
fn test_get_all_possible_combinations_of_bits_1() {
    let res: Vec<u64> = Constants::get_all_possible_combinations_of_bits(1);
    assert_eq!(res.len(), 2, "There should be exactly 2 items in the vector.");

    let hashset: HashSet<u64> = HashSet::from_iter(res);
    assert!(hashset.contains(&0), "The vector should contain the item 0.");
    assert!(hashset.contains(&1), "The vector should contain the item 1.");
}

#[test]
fn test_get_all_possible_combinations_of_bits_7() {
    let res: Vec<u64> = Constants::get_all_possible_combinations_of_bits(7);
    assert_eq!(res.len(), 8, "There should be exactly 8 items in the vector.");

    let hashset: HashSet<u64> = HashSet::from_iter(res);
    assert!(hashset.contains(&0), "The vector should contain the item 0.");
    assert!(hashset.contains(&1), "The vector should contain the item 1.");
    assert!(hashset.contains(&2), "The vector should contain the item 2.");
    assert!(hashset.contains(&3), "The vector should contain the item 3.");
    assert!(hashset.contains(&4), "The vector should contain the item 4.");
    assert!(hashset.contains(&5), "The vector should contain the item 5.");
    assert!(hashset.contains(&6), "The vector should contain the item 6.");
    assert!(hashset.contains(&7), "The vector should contain the item 7.");
}

#[test]
fn test_get_all_possible_combinations_of_bits_288() {
    let res: Vec<u64> = Constants::get_all_possible_combinations_of_bits(288);
    assert_eq!(res.len(), 4, "There should be exactly 4 items in the vector.");

    let hashset: HashSet<u64> = HashSet::from_iter(res);
    assert!(hashset.contains(&0), "The vector should contain the item 0.");
    assert!(hashset.contains(&32), "The vector should contain the item 32.");
    assert!(hashset.contains(&256), "The vector should contain the item 256.");
    assert!(hashset.contains(&288), "The vector should contain the item 288.");
}

#[test]
fn test_board_choose_n_all_combinations_1() {
    let res: Vec<u64> = Constants::board_choose_n_all_combinations(1);

    assert_eq!(res.len(), 64, "Correct length check.");

    let mut res_clone = res.clone();
    res_clone.sort();
    res_clone.dedup();
    assert_eq!(res_clone.len(), res.len(), "No duplicate check");

    for item in res {
        assert_eq!(item.count_ones(), 1, "Correct number of ones check.");
    }
}

#[test]
fn test_board_choose_n_all_combinations_2() {
    let res: Vec<u64> = Constants::board_choose_n_all_combinations(2);

    assert_eq!(res.len(), 2_016, "Correct length check.");

    let mut res_clone = res.clone();
    res_clone.sort();
    res_clone.dedup();
    assert_eq!(res_clone.len(), res.len(), "No duplicate check");

    for item in res {
        assert_eq!(item.count_ones(), 2, "Correct number of ones check.");
    }
}

#[test]
fn test_board_choose_n_all_combinations_3() {
    let res: Vec<u64> = Constants::board_choose_n_all_combinations(3);

    assert_eq!(res.len(), 41_664, "Correct length check.");

    let mut res_clone = res.clone();
    res_clone.sort();
    res_clone.dedup();
    assert_eq!(res_clone.len(), res.len(), "No duplicate check");

    for item in res {
        assert_eq!(item.count_ones(), 3, "Correct number of ones check.");
    }
}

#[test]
fn test_find_bit_positions_from_num() {
    let num = (1 << 10) + (1 << 5) + (1 << 60);
    let res = Constants::find_bit_positions_from_num(num);

    assert_eq!(res.len(), 3, "Should contain 3 items.");
    assert!(res.contains(&10), "Should contain 10.");
    assert!(res.contains(&5), "Should contain 5.");
    assert!(res.contains(&60), "Should contain 60.");
}

#[test]
fn test_make_num_to_bit_positions_hashmap() {
    let hashmap: HashMap<u64, Vec<u64>> = Constants::make_num_to_bit_positions_hashmap(3);

    let num = (1 << 5) + (1 << 8) + (1 << 55);
    let res = hashmap.get(&num).unwrap();

    assert_eq!(res.len(), 3, "Should contain 3 items.");
    assert!(res.contains(&5), "Should contain 5.");
    assert!(res.contains(&8), "Should contain 8.");
    assert!(res.contains(&55), "Should contain 55.");

    assert!(!hashmap.contains_key(&0), "Should not contain 0.");

    let num = (1 << 0) + (1 << 15);
    let res = hashmap.get(&num).unwrap();

    assert_eq!(res.len(), 2, "Should contain 2 items.");
    assert!(res.contains(&0), "Should contain 0.");
    assert!(res.contains(&15), "Should contain 15.");
}
