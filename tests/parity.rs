use parity_block::encoder::Encoder;
use parity_block::geometry::{check_power_of_two, integer_sqrt};

fn numbered_block() -> Vec<i32> {
    (0..16).collect()
}

#[test]
fn overall_parity_of_block() {
    assert_eq!(Encoder::get_parity_entire_block(&vec![1, 0, 1, 1]), 1);
    assert_eq!(Encoder::get_parity_entire_block(&vec![1, 1]), 0);
    assert_eq!(Encoder::get_parity_entire_block(&Vec::new()), 0);
    assert_eq!(Encoder::get_parity_entire_block(&numbered_block()), 0);
    assert_eq!(Encoder::get_parity_entire_block(&vec![5, 3]), 6);
}

#[test]
fn parity_of_columns_reads_whole_columns() {
    let block = numbered_block();
    // Column 1 holds 1, 5, 9, 13.
    assert_eq!(Encoder::get_parity_of_columns(&block, vec![1]), 1 ^ 5 ^ 9 ^ 13);
    assert_eq!(
        Encoder::get_parity_of_columns(&block, vec![1, 3]),
        1 ^ 5 ^ 9 ^ 13 ^ 3 ^ 7 ^ 11 ^ 15
    );
    assert_eq!(Encoder::get_parity_of_columns(&block, Vec::new()), 0);
}

#[test]
fn parity_of_rows_reads_whole_rows() {
    let block = numbered_block();
    // Row 2 holds 8, 9, 10, 11.
    assert_eq!(Encoder::get_parity_of_rows(&block, vec![2]), 8 ^ 9 ^ 10 ^ 11);
    assert_eq!(
        Encoder::get_parity_of_rows(&block, vec![2, 3]),
        8 ^ 9 ^ 10 ^ 11 ^ 12 ^ 13 ^ 14 ^ 15
    );
}

#[test]
fn directional_parities_in_order() {
    let mut block = vec![0; 16];
    block[5] = 1;
    // Position 5 is row 1, column 1: low-bit column group and low-bit row group.
    assert_eq!(Encoder::get_parities(&block), vec![1, 0, 1, 0]);
    let mut other = vec![0; 16];
    other[10] = 1;
    // Position 10 is row 2, column 2: the two high-bit groups.
    assert_eq!(Encoder::get_parities(&other), vec![0, 1, 0, 1]);
}

#[test]
fn validate_accepts_zero_block_and_larger_squares() {
    assert!(Encoder::validate_block(&vec![0; 16]));
    assert!(Encoder::validate_block(&vec![0; 64]));
    let mut block = vec![0; 16];
    block[15] = 1;
    assert!(!Encoder::validate_block(&block));
}

#[test]
fn powers_of_two_up_to_the_side() {
    assert_eq!(Encoder::generate_powers(2, 16), vec![1, 2, 4, 8]);
    assert_eq!(Encoder::generate_powers(2, 64), vec![1, 2, 4, 8, 16, 32, 64, 128]);
    assert_eq!(Encoder::generate_powers(3, 10), vec![1, 3, 9]);
    assert_eq!(Encoder::generate_powers(2, 3), vec![1]);
    assert_eq!(Encoder::generate_powers(2, 0), Vec::<i32>::new());
}

#[test]
fn integer_square_root() {
    assert_eq!(integer_sqrt(0), 0);
    assert_eq!(integer_sqrt(1), 1);
    assert_eq!(integer_sqrt(15), 3);
    assert_eq!(integer_sqrt(16), 4);
    assert_eq!(integer_sqrt(17), 4);
    assert_eq!(integer_sqrt(1_000_000), 1000);
}

#[test]
fn power_of_two_check() {
    assert!(!check_power_of_two(0));
    assert!(check_power_of_two(1));
    assert!(check_power_of_two(4));
    assert!(!check_power_of_two(6));
    assert!(check_power_of_two(1024));
    assert!(!check_power_of_two(3));
}

#[test]
fn reserved_positions_feed_their_own_group() {
    let expected = [
        (1, vec![1, 0, 0, 0]),
        (2, vec![0, 1, 0, 0]),
        (4, vec![0, 0, 1, 0]),
        (8, vec![0, 0, 0, 1]),
        (0, vec![0, 0, 0, 0]),
    ];
    for (position, parities) in expected {
        let mut block = vec![0; 16];
        block[position] = 1;
        assert_eq!(Encoder::get_parities(&block), parities);
    }
}

#[test]
fn validate_rejects_squares_too_small_for_the_groups() {
    assert!(!Encoder::validate_block(&vec![0; 1]));
    assert!(!Encoder::validate_block(&vec![0; 4]));
    assert!(!Encoder::validate_block(&vec![0; 9]));
    assert!(!Encoder::validate_block(&Vec::new()));
}

#[test]
fn flip_at_five_and_nine_sets_both_row_parities() {
    let encoder = Encoder::new(12, 4);
    let message = encoder.encode(vec![1, 1, 0, 0, 1, 0, 1, 1, 0, 1, 1]).unwrap();
    let mut altered = message.data.clone();
    altered[5] = 1 - altered[5];
    altered[9] = 1 - altered[9];
    assert_eq!(Encoder::get_parities(&altered), vec![0, 0, 1, 1]);
}
