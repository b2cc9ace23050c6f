use parity_block::encoder::{EncodeError, Encoder};
use parity_block::random::create_random_message;

#[test]
fn check_static_message() {
    let encoder = Encoder::new(12, 4);

    let input = vec![1, 1, 0, 0, 1, 0, 1, 1, 0, 1, 1];

    match encoder.encode(input) {
        Ok(message) => {
            let expected = vec![
                1, 1, 0, 1,
                0, 1, 0, 0,
                1, 1, 0, 1,
                1, 0, 1, 1
            ];

            assert_eq!(message.data, expected);
        },
        Err(e) => {
            println!("{:?}", e);
        }
    }
}

#[test]
fn check_one_bit_error() {
    let encoder = Encoder::new(12, 4);

    let input = vec![1, 1, 0, 0, 1, 0, 1, 1, 0, 1, 1];

    match encoder.encode(input) {
        Ok(message) => {
            let mut altered = message.data.clone();
            altered[0] = 1 - altered[0];
            assert_eq!(Encoder::validate_block(&altered), false);
        },
        Err(e) => {
            println!("{:?}", e);
        }
    }
}

#[test]
fn check_two_bit_error() {
    let encoder = Encoder::new(12, 4);

    let input = create_random_message(11);

    match encoder.encode(input.clone()) {
        Ok(message) => {
            let mut altered = message.data.clone();
            altered[5] = 1 - altered[5];
            altered[9] = 1 - altered[9];
            assert_eq!(Encoder::validate_block(&altered), false);
        },
        Err(e) => {
            println!("{:?}", e);
        }
    }
}

#[test]
fn check_random_message() {
    let encoder = Encoder::new(12, 4);

    let input = create_random_message(11);

    match encoder.encode(input) {
        Ok(message) => {
            assert_eq!(Encoder::validate_block(&message.data), true);
        },
        Err(e) => {
            println!("{:?}", e);
        }
    }
}

#[test]
fn check_random_message_100k_times() {
    let encoder = Encoder::new(12, 4);

    for _ in 0..100000 {
        let input = create_random_message(11);

        match encoder.encode(input) {
            Ok(message) => {
                assert_eq!(Encoder::validate_block(&message.data), true);
            },
            Err(e) => {
                println!("{:?}", e);
            }
        }
    }
}

#[test]
fn static_message_encodes_successfully() {
    let encoder = Encoder::new(12, 4);
    let result = encoder.encode(vec![1, 1, 0, 0, 1, 0, 1, 1, 0, 1, 1]);
    assert!(result.is_ok());
}

#[test]
fn encoding_is_deterministic() {
    let encoder = Encoder::new(12, 4);
    let input = vec![0, 1, 1, 0, 1, 0, 0, 1, 1, 1, 0];
    let first = encoder.encode(input.clone()).unwrap();
    let second = encoder.encode(input).unwrap();
    assert_eq!(first.data, second.data);
}

#[test]
fn encoded_length_is_the_sum_of_capacities() {
    let encoder = Encoder::new(12, 4);
    let message = encoder.encode(vec![0; 11]).unwrap();
    assert_eq!(message.data.len(), 16);
}

#[test]
fn all_zero_input_gives_all_zero_block() {
    let encoder = Encoder::new(12, 4);
    let message = encoder.encode(vec![0; 11]).unwrap();
    assert_eq!(message.data, vec![0; 16]);
}

#[test]
fn single_data_bit_sets_its_parities() {
    let encoder = Encoder::new(12, 4);
    // The first data bit lands at position 3: row 0, column 3, which lies in
    // both column groups and in no row group.
    let mut input = vec![0; 11];
    input[0] = 1;
    let message = encoder.encode(input).unwrap();
    assert_eq!(message.data, vec![1, 1, 1, 1, 0, 0, 0, 0, 0, 0, 0, 0, 0, 0, 0, 0]);
}

#[test]
fn extra_input_values_are_ignored() {
    let encoder = Encoder::new(12, 4);
    let exact = encoder.encode(vec![1, 1, 0, 0, 1, 0, 1, 1, 0, 1, 1]).unwrap();
    let longer = encoder.encode(vec![1, 1, 0, 0, 1, 0, 1, 1, 0, 1, 1, 1, 0, 1]).unwrap();
    assert_eq!(exact.data, longer.data);
}

#[test]
fn every_single_flip_is_detected() {
    let encoder = Encoder::new(12, 4);
    let message = encoder.encode(vec![1, 1, 0, 0, 1, 0, 1, 1, 0, 1, 1]).unwrap();
    assert!(Encoder::validate_block(&message.data));
    for p in 0..16 {
        let mut altered = message.data.clone();
        altered[p] = 1 - altered[p];
        assert!(!Encoder::validate_block(&altered), "flip at {} went unnoticed", p);
    }
}

#[test]
fn flip_at_five_and_nine_is_detected_on_fixed_input() {
    let encoder = Encoder::new(12, 4);
    let message = encoder.encode(vec![1, 1, 0, 0, 1, 0, 1, 1, 0, 1, 1]).unwrap();
    let mut altered = message.data.clone();
    altered[5] = 1 - altered[5];
    altered[9] = 1 - altered[9];
    assert!(!Encoder::validate_block(&altered));
}

#[test]
fn length_overflow_is_rejected() {
    let encoder = Encoder::new(usize::MAX, 1);
    assert_eq!(encoder.encode(vec![0; 11]).err(), Some(EncodeError::LengthOverflow));
}

#[test]
fn non_square_length_is_rejected() {
    let encoder = Encoder::new(11, 4);
    assert_eq!(encoder.encode(vec![0; 11]).err(), Some(EncodeError::NotSquare));
}

#[test]
fn side_not_power_of_two_is_rejected() {
    let encoder = Encoder::new(5, 4);
    assert_eq!(encoder.encode(vec![0; 11]).err(), Some(EncodeError::SideNotPowerOfTwo));
}

#[test]
fn side_other_than_four_is_rejected() {
    let encoder = Encoder::new(60, 4);
    assert_eq!(encoder.encode(vec![0; 64]).err(), Some(EncodeError::UnsupportedSide));
    let tiny = Encoder::new(2, 2);
    assert_eq!(tiny.encode(vec![0; 4]).err(), Some(EncodeError::UnsupportedSide));
}

#[test]
fn wrong_parity_count_is_rejected() {
    let encoder = Encoder::new(13, 3);
    assert_eq!(encoder.encode(vec![0; 12]).err(), Some(EncodeError::ParityCountMismatch));
}

#[test]
fn short_input_is_rejected() {
    let encoder = Encoder::new(12, 4);
    assert_eq!(encoder.encode(vec![1; 10]).err(), Some(EncodeError::InsufficientInput));
    assert_eq!(encoder.encode(Vec::new()).err(), Some(EncodeError::InsufficientInput));
}

#[test]
fn random_message_has_binary_values() {
    let message = create_random_message(200);
    assert_eq!(message.len(), 200);
    assert!(message.iter().all(|&b| b == 0 || b == 1));
}

#[test]
fn random_message_is_not_constant() {
    let message = create_random_message(256);
    assert!(message.iter().any(|&b| b == 1));
    assert!(message.iter().any(|&b| b == 0));
}
