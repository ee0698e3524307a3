use std::collections::HashSet;

use wordle_core::encoding::{
    accepts_guess, combine_guess_letter_states, combine_guess_letter_states_encoded,
    prepare_guess_for_encoding, LetterState,
};
use wordle_core::scalars::{U16, U54};

/// A letter and its code.
type LetterStatePair = (char, u8);

fn pairs_of(letters: &String, states: &U16) -> HashSet<LetterStatePair> {
    let codes = states.to_codes();
    assert_eq!(letters.chars().count(), codes.len());
    letters.chars().zip(codes.into_iter()).collect()
}

fn packed(value: i32) -> U16 {
    U16::from_i32(value).unwrap()
}

fn pool(value: u64) -> U54 {
    U54::new(value).unwrap()
}

#[test]
fn test_combine_black_black_output_black() {
    assert_eq!(
        combine_guess_letter_states(LetterState::BLACK, LetterState::BLACK),
        LetterState::BLACK
    );
}

#[test]
fn test_combine_yellow_yellow_output_yellow() {
    assert_eq!(
        combine_guess_letter_states(LetterState::YELLOW, LetterState::YELLOW),
        LetterState::YELLOW
    );
}

#[test]
fn test_combine_green_green_output_green() {
    assert_eq!(
        combine_guess_letter_states(LetterState::GREEN, LetterState::GREEN),
        LetterState::GREEN
    );
}

#[test]
fn test_combine_black_yellow_output_yellow() {
    assert_eq!(
        combine_guess_letter_states(LetterState::BLACK, LetterState::YELLOW),
        LetterState::YELLOW
    );
}

#[test]
fn test_combine_yellow_black_output_yellow() {
    assert_eq!(
        combine_guess_letter_states(LetterState::YELLOW, LetterState::BLACK),
        LetterState::YELLOW
    );
}

#[test]
fn test_combine_black_green_output_green() {
    assert_eq!(
        combine_guess_letter_states(LetterState::BLACK, LetterState::GREEN),
        LetterState::GREEN
    );
}

#[test]
fn test_combine_green_black_output_green() {
    assert_eq!(
        combine_guess_letter_states(LetterState::GREEN, LetterState::BLACK),
        LetterState::GREEN
    );
}

#[test]
fn test_combine_yellow_green_output_green() {
    assert_eq!(
        combine_guess_letter_states(LetterState::YELLOW, LetterState::GREEN),
        LetterState::GREEN
    );
}

#[test]
fn test_combine_green_yellow_output_green() {
    assert_eq!(
        combine_guess_letter_states(LetterState::GREEN, LetterState::YELLOW),
        LetterState::GREEN
    );
}

#[test]
fn combine_encoded_agrees_with_combine_on_every_pair() {
    let outcomes = [LetterState::YELLOW, LetterState::BLACK, LetterState::GREEN];
    for a in outcomes {
        for b in outcomes {
            let on_states = combine_guess_letter_states(a, b);
            let on_codes = combine_guess_letter_states_encoded(a.to_u8(), b.to_u8());
            assert_eq!(on_states.to_u8(), on_codes);
        }
    }
}

#[test]
fn combine_is_commutative_idempotent_and_associative() {
    let outcomes = [LetterState::YELLOW, LetterState::BLACK, LetterState::GREEN];
    for a in outcomes {
        assert_eq!(combine_guess_letter_states(a, a), a);
        for b in outcomes {
            assert_eq!(
                combine_guess_letter_states(a, b),
                combine_guess_letter_states(b, a)
            );
            for c in outcomes {
                assert_eq!(
                    combine_guess_letter_states(combine_guess_letter_states(a, b), c),
                    combine_guess_letter_states(a, combine_guess_letter_states(b, c))
                );
            }
        }
    }
}

#[test]
fn combine_encoded_exact_codes() {
    assert_eq!(combine_guess_letter_states_encoded(1, 2), 1);
    assert_eq!(combine_guess_letter_states_encoded(2, 1), 1);
    assert_eq!(combine_guess_letter_states_encoded(2, 3), 3);
    assert_eq!(combine_guess_letter_states_encoded(1, 3), 3);
    assert_eq!(combine_guess_letter_states_encoded(2, 2), 2);
}

#[test]
fn letter_state_codes_round_trip() {
    let all = [
        (LetterState::WHITE, 0u8),
        (LetterState::YELLOW, 1),
        (LetterState::BLACK, 2),
        (LetterState::GREEN, 3),
    ];
    for (state, code) in all {
        assert_eq!(state.to_u8(), code);
        assert_eq!(state.to_u16(), code as u16);
        assert_eq!(state.to_i32(), code as i32);
        assert_eq!(state.to_u64(), code as u64);
        assert_eq!(LetterState::from_u8(code), state);
        assert_eq!(LetterState::from_u16(code as u16), state);
        assert_eq!(LetterState::from_i32(code as i32), state);
        assert_eq!(LetterState::from_u64(code as u64), state);
        assert_eq!(LetterState::try_from_u8(code), Some(state));
        assert_eq!(state as u8, code);
    }
    assert_eq!(LetterState::try_from_u8(4), None);
    assert_eq!(LetterState::try_from_u8(255), None);
}

#[test]
fn prepare_guess_no_duplicate_letters_same_output_state() {
    let guess = String::from("grape");
    // G: GREEN, R: GREEN, A: BLACK, P: BLACK, E: YELLOW
    let states = packed(0b11_11_10_10_01);

    let (letters, new_states) = prepare_guess_for_encoding(&guess, &states);

    let expected_pairs: HashSet<LetterStatePair> = HashSet::from([
        ('g', LetterState::GREEN as u8),
        ('r', LetterState::GREEN as u8),
        ('a', LetterState::BLACK as u8),
        ('p', LetterState::BLACK as u8),
        ('e', LetterState::YELLOW as u8),
    ]);
    let actual_pairs = pairs_of(&letters, &new_states);

    assert_eq!(actual_pairs.len(), expected_pairs.len());
    assert!(expected_pairs.is_subset(&actual_pairs));
}

#[test]
fn prepare_guess_one_duplicate_letter_different_duplcaite_states() {
    let guess = String::from("tight");
    // t: BLACK, i: GREEN, g: GREEN, h: GREEN, t: GREEN
    let states = packed(0b10_11_11_11_11);

    let expected_pairs: HashSet<LetterStatePair> = HashSet::from([
        ('t', LetterState::GREEN as u8),
        ('i', LetterState::GREEN as u8),
        ('g', LetterState::GREEN as u8),
        ('h', LetterState::GREEN as u8),
    ]);

    let (letters, new_states) = prepare_guess_for_encoding(&guess, &states);
    let actual_pairs = pairs_of(&letters, &new_states);

    assert_eq!(actual_pairs.len(), expected_pairs.len());
    assert!(expected_pairs.is_subset(&actual_pairs));
}

#[test]
fn prepare_guess_one_duplicate_letter_same_duplicate_state() {
    let guess = String::from("tight");
    // t: BLACK, i: GREEN, g: BLACK, h: BLACK, t: BLACK
    let states = packed(0b10_11_10_10_10);

    let expected_pairs: HashSet<LetterStatePair> = HashSet::from([
        ('t', LetterState::BLACK as u8),
        ('i', LetterState::GREEN as u8),
        ('g', LetterState::BLACK as u8),
        ('h', LetterState::BLACK as u8),
    ]);

    let (letters, new_states) = prepare_guess_for_encoding(&guess, &states);
    let actual_pairs = pairs_of(&letters, &new_states);

    assert_eq!(actual_pairs.len(), expected_pairs.len());
    assert!(expected_pairs.is_subset(&actual_pairs));
}

#[test]
fn prepare_guess_one_duplicate_letter_appear_three_times() {
    let guess = String::from("pzazz");
    // p: GREEN, z: YELLOW, a: YELLOW, z: GREEN, z: BLACK
    let states = packed(0b11_01_01_11_10);

    let expected_pairs: HashSet<LetterStatePair> = HashSet::from([
        ('p', LetterState::GREEN as u8),
        ('z', LetterState::GREEN as u8),
        ('a', LetterState::YELLOW as u8),
    ]);

    let (letters, new_states) = prepare_guess_for_encoding(&guess, &states);
    let actual_pairs = pairs_of(&letters, &new_states);

    assert_eq!(actual_pairs.len(), expected_pairs.len());
    assert!(expected_pairs.is_subset(&actual_pairs));
}

#[test]
fn prepare_guess_pizza_settles_z_on_green() {
    let guess = String::from("pizza");
    let states = U16::from_states(vec![
        LetterState::GREEN,
        LetterState::GREEN,
        LetterState::YELLOW,
        LetterState::YELLOW,
        LetterState::GREEN,
    ]);

    let (letters, new_states) = prepare_guess_for_encoding(&guess, &states);
    let actual_pairs = pairs_of(&letters, &new_states);

    let found: HashSet<char> = letters.chars().collect();
    assert_eq!(letters.chars().count(), 4);
    assert_eq!(found, HashSet::from(['p', 'i', 'z', 'a']));
    assert!(actual_pairs.contains(&('z', LetterState::GREEN as u8)));
}

#[test]
fn prepare_guess_keeps_letters_in_order_of_first_occurrence() {
    let guess = String::from("pizza");
    let states = packed(0b11_11_01_11_10);
    let (letters, new_states) = prepare_guess_for_encoding(&guess, &states);
    assert_eq!(letters, "piza");
    // p: GREEN, i: GREEN, z: YELLOW and GREEN, a: BLACK
    assert_eq!(new_states.to_codes(), vec![3, 3, 3, 2]);
    assert_eq!(new_states.get(), 0b10_11_11_11);
}

#[test]
fn prepare_guess_yellow_wins_over_black() {
    let guess = String::from("eel");
    // e: BLACK, e: YELLOW, l: BLACK
    let states = packed(0b10_01_10);
    let (letters, new_states) = prepare_guess_for_encoding(&guess, &states);
    assert_eq!(letters, "el");
    assert_eq!(new_states.to_codes(), vec![1, 2]);
}

#[test]
fn prepare_guess_of_eight_letters() {
    let guess = String::from("abcdabcd");
    let states = packed(0b01_01_01_01_11_10_01_10);
    let (letters, new_states) = prepare_guess_for_encoding(&guess, &states);
    assert_eq!(letters, "abcd");
    assert_eq!(new_states.to_codes(), vec![3, 1, 1, 1]);
}

#[test]
fn encode_guess_all_black_new_u54() {
    let guess = String::from("sales");
    let states = packed(0b10_10_10_10_10);

    let mut actual_u54: U54 = pool(0);

    actual_u54.encode_guess_results(&guess, &states);

    let expected_u54: U54 =
        pool(0b00_00_00_00_00_00_00_10_00_00_00_00_00_00_10_00_00_00_00_00_00_10_00_00_00_10u64);

    assert_eq!(actual_u54, expected_u54);
}

#[test]
fn encode_guess_all_black_not_new_u54() {
    let guess = String::from("sales");
    let states = packed(0b10_10_10_10_10);
    let mut actual_u54: U54 =
        pool(0b00_00_00_00_00_00_00_10_00_00_00_00_00_00_10_00_00_10_00_00_10_00_00_00_00_10u64);

    actual_u54.encode_guess_results(&guess, &states);

    let expected_u54: U54 =
        pool(0b00_00_00_00_00_00_00_10_00_00_00_00_00_00_10_00_00_10_00_00_10_10_00_00_00_10u64);

    assert_eq!(actual_u54, expected_u54);
}

#[test]
fn encode_guess_atleast_one_yellow_and_green_new_u54() {
    let guess = String::from("grape");
    let states = packed(0b11_11_10_10_01);

    let mut actual_u54: U54 = pool(0);

    actual_u54.encode_guess_results(&guess, &states);

    let expected_u54: U54 =
        pool(0b00_00_00_00_00_00_00_00_11_00_10_00_00_00_00_00_00_00_00_11_00_01_00_00_00_10u64);

    assert_eq!(actual_u54, expected_u54);
}

#[test]
fn encode_guess_atleast_one_yellow_and_green_not_new_u54() {
    let guess = String::from("grape");
    let states = packed(0b11_11_10_10_01);
    let mut actual_u54: U54 =
        pool(0b00_00_00_10_00_00_00_00_00_00_10_10_00_00_10_00_00_00_10_11_00_00_00_00_00_00u64);

    actual_u54.encode_guess_results(&guess, &states);

    let expected_u54: U54 =
        pool(0b00_00_00_10_00_00_00_00_11_00_10_10_00_00_10_00_00_00_10_11_00_01_00_00_00_10u64);

    assert_eq!(actual_u54, expected_u54);
}

#[test]
fn encode_guess_update_yellow_with_green() {
    let guess = String::from("graph");
    let states = packed(0b10_10_11_10_10);

    let mut actual_u54: U54 =
        pool(0b00_00_00_00_00_00_00_00_00_00_00_00_00_00_00_00_00_00_00_00_00_00_00_00_00_01u64);
    actual_u54.encode_guess_results(&guess, &states);

    let expected_u54: U54 =
        pool(0b00_00_00_00_00_00_00_00_10_00_10_00_00_00_00_00_00_00_10_10_00_00_00_00_00_11u64);

    assert_eq!(actual_u54, expected_u54);
}

#[test]
fn encode_guess_green_not_update_with_yellow() {
    let guess = String::from("graph");
    let states = packed(0b10_10_01_10_10);

    let mut actual_u54: U54 =
        pool(0b00_00_00_00_00_00_00_00_00_00_00_00_00_00_00_00_00_00_00_00_00_00_00_00_00_11u64);
    actual_u54.encode_guess_results(&guess, &states);

    let expected_u54: U54 =
        pool(0b00_00_00_00_00_00_00_00_10_00_10_00_00_00_00_00_00_00_10_10_00_00_00_00_00_11u64);
    assert_eq!(actual_u54, expected_u54);
}

#[test]
fn encode_guess_twice_changes_nothing_more() {
    let guess = String::from("pizza");
    let states = packed(0b11_11_01_11_10);
    let mut once = pool(0);
    once.encode_guess_results(&guess, &states);
    let mut twice = once;
    twice.encode_guess_results(&guess, &states);
    assert_eq!(once, twice);
    // a: BLACK at 0, i: GREEN at 16, p: GREEN at 30, z: GREEN at 50
    assert_eq!(once.get(), 2 | (3 << 16) | (3 << 30) | (3 << 50));
}

#[test]
fn encode_two_guesses_without_common_letters() {
    let mut actual = pool(0);
    // c: GREEN, a: BLACK, b: YELLOW
    actual.encode_guess_results(&String::from("cab"), &packed(0b11_10_01));
    // z: BLACK, y: YELLOW
    actual.encode_guess_results(&String::from("zy"), &packed(0b10_01));
    let value = actual.get();
    for index in 0..26u64 {
        let expected = match index {
            0 => 2,
            1 => 1,
            2 => 3,
            24 => 1,
            25 => 2,
            _ => 0,
        };
        assert_eq!((value >> (2 * index)) & 3, expected);
    }
    assert_eq!(value >> 52, 0);
}

#[test]
fn encode_guess_keeps_the_bits_above_the_slots() {
    let mut actual = pool((1 << 53) | (1 << 52));
    actual.encode_guess_results(&String::from("a"), &packed(0b11));
    assert_eq!(actual.get(), (1 << 53) | (1 << 52) | 3);
}

#[test]
fn accepts_guess_tells_what_can_be_merged() {
    assert!(accepts_guess(&String::from("grape"), &packed(0b11_11_10_10_01)));
    assert!(accepts_guess(&String::from("abcdefgh"), &U16::new(0xFFFF)));
    assert!(accepts_guess(&String::new(), &U16::new(0)));
    // one code too few
    assert!(!accepts_guess(&String::from("grape"), &packed(0b11_10_10_01)));
    // a code of white in the middle
    assert!(!accepts_guess(&String::from("grape"), &packed(0b11_11_00_10_01)));
    // a code of white for the first letter is not even counted
    assert!(!accepts_guess(&String::from("grape"), &packed(0b00_11_10_10_01)));
    // a capital letter, a digit
    assert!(!accepts_guess(&String::from("Grape"), &packed(0b11_11_10_10_01)));
    assert!(!accepts_guess(&String::from("gr4pe"), &packed(0b11_11_10_10_01)));
    // nine letters
    assert!(!accepts_guess(&String::from("abcdefghi"), &U16::new(0xFFFF)));
}
