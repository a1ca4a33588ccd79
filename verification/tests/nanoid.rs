use fileflow::nanoid::{
    generate, generate_custom, generate_from_seed, generate_with_length, seed_from_nanos, ALPHABET,
};

#[test]
fn test_generate() {
    let id = generate();
    assert_eq!(id.len(), 5);
}

#[test]
fn test_generate_with_length() {
    let id = generate_with_length(10);
    assert_eq!(id.len(), 10);
}

#[test]
fn test_generate_custom() {
    let alphabet = "abc";
    let id = generate_custom(5, alphabet);
    assert_eq!(id.len(), 5);
    for c in id.chars() {
        assert!(c == 'a' || c == 'b' || c == 'c');
    }
}

#[test]
fn test_default_alphabet() {
    let id = generate();
    for c in id.chars() {
        assert!(ALPHABET.contains(c));
    }
}

#[test]
fn seeded_run_is_the_generator_sequence() {
    // seed 0: the states are 1013904223, then 1013904223 * 1664525 + 1013904223, ...
    let mut state: u64 = 0;
    let mut expected = String::new();
    for _ in 0..5 {
        state = state.wrapping_mul(1664525).wrapping_add(1013904223);
        let index = (state as usize) % 36;
        expected.push(ALPHABET.chars().nth(index).unwrap());
    }
    assert_eq!(generate_from_seed(0, 5, ALPHABET), expected);
    // first state 1013904223 % 36 == 7, the digit '7'
    assert_eq!(generate_from_seed(0, 1, ALPHABET), "7");
}

#[test]
fn seeded_run_is_repeatable_and_depends_on_the_seed() {
    assert_eq!(generate_from_seed(42, 8, "abc"), generate_from_seed(42, 8, "abc"));
    assert_ne!(generate_from_seed(1, 12, ALPHABET), generate_from_seed(2, 12, ALPHABET));
}

#[test]
fn zero_length_needs_no_alphabet() {
    assert_eq!(generate_from_seed(7, 0, ""), "");
    assert_eq!(generate_custom(0, ""), "");
}

#[test]
fn index_past_the_last_character_gives_zero() {
    // "é" takes two bytes and is one character: the index 1 selects nothing.
    let id = generate_from_seed(0, 64, "é");
    assert_eq!(id.chars().count(), 64);
    for c in id.chars() {
        assert!(c == 'é' || c == '0');
    }
    assert!(id.contains('0'));
    assert!(id.contains('é'));
}

#[test]
fn seed_is_the_low_64_bits_of_the_reading() {
    assert_eq!(seed_from_nanos(Some(0)), 0);
    assert_eq!(seed_from_nanos(Some(5)), 5);
    assert_eq!(seed_from_nanos(Some(u64::MAX as u128)), u64::MAX);
    assert_eq!(seed_from_nanos(Some(1u128 << 64)), 0);
    assert_eq!(seed_from_nanos(Some((1u128 << 64) + 7)), 7);
    assert_eq!(seed_from_nanos(Some(u128::MAX)), u64::MAX);
    // a wall clock of the year 2026, in nanoseconds, fits as it is
    assert_eq!(seed_from_nanos(Some(1_793_000_000_123_456_789)), 1_793_000_000_123_456_789);
    for reading in [3u128, 1u128 << 70, (1u128 << 100) + 12345, u128::MAX - 1] {
        assert_eq!(seed_from_nanos(Some(reading)), reading as u64);
    }
}

#[test]
fn seed_is_zero_without_a_reading() {
    assert_eq!(seed_from_nanos(None), 0);
}
