use shortener::radix::format_radix;

#[test]
fn zero_encodes_as_zero_not_empty() {
    assert_eq!(format_radix(0, 36), "0");
    assert_eq!(format_radix(0, 2), "0");
    assert_eq!(format_radix(0, 10), "0");
}

#[test]
fn single_digits_use_the_whole_alphabet() {
    assert_eq!(format_radix(9, 36), "9");
    assert_eq!(format_radix(10, 36), "a");
    assert_eq!(format_radix(35, 36), "z");
    assert_eq!(format_radix(36, 36), "10");
}

#[test]
fn known_values_in_common_radices() {
    assert_eq!(format_radix(255, 16), "ff");
    assert_eq!(format_radix(255, 36), "73");
    assert_eq!(format_radix(7, 2), "111");
    assert_eq!(format_radix(1700000000000, 36), "loyw3v28");
}

#[test]
fn radix_is_clamped_into_two_to_thirty_six() {
    // Below the range the radix acts as 2, above it as 36.
    assert_eq!(format_radix(7, 0), "111");
    assert_eq!(format_radix(7, 1), "111");
    assert_eq!(format_radix(255, 99), "73");
}

#[test]
fn decoding_reproduces_the_timestamp() {
    // Round trip: reading the digit string back yields the number again.
    for &t in &[0u128, 1, 35, 36, 1295, 1296, 1700000000000, u64::MAX as u128] {
        let s = format_radix(t, 36);
        assert_eq!(u128::from_str_radix(&s, 36).expect("digit string"), t);
    }
    for &t in &[0u128, 1, 2, 3, 255, 256, 1023] {
        let s = format_radix(t, 2);
        assert_eq!(u128::from_str_radix(&s, 2).expect("digit string"), t);
    }
}

#[test]
fn largest_value_round_trips() {
    let s = format_radix(u128::MAX, 36);
    assert_eq!(s, "f5lxx1zz5pnorynqglhzmsp33");
    assert_eq!(u128::from_str_radix(&s, 36).expect("digit string"), u128::MAX);
}

#[test]
fn equal_length_keys_sort_chronologically() {
    let earlier = format_radix(1700000000000, 36);
    let later = format_radix(1700000000001, 36);
    assert_eq!(earlier.len(), later.len());
    assert!(earlier < later);
    // With unequal lengths the orders disagree: no zero padding.
    let one_digit = format_radix(35, 36);
    let two_digits = format_radix(36, 36);
    assert!(two_digits < one_digit);
}

#[test]
fn no_leading_zero_padding() {
    let earlier = format_radix(36, 36);
    let later = format_radix(46656, 36);
    assert_eq!(earlier.len(), 2);
    assert_eq!(later.len(), 4);
    assert!(!later.starts_with('0'));
}
