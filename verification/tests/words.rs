use call_params::word::{
    encode_blob, encode_bool, encode_signed, encode_unsigned, left_pad_word, push_bytes,
    push_zeros, right_pad_word,
};

fn word_ending_in(tail: &[u8]) -> Vec<u8> {
    let mut w = vec![0u8; 32 - tail.len()];
    w.extend_from_slice(tail);
    w
}

#[test]
fn unsigned_zero_is_all_zero() {
    assert_eq!(encode_unsigned(0), vec![0u8; 32]);
}

#[test]
fn unsigned_small_value_fills_last_byte() {
    assert_eq!(encode_unsigned(5), word_ending_in(&[5]));
    assert_eq!(encode_unsigned(255), word_ending_in(&[0xFF]));
}

#[test]
fn unsigned_is_big_endian() {
    assert_eq!(encode_unsigned(0x0102), word_ending_in(&[0x01, 0x02]));
    assert_eq!(encode_unsigned(0x1234_5678), word_ending_in(&[0x12, 0x34, 0x56, 0x78]));
}

#[test]
fn unsigned_largest_value() {
    let mut expected = vec![0u8; 16];
    expected.extend_from_slice(&[0xFF; 16]);
    assert_eq!(encode_unsigned(u128::MAX), expected);
}

#[test]
fn signed_non_negative_matches_unsigned() {
    assert_eq!(encode_signed(0), encode_unsigned(0));
    assert_eq!(encode_signed(77), encode_unsigned(77));
    assert_eq!(encode_signed(i128::MAX), encode_unsigned(i128::MAX as u128));
}

#[test]
fn signed_minus_one_is_all_ones() {
    assert_eq!(encode_signed(-1), vec![0xFFu8; 32]);
}

#[test]
fn signed_negative_is_sign_extended() {
    let mut expected = vec![0xFFu8; 31];
    expected.push(0xFE);
    assert_eq!(encode_signed(-2), expected);

    let mut expected = vec![0xFFu8; 30];
    expected.extend_from_slice(&[0xFF, 0x00]);
    assert_eq!(encode_signed(-256), expected);

    let mut expected = vec![0xFFu8; 30];
    expected.extend_from_slice(&[0xFE, 0xD4]);
    assert_eq!(encode_signed(-300), expected);
}

#[test]
fn signed_smallest_value() {
    let mut expected = vec![0xFFu8; 16];
    expected.push(0x80);
    expected.extend_from_slice(&[0u8; 15]);
    assert_eq!(encode_signed(i128::MIN), expected);
}

#[test]
fn bool_words() {
    assert_eq!(encode_bool(false), vec![0u8; 32]);
    assert_eq!(encode_bool(true), word_ending_in(&[1]));
}

#[test]
fn left_pad_puts_value_last() {
    let address = [0x11u8; 20];
    let mut expected = vec![0u8; 12];
    expected.extend_from_slice(&address);
    assert_eq!(left_pad_word(&address), expected);
    assert_eq!(left_pad_word(&[]), vec![0u8; 32]);
}

#[test]
fn left_pad_keeps_a_full_word() {
    let full = [7u8; 32];
    assert_eq!(left_pad_word(&full), full.to_vec());
}

#[test]
fn right_pad_puts_value_first() {
    let mut expected = vec![0xAA, 0xBB];
    expected.extend_from_slice(&[0u8; 30]);
    assert_eq!(right_pad_word(&[0xAA, 0xBB]), expected);
    assert_eq!(right_pad_word(&[]), vec![0u8; 32]);
}

#[test]
fn right_pad_keeps_a_full_word() {
    let full = [9u8; 32];
    assert_eq!(right_pad_word(&full), full.to_vec());
}

#[test]
fn push_zeros_appends() {
    let mut v = vec![1u8, 2];
    push_zeros(&mut v, 3);
    assert_eq!(v, vec![1, 2, 0, 0, 0]);
    push_zeros(&mut v, 0);
    assert_eq!(v, vec![1, 2, 0, 0, 0]);
}

#[test]
fn push_bytes_appends() {
    let mut v = vec![1u8, 2];
    push_bytes(&mut v, &[3, 4, 5]);
    assert_eq!(v, vec![1, 2, 3, 4, 5]);
    push_bytes(&mut v, &[]);
    assert_eq!(v, vec![1, 2, 3, 4, 5]);
}

#[test]
fn blob_of_nothing_is_its_length_word() {
    assert_eq!(encode_blob(&[]), vec![0u8; 32]);
}

#[test]
fn blob_pads_to_the_next_word() {
    let mut expected = word_ending_in(&[2]);
    expected.extend_from_slice(b"Hi");
    expected.extend_from_slice(&[0u8; 30]);
    assert_eq!(encode_blob(b"Hi"), expected);
}

#[test]
fn blob_of_a_whole_word_is_not_padded() {
    let value = [0x5Au8; 32];
    let mut expected = word_ending_in(&[32]);
    expected.extend_from_slice(&value);
    let out = encode_blob(&value);
    assert_eq!(out.len(), 64);
    assert_eq!(out, expected);
}

#[test]
fn blob_of_a_word_and_a_byte_takes_two_more_words() {
    let value = [0x5Au8; 33];
    let out = encode_blob(&value);
    assert_eq!(out.len(), 96);
    assert_eq!(&out[..32], &word_ending_in(&[33])[..]);
    assert_eq!(&out[32..65], &value[..]);
    assert_eq!(&out[65..], &[0u8; 31][..]);
}
