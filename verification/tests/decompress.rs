use ntrgfx::common::decompress;
use ntrgfx::error::NtrError;

fn compressed(target: u32, body: &[u8]) -> Vec<u8> {
    let mut v = vec![0x11u8, (target & 0xFF) as u8, ((target >> 8) & 0xFF) as u8, ((target >> 16)
        & 0xFF) as u8];
    v.extend_from_slice(body);
    v
}

#[test]
fn store_raw_passthrough() {
    let data = vec![0x42u8, 0x11, 0x00, 0xFF, 0x07];
    let out = decompress(&data).unwrap();
    assert_eq!(out, data);
}

#[test]
fn store_raw_single_byte() {
    let data = vec![0x00u8];
    let out = decompress(&data).unwrap();
    assert_eq!(out, data);
}

#[test]
fn empty_input_is_truncated() {
    assert_eq!(decompress(&vec![]), Err(NtrError::Truncated));
}

#[test]
fn five_literals_stop_at_declared_length() {
    // declared length 5, one flag byte of all literals, five literal bytes
    let data = compressed(5, &[0b0000_0000, 10, 20, 30, 40, 50]);
    let out = decompress(&data).unwrap();
    assert_eq!(out, vec![10, 20, 30, 40, 50]);
}

#[test]
fn declared_length_is_exact() {
    let data = compressed(5, &[0b0000_0000, 10, 20, 30, 40, 50]);
    let out = decompress(&data).unwrap();
    assert_eq!(out.len(), 5);
}

#[test]
fn overlapping_back_reference_repeats_last_byte() {
    // one literal, then a short token: length 5, distance 1
    let data = compressed(6, &[0b0100_0000, 0x41, 0x40, 0x00]);
    let out = decompress(&data).unwrap();
    assert_eq!(out, vec![0x41; 6]);
}

#[test]
fn back_reference_copies_earlier_bytes() {
    // three literals, then a token of length 3, distance 3
    let data = compressed(6, &[0b0001_0000, 1, 2, 3, 0x20, 0x02]);
    let out = decompress(&data).unwrap();
    assert_eq!(out, vec![1, 2, 3, 1, 2, 3]);
}

#[test]
fn extended_token_length_17() {
    // one literal, then the one-extra-byte token form: length 0x11, distance 1
    let data = compressed(18, &[0b0100_0000, 7, 0x00, 0x00, 0x00]);
    let out = decompress(&data).unwrap();
    assert_eq!(out, vec![7; 18]);
}

#[test]
fn extended_token_length_273() {
    // one literal, then the two-extra-byte token form: length 0x111, distance 1
    let data = compressed(274, &[0b0100_0000, 9, 0x10, 0x00, 0x00, 0x00]);
    let out = decompress(&data).unwrap();
    assert_eq!(out, vec![9; 274]);
}

#[test]
fn back_reference_before_start_fails() {
    // first flag bit is a token, but no output exists yet
    let data = compressed(3, &[0b1000_0000, 0x20, 0x00]);
    assert_eq!(decompress(&data), Err(NtrError::InvalidBackReference));
}

#[test]
fn trailing_byte_after_output_fails() {
    let data = compressed(1, &[0b0000_0000, 0x55, 0x99]);
    assert_eq!(decompress(&data), Err(NtrError::TrailingData));
}

#[test]
fn short_literal_stream_fails() {
    let data = compressed(5, &[0b0000_0000, 1, 2]);
    assert_eq!(decompress(&data), Err(NtrError::Truncated));
}

#[test]
fn missing_size_prefix_fails() {
    assert_eq!(decompress(&vec![0x11u8, 0x05]), Err(NtrError::Truncated));
}

#[test]
fn mid_token_exit_keeps_exact_length() {
    // token of length 5 but only three bytes still owed: stop inside the token
    let data = compressed(4, &[0b0110_0000, 0x33, 0x40, 0x00]);
    let out = decompress(&data).unwrap();
    assert_eq!(out, vec![0x33, 0x33, 0x33, 0x33]);
}
