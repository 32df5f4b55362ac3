use rollcage_file_parser::file_formats::gt::{decompress, parse_header, parse_magic, DecompressionError};
use rollcage_file_parser::file_formats::HeaderError;

fn envelope(size: u32) -> Vec<u8> {
    let mut v = b"GT20".to_vec();
    v.extend_from_slice(&size.to_le_bytes());
    v.extend_from_slice(&0u32.to_le_bytes());
    v.extend_from_slice(&0u32.to_le_bytes());
    v
}

fn stream(size: u32, control: u32, payload: &[u8]) -> Vec<u8> {
    let mut v = envelope(size);
    v.extend_from_slice(&control.to_le_bytes());
    v.extend_from_slice(payload);
    v
}

#[test]
fn terminator_only_gives_empty_output() {
    let input = stream(0, 0b11, &[0x00, 0x00, 0x01]);
    assert_eq!(decompress(&input, 0).unwrap(), Vec::<u8>::new());
}

#[test]
fn three_literals_then_terminator() {
    let input = stream(3, 0b11000, &[0x41, 0x42, 0x43, 0x00, 0x00, 0x01]);
    assert_eq!(decompress(&input, 3).unwrap(), vec![0x41, 0x42, 0x43]);
}

#[test]
fn short_match_repeats_recent_bytes() {
    // literal, literal, short match of 2 + 2 bytes from two bytes back, terminator
    let input = stream(6, 0xD4, &[b'a', b'b', 0xFE, 0x00, 0x00, 0x01]);
    assert_eq!(decompress(&input, 6).unwrap(), b"ababab".to_vec());
}

#[test]
fn short_match_with_trailing_single_byte() {
    // literal, literal, short match of 2 bytes, no extra pair, one more byte
    // control bits: 0, 0, 1, 0, 0, 1, then terminator 1, 1
    let control = 0b1110_0100;
    let input = stream(5, control, &[b'a', b'b', 0xFE, 0x00, 0x00, 0x01]);
    assert_eq!(decompress(&input, 5).unwrap(), b"ababa".to_vec());
}

#[test]
fn long_match_overlapping_copy() {
    // literal 'x', long match: offset -1, length 2 + 2 = 4, terminator
    let input = stream(5, 0b11110, &[b'x', 0xFA, 0xFF, 0x00, 0x00, 0x01]);
    assert_eq!(decompress(&input, 5).unwrap(), b"xxxxx".to_vec());
}

#[test]
fn long_match_with_extended_length_byte() {
    // literal 'y', long match with low bits zero and a length byte of 3 (length 5)
    let input = stream(6, 0b11110, &[b'y', 0xF8, 0xFF, 0x03, 0x00, 0x00, 0x01]);
    assert_eq!(decompress(&input, 6).unwrap(), b"yyyyyy".to_vec());
}

#[test]
fn long_match_with_sixteen_bit_length() {
    // literal 'z', long match with a length byte of 0 and a 16-bit length of 7
    let input = stream(8, 0b11110, &[b'z', 0xF8, 0xFF, 0x00, 0x07, 0x00, 0x00, 0x00, 0x01]);
    assert_eq!(decompress(&input, 8).unwrap(), b"zzzzzzzz".to_vec());
}

#[test]
fn output_length_is_declared_size() {
    // the terminator comes before the declared size is filled
    let input = stream(4, 0b1110, &[0x41, 0x00, 0x00, 0x01]);
    assert_eq!(decompress(&input, 4).unwrap(), vec![0x41, 0, 0, 0]);
}

#[test]
fn decompress_is_deterministic() {
    let input = stream(3, 0b11000, &[0x41, 0x42, 0x43, 0x00, 0x00, 0x01]);
    assert_eq!(decompress(&input, 3).unwrap(), decompress(&input, 3).unwrap());
}

#[test]
fn wrong_signature_is_rejected() {
    let mut input = stream(0, 0b11, &[0x00, 0x00, 0x01]);
    input[0] = b'X';
    assert_eq!(decompress(&input, 0).unwrap_err(), DecompressionError::IncorrectFileSignature);
}

#[test]
fn missing_terminator_is_corrupt() {
    let input = stream(1, 0, &[0x41]);
    assert_eq!(decompress(&input, 1).unwrap_err(), DecompressionError::CorruptFile);
}

#[test]
fn missing_control_word_is_corrupt() {
    let input = envelope(0);
    assert_eq!(decompress(&input, 0).unwrap_err(), DecompressionError::CorruptFile);
}

#[test]
fn write_past_declared_size_is_corrupt() {
    let input = stream(0, 0b110, &[0x41, 0x00, 0x00, 0x01]);
    assert_eq!(decompress(&input, 0).unwrap_err(), DecompressionError::CorruptFile);
}

#[test]
fn back_reference_before_start_is_corrupt() {
    let input = stream(4, 0b01, &[0xFE, 0x00, 0x00, 0x01]);
    assert_eq!(decompress(&input, 4).unwrap_err(), DecompressionError::CorruptFile);
}

#[test]
fn gt_header_fields() {
    let mut input = b"GT20".to_vec();
    for w in [7u32, 8, 9] {
        input.extend_from_slice(&w.to_le_bytes());
    }
    let h = parse_header(&input).ok().unwrap();
    assert_eq!(h.gt_signature, *b"GT20");
    assert_eq!(h.gt_uncompressed_size, 7);
    assert_eq!(h.gt_overlap, 8);
    assert_eq!(h.gt_skip, 9);
    assert!(parse_magic(&input));
}

#[test]
fn gt_header_errors() {
    assert!(matches!(parse_header(b"GT2"), Err(HeaderError::BadSignature)));
    assert!(matches!(parse_header(b"GT20\x01\x00"), Err(HeaderError::Truncated)));
}
