use yaz0lib::{decompress, DecompressError};

/// A container: magic tag, big-endian declared size, 8 reserved bytes, payload.
fn container(size: u32, payload: &[u8]) -> Vec<u8> {
    let mut v = vec![b'Y', b'a', b'z', b'0'];
    v.extend_from_slice(&size.to_be_bytes());
    v.extend_from_slice(&[0u8; 8]);
    v.extend_from_slice(payload);
    v
}

/// A conformant literal-only encoding of `data`: every control byte all ones.
fn literal_encode(data: &[u8]) -> Vec<u8> {
    let mut payload = Vec::new();
    for chunk in data.chunks(8) {
        payload.push(0xFF);
        payload.extend_from_slice(chunk);
    }
    container(data.len() as u32, &payload)
}

#[test]
fn literal_run_decodes_following_bytes() {
    let c = container(4, &[0xFF, 1, 2, 3, 4]);
    assert_eq!(decompress(&c), Ok(vec![1, 2, 3, 4]));
}

#[test]
fn literal_run_two_groups() {
    let c = container(10, &[0xFF, 1, 2, 3, 4, 5, 6, 7, 8, 0xFF, 9, 10]);
    assert_eq!(decompress(&c), Ok(vec![1, 2, 3, 4, 5, 6, 7, 8, 9, 10]));
}

#[test]
fn literal_run_cut_at_declared_size() {
    let c = container(2, &[0xFF, 9, 8, 7]);
    assert_eq!(decompress(&c), Ok(vec![9, 8]));
}

#[test]
fn round_trip_literal_encoding() {
    let data: Vec<u8> = (0..20).map(|i| (i * 7 + 3) as u8).collect();
    let c = literal_encode(&data);
    assert_eq!(decompress(&c), Ok(data));
}

#[test]
fn unused_control_bits_are_not_read() {
    let c = container(1, &[0xFF, 0x42, 0x99, 0x98]);
    assert_eq!(decompress(&c), Ok(vec![0x42]));
}

#[test]
fn backref_distance_zero_repeats_last_byte() {
    // Four literals then one back-reference: distance 0, length nibble 2,
    // so four more bytes copied from one byte back each time.
    let c = container(8, &[0xF0, 7, 7, 7, 7, 0x20, 0x00]);
    assert_eq!(decompress(&c), Ok(vec![7, 7, 7, 7, 7, 7, 7, 7]));
}

#[test]
fn backref_expands_repeating_pattern() {
    // Four literals then an overlapping back-reference starting at the first
    // byte: the four-byte pattern is repeated.
    let c = container(8, &[0xF0, 1, 2, 3, 4, 0x20, 0x03]);
    let r = decompress(&c).unwrap();
    assert_eq!(r, vec![1, 2, 3, 4, 1, 2, 3, 4]);
    assert_eq!(r.len(), 8);
}

#[test]
fn short_length_nibble_one_copies_three() {
    let c = container(4, &[0x80, 0xAA, 0x10, 0x00]);
    assert_eq!(decompress(&c), Ok(vec![0xAA; 4]));
}

#[test]
fn short_length_nibble_fifteen_copies_seventeen() {
    let c = container(18, &[0x80, 0xBB, 0xF0, 0x00]);
    assert_eq!(decompress(&c), Ok(vec![0xBB; 18]));
}

#[test]
fn extended_length_byte_zero_copies_eighteen() {
    let c = container(19, &[0x80, 0xCC, 0x00, 0x00, 0x00]);
    assert_eq!(decompress(&c), Ok(vec![0xCC; 19]));
}

#[test]
fn extended_length_byte_max_copies_two_seventy_three() {
    let c = container(274, &[0x80, 0xDD, 0x00, 0x00, 0xFF]);
    assert_eq!(decompress(&c), Ok(vec![0xDD; 274]));
}

#[test]
fn bad_magic_fails_without_reading_header_fields() {
    // Only the four magic bytes are present; a decoder that read further
    // header fields first would report truncation instead.
    let c = vec![b'Y', b'a', b'z', b'1'];
    assert_eq!(decompress(&c), Err(DecompressError::FormatMismatch));
}

#[test]
fn bad_magic_case_sensitive() {
    let mut c = container(0, &[]);
    c[1] = b'A';
    c[2] = b'Z';
    assert_eq!(decompress(&c), Err(DecompressError::FormatMismatch));
}

#[test]
fn backref_before_start_of_output() {
    // The very first operation is a back-reference into an empty output.
    let c = container(4, &[0x00, 0x20, 0x00]);
    assert_eq!(decompress(&c), Err(DecompressError::InvalidBackReference));
}

#[test]
fn backref_distance_past_output_start() {
    // One literal, then a back-reference with distance 5: it would start
    // before the beginning of the output.
    let c = container(4, &[0x80, 0x11, 0x20, 0x05]);
    assert_eq!(decompress(&c), Err(DecompressError::InvalidBackReference));
}

#[test]
fn zero_size_decodes_empty() {
    let c = container(0, &[]);
    assert_eq!(decompress(&c), Ok(vec![]));
}

#[test]
fn zero_size_reads_nothing_past_header() {
    // Garbage after the header is never touched when the declared size is 0.
    let c = container(0, &[0x00, 0x20, 0x00, 0xFF]);
    assert_eq!(decompress(&c), Ok(vec![]));
}

#[test]
fn decoded_length_equals_declared_size() {
    let c = container(8, &[0xF0, 1, 2, 3, 4, 0x20, 0x03]);
    assert_eq!(decompress(&c).unwrap().len(), 8);
}

#[test]
fn empty_input_is_truncated() {
    assert_eq!(decompress(&vec![]), Err(DecompressError::TruncatedInput));
}

#[test]
fn short_magic_is_truncated() {
    let c = vec![b'Y', b'a', b'z'];
    assert_eq!(decompress(&c), Err(DecompressError::TruncatedInput));
}

#[test]
fn missing_reserved_bytes_is_truncated() {
    let c = vec![b'Y', b'a', b'z', b'0', 0, 0, 0, 1, 0, 0, 0];
    assert_eq!(decompress(&c), Err(DecompressError::TruncatedInput));
}

#[test]
fn missing_control_byte_is_truncated() {
    let c = container(1, &[]);
    assert_eq!(decompress(&c), Err(DecompressError::TruncatedInput));
}

#[test]
fn missing_literal_byte_is_truncated() {
    let c = container(1, &[0xFF]);
    assert_eq!(decompress(&c), Err(DecompressError::TruncatedInput));
}

#[test]
fn missing_backref_byte_is_truncated() {
    let c = container(3, &[0x00, 0x10]);
    assert_eq!(decompress(&c), Err(DecompressError::TruncatedInput));
}

#[test]
fn missing_extension_byte_is_truncated() {
    let c = container(20, &[0x80, 0xAA, 0x00, 0x00]);
    assert_eq!(decompress(&c), Err(DecompressError::TruncatedInput));
}
