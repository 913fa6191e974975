//! Tests for the compressed-integer and token codec.

use il_rewriter::codec::{compress_data, compress_token, uncompress_data, uncompress_token};

#[test]
fn compress_data_zero() {
    assert_eq!(compress_data(0).unwrap(), vec![0x00]);
}

#[test]
fn compress_data_single_byte_max() {
    assert_eq!(compress_data(0x7F).unwrap(), vec![0x7F]);
}

#[test]
fn compress_data_two_byte_min() {
    assert_eq!(compress_data(0x80).unwrap(), vec![0x80, 0x80]);
}

#[test]
fn compress_data_two_byte_max() {
    assert_eq!(compress_data(0x3FFF).unwrap(), vec![0xBF, 0xFF]);
}

#[test]
fn compress_data_four_byte_min() {
    assert_eq!(compress_data(0x4000).unwrap(), vec![0xC0, 0x00, 0x40, 0x00]);
}

#[test]
fn compress_data_four_byte_max() {
    assert_eq!(compress_data(0x1FFF_FFFF).unwrap(), vec![0xDF, 0xFF, 0xFF, 0xFF]);
}

#[test]
fn compress_data_overflow() {
    assert!(compress_data(0x2000_0000).is_err());
}

#[test]
fn compress_data_common_values() {
    assert_eq!(compress_data(1).unwrap(), vec![0x01]);
    assert_eq!(compress_data(3).unwrap(), vec![0x03]);
    assert_eq!(compress_data(11).unwrap(), vec![0x0B]);
}

#[test]
fn uncompress_data_single_byte() {
    assert_eq!(uncompress_data(&[0x00]).unwrap(), (0, 1));
    assert_eq!(uncompress_data(&[0x7F]).unwrap(), (0x7F, 1));
    assert_eq!(uncompress_data(&[0x03]).unwrap(), (3, 1));
}

#[test]
fn uncompress_data_two_byte() {
    assert_eq!(uncompress_data(&[0x80, 0x80]).unwrap(), (0x80, 2));
    assert_eq!(uncompress_data(&[0xBF, 0xFF]).unwrap(), (0x3FFF, 2));
}

#[test]
fn uncompress_data_four_byte() {
    assert_eq!(uncompress_data(&[0xC0, 0x00, 0x40, 0x00]).unwrap(), (0x4000, 4));
    assert_eq!(uncompress_data(&[0xDF, 0xFF, 0xFF, 0xFF]).unwrap(), (0x1FFF_FFFF, 4));
}

#[test]
fn uncompress_data_empty_input() {
    assert!(uncompress_data(&[]).is_err());
}

#[test]
fn uncompress_data_truncated_two_byte() {
    assert!(uncompress_data(&[0x80]).is_err());
}

#[test]
fn uncompress_data_truncated_four_byte() {
    assert!(uncompress_data(&[0xC0, 0x00]).is_err());
}

#[test]
fn compress_uncompress_round_trip() {
    let test_values: Vec<u32> = vec![
        0, 1, 0x7F, 0x80, 0xFF, 0x100, 0x3FFF, 0x4000, 0xFFFF, 0x10000, 0x1FFF_FFFF,
    ];
    for value in test_values {
        let compressed = compress_data(value).unwrap();
        let (decompressed, consumed) = uncompress_data(&compressed).unwrap();
        assert_eq!(decompressed, value, "Round-trip failed for 0x{:x}", value);
        assert_eq!(consumed, compressed.len(), "Consumed bytes mismatch for 0x{:x}", value);
    }
}

#[test]
fn compress_typedef_token() {
    let result = compress_token(0x0200_0001).unwrap();
    assert_eq!(result, vec![0x04]);
}

#[test]
fn compress_typeref_token() {
    let result = compress_token(0x0100_0042).unwrap();
    let (decompressed, _) = uncompress_data(&result).unwrap();
    assert_eq!(decompressed, (0x42 << 2) | 1);
}

#[test]
fn compress_typespec_token() {
    let result = compress_token(0x1B00_0003).unwrap();
    assert_eq!(result, vec![0x0E]);
}

#[test]
fn compress_token_unsupported_table() {
    assert!(compress_token(0x0600_0001).is_err());
}

#[test]
fn uncompress_typedef_token() {
    let (token, consumed) = uncompress_token(&[0x04]).unwrap();
    assert_eq!(token, 0x0200_0001);
    assert_eq!(consumed, 1);
}

#[test]
fn uncompress_typespec_token() {
    let (token, consumed) = uncompress_token(&[0x0E]).unwrap();
    assert_eq!(token, 0x1B00_0003);
    assert_eq!(consumed, 1);
}

#[test]
fn token_round_trip() {
    let tokens: Vec<u32> = vec![0x0200_0001, 0x0100_0001, 0x0100_0042, 0x1B00_0003, 0x0200_0100];
    for token in tokens {
        let compressed = compress_token(token).unwrap();
        let (decompressed, consumed) = uncompress_token(&compressed).unwrap();
        assert_eq!(decompressed, token, "Token round-trip failed for 0x{:08x}", token);
        assert_eq!(consumed, compressed.len());
    }
}
