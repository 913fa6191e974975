//! Tests for local-variable signature construction.

use il_rewriter::locals::LocalVariableSignature;

#[test]
fn new_empty_signature() {
    let sig = LocalVariableSignature::new();
    assert_eq!(sig.get_bytes(), &[0x07, 0x00]);
    assert_eq!(sig.count().unwrap(), 0);
}

#[test]
fn append_one_local() {
    let mut sig = LocalVariableSignature::new();
    let index = sig.append_type(&[0x1C]).unwrap();
    assert_eq!(index, 0);
    assert_eq!(sig.count().unwrap(), 1);
    assert_eq!(sig.get_bytes(), &[0x07, 0x01, 0x1C]);
}

#[test]
fn append_three_locals() {
    let mut sig = LocalVariableSignature::new();

    let idx0 = sig.append_type(&[0x1C]).unwrap();
    let idx1 = sig.append_type(&[0x12, 0x04]).unwrap();
    let idx2 = sig.append_type(&[0x08]).unwrap();

    assert_eq!(idx0, 0);
    assert_eq!(idx1, 1);
    assert_eq!(idx2, 2);
    assert_eq!(sig.count().unwrap(), 3);

    assert_eq!(sig.get_bytes(), &[0x07, 0x03, 0x1C, 0x12, 0x04, 0x08]);
}

#[test]
fn append_class_type_with_typeref_token() {
    let mut sig = LocalVariableSignature::new();
    let idx = sig.append_class_type(0x0100_0001).unwrap();
    assert_eq!(idx, 0);
    assert_eq!(sig.get_bytes(), &[0x07, 0x01, 0x12, 0x05]);
}

#[test]
fn append_to_existing_signature() {
    let existing = vec![0x07, 0x02, 0x08, 0x0E];
    let mut sig = LocalVariableSignature::from_existing(existing).unwrap();
    assert_eq!(sig.count().unwrap(), 2);

    let idx = sig.append_type(&[0x1C]).unwrap();
    assert_eq!(idx, 2);
    assert_eq!(sig.count().unwrap(), 3);

    assert_eq!(sig.get_bytes(), &[0x07, 0x03, 0x08, 0x0E, 0x1C]);
}

#[test]
fn count_boundary_crossing_to_two_byte() {
    // Start with 127 locals: the greatest count a one-byte encoding holds.
    let mut blob = vec![0x07, 0x7F];
    for _ in 0..127 {
        blob.push(0x08);
    }
    let mut sig = LocalVariableSignature::from_existing(blob).unwrap();

    assert_eq!(sig.count().unwrap(), 127);

    // Appending one more crosses to the two-byte encoding.
    let idx = sig.append_type(&[0x08]).unwrap();
    assert_eq!(idx, 127);
    assert_eq!(sig.count().unwrap(), 128);

    assert_eq!(sig.get_bytes()[0], 0x07);
    assert_eq!(sig.get_bytes()[1], 0x80);
    assert_eq!(sig.get_bytes()[2], 0x80);
}

#[test]
fn from_existing_invalid_header() {
    assert!(LocalVariableSignature::from_existing(vec![0x06, 0x00]).is_err());
}

#[test]
fn from_existing_empty() {
    assert!(LocalVariableSignature::from_existing(vec![]).is_err());
}

#[test]
fn into_bytes_consumes_signature() {
    let mut sig = LocalVariableSignature::new();
    sig.append_type(&[0x08]).unwrap();
    let bytes = sig.into_bytes();
    assert_eq!(bytes, vec![0x07, 0x01, 0x08]);
}

#[test]
fn count_boundary_crossing_to_four_byte() {
    // 0x3FFF locals: the greatest count a two-byte encoding holds.
    let mut blob = vec![0x07, 0xBF, 0xFF];
    for _ in 0..0x3FFF {
        blob.push(0x08);
    }
    let mut sig = LocalVariableSignature::from_existing(blob).unwrap();
    assert_eq!(sig.count().unwrap(), 0x3FFF);

    let idx = sig.append_type(&[0x08]).unwrap();
    assert_eq!(idx, 0x3FFF);
    assert_eq!(sig.count().unwrap(), 0x4000);

    // Count 0x4000 compressed: [0xC0, 0x00, 0x40, 0x00]
    assert_eq!(&sig.get_bytes()[0..5], &[0x07, 0xC0, 0x00, 0x40, 0x00]);
}

#[test]
fn append_overflowing_count_fails() {
    let mut blob = vec![0x07, 0xC0, 0x00, 0xFF, 0xFE];
    blob.push(0x08);
    let mut sig = LocalVariableSignature::from_existing(blob).unwrap();
    assert_eq!(sig.count().unwrap(), 0xFFFE);
    assert!(sig.append_type(&[0x08]).is_err());
}
