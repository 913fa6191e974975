//! Tests for exception-clause parsing, shifting and serialization.

use il_rewriter::eh::{ExceptionClause, ExceptionHandlerManipulator};

fn read_le_u24(bytes: &[u8]) -> u32 {
    (bytes[0] as u32) | ((bytes[1] as u32) << 8) | ((bytes[2] as u32) << 16)
}

#[test]
fn empty_manipulator_produces_no_bytes() {
    let manip = ExceptionHandlerManipulator::new();
    assert_eq!(manip.get_extra_section_bytes(0), Vec::<u8>::new());
    assert_eq!(manip.clause_count(), 0);
}

#[test]
fn parse_fat_section_one_clause() {
    let mut bytes = vec![0x41, 0x1C, 0x00, 0x00];
    bytes.extend_from_slice(&0u32.to_le_bytes());
    bytes.extend_from_slice(&0u32.to_le_bytes());
    bytes.extend_from_slice(&10u32.to_le_bytes());
    bytes.extend_from_slice(&10u32.to_le_bytes());
    bytes.extend_from_slice(&5u32.to_le_bytes());
    bytes.extend_from_slice(&0x01000042u32.to_le_bytes());

    let manip = ExceptionHandlerManipulator::from_extra_section(&bytes).unwrap();
    assert_eq!(manip.original_clauses.len(), 1);
    assert_eq!(manip.original_clauses[0].flags, 0);
    assert_eq!(manip.original_clauses[0].try_offset, 0);
    assert_eq!(manip.original_clauses[0].try_length, 10);
    assert_eq!(manip.original_clauses[0].handler_offset, 10);
    assert_eq!(manip.original_clauses[0].handler_length, 5);
    assert_eq!(manip.original_clauses[0].class_token, 0x01000042);
}

#[test]
fn parse_small_section_one_clause() {
    let bytes = vec![
        0x01, // EH table, small format
        0x10, 0x00, 0x00, // size = 16 (only low byte used for small)
        0x00, 0x00, // flags = catch
        0x00, 0x00, // try offset = 0
        0x01, // try length = 1
        0x02, 0x00, // handler offset = 2
        0x01, // handler length = 1
        0x00, 0x00, 0x00, 0x00, // class token = 0
    ];

    let manip = ExceptionHandlerManipulator::from_extra_section(&bytes).unwrap();
    assert_eq!(manip.original_clauses.len(), 1);
    assert_eq!(manip.original_clauses[0].try_offset, 0);
    assert_eq!(manip.original_clauses[0].try_length, 1);
    assert_eq!(manip.original_clauses[0].handler_offset, 2);
    assert_eq!(manip.original_clauses[0].handler_length, 1);
}

#[test]
fn offset_shifting_applied_to_original_clauses() {
    let mut manip = ExceptionHandlerManipulator::new();
    manip.original_clauses.push(ExceptionClause {
        flags: 0,
        try_offset: 10,
        try_length: 20,
        handler_offset: 30,
        handler_length: 10,
        class_token: 0x01000042,
        filter_offset: 0,
    });

    let bytes = manip.get_extra_section_bytes(50);

    let result = ExceptionHandlerManipulator::from_extra_section(&bytes).unwrap();
    assert_eq!(result.original_clauses[0].try_offset, 60);
    assert_eq!(result.original_clauses[0].handler_offset, 80);
    assert_eq!(result.original_clauses[0].try_length, 20);
    assert_eq!(result.original_clauses[0].handler_length, 10);
}

#[test]
fn filter_clause_offset_shifted() {
    let mut manip = ExceptionHandlerManipulator::new();
    manip.original_clauses.push(ExceptionClause {
        flags: 0x0001,
        try_offset: 5,
        try_length: 10,
        handler_offset: 20,
        handler_length: 5,
        class_token: 0,
        filter_offset: 15,
    });

    let bytes = manip.get_extra_section_bytes(100);

    let result = ExceptionHandlerManipulator::from_extra_section(&bytes).unwrap();
    assert_eq!(result.original_clauses[0].try_offset, 105);
    assert_eq!(result.original_clauses[0].handler_offset, 120);
    assert_eq!(result.original_clauses[0].filter_offset, 115);
}

#[test]
fn new_clauses_written_before_original() {
    let mut manip = ExceptionHandlerManipulator::new();
    manip.original_clauses.push(ExceptionClause {
        flags: 0,
        try_offset: 0,
        try_length: 10,
        handler_offset: 10,
        handler_length: 5,
        class_token: 0x01000001,
        filter_offset: 0,
    });
    manip.add_clause(ExceptionClause {
        flags: 0,
        try_offset: 100,
        try_length: 20,
        handler_offset: 120,
        handler_length: 10,
        class_token: 0x01000002,
        filter_offset: 0,
    });

    let bytes = manip.get_extra_section_bytes(50);
    let result = ExceptionHandlerManipulator::from_extra_section(&bytes).unwrap();

    assert_eq!(result.original_clauses.len(), 2);
    assert_eq!(result.original_clauses[0].try_offset, 100);
    assert_eq!(result.original_clauses[0].class_token, 0x01000002);
    assert_eq!(result.original_clauses[1].try_offset, 50);
    assert_eq!(result.original_clauses[1].class_token, 0x01000001);
}

#[test]
fn extra_section_header_format() {
    let mut manip = ExceptionHandlerManipulator::new();
    manip.add_clause(ExceptionClause {
        flags: 0,
        try_offset: 0,
        try_length: 5,
        handler_offset: 5,
        handler_length: 3,
        class_token: 0x01000001,
        filter_offset: 0,
    });

    let bytes = manip.get_extra_section_bytes(0);

    assert_eq!(bytes[0], 0x41);
    assert_eq!(bytes[1], 0x1C);
    assert_eq!(bytes[2], 0x00);
    assert_eq!(bytes[3], 0x00);
    assert_eq!(bytes.len(), 28);
}

#[test]
fn multiple_clauses_section_size() {
    let mut manip = ExceptionHandlerManipulator::new();
    for _ in 0..3 {
        manip.add_clause(ExceptionClause::default());
    }

    let bytes = manip.get_extra_section_bytes(0);

    let size = read_le_u24(&bytes[1..4]);
    assert_eq!(size, 76);
    assert_eq!(bytes.len(), 76);
}

#[test]
fn fat_clause_round_trip() {
    let original = ExceptionClause {
        flags: 0,
        try_offset: 42,
        try_length: 100,
        handler_offset: 142,
        handler_length: 50,
        class_token: 0x01000099,
        filter_offset: 0,
    };

    let mut manip = ExceptionHandlerManipulator::new();
    manip.add_clause(original.clone());

    let bytes = manip.get_extra_section_bytes(0);
    let result = ExceptionHandlerManipulator::from_extra_section(&bytes).unwrap();

    assert_eq!(result.original_clauses.len(), 1);
    let parsed = &result.original_clauses[0];
    assert_eq!(parsed.flags, original.flags);
    assert_eq!(parsed.try_offset, original.try_offset);
    assert_eq!(parsed.try_length, original.try_length);
    assert_eq!(parsed.handler_offset, original.handler_offset);
    assert_eq!(parsed.handler_length, original.handler_length);
    assert_eq!(parsed.class_token, original.class_token);
}

#[test]
fn parse_too_short_fails() {
    assert!(ExceptionHandlerManipulator::from_extra_section(&[0x41]).is_err());
}

#[test]
fn parse_non_eh_table_fails() {
    assert!(ExceptionHandlerManipulator::from_extra_section(&[0x40, 0x04, 0x00, 0x00]).is_err());
}

#[test]
fn le_u24_round_trip() {
    // the 24-bit size field survives serialization
    let mut manip = ExceptionHandlerManipulator::new();
    manip.add_clause(ExceptionClause::default());
    let bytes = manip.get_extra_section_bytes(0);
    assert_eq!(read_le_u24(&bytes[1..4]), 0x1C);
}

#[test]
fn apply_offset_map_remaps_clause_offsets() {
    let mut manip = ExceptionHandlerManipulator::new();
    manip.original_clauses.push(ExceptionClause {
        flags: 0,
        try_offset: 1,
        try_length: 2,
        handler_offset: 3,
        handler_length: 1,
        class_token: 0x01000001,
        filter_offset: 0,
    });
    manip.apply_offset_map(&[(1, 1), (2, 6), (3, 7)]);
    assert_eq!(manip.original_clauses[0].try_offset, 1);
    assert_eq!(manip.original_clauses[0].handler_offset, 7);
    assert_eq!(manip.original_clauses[0].try_length, 2);
}
