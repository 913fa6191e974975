//! Tests for the instruction builder.

use il_rewriter::builder::InstructionBuilder;
use il_rewriter::opcodes::{
    CEE_LDC_I4, CEE_LDC_I8, CEE_LDNULL, CEE_LEAVE, CEE_NOP, CEE_POP, CEE_RETHROW,
};

#[test]
fn append_single_byte_opcode() {
    let mut builder = InstructionBuilder::new();
    builder.append_opcode(CEE_LDNULL);
    assert_eq!(builder.get_bytes(), &[0x14]);
}

#[test]
fn append_two_byte_opcode() {
    let mut builder = InstructionBuilder::new();
    builder.append_opcode(CEE_RETHROW);
    assert_eq!(builder.get_bytes(), &[0xFE, 0x1A]);
}

#[test]
fn append_opcode_u16_little_endian() {
    let mut builder = InstructionBuilder::new();
    builder.append_opcode_u16(CEE_LDNULL, 0xDEAD);
    assert_eq!(builder.get_bytes(), &[0x14, 0xAD, 0xDE]);
}

#[test]
fn append_opcode_u32_little_endian() {
    let mut builder = InstructionBuilder::new();
    builder.append_opcode_u32(CEE_LDC_I4, 0xDEADBEEF);
    assert_eq!(builder.get_bytes(), &[0x20, 0xEF, 0xBE, 0xAD, 0xDE]);
}

#[test]
fn append_opcode_u64_little_endian() {
    let mut builder = InstructionBuilder::new();
    builder.append_opcode_u64(CEE_LDC_I8, 0xBEEB_DEAD_BEEF_ABBE);
    assert_eq!(builder.get_bytes(), &[0x21, 0xBE, 0xAB, 0xEF, 0xBE, 0xAD, 0xDE, 0xEB, 0xBE]);
}

#[test]
fn load_argument_0_to_3() {
    let mut builder = InstructionBuilder::new();
    builder.append_load_argument(0);
    builder.append_load_argument(1);
    builder.append_load_argument(2);
    builder.append_load_argument(3);
    assert_eq!(builder.get_bytes(), &[0x02, 0x03, 0x04, 0x05]);
}

#[test]
fn load_argument_short_form() {
    let mut builder = InstructionBuilder::new();
    builder.append_load_argument(4);
    assert_eq!(builder.get_bytes(), &[0x0E, 0x04]);
}

#[test]
fn load_argument_long_form() {
    let mut builder = InstructionBuilder::new();
    builder.append_load_argument(256);
    assert_eq!(builder.get_bytes(), &[0xFE, 0x09, 0x00, 0x01]);
}

#[test]
fn load_local_0_to_3() {
    let mut builder = InstructionBuilder::new();
    builder.append_load_local(0);
    builder.append_load_local(1);
    builder.append_load_local(2);
    builder.append_load_local(3);
    assert_eq!(builder.get_bytes(), &[0x06, 0x07, 0x08, 0x09]);
}

#[test]
fn load_local_short_form() {
    let mut builder = InstructionBuilder::new();
    builder.append_load_local(4);
    assert_eq!(builder.get_bytes(), &[0x11, 0x04]);
}

#[test]
fn load_local_long_form() {
    let mut builder = InstructionBuilder::new();
    builder.append_load_local(256);
    assert_eq!(builder.get_bytes(), &[0xFE, 0x0C, 0x00, 0x01]);
}

#[test]
fn store_local_0_to_3() {
    let mut builder = InstructionBuilder::new();
    builder.append_store_local(0);
    builder.append_store_local(1);
    builder.append_store_local(2);
    builder.append_store_local(3);
    assert_eq!(builder.get_bytes(), &[0x0A, 0x0B, 0x0C, 0x0D]);
}

#[test]
fn store_local_short_form() {
    let mut builder = InstructionBuilder::new();
    builder.append_store_local(4);
    assert_eq!(builder.get_bytes(), &[0x13, 0x04]);
}

#[test]
fn store_local_long_form() {
    let mut builder = InstructionBuilder::new();
    builder.append_store_local(256);
    assert_eq!(builder.get_bytes(), &[0xFE, 0x0E, 0x00, 0x01]);
}

#[test]
fn ldc_i4_inline_values() {
    let mut builder = InstructionBuilder::new();
    builder.append_ldc_i4(-1);
    builder.append_ldc_i4(0);
    builder.append_ldc_i4(8);
    assert_eq!(builder.get_bytes(), &[0x15, 0x16, 0x1E]);
}

#[test]
fn ldc_i4_short_form() {
    let mut builder = InstructionBuilder::new();
    builder.append_ldc_i4(11);
    assert_eq!(builder.get_bytes(), &[0x1F, 0x0B]);
}

#[test]
fn ldc_i4_long_form() {
    let mut builder = InstructionBuilder::new();
    builder.append_ldc_i4(1000);
    assert_eq!(builder.get_bytes(), &[0x20, 0xE8, 0x03, 0x00, 0x00]);
}

#[test]
fn jump_label_forward_reference() {
    let mut builder = InstructionBuilder::new();

    builder.append_opcode(CEE_NOP);
    builder.append_jump(CEE_LEAVE as u8, "after");

    builder.append_opcode(CEE_NOP);
    builder.append_opcode(CEE_NOP);

    builder.append_label("after");

    let bytes = builder.get_bytes();
    assert_eq!(bytes[0], 0x00);
    assert_eq!(bytes[1], 0xDD);
    assert_eq!(bytes[2], 0x02);
    assert_eq!(bytes[3], 0x00);
    assert_eq!(bytes[4], 0x00);
    assert_eq!(bytes[5], 0x00);
    assert_eq!(bytes[6], 0x00);
    assert_eq!(bytes[7], 0x00);
}

#[test]
fn jump_label_zero_distance() {
    let mut builder = InstructionBuilder::new();
    builder.append_jump(CEE_LEAVE as u8, "here");
    builder.append_label("here");

    let bytes = builder.get_bytes();
    assert_eq!(bytes[0], 0xDD);
    assert_eq!(bytes[1], 0x00);
    assert_eq!(bytes[2], 0x00);
    assert_eq!(bytes[3], 0x00);
    assert_eq!(bytes[4], 0x00);
}

#[test]
fn jump_auto_generates_unique_labels() {
    let mut builder = InstructionBuilder::new();
    let label1 = builder.append_jump_auto(CEE_LEAVE as u8);
    let label2 = builder.append_jump_auto(CEE_LEAVE as u8);
    assert_ne!(label1, label2);
}

#[test]
fn multiple_jumps_to_same_label() {
    let mut builder = InstructionBuilder::new();
    builder.append_jump(CEE_LEAVE as u8, "target");
    builder.append_jump(CEE_LEAVE as u8, "target");
    builder.append_label("target");

    let bytes = builder.get_bytes();

    assert_eq!(bytes[1], 0x05);
    assert_eq!(bytes[2], 0x00);

    assert_eq!(bytes[6], 0x00);
    assert_eq!(bytes[7], 0x00);
}

#[test]
fn append_user_code_records_offset() {
    let mut builder = InstructionBuilder::new();
    builder.append_opcode(CEE_NOP);
    builder.append_opcode(CEE_NOP);
    builder.append_user_code(&[0x2A]);
    assert_eq!(builder.get_user_code_offset(), 2);
    assert_eq!(builder.get_bytes(), &[0x00, 0x00, 0x2A]);
}

#[test]
fn exception_clause_tracking() {
    let mut builder = InstructionBuilder::new();

    builder.append_try_start();
    builder.append_opcode(CEE_NOP);
    builder.append_opcode(CEE_NOP);
    builder.append_try_end();

    builder.append_catch_start(0x0100_0042);
    builder.append_opcode(CEE_POP);
    builder.append_catch_end();

    let clauses = builder.get_completed_clauses();
    assert_eq!(clauses.len(), 1);
    assert_eq!(clauses[0].flags, 0);
    assert_eq!(clauses[0].try_offset, 0);
    assert_eq!(clauses[0].try_length, 2);
    assert_eq!(clauses[0].handler_offset, 2);
    assert_eq!(clauses[0].handler_length, 1);
    assert_eq!(clauses[0].class_token, 0x0100_0042);
}

#[test]
fn nested_exception_clauses() {
    let mut builder = InstructionBuilder::new();

    builder.append_try_start();
    builder.append_opcode(CEE_NOP);

    builder.append_try_start();
    builder.append_opcode(CEE_NOP);
    builder.append_try_end();

    builder.append_catch_start(0x01000001);
    builder.append_opcode(CEE_POP);
    builder.append_catch_end();

    builder.append_try_end();

    builder.append_catch_start(0x01000002);
    builder.append_opcode(CEE_POP);
    builder.append_catch_end();

    let clauses = builder.get_completed_clauses();
    assert_eq!(clauses.len(), 2);
    assert_eq!(clauses[0].try_offset, 1);
    assert_eq!(clauses[0].class_token, 0x01000001);
    assert_eq!(clauses[1].try_offset, 0);
    assert_eq!(clauses[1].class_token, 0x01000002);
}

#[test]
fn position_tracks_bytes_written() {
    let mut builder = InstructionBuilder::new();
    assert_eq!(builder.position(), 0);
    builder.append_opcode(CEE_NOP);
    assert_eq!(builder.position(), 1);
    builder.append_opcode_u32(CEE_LDC_I4, 42);
    assert_eq!(builder.position(), 6);
}

#[test]
fn append_raw_bytes_appends_verbatim() {
    let mut builder = InstructionBuilder::new();
    builder.append_raw_bytes(&[0x01, 0x02, 0x03]);
    assert_eq!(builder.get_bytes(), &[0x01, 0x02, 0x03]);
}

#[test]
fn load_store_index_255_uses_short_form() {
    // 255 still fits the one-byte operand, so the short form is shortest
    let mut builder = InstructionBuilder::new();
    builder.append_load_argument(255);
    builder.append_load_local(255);
    builder.append_store_local(255);
    assert_eq!(builder.get_bytes(), &[0x0E, 0xFF, 0x11, 0xFF, 0x13, 0xFF]);
}
