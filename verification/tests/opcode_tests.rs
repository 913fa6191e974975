//! Tests for the opcode constants and helpers.

use il_rewriter::opcodes::{
    encode_opcode, is_two_byte_opcode, ldc_i4_opcode_for, CEE_LDARG, CEE_LDARG_0, CEE_LDARG_1,
    CEE_LDARG_2, CEE_LDARG_3, CEE_LDC_I4, CEE_LDC_I4_0, CEE_LDC_I4_8, CEE_LDC_I4_M1, CEE_LDC_I4_S,
    CEE_LDLOC, CEE_LDLOC_0, CEE_LDLOC_3, CEE_LDNULL, CEE_LEAVE, CEE_NOP, CEE_RET, CEE_RETHROW,
    CEE_STLOC, CEE_STLOC_0, CEE_STLOC_3, CEE_THROW,
};

#[test]
fn single_byte_opcodes_are_in_range() {
    assert!(!is_two_byte_opcode(CEE_NOP));
    assert!(!is_two_byte_opcode(CEE_LDNULL));
    assert!(!is_two_byte_opcode(CEE_RET));
    assert!(!is_two_byte_opcode(CEE_LEAVE));
    assert!(!is_two_byte_opcode(CEE_THROW));
}

#[test]
fn two_byte_opcodes_are_in_range() {
    assert!(is_two_byte_opcode(CEE_RETHROW));
    assert!(is_two_byte_opcode(CEE_LDARG));
    assert!(is_two_byte_opcode(CEE_LDLOC));
    assert!(is_two_byte_opcode(CEE_STLOC));
}

#[test]
fn encode_single_byte_opcode() {
    assert_eq!(encode_opcode(CEE_NOP), vec![0x00]);
    assert_eq!(encode_opcode(CEE_LDNULL), vec![0x14]);
    assert_eq!(encode_opcode(CEE_RET), vec![0x2A]);
}

#[test]
fn encode_two_byte_opcode() {
    assert_eq!(encode_opcode(CEE_RETHROW), vec![0xFE, 0x1A]);
    assert_eq!(encode_opcode(CEE_LDARG), vec![0xFE, 0x09]);
    assert_eq!(encode_opcode(CEE_LDLOC), vec![0xFE, 0x0C]);
    assert_eq!(encode_opcode(CEE_STLOC), vec![0xFE, 0x0E]);
}

#[test]
fn ldc_i4_optimization() {
    assert_eq!(ldc_i4_opcode_for(-1), (CEE_LDC_I4_M1, None));
    assert_eq!(ldc_i4_opcode_for(0), (CEE_LDC_I4_0, None));
    assert_eq!(ldc_i4_opcode_for(8), (CEE_LDC_I4_8, None));

    assert_eq!(ldc_i4_opcode_for(9), (CEE_LDC_I4_S, Some(9)));
    assert_eq!(ldc_i4_opcode_for(127), (CEE_LDC_I4_S, Some(127)));

    assert_eq!(ldc_i4_opcode_for(128), (CEE_LDC_I4, Some(128)));
    assert_eq!(ldc_i4_opcode_for(1000), (CEE_LDC_I4, Some(1000)));

    assert_eq!(ldc_i4_opcode_for(-2), (CEE_LDC_I4_S, Some(-2)));
    assert_eq!(ldc_i4_opcode_for(-128), (CEE_LDC_I4_S, Some(-128)));
    assert_eq!(ldc_i4_opcode_for(-129), (CEE_LDC_I4, Some(-129)));
}

#[test]
fn ldarg_short_forms() {
    assert_eq!(CEE_LDARG_0, 0x02);
    assert_eq!(CEE_LDARG_1, 0x03);
    assert_eq!(CEE_LDARG_2, 0x04);
    assert_eq!(CEE_LDARG_3, 0x05);
    assert_eq!(CEE_LDARG_1 - CEE_LDARG_0, 1);
    assert_eq!(CEE_LDARG_3 - CEE_LDARG_0, 3);
}

#[test]
fn ldloc_short_forms() {
    assert_eq!(CEE_LDLOC_0, 0x06);
    assert_eq!(CEE_LDLOC_3, 0x09);
    assert_eq!(CEE_LDLOC_3 - CEE_LDLOC_0, 3);
}

#[test]
fn stloc_short_forms() {
    assert_eq!(CEE_STLOC_0, 0x0A);
    assert_eq!(CEE_STLOC_3, 0x0D);
    assert_eq!(CEE_STLOC_3 - CEE_STLOC_0, 3);
}
