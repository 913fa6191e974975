//! Tests for the instruction scanner and ret rewriter.
#![allow(non_snake_case)]

use il_rewriter::scanner::{
    count_rets, preprocess_user_code, scan_instructions, short_to_long_branch,
};

#[test]
fn scan_empty_code() {
    let instructions = scan_instructions(&[]).unwrap();
    assert!(instructions.is_empty());
}

#[test]
fn scan_single_ret() {
    let code = [0x2A];
    let instructions = scan_instructions(&code).unwrap();
    assert_eq!(instructions.len(), 1);
    assert_eq!(instructions[0].opcode, 0x2A);
    assert_eq!(instructions[0].total_size, 1);
    assert!(instructions[0].is_ret());
}

#[test]
fn scan_nop_ret() {
    let code = [0x00, 0x2A];
    let instructions = scan_instructions(&code).unwrap();
    assert_eq!(instructions.len(), 2);
    assert_eq!(instructions[0].offset, 0);
    assert_eq!(instructions[0].opcode, 0x00);
    assert_eq!(instructions[1].offset, 1);
    assert!(instructions[1].is_ret());
}

#[test]
fn scan_ldstr_call_ret() {
    let code = [0x72, 0x01, 0x00, 0x00, 0x70, 0x28, 0x02, 0x00, 0x00, 0x06, 0x2A];
    let instructions = scan_instructions(&code).unwrap();
    assert_eq!(instructions.len(), 3);
    assert_eq!(instructions[0].opcode, 0x72);
    assert_eq!(instructions[0].total_size, 5);
    assert_eq!(instructions[1].opcode, 0x28);
    assert_eq!(instructions[1].offset, 5);
    assert_eq!(instructions[2].opcode, 0x2A);
    assert_eq!(instructions[2].offset, 10);
}

#[test]
fn scan_short_branch() {
    let code = [0x2B, 0x03, 0x00, 0x00, 0x00, 0x2A];
    let instructions = scan_instructions(&code).unwrap();
    assert_eq!(instructions.len(), 5);
    assert!(instructions[0].is_branch());
    assert!(instructions[0].is_short_branch());
    let target = instructions[0].branch_target(&code).unwrap();
    assert_eq!(target, 5);
}

#[test]
fn scan_long_branch() {
    let code = [0x38, 0x03, 0x00, 0x00, 0x00, 0x00, 0x00, 0x00, 0x2A];
    let instructions = scan_instructions(&code).unwrap();
    assert!(instructions[0].is_branch());
    assert!(!instructions[0].is_short_branch());
    let target = instructions[0].branch_target(&code).unwrap();
    assert_eq!(target, 8);
}

#[test]
fn scan_two_byte_opcode() {
    let code = [0xFE, 0x1A];
    let instructions = scan_instructions(&code).unwrap();
    assert_eq!(instructions.len(), 1);
    assert_eq!(instructions[0].opcode, 0xFE1A);
    assert_eq!(instructions[0].opcode_size, 2);
    assert_eq!(instructions[0].total_size, 2);
}

#[test]
fn scan_stloc_two_byte() {
    let code = [0xFE, 0x0E, 0x05, 0x00];
    let instructions = scan_instructions(&code).unwrap();
    assert_eq!(instructions.len(), 1);
    assert_eq!(instructions[0].opcode, 0xFE0E);
    assert_eq!(instructions[0].total_size, 4);
}

#[test]
fn scan_ldc_i8() {
    let code = [0x21, 0xBE, 0xBA, 0xFE, 0xCA, 0xEF, 0xBE, 0xAD, 0xDE];
    let instructions = scan_instructions(&code).unwrap();
    assert_eq!(instructions.len(), 1);
    assert_eq!(instructions[0].total_size, 9);
}

#[test]
fn scan_switch_instruction() {
    let code = [
        0x45, 0x02, 0x00, 0x00, 0x00, 0x05, 0x00, 0x00, 0x00, 0x0A, 0x00, 0x00, 0x00, 0x2A,
    ];
    let instructions = scan_instructions(&code).unwrap();
    assert_eq!(instructions[0].opcode, 0x45);
    assert_eq!(instructions[0].total_size, 13);
    assert_eq!(instructions[1].offset, 13);
    assert!(instructions[1].is_ret());
}

#[test]
fn scan_truncated_code_fails() {
    let code = [0x20, 0x01, 0x02];
    assert!(scan_instructions(&code).is_err());
}

#[test]
fn scan_undefined_opcode_fails() {
    let code = [0x24];
    assert!(scan_instructions(&code).is_err());
}

#[test]
fn count_rets_none() {
    let code = [0x00, 0x00];
    let instructions = scan_instructions(&code).unwrap();
    assert_eq!(count_rets(&instructions), 0);
}

#[test]
fn count_rets_single() {
    let code = [0x00, 0x2A];
    let instructions = scan_instructions(&code).unwrap();
    assert_eq!(count_rets(&instructions), 1);
}

#[test]
fn count_rets_multiple() {
    let code = [0x2C, 0x01, 0x2A, 0x00, 0x2A];
    let instructions = scan_instructions(&code).unwrap();
    assert_eq!(count_rets(&instructions), 2);
}

#[test]
fn preprocess_no_rets_returns_unchanged() {
    let code = [0x00, 0x00];
    let result = preprocess_user_code(&code).unwrap();
    assert_eq!(result.code, code);
}

#[test]
fn preprocess_single_ret_becomes_nop() {
    let code = [0x00, 0x2A];
    let result = preprocess_user_code(&code).unwrap();
    assert_eq!(result.code, [0x00, 0x00]);
}

#[test]
fn preprocess_single_ret_offset_map_is_identity() {
    let code = [0x00, 0x2A];
    let result = preprocess_user_code(&code).unwrap();
    assert_eq!(result.offset_map, vec![(0, 0), (1, 1)]);
}

#[test]
fn preprocess_two_rets_first_becomes_br() {
    let code = [0x02, 0x2A, 0x00, 0x2A];
    let result = preprocess_user_code(&code).unwrap();

    assert_eq!(result.code[0], 0x02);
    assert_eq!(result.code[1], 0x38);
    assert_eq!(result.code[6], 0x00);
    assert_eq!(result.code[7], 0x00);
    assert_eq!(result.code.len(), 8);

    let br_operand =
        i32::from_le_bytes([result.code[2], result.code[3], result.code[4], result.code[5]]);
    assert_eq!(br_operand, 1);
}

#[test]
fn preprocess_multi_ret_offset_map_reflects_growth() {
    let code = [0x02, 0x2A, 0x00, 0x2A];
    let result = preprocess_user_code(&code).unwrap();

    assert_eq!(result.offset_map[0], (0, 0));
    assert_eq!(result.offset_map[1], (1, 1));
    assert_eq!(result.offset_map[2], (2, 6));
    assert_eq!(result.offset_map[3], (3, 7));
}

#[test]
fn preprocess_multi_ret_with_branch_recalculates_target() {
    let code = [0x2B, 0x02, 0x00, 0x2A, 0x00, 0x2A];
    let result = preprocess_user_code(&code).unwrap();

    assert_eq!(result.offset_map[0], (0, 0));
    assert_eq!(result.offset_map[1], (2, 2));
    assert_eq!(result.offset_map[2], (3, 3));
    assert_eq!(result.offset_map[3], (4, 8));
    assert_eq!(result.offset_map[4], (5, 9));

    assert_eq!(result.code[1] as i8, 6);
}

#[test]
fn preprocess_three_rets() {
    let code = [0x2A, 0x2A, 0x2A];
    let result = preprocess_user_code(&code).unwrap();

    assert_eq!(result.code.len(), 11);

    assert_eq!(result.code[0], 0x38);
    let br1 =
        i32::from_le_bytes([result.code[1], result.code[2], result.code[3], result.code[4]]);
    assert_eq!(br1, 10 - 5);

    assert_eq!(result.code[5], 0x38);
    let br2 =
        i32::from_le_bytes([result.code[6], result.code[7], result.code[8], result.code[9]]);
    assert_eq!(br2, 10 - 10);

    assert_eq!(result.code[10], 0x00);
}

#[test]
fn preprocess_real_method_doSomeWork() {
    let code: Vec<u8> = vec![
        0x00, 0x16, 0x0A, 0x16, 0x0B, 0x2B, 0x0A, 0x00, 0x06, 0x07, 0x58, 0x0A, 0x00, 0x07, 0x17,
        0x58, 0x0B, 0x07, 0x02, 0xFE, 0x04, 0x0C, 0x08, 0x2D, 0xEE, 0x06, 0x0D, 0x2B, 0x00, 0x09,
        0x2A,
    ];

    let instructions = scan_instructions(&code).unwrap();
    assert_eq!(count_rets(&instructions), 1);

    let result = preprocess_user_code(&code).unwrap();
    assert_eq!(result.code.len(), code.len());
    assert_eq!(result.code[30], 0x00);
}

#[test]
fn short_to_long_branch_mapping() {
    assert_eq!(short_to_long_branch(0x2B), 0x38);
    assert_eq!(short_to_long_branch(0x2C), 0x39);
    assert_eq!(short_to_long_branch(0x2D), 0x3A);
    assert_eq!(short_to_long_branch(0x37), 0x44);
    assert_eq!(short_to_long_branch(0xDE), 0xDD);
}

#[test]
fn branch_target_calculation_short() {
    let code = [0x2B, 0x05, 0x00, 0x00, 0x00, 0x00, 0x00, 0x2A];
    let instructions = scan_instructions(&code).unwrap();
    assert_eq!(instructions[0].branch_target(&code), Some(7));
}

#[test]
fn branch_target_calculation_short_negative() {
    let code = [0x00, 0x00, 0x2B, 0xFC];
    let instructions = scan_instructions(&code).unwrap();
    assert_eq!(instructions[2].branch_target(&code), Some(0));
}

#[test]
fn non_branch_returns_none_for_target() {
    let code = [0x00];
    let instructions = scan_instructions(&code).unwrap();
    assert_eq!(instructions[0].branch_target(&code), None);
}

#[test]
fn preprocess_final_instruction_not_ret_fails() {
    // two rets but a trailing nop: the rewrite's precondition is violated
    let code = [0x2A, 0x2A, 0x00];
    assert!(preprocess_user_code(&code).is_err());
}
