//! Tests for the instrumentation template and signature builders.

use il_rewriter::builder::InstructionBuilder;
use il_rewriter::inject::{
    build_action2_invoke_sig, build_action2_typespec_sig, build_get_type_from_handle_sig,
    build_instrumented_method_with_tokens, build_method_base_invoke_sig,
    store_array_element_string, InjectionTokens, InstrumentationContext,
};
use il_rewriter::signature::parse_method_signature;

fn test_tokens() -> InjectionTokens {
    InjectionTokens {
        exception_type_ref: 0x0100_0001,
        object_type_ref: 0x0100_0002,
        uint32_type_ref: 0x0100_0003,
        uint64_type_ref: 0x0100_0004,
        type_type_ref: 0x0100_0005,
        get_type_from_handle_ref: 0x0A00_0001,
        method_base_type_ref: 0x0100_0006,
        method_base_invoke_ref: 0x0A00_0002,
        action2_type_ref: 0x0100_0007,
        action2_invoke_ref: 0x0A00_0003,
        action2_type_spec: 0x1B00_0001,
        action2_invoke_on_spec: 0x0A00_0004,
        tracer_factory_name_token: 0x7000_0001,
        metric_name_token: 0x7000_0002,
        assembly_name_token: 0x7000_0003,
        type_name_token: 0x7000_0004,
        method_name_token: 0x7000_0005,
        argument_signature_token: 0x7000_0006,
    }
}

fn test_ctx_static_void() -> InstrumentationContext {
    InstrumentationContext {
        assembly_name: "TestAssembly".to_string(),
        type_name_full: "TestNamespace.TestClass".to_string(),
        method_name: "TestMethod".to_string(),
        function_id: 0x1234,
        type_token: 0x0200_0001,
        tracer_factory_name: "TestFactory".to_string(),
        tracer_factory_args: 0,
        metric_name: "Custom/Test".to_string(),
        argument_signature: "".to_string(),
        method_signature: parse_method_signature(&[0x00, 0x00, 0x01]).unwrap(),
    }
}

fn test_ctx_instance_nonvoid() -> InstrumentationContext {
    InstrumentationContext {
        assembly_name: "TestAssembly".to_string(),
        type_name_full: "TestNamespace.TestClass".to_string(),
        method_name: "Compute".to_string(),
        function_id: 0x5678,
        type_token: 0x0200_0002,
        tracer_factory_name: "TestFactory".to_string(),
        tracer_factory_args: 42,
        metric_name: "Custom/Compute".to_string(),
        argument_signature: "(int)".to_string(),
        method_signature: parse_method_signature(&[0x20, 0x01, 0x08, 0x08]).unwrap(),
    }
}

fn tiny_ret_method() -> Vec<u8> {
    vec![0x06, 0x2A]
}

fn fat_nop_ret_method() -> Vec<u8> {
    let mut bytes = vec![0u8; 14];
    let flags_size: u16 = 0x0013 | (3 << 12);
    bytes[0..2].copy_from_slice(&flags_size.to_le_bytes());
    bytes[2..4].copy_from_slice(&2u16.to_le_bytes());
    bytes[4..8].copy_from_slice(&2u32.to_le_bytes());
    bytes[8..12].copy_from_slice(&0u32.to_le_bytes());
    bytes[12] = 0x00;
    bytes[13] = 0x2A;
    bytes
}

#[test]
fn get_type_from_handle_sig_complete_verification() {
    let type_token = 0x0100_0001;
    let rth_token = 0x0100_0002;
    let sig = build_get_type_from_handle_sig(type_token, rth_token);

    assert_eq!(sig[0], 0x00);
    assert_eq!(sig[1], 0x01);
    assert_eq!(sig[2], 0x12);
    assert_eq!(sig[3], 0x05);
    assert_eq!(sig[4], 0x11);
    assert_eq!(sig[5], 0x09);
    assert_eq!(sig.len(), 6);
}

#[test]
fn method_base_invoke_sig_complete_verification() {
    let object_token = 0x0100_0001;
    let sig = build_method_base_invoke_sig(object_token);

    assert_eq!(sig[0], 0x20);
    assert_eq!(sig[1], 0x02);
    assert_eq!(sig[2], 0x12);
    assert_eq!(sig[3], 0x05);
    assert_eq!(sig[4], 0x12);
    assert_eq!(sig[5], 0x05);
    assert_eq!(sig[6], 0x1D);
    assert_eq!(sig[7], 0x12);
    assert_eq!(sig[8], 0x05);
    assert_eq!(sig.len(), 9);
}

#[test]
fn action2_invoke_sig_format() {
    let sig = build_action2_invoke_sig();
    assert_eq!(sig, vec![0x20, 0x02, 0x01, 0x13, 0x00, 0x13, 0x01]);
}

#[test]
fn action2_typespec_sig_format() {
    let sig = build_action2_typespec_sig(0x0100_0007, 0x0100_0002, 0x0100_0001);

    assert_eq!(sig[0], 0x15);
    assert_eq!(sig[1], 0x12);
    assert_eq!(sig[2], 0x1D);
    assert_eq!(sig[3], 0x02);
    assert_eq!(sig[4], 0x12);
    assert_eq!(sig[5], 0x09);
    assert_eq!(sig[6], 0x12);
    assert_eq!(sig[7], 0x05);
    assert_eq!(sig.len(), 8);
}

#[test]
fn store_array_element_emits_correct_opcodes() {
    let mut builder = InstructionBuilder::new();
    store_array_element_string(&mut builder, 3, 0x70000042);

    let bytes = builder.get_bytes();
    assert_eq!(bytes[0], 0x25);
    assert_eq!(bytes[1], 0x19);
    assert_eq!(bytes[2], 0x72);
    assert_eq!(bytes[3], 0x42);
    assert_eq!(bytes[4], 0x00);
    assert_eq!(bytes[5], 0x00);
    assert_eq!(bytes[6], 0x70);
    assert_eq!(bytes[7], 0xA2);
}

#[test]
fn store_array_element_index_zero_uses_ldc_i4_0() {
    let mut builder = InstructionBuilder::new();
    store_array_element_string(&mut builder, 0, 0x70000001);
    let bytes = builder.get_bytes();
    assert_eq!(bytes[0], 0x25);
    assert_eq!(bytes[1], 0x16);
}

#[test]
fn store_array_element_index_10_uses_ldc_i4_s() {
    let mut builder = InstructionBuilder::new();
    store_array_element_string(&mut builder, 10, 0x70000001);
    let bytes = builder.get_bytes();
    assert_eq!(bytes[0], 0x25);
    assert_eq!(bytes[1], 0x1F);
    assert_eq!(bytes[2], 0x0A);
}

#[test]
fn static_void_tiny_method_produces_valid_fat_output() {
    let ctx = test_ctx_static_void();
    let tokens = test_tokens();
    let original_il = tiny_ret_method();

    let result =
        build_instrumented_method_with_tokens(&ctx, &tokens, &original_il, 0x11000042, 0).unwrap();

    assert!(result.len() >= 12, "Output too short for fat header");
    let flags_size = u16::from_le_bytes([result[0], result[1]]);
    let flags = flags_size & 0x0FFF;
    assert_eq!(flags & 0x0003, 0x0003, "Must be fat format");
    assert_ne!(flags & 0x0010, 0, "Must have InitLocals");
    assert_ne!(flags & 0x0008, 0, "Must have MoreSects");

    let local_sig = u32::from_le_bytes([result[8], result[9], result[10], result[11]]);
    assert_eq!(local_sig, 0x11000042);

    let max_stack = u16::from_le_bytes([result[2], result[3]]);
    assert!(max_stack >= 10, "max_stack {} < 10", max_stack);
}

#[test]
fn static_void_method_starts_with_null_initialization() {
    let ctx = test_ctx_static_void();
    let tokens = test_tokens();
    let original_il = tiny_ret_method();

    let result =
        build_instrumented_method_with_tokens(&ctx, &tokens, &original_il, 0x11000001, 0).unwrap();

    let code = &result[12..];

    assert_eq!(code[0], 0x14, "Expected ldnull (tracer = null)");
    assert_eq!(code[1], 0x0A, "Expected stloc.0 (tracer)");
    assert_eq!(code[2], 0x14, "Expected ldnull (exception = null)");
    assert_eq!(code[3], 0x0B, "Expected stloc.1 (exception)");
}

#[test]
fn static_void_method_ends_with_ret() {
    let ctx = test_ctx_static_void();
    let tokens = test_tokens();
    let original_il = tiny_ret_method();

    let result =
        build_instrumented_method_with_tokens(&ctx, &tokens, &original_il, 0x11000001, 0).unwrap();

    let code_size = u32::from_le_bytes([result[4], result[5], result[6], result[7]]);
    let last_code_byte = result[12 + code_size as usize - 1];
    assert_eq!(last_code_byte, 0x2A, "Method must end with ret");
}

#[test]
fn static_void_method_contains_original_code() {
    let ctx = test_ctx_static_void();
    let tokens = test_tokens();
    let original_il = tiny_ret_method();

    let result =
        build_instrumented_method_with_tokens(&ctx, &tokens, &original_il, 0x11000001, 0).unwrap();

    let code_size = u32::from_le_bytes([result[4], result[5], result[6], result[7]]);
    let code = &result[12..12 + code_size as usize];

    assert!(code.len() > 10, "Instrumented code must be larger than original");
    assert!(code.windows(1).any(|w| w[0] == 0x2A), "Original ret opcode should appear in code");
}

#[test]
fn static_void_method_has_exception_clauses() {
    let ctx = test_ctx_static_void();
    let tokens = test_tokens();
    let original_il = tiny_ret_method();

    let result =
        build_instrumented_method_with_tokens(&ctx, &tokens, &original_il, 0x11000001, 0).unwrap();

    let code_size = u32::from_le_bytes([result[4], result[5], result[6], result[7]]) as usize;
    let code_end = 12 + code_size;

    let mut extra_start = code_end;
    while extra_start % 4 != 0 {
        extra_start += 1;
    }

    assert!(result.len() > extra_start, "Must have extra sections");

    assert_eq!(result[extra_start], 0x41, "Extra section must be fat EH table");

    let eh_size = (result[extra_start + 1] as u32)
        | ((result[extra_start + 2] as u32) << 8)
        | ((result[extra_start + 3] as u32) << 16);

    let clause_count = (eh_size - 4) / 24;
    assert!(clause_count >= 2, "Expected at least 2 exception clauses, got {}", clause_count);
}

#[test]
fn static_void_method_contains_callvirt_for_invoke() {
    let ctx = test_ctx_static_void();
    let tokens = test_tokens();
    let original_il = tiny_ret_method();

    let result =
        build_instrumented_method_with_tokens(&ctx, &tokens, &original_il, 0x11000001, 0).unwrap();

    let code_size = u32::from_le_bytes([result[4], result[5], result[6], result[7]]) as usize;
    let code = &result[12..12 + code_size];

    let callvirt_count = code.iter().filter(|&&b| b == 0x6F).count();
    assert!(
        callvirt_count >= 2,
        "Expected at least 2 callvirt (finish-tracer Invoke calls), got {}",
        callvirt_count
    );
}

#[test]
fn static_void_method_contains_rethrow() {
    let ctx = test_ctx_static_void();
    let tokens = test_tokens();
    let original_il = tiny_ret_method();

    let result =
        build_instrumented_method_with_tokens(&ctx, &tokens, &original_il, 0x11000001, 0).unwrap();

    let code_size = u32::from_le_bytes([result[4], result[5], result[6], result[7]]) as usize;
    let code = &result[12..12 + code_size];

    assert!(code.windows(2).any(|w| w[0] == 0xFE && w[1] == 0x1A), "Must contain rethrow opcode");
}

#[test]
fn nonvoid_method_has_result_load_before_ret() {
    let ctx = test_ctx_instance_nonvoid();
    let tokens = test_tokens();
    let original_il = tiny_ret_method();

    let result =
        build_instrumented_method_with_tokens(&ctx, &tokens, &original_il, 0x11000001, 0).unwrap();

    let code_size = u32::from_le_bytes([result[4], result[5], result[6], result[7]]) as usize;
    let code = &result[12..12 + code_size];

    let last_two = &code[code.len() - 2..];
    assert_eq!(last_two[0], 0x08, "Expected ldloc.2 before ret");
    assert_eq!(last_two[1], 0x2A, "Expected ret at end");
}

#[test]
fn void_method_does_not_load_result_before_ret() {
    let ctx = test_ctx_static_void();
    let tokens = test_tokens();
    let original_il = tiny_ret_method();

    let result =
        build_instrumented_method_with_tokens(&ctx, &tokens, &original_il, 0x11000001, 0).unwrap();

    let code_size = u32::from_le_bytes([result[4], result[5], result[6], result[7]]) as usize;
    let code = &result[12..12 + code_size];

    let last_byte = code[code.len() - 1];
    assert_eq!(last_byte, 0x2A, "Expected ret at end");
}

#[test]
fn fat_input_method_preserves_original_code() {
    let ctx = test_ctx_static_void();
    let tokens = test_tokens();
    let original_il = fat_nop_ret_method();

    let result =
        build_instrumented_method_with_tokens(&ctx, &tokens, &original_il, 0x11000001, 0).unwrap();

    let code_size = u32::from_le_bytes([result[4], result[5], result[6], result[7]]) as usize;
    let code = &result[12..12 + code_size];

    assert!(
        code.windows(2).any(|w| w[0] == 0x00 && w[1] == 0x00),
        "Original code (with ret becoming nop) must be preserved in output"
    );
}

#[test]
fn instrumented_code_is_significantly_larger_than_original() {
    let ctx = test_ctx_static_void();
    let tokens = test_tokens();
    let original_il = tiny_ret_method();

    let result =
        build_instrumented_method_with_tokens(&ctx, &tokens, &original_il, 0x11000001, 0).unwrap();

    assert!(
        result.len() > 50,
        "Instrumented method ({} bytes) should be larger than original (2 bytes)",
        result.len()
    );
}

#[test]
fn output_is_4_byte_aligned_before_extra_sections() {
    let ctx = test_ctx_static_void();
    let tokens = test_tokens();
    let original_il = tiny_ret_method();

    let result =
        build_instrumented_method_with_tokens(&ctx, &tokens, &original_il, 0x11000001, 0).unwrap();

    let code_size = u32::from_le_bytes([result[4], result[5], result[6], result[7]]) as usize;
    let code_end = 12 + code_size;

    let mut extra_start = code_end;
    while extra_start % 4 != 0 {
        extra_start += 1;
    }

    for i in code_end..extra_start {
        assert_eq!(result[i], 0x00, "Padding byte at offset {} must be zero", i);
    }
}

fn fat_method_with_existing_try_catch() -> Vec<u8> {
    let code_size: u32 = 7;
    let mut bytes = Vec::new();

    let flags_size: u16 = 0x001B | (3 << 12);
    bytes.extend_from_slice(&flags_size.to_le_bytes());
    bytes.extend_from_slice(&8u16.to_le_bytes());
    bytes.extend_from_slice(&code_size.to_le_bytes());
    bytes.extend_from_slice(&0u32.to_le_bytes());

    bytes.push(0x00);
    bytes.push(0xDE);
    bytes.push(0x02);
    bytes.push(0x26);
    bytes.push(0xDE);
    bytes.push(0x00);
    bytes.push(0x2A);

    bytes.push(0x00);

    bytes.push(0x41);
    bytes.push(0x1C);
    bytes.push(0x00);
    bytes.push(0x00);
    bytes.extend_from_slice(&0u32.to_le_bytes());
    bytes.extend_from_slice(&0u32.to_le_bytes());
    bytes.extend_from_slice(&3u32.to_le_bytes());
    bytes.extend_from_slice(&3u32.to_le_bytes());
    bytes.extend_from_slice(&3u32.to_le_bytes());
    bytes.extend_from_slice(&0x0100_0001u32.to_le_bytes());

    bytes
}

#[test]
fn method_with_existing_try_catch_preserves_original_clause() {
    let ctx = test_ctx_static_void();
    let tokens = test_tokens();
    let original_il = fat_method_with_existing_try_catch();

    let result =
        build_instrumented_method_with_tokens(&ctx, &tokens, &original_il, 0x11000001, 0).unwrap();

    let code_size = u32::from_le_bytes([result[4], result[5], result[6], result[7]]) as usize;
    let code_end = 12 + code_size;
    let mut extra_start = code_end;
    while extra_start % 4 != 0 {
        extra_start += 1;
    }

    let eh_size_bytes = &result[extra_start + 1..extra_start + 4];
    let eh_size = (eh_size_bytes[0] as u32)
        | ((eh_size_bytes[1] as u32) << 8)
        | ((eh_size_bytes[2] as u32) << 16);
    let clause_count = (eh_size - 4) / 24;

    assert!(
        clause_count >= 5,
        "Expected at least 5 clauses (4 injected + 1 original), got {}",
        clause_count
    );

    let last_clause_start = extra_start + 4 + (clause_count as usize - 1) * 24;
    let class_token = u32::from_le_bytes([
        result[last_clause_start + 20],
        result[last_clause_start + 21],
        result[last_clause_start + 22],
        result[last_clause_start + 23],
    ]);
    assert_eq!(class_token, 0x0100_0001, "Original clause class_token should be preserved");

    let shifted_try_offset = u32::from_le_bytes([
        result[last_clause_start + 4],
        result[last_clause_start + 5],
        result[last_clause_start + 6],
        result[last_clause_start + 7],
    ]);
    assert!(
        shifted_try_offset > 0,
        "Original clause try_offset should be shifted (was 0, now {})",
        shifted_try_offset
    );
}

#[test]
fn exception_clause_offsets_are_non_zero() {
    let ctx = test_ctx_static_void();
    let tokens = test_tokens();
    let original_il = tiny_ret_method();

    let result =
        build_instrumented_method_with_tokens(&ctx, &tokens, &original_il, 0x11000001, 0).unwrap();

    let code_size = u32::from_le_bytes([result[4], result[5], result[6], result[7]]) as usize;
    let code_end = 12 + code_size;
    let mut extra_start = code_end;
    while extra_start % 4 != 0 {
        extra_start += 1;
    }

    let eh_size_bytes = &result[extra_start + 1..extra_start + 4];
    let eh_size = (eh_size_bytes[0] as u32)
        | ((eh_size_bytes[1] as u32) << 8)
        | ((eh_size_bytes[2] as u32) << 16);
    let clause_count = (eh_size - 4) / 24;

    for i in 0..clause_count as usize {
        let clause_start = extra_start + 4 + i * 24;
        let try_offset = u32::from_le_bytes([
            result[clause_start + 4],
            result[clause_start + 5],
            result[clause_start + 6],
            result[clause_start + 7],
        ]);
        let try_length = u32::from_le_bytes([
            result[clause_start + 8],
            result[clause_start + 9],
            result[clause_start + 10],
            result[clause_start + 11],
        ]);
        let handler_offset = u32::from_le_bytes([
            result[clause_start + 12],
            result[clause_start + 13],
            result[clause_start + 14],
            result[clause_start + 15],
        ]);
        let handler_length = u32::from_le_bytes([
            result[clause_start + 16],
            result[clause_start + 17],
            result[clause_start + 18],
            result[clause_start + 19],
        ]);

        assert!(try_length > 0, "Clause {} try_length is 0", i);
        assert!(handler_length > 0, "Clause {} handler_length is 0", i);
        assert!(
            handler_offset >= try_offset + try_length,
            "Clause {} handler_offset ({}) must be >= try_offset ({}) + try_length ({})",
            i,
            handler_offset,
            try_offset,
            try_length
        );
        assert!(
            (handler_offset + handler_length) as usize <= code_size,
            "Clause {} handler extends beyond code (handler_end={}, code_size={})",
            i,
            handler_offset + handler_length,
            code_size
        );
    }
}
