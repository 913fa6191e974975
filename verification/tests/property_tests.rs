//! Concrete scenarios for the quantified invariants of the rewriting core.

use il_rewriter::codec::{compress_data, compress_token, uncompress_data, uncompress_token};
use il_rewriter::header::{parse_fat_header, write_fat_header, FatHeader};
use il_rewriter::scanner::{preprocess_user_code, scan_instructions};

#[test]
fn codec_round_trip_across_all_widths() {
    for v in [0u32, 0x7F, 0x80, 0x3FFF, 0x4000, 0x1FFF_FFFF] {
        let enc = compress_data(v).unwrap();
        assert_eq!(uncompress_data(&enc).unwrap(), (v, enc.len()));
    }
    for t in [0x0200_0001u32, 0x0100_0042, 0x1B00_0003, 0x0000_0007] {
        let enc = compress_token(t).unwrap();
        assert_eq!(uncompress_token(&enc).unwrap(), (t, enc.len()));
    }
}

#[test]
fn header_round_trip_arbitrary_fields() {
    let h = FatHeader {
        flags: 0x0ABC,
        size: 7,
        max_stack: 0xFFFF,
        code_size: 0xDEAD_BEEF,
        local_var_sig_tok: 0x1100_FFFE,
    };
    let bytes = write_fat_header(&h);
    assert_eq!(parse_fat_header(&bytes).unwrap(), h);
}

#[test]
fn scan_offsets_are_dense_and_sum_to_length() {
    // a mix of widths: ldc.i4.s, switch with one target, two-byte stloc, ret
    let code = [
        0x1F, 0x2A, 0x45, 0x01, 0x00, 0x00, 0x00, 0x00, 0x00, 0x00, 0x00, 0xFE, 0x0E, 0x01, 0x00,
        0x2A,
    ];
    let insts = scan_instructions(&code).unwrap();
    let mut expected_offset = 0usize;
    for inst in &insts {
        assert_eq!(inst.offset, expected_offset);
        expected_offset += inst.total_size;
    }
    assert_eq!(expected_offset, code.len());
}

#[test]
fn identity_rewrite_keeps_branch_targets() {
    // brfalse.s over a nop, then ret: one ret, so only that byte changes
    let code = [0x2C, 0x01, 0x00, 0x2A];
    let before = scan_instructions(&code).unwrap();
    let result = preprocess_user_code(&code).unwrap();
    let after = scan_instructions(&result.code).unwrap();

    assert_eq!(before.len(), after.len());
    for (b, a) in before.iter().zip(after.iter()) {
        assert_eq!(b.offset, a.offset);
        assert_eq!(b.total_size, a.total_size);
        if b.is_branch() {
            assert_eq!(b.branch_target(&code), a.branch_target(&result.code));
        }
    }
}

#[test]
fn multi_ret_rewrite_is_one_to_one_and_lands_on_boundaries() {
    // br.s +2, nop, ret, nop, ret
    let code = [0x2B, 0x02, 0x00, 0x2A, 0x00, 0x2A];
    let result = preprocess_user_code(&code).unwrap();
    let old = scan_instructions(&code).unwrap();
    let new = scan_instructions(&result.code).unwrap();

    // exactly one new instruction per old instruction, strictly increasing
    assert_eq!(result.offset_map.len(), old.len());
    assert_eq!(new.len(), old.len());
    for w in result.offset_map.windows(2) {
        assert!(w[0].1 < w[1].1);
    }

    // every original branch target resolves to an instruction boundary in
    // the new stream, at the mapped offset
    for (i, inst) in old.iter().enumerate() {
        assert_eq!(result.offset_map[i].0, inst.offset);
        assert!(new.iter().any(|n| n.offset == result.offset_map[i].1));
        if inst.is_branch() {
            let old_target = inst.branch_target(&code).unwrap();
            let mapped = result
                .offset_map
                .iter()
                .find(|(o, _)| *o == old_target)
                .map(|(_, n)| *n)
                .unwrap();
            assert_eq!(new[i].branch_target(&result.code), Some(mapped));
        }
    }
}

#[test]
fn widened_rewrite_turns_short_branches_long() {
    // 33 rets then a final ret: growth far past a signed byte, so the
    // leading short branch is widened to its long form
    let mut code = vec![0x2B, 0x21];
    for _ in 0..33 {
        code.push(0x2A);
    }
    code.push(0x2A);
    let result = preprocess_user_code(&code).unwrap();
    assert_eq!(result.code[0], 0x38, "short br must widen to long form");
    let new = scan_instructions(&result.code).unwrap();
    let old = scan_instructions(&code).unwrap();
    assert_eq!(new.len(), old.len());
}
