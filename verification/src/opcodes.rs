//! CIL opcode constants used by the injection template.
//!
//! Opcode values match ECMA-335.  A single-byte opcode is its own value; a
//! two-byte opcode (prefix `0xFE`) is stored as `0xFE00 | second_byte`.

use vstd::prelude::*;

verus! {

/// Opcode type: u16 to accommodate both 1-byte and 2-byte (0xFE-prefixed) opcodes.
pub type IlOpcode = u16;

pub const CEE_NOP: IlOpcode = 0x00;

pub const CEE_LDARG_0: IlOpcode = 0x02;
pub const CEE_LDARG_1: IlOpcode = 0x03;
pub const CEE_LDARG_2: IlOpcode = 0x04;
pub const CEE_LDARG_3: IlOpcode = 0x05;
pub const CEE_LDARG_S: IlOpcode = 0x0E;
pub const CEE_LDARG: IlOpcode = 0xFE09;

pub const CEE_LDLOC_0: IlOpcode = 0x06;
pub const CEE_LDLOC_1: IlOpcode = 0x07;
pub const CEE_LDLOC_2: IlOpcode = 0x08;
pub const CEE_LDLOC_3: IlOpcode = 0x09;
pub const CEE_LDLOC_S: IlOpcode = 0x11;
pub const CEE_LDLOC: IlOpcode = 0xFE0C;

pub const CEE_STLOC_0: IlOpcode = 0x0A;
pub const CEE_STLOC_1: IlOpcode = 0x0B;
pub const CEE_STLOC_2: IlOpcode = 0x0C;
pub const CEE_STLOC_3: IlOpcode = 0x0D;
pub const CEE_STLOC_S: IlOpcode = 0x13;
pub const CEE_STLOC: IlOpcode = 0xFE0E;

pub const CEE_LDNULL: IlOpcode = 0x14;
pub const CEE_LDC_I4_M1: IlOpcode = 0x15;
pub const CEE_LDC_I4_0: IlOpcode = 0x16;
pub const CEE_LDC_I4_1: IlOpcode = 0x17;
pub const CEE_LDC_I4_2: IlOpcode = 0x18;
pub const CEE_LDC_I4_3: IlOpcode = 0x19;
pub const CEE_LDC_I4_4: IlOpcode = 0x1A;
pub const CEE_LDC_I4_5: IlOpcode = 0x1B;
pub const CEE_LDC_I4_6: IlOpcode = 0x1C;
pub const CEE_LDC_I4_7: IlOpcode = 0x1D;
pub const CEE_LDC_I4_8: IlOpcode = 0x1E;
pub const CEE_LDC_I4_S: IlOpcode = 0x1F;
pub const CEE_LDC_I4: IlOpcode = 0x20;
pub const CEE_LDC_I8: IlOpcode = 0x21;

pub const CEE_DUP: IlOpcode = 0x25;
pub const CEE_POP: IlOpcode = 0x26;

pub const CEE_CALL: IlOpcode = 0x28;
pub const CEE_RET: IlOpcode = 0x2A;

pub const CEE_BR_S: IlOpcode = 0x2B;
pub const CEE_BRFALSE_S: IlOpcode = 0x2C;
pub const CEE_BRTRUE_S: IlOpcode = 0x2D;
pub const CEE_BR: IlOpcode = 0x38;
pub const CEE_BRFALSE: IlOpcode = 0x39;
pub const CEE_BRTRUE: IlOpcode = 0x3A;

pub const CEE_CALLVIRT: IlOpcode = 0x6F;
pub const CEE_LDSTR: IlOpcode = 0x72;
pub const CEE_NEWOBJ: IlOpcode = 0x73;
pub const CEE_CASTCLASS: IlOpcode = 0x74;
pub const CEE_ISINST: IlOpcode = 0x75;

pub const CEE_NEWARR: IlOpcode = 0x8D;
pub const CEE_STELEM_REF: IlOpcode = 0xA2;

pub const CEE_BOX: IlOpcode = 0x8C;
pub const CEE_UNBOX_ANY: IlOpcode = 0xA5;

pub const CEE_THROW: IlOpcode = 0x7A;
pub const CEE_LEAVE: IlOpcode = 0xDD;
pub const CEE_LEAVE_S: IlOpcode = 0xDE;
pub const CEE_RETHROW: IlOpcode = 0xFE1A;
pub const CEE_ENDFINALLY: IlOpcode = 0xDC;

pub const CEE_LDTOKEN: IlOpcode = 0xD0;

/// The byte encoding of an opcode: its own byte when it fits in one byte,
/// else the prefix `0xFE` followed by the low byte.
pub open spec fn opcode_bytes(opcode: IlOpcode) -> Seq<u8> {
    if opcode > 0xFF {
        seq![0xFEu8, (opcode % 0x100) as u8]
    } else {
        seq![opcode as u8]
    }
}

/// Returns true if the opcode requires a 2-byte encoding (0xFE prefix).
pub fn is_two_byte_opcode(opcode: IlOpcode) -> (r: bool)
    ensures
        r == (opcode > 0xFF),
{
    opcode > 0xFF
}

/// Returns the encoded byte(s) for an opcode: one byte for single-byte
/// opcodes, `[0xFE, low_byte]` for two-byte opcodes.
pub fn encode_opcode(opcode: IlOpcode) -> (r: Vec<u8>)
    ensures
        r@ == opcode_bytes(opcode),
{
    let mut bytes: Vec<u8> = Vec::new();
    if opcode > 0xFF {
        bytes.push(0xFE);
        bytes.push((opcode % 0x100) as u8);
    } else {
        bytes.push(opcode as u8);
    }
    assert(bytes@ =~= opcode_bytes(opcode));
    bytes
}

/// The shortest `ldc.i4` form for a value: the opcode to emit and the
/// operand to follow it, if any.
pub open spec fn spec_ldc_i4_opcode_for(value: i32) -> (IlOpcode, Option<i32>) {
    if value == -1 {
        (CEE_LDC_I4_M1, None)
    } else if 0 <= value <= 8 {
        ((CEE_LDC_I4_0 + value) as IlOpcode, None)
    } else if -128 <= value <= 127 {
        (CEE_LDC_I4_S, Some(value))
    } else {
        (CEE_LDC_I4, Some(value))
    }
}

/// Returns the optimized `ldc.i4` opcode for a small integer value: values
/// -1 through 8 use single-byte encodings, -128 through 127 use `ldc.i4.s`,
/// larger values use the long form.
pub fn ldc_i4_opcode_for(value: i32) -> (r: (IlOpcode, Option<i32>))
    ensures
        r == spec_ldc_i4_opcode_for(value),
{
    if value == -1 {
        (CEE_LDC_I4_M1, None)
    } else if 0 <= value && value <= 8 {
        ((CEE_LDC_I4_0 + value as u16) as IlOpcode, None)
    } else if -128 <= value && value <= 127 {
        (CEE_LDC_I4_S, Some(value))
    } else {
        (CEE_LDC_I4, Some(value))
    }
}

} // verus!
