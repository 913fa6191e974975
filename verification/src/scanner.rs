//! CIL instruction scanner and `ret` rewriter.
//!
//! [`scan_instructions`] walks a code blob into `(offset, opcode, sizes)`
//! tuples using the per-opcode operand-size tables; [`preprocess_user_code`]
//! rewrites `ret` instructions so the body can legally be enclosed in a
//! `try` region, recomputing branch displacements where instruction sizes
//! change.

use vstd::prelude::*;

use crate::le::{i32_le, le32, u32_le};
use crate::IlError;

verus! {

/// What follows an opcode: a fixed-width operand, the variable-length
/// `switch` tail, or nothing because the opcode is undefined.
#[derive(Debug, Clone, Copy, PartialEq, Eq, Structural)]
pub enum OperandKind {
    /// Opcode is not defined by ECMA-335.
    Invalid,
    /// The `switch` opcode: a 32-bit count then that many 32-bit targets.
    Switch,
    /// A fixed operand of the given width in bytes.
    Fixed(u8),
}

/// Operand kind of a single-byte opcode (ECMA-335 Partition III).
pub open spec fn spec_single_byte_operand(b: u8) -> OperandKind {
    if b <= 0x0D {
        OperandKind::Fixed(0)
    } else if b <= 0x13 {
        OperandKind::Fixed(1)
    } else if b <= 0x1E {
        OperandKind::Fixed(0)
    } else if b == 0x1F {
        OperandKind::Fixed(1)
    } else if b == 0x21 || b == 0x23 {
        OperandKind::Fixed(8)
    } else if b == 0x20 || b == 0x22 {
        OperandKind::Fixed(4)
    } else if b == 0x24 {
        OperandKind::Invalid
    } else if b == 0x25 || b == 0x26 || b == 0x2A {
        OperandKind::Fixed(0)
    } else if b <= 0x29 {
        OperandKind::Fixed(4)
    } else if b <= 0x37 {
        OperandKind::Fixed(1)
    } else if b <= 0x44 {
        OperandKind::Fixed(4)
    } else if b == 0x45 {
        OperandKind::Switch
    } else if b <= 0x6E {
        OperandKind::Fixed(0)
    } else if b <= 0x75 {
        OperandKind::Fixed(4)
    } else if b == 0x76 {
        OperandKind::Fixed(0)
    } else if b == 0x77 || b == 0x78 {
        OperandKind::Invalid
    } else if b == 0x79 {
        OperandKind::Fixed(4)
    } else if b == 0x7A {
        OperandKind::Fixed(0)
    } else if b <= 0x81 {
        OperandKind::Fixed(4)
    } else if b <= 0x8B {
        OperandKind::Fixed(0)
    } else if b == 0x8C || b == 0x8D {
        OperandKind::Fixed(4)
    } else if b == 0x8E {
        OperandKind::Fixed(0)
    } else if b == 0x8F {
        OperandKind::Fixed(4)
    } else if b <= 0xA2 {
        OperandKind::Fixed(0)
    } else if b <= 0xA5 {
        OperandKind::Fixed(4)
    } else if b <= 0xB2 {
        OperandKind::Invalid
    } else if b <= 0xBA {
        OperandKind::Fixed(0)
    } else if b == 0xC2 || b == 0xC6 {
        OperandKind::Fixed(4)
    } else if b == 0xC3 {
        OperandKind::Fixed(0)
    } else if b <= 0xCF {
        OperandKind::Invalid
    } else if b == 0xD0 || b == 0xDD {
        OperandKind::Fixed(4)
    } else if b == 0xDE {
        OperandKind::Fixed(1)
    } else if b <= 0xE0 {
        OperandKind::Fixed(0)
    } else {
        OperandKind::Invalid
    }
}

/// Operand kind of a two-byte opcode `0xFE second`, indexed by the second
/// byte.
pub open spec fn spec_two_byte_operand(second: u8) -> OperandKind {
    if second <= 0x05 {
        OperandKind::Fixed(0)
    } else if second == 0x06 || second == 0x07 {
        OperandKind::Fixed(4)
    } else if second == 0x08 {
        OperandKind::Invalid
    } else if second <= 0x0E {
        OperandKind::Fixed(2)
    } else if second == 0x0F {
        OperandKind::Fixed(0)
    } else if second == 0x10 {
        OperandKind::Invalid
    } else if second == 0x11 {
        OperandKind::Fixed(0)
    } else if second == 0x12 {
        OperandKind::Fixed(1)
    } else if second == 0x13 || second == 0x14 {
        OperandKind::Fixed(0)
    } else if second == 0x15 || second == 0x16 {
        OperandKind::Fixed(4)
    } else if second == 0x17 || second == 0x18 {
        OperandKind::Fixed(0)
    } else if second == 0x19 {
        OperandKind::Fixed(1)
    } else if second == 0x1A {
        OperandKind::Fixed(0)
    } else if second == 0x1B {
        OperandKind::Invalid
    } else if second == 0x1C {
        OperandKind::Fixed(4)
    } else if second == 0x1D || second == 0x1E {
        OperandKind::Fixed(0)
    } else {
        OperandKind::Invalid
    }
}

/// Operand kind of a single-byte opcode.
pub fn single_byte_operand(b: u8) -> (k: OperandKind)
    ensures
        k == spec_single_byte_operand(b),
{
    if b <= 0x0D {
        OperandKind::Fixed(0)
    } else if b <= 0x13 {
        OperandKind::Fixed(1)
    } else if b <= 0x1E {
        OperandKind::Fixed(0)
    } else if b == 0x1F {
        OperandKind::Fixed(1)
    } else if b == 0x21 || b == 0x23 {
        OperandKind::Fixed(8)
    } else if b == 0x20 || b == 0x22 {
        OperandKind::Fixed(4)
    } else if b == 0x24 {
        OperandKind::Invalid
    } else if b == 0x25 || b == 0x26 || b == 0x2A {
        OperandKind::Fixed(0)
    } else if b <= 0x29 {
        OperandKind::Fixed(4)
    } else if b <= 0x37 {
        OperandKind::Fixed(1)
    } else if b <= 0x44 {
        OperandKind::Fixed(4)
    } else if b == 0x45 {
        OperandKind::Switch
    } else if b <= 0x6E {
        OperandKind::Fixed(0)
    } else if b <= 0x75 {
        OperandKind::Fixed(4)
    } else if b == 0x76 {
        OperandKind::Fixed(0)
    } else if b == 0x77 || b == 0x78 {
        OperandKind::Invalid
    } else if b == 0x79 {
        OperandKind::Fixed(4)
    } else if b == 0x7A {
        OperandKind::Fixed(0)
    } else if b <= 0x81 {
        OperandKind::Fixed(4)
    } else if b <= 0x8B {
        OperandKind::Fixed(0)
    } else if b == 0x8C || b == 0x8D {
        OperandKind::Fixed(4)
    } else if b == 0x8E {
        OperandKind::Fixed(0)
    } else if b == 0x8F {
        OperandKind::Fixed(4)
    } else if b <= 0xA2 {
        OperandKind::Fixed(0)
    } else if b <= 0xA5 {
        OperandKind::Fixed(4)
    } else if b <= 0xB2 {
        OperandKind::Invalid
    } else if b <= 0xBA {
        OperandKind::Fixed(0)
    } else if b == 0xC2 || b == 0xC6 {
        OperandKind::Fixed(4)
    } else if b == 0xC3 {
        OperandKind::Fixed(0)
    } else if b <= 0xCF {
        OperandKind::Invalid
    } else if b == 0xD0 || b == 0xDD {
        OperandKind::Fixed(4)
    } else if b == 0xDE {
        OperandKind::Fixed(1)
    } else if b <= 0xE0 {
        OperandKind::Fixed(0)
    } else {
        OperandKind::Invalid
    }
}

/// Operand kind of a two-byte opcode `0xFE second`.
pub fn two_byte_operand(second: u8) -> (k: OperandKind)
    ensures
        k == spec_two_byte_operand(second),
{
    if second <= 0x05 {
        OperandKind::Fixed(0)
    } else if second == 0x06 || second == 0x07 {
        OperandKind::Fixed(4)
    } else if second == 0x08 {
        OperandKind::Invalid
    } else if second <= 0x0E {
        OperandKind::Fixed(2)
    } else if second == 0x0F {
        OperandKind::Fixed(0)
    } else if second == 0x10 {
        OperandKind::Invalid
    } else if second == 0x11 {
        OperandKind::Fixed(0)
    } else if second == 0x12 {
        OperandKind::Fixed(1)
    } else if second == 0x13 || second == 0x14 {
        OperandKind::Fixed(0)
    } else if second == 0x15 || second == 0x16 {
        OperandKind::Fixed(4)
    } else if second == 0x17 || second == 0x18 {
        OperandKind::Fixed(0)
    } else if second == 0x19 {
        OperandKind::Fixed(1)
    } else if second == 0x1A {
        OperandKind::Fixed(0)
    } else if second == 0x1B {
        OperandKind::Invalid
    } else if second == 0x1C {
        OperandKind::Fixed(4)
    } else if second == 0x1D || second == 0x1E {
        OperandKind::Fixed(0)
    } else {
        OperandKind::Invalid
    }
}

/// A parsed CIL instruction.
#[derive(Debug, Clone, Copy, PartialEq, Eq, Structural)]
pub struct IlInstruction {
    /// Byte offset in the code stream.
    pub offset: usize,
    /// Opcode value: a single byte, or `0xFE00 | second_byte`.
    pub opcode: u16,
    /// Size of the opcode encoding (1 or 2 bytes).
    pub opcode_size: usize,
    /// Size of the operand in bytes.
    pub operand_size: usize,
    /// Total instruction size (`opcode_size + operand_size`).
    pub total_size: usize,
}

/// True for a branch opcode: the short forms `0x2B..=0x37`, the long forms
/// `0x38..=0x44`, and `leave`/`leave.s`.
pub open spec fn spec_is_branch(opcode: u16) -> bool {
    (0x2B <= opcode && opcode <= 0x44) || opcode == 0xDD || opcode == 0xDE
}

/// True for a short-form branch opcode (one signed byte of displacement).
pub open spec fn spec_is_short_branch(opcode: u16) -> bool {
    (0x2B <= opcode && opcode <= 0x37) || opcode == 0xDE
}

/// The instruction decoded at `pos`, or `None` when the opcode is undefined
/// or the instruction would run past the end of the code.
pub open spec fn inst_at(code: Seq<u8>, pos: int) -> Option<IlInstruction>
    recommends
        0 <= pos < code.len(),
{
    let b = code[pos];
    if b == 0xFE {
        if pos + 1 >= code.len() {
            None
        } else {
            match spec_two_byte_operand(code[pos + 1]) {
                OperandKind::Fixed(n) => {
                    if pos + 2 + n <= code.len() {
                        Some(
                            IlInstruction {
                                offset: pos as usize,
                                opcode: (0xFE00 + code[pos + 1]) as u16,
                                opcode_size: 2,
                                operand_size: n as usize,
                                total_size: (2 + n) as usize,
                            },
                        )
                    } else {
                        None
                    }
                },
                _ => None,
            }
        }
    } else if b == 0x45 {
        if pos + 5 > code.len() {
            None
        } else {
            let n = u32_le(code[pos + 1], code[pos + 2], code[pos + 3], code[pos + 4]);
            if pos + 5 + n * 4 <= code.len() {
                Some(
                    IlInstruction {
                        offset: pos as usize,
                        opcode: 0x45,
                        opcode_size: 1,
                        operand_size: (4 + n * 4) as usize,
                        total_size: (5 + n * 4) as usize,
                    },
                )
            } else {
                None
            }
        }
    } else {
        match spec_single_byte_operand(b) {
            OperandKind::Fixed(n) => {
                if pos + 1 + n <= code.len() {
                    Some(
                        IlInstruction {
                            offset: pos as usize,
                            opcode: b as u16,
                            opcode_size: 1,
                            operand_size: n as usize,
                            total_size: (1 + n) as usize,
                        },
                    )
                } else {
                    None
                }
            },
            _ => None,
        }
    }
}

/// The instruction sequence of a code blob from `pos` to the end, or `None`
/// when some instruction is undefined or truncated.
pub open spec fn spec_scan(code: Seq<u8>, pos: int) -> Option<Seq<IlInstruction>>
    decreases code.len() - pos,
{
    if pos >= code.len() || pos < 0 {
        Some(Seq::empty())
    } else {
        match inst_at(code, pos) {
            None => None,
            Some(inst) => {
                if inst.total_size < 1 {
                    None
                } else {
                    match spec_scan(code, pos + inst.total_size) {
                        None => None,
                        Some(rest) => Some(seq![inst] + rest),
                    }
                }
            },
        }
    }
}

/// A slice's view never exceeds `usize::MAX` elements.
pub proof fn lemma_code_len_bound(code: &[u8])
    ensures
        code@.len() <= usize::MAX,
{
    broadcast use vstd::slice::axiom_spec_len;

    assert(vstd::slice::spec_slice_len(code) == code@.len());
}

/// An instruction that decodes at its own offset stays within the code and
/// has consistent sizes.
pub proof fn lemma_inst_at_bounds(code: Seq<u8>, inst: IlInstruction)
    requires
        code.len() <= usize::MAX,
        inst_at(code, inst.offset as int) == Some(inst),
    ensures
        inst.offset + inst.total_size <= code.len(),
        inst.total_size == inst.opcode_size + inst.operand_size,
        1 <= inst.opcode_size <= 2,
{
    let pos = inst.offset as int;
    let b = code[pos];
    if b == 0xFE {
        assert(inst.offset + inst.total_size <= code.len());
    } else if b == 0x45 {
        let n = u32_le(code[pos + 1], code[pos + 2], code[pos + 3], code[pos + 4]);
        assert(pos + 5 + n * 4 <= code.len());
        assert(inst.total_size == (5 + n * 4) as usize);
        assert(inst.total_size == 5 + n * 4);
    } else {
        assert(inst.offset + inst.total_size <= code.len());
    }
}

impl IlInstruction {
    /// Returns true if this instruction is a `ret` (0x2A).
    pub fn is_ret(&self) -> (r: bool)
        ensures
            r == (self.opcode == 0x2A),
    {
        self.opcode == 0x2A
    }

    /// Returns true if this is a branch instruction (short or long form).
    pub fn is_branch(&self) -> (r: bool)
        ensures
            r == spec_is_branch(self.opcode),
    {
        (0x2B <= self.opcode && self.opcode <= 0x44) || self.opcode == 0xDD || self.opcode == 0xDE
    }

    /// Returns true if this is a short-form branch (1-byte displacement).
    pub fn is_short_branch(&self) -> (r: bool)
        ensures
            r == spec_is_short_branch(self.opcode),
    {
        (0x2B <= self.opcode && self.opcode <= 0x37) || self.opcode == 0xDE
    }

    /// The mathematical branch target: the offset just past the instruction
    /// plus the signed displacement the operand bytes spell.
    pub open spec fn spec_branch_target(&self, code: Seq<u8>) -> int
        recommends
            spec_is_branch(self.opcode),
            self.offset + self.total_size <= code.len(),
    {
        let next = self.offset + self.total_size;
        if spec_is_short_branch(self.opcode) {
            let b = code[self.offset + self.opcode_size];
            if b < 0x80 {
                next + b
            } else {
                next + b - 0x100
            }
        } else {
            let v = u32_le(
                code[self.offset + self.opcode_size],
                code[self.offset + self.opcode_size + 1],
                code[self.offset + self.opcode_size + 2],
                code[self.offset + self.opcode_size + 3],
            );
            if v < 0x8000_0000 {
                next + v
            } else {
                next + v - 0x1_0000_0000
            }
        }
    }

    /// Returns the absolute branch target offset, `None` when the
    /// instruction is not a branch or the target does not fit a `usize`.
    pub fn branch_target(&self, code: &[u8]) -> (r: Option<usize>)
        requires
            inst_at(code@, self.offset as int) == Some(*self),
        ensures
            !spec_is_branch(self.opcode) ==> r is None,
            spec_is_branch(self.opcode) ==> {
                let t = self.spec_branch_target(code@);
                &&& (r is Some <==> 0 <= t <= usize::MAX)
                &&& (r matches Some(v) ==> v == t)
            },
    {
        if !self.is_branch() {
            return None;
        }
        proof {
            broadcast use vstd::slice::axiom_spec_len;

            assert(vstd::slice::spec_slice_len(code) == code@.len());
            lemma_inst_at_bounds(code@, *self);
            assert(spec_is_short_branch(self.opcode) ==> self.operand_size == 1);
            assert(spec_is_branch(self.opcode) && !spec_is_short_branch(self.opcode)
                ==> self.operand_size == 4);
        }
        let next = self.offset + self.total_size;
        if self.is_short_branch() {
            let b = code[self.offset + self.opcode_size];
            if b < 0x80 {
                if (b as usize) <= usize::MAX - next {
                    Some(next + b as usize)
                } else {
                    None
                }
            } else {
                let back = 0x100 - b as usize;
                if next >= back {
                    Some(next - back)
                } else {
                    None
                }
            }
        } else {
            let v = crate::le::read_u32_le(code, self.offset + self.opcode_size);
            if v < 0x8000_0000 {
                if v as u64 <= (usize::MAX - next) as u64 {
                    Some(next + v as usize)
                } else {
                    None
                }
            } else {
                let back = (0x1_0000_0000u64 - v as u64) as usize;
                if next >= back {
                    Some(next - back)
                } else {
                    None
                }
            }
        }
    }
}

/// True when the first failure scanning from `pos` is a truncation: the
/// stream ends inside an instruction (a lone two-byte prefix, a truncated
/// `switch` header or target table, or a fixed operand running past the
/// end).  False when scanning succeeds or the first failure is an
/// undefined opcode.
pub open spec fn scan_fails_truncated(code: Seq<u8>, pos: int) -> bool
    decreases code.len() - pos,
{
    if pos >= code.len() || pos < 0 {
        false
    } else {
        let b = code[pos];
        if b == 0xFE {
            if pos + 1 >= code.len() {
                true
            } else {
                match spec_two_byte_operand(code[pos + 1]) {
                    OperandKind::Fixed(n) => {
                        if pos + 2 + n <= code.len() {
                            scan_fails_truncated(code, pos + 2 + n)
                        } else {
                            true
                        }
                    },
                    _ => false,
                }
            }
        } else if b == 0x45 {
            if pos + 5 > code.len() {
                true
            } else {
                let n = u32_le(code[pos + 1], code[pos + 2], code[pos + 3], code[pos + 4]);
                if pos + 5 + n * 4 <= code.len() {
                    scan_fails_truncated(code, pos + 5 + n * 4)
                } else {
                    true
                }
            }
        } else {
            match spec_single_byte_operand(b) {
                OperandKind::Fixed(n) => {
                    if pos + 1 + n <= code.len() {
                        scan_fails_truncated(code, pos + 1 + n)
                    } else {
                        true
                    }
                },
                _ => false,
            }
        }
    }
}

/// Scan a CIL code stream into individual instructions.
///
/// Succeeds exactly when every instruction is defined and complete, and
/// then returns precisely the sequence [`spec_scan`] describes.  A stream
/// that ends inside an instruction fails with `UnexpectedEnd`; an
/// undefined opcode fails with `GenerationError` — exactly as
/// [`scan_fails_truncated`] classifies the first failure.
pub fn scan_instructions(code: &[u8]) -> (r: Result<Vec<IlInstruction>, IlError>)
    ensures
        r is Ok <==> spec_scan(code@, 0) is Some,
        r matches Ok(insts) ==> Some(insts@) == spec_scan(code@, 0),
        r is Err && scan_fails_truncated(code@, 0) ==> (r matches Err(e) && e is UnexpectedEnd),
        r is Err && !scan_fails_truncated(code@, 0) ==> (r matches Err(e)
            && e is GenerationError),
{
    let mut instructions: Vec<IlInstruction> = Vec::new();
    let mut pos: usize = 0;

    while pos < code.len()
        invariant
            0 <= pos <= code@.len(),
            forall|rest: Seq<IlInstruction>|
                spec_scan(code@, pos as int) == Some(rest) ==> spec_scan(code@, 0) == Some(
                    instructions@ + rest,
                ),
            spec_scan(code@, pos as int) is None ==> spec_scan(code@, 0) is None,
            scan_fails_truncated(code@, 0) == scan_fails_truncated(code@, pos as int),
        decreases code@.len() - pos,
    {
        let byte = code[pos];

        let (opcode, opcode_size, operand_size): (u16, usize, usize) = if byte == 0xFE {
            if pos + 1 >= code.len() {
                assert(inst_at(code@, pos as int) is None);
                assert(scan_fails_truncated(code@, pos as int));
                return Err(IlError::UnexpectedEnd);
            }
            let second = code[pos + 1];
            match two_byte_operand(second) {
                OperandKind::Fixed(n) => {
                    if code.len() - pos - 2 < n as usize {
                        assert(inst_at(code@, pos as int) is None);
                        assert(scan_fails_truncated(code@, pos as int));
                        return Err(IlError::UnexpectedEnd);
                    }
                    (0xFE00 + second as u16, 2, n as usize)
                },
                _ => {
                    assert(inst_at(code@, pos as int) is None);
                    assert(!scan_fails_truncated(code@, pos as int));
                    return Err(
                        IlError::GenerationError(
                            String::from_str("undefined two-byte opcode"),
                        ),
                    );
                },
            }
        } else if byte == 0x45 {
            if code.len() - pos < 5 {
                assert(inst_at(code@, pos as int) is None);
                assert(scan_fails_truncated(code@, pos as int));
                return Err(IlError::UnexpectedEnd);
            }
            let n = crate::le::read_u32_le(code, pos + 1);
            if n as usize > (code.len() - pos - 5) / 4 {
                assert(inst_at(code@, pos as int) is None);
                assert(scan_fails_truncated(code@, pos as int));
                return Err(IlError::UnexpectedEnd);
            }
            assert(pos + 5 + n * 4 <= code@.len());
            (0x45u16, 1, 4 + n as usize * 4)
        } else {
            match single_byte_operand(byte) {
                OperandKind::Fixed(n) => {
                    if code.len() - pos - 1 < n as usize {
                        assert(inst_at(code@, pos as int) is None);
                        assert(scan_fails_truncated(code@, pos as int));
                        return Err(IlError::UnexpectedEnd);
                    }
                    (byte as u16, 1, n as usize)
                },
                OperandKind::Switch => {
                    // unreachable: 0x45 is handled above
                    assert(false);
                    (0u16, 1, 0)
                },
                OperandKind::Invalid => {
                    assert(inst_at(code@, pos as int) is None);
                    assert(!scan_fails_truncated(code@, pos as int));
                    return Err(
                        IlError::GenerationError(String::from_str("undefined opcode")),
                    );
                },
            }
        };

        let total_size = opcode_size + operand_size;
        let inst = IlInstruction { offset: pos, opcode, opcode_size, operand_size, total_size };
        assert(inst_at(code@, pos as int) == Some(inst));

        proof {
            assert(scan_fails_truncated(code@, pos as int) == scan_fails_truncated(
                code@,
                pos + total_size,
            ));
        }
        let ghost old_insts = instructions@;
        instructions.push(inst);
        let ghost prev_pos = pos as int;
        pos = pos + total_size;

        proof {
            assert forall|rest: Seq<IlInstruction>|
                spec_scan(code@, pos as int) == Some(rest) implies spec_scan(code@, 0) == Some(
                instructions@ + rest,
            ) by {
                assert(spec_scan(code@, prev_pos) == Some(seq![inst] + rest));
                assert(old_insts + (seq![inst] + rest) =~= instructions@ + rest);
            }
        }
    }

    assert(spec_scan(code@, pos as int) == Some(Seq::<IlInstruction>::empty()));
    assert(instructions@ + Seq::<IlInstruction>::empty() =~= instructions@);
    Ok(instructions)
}

/// Number of `ret` (0x2A) instructions in a scanned sequence.
pub open spec fn spec_ret_count(s: Seq<IlInstruction>) -> nat
    decreases s.len(),
{
    if s.len() == 0 {
        0
    } else {
        spec_ret_count(s.drop_last()) + if s.last().opcode == 0x2A {
            1nat
        } else {
            0nat
        }
    }
}

/// Count the number of `ret` (0x2A) instructions in a scanned code stream.
pub fn count_rets(instructions: &[IlInstruction]) -> (r: usize)
    ensures
        r == spec_ret_count(instructions@),
{
    let mut count: usize = 0;
    let mut i: usize = 0;
    while i < instructions.len()
        invariant
            0 <= i <= instructions@.len(),
            count == spec_ret_count(instructions@.take(i as int)),
            count <= i,
        decreases instructions@.len() - i,
    {
        if instructions[i].opcode == 0x2A {
            count = count + 1;
        }
        i = i + 1;
        assert(instructions@.take(i as int).drop_last() =~= instructions@.take(i - 1));
        assert(instructions@.take(i as int).last() == instructions@[i - 1]);
    }
    assert(instructions@.take(instructions@.len() as int) =~= instructions@);
    count
}

/// Scan completeness: a scanned sequence is dense.  The first instruction
/// sits at the scan origin, each instruction starts exactly where the
/// previous one ended, the final instruction ends at the blob's end (so the
/// total sizes sum to the blob length), and every entry is the decode of
/// the blob at its own offset.
pub proof fn lemma_scan_complete(code: Seq<u8>, pos: int, insts: Seq<IlInstruction>)
    requires
        0 <= pos,
        code.len() <= usize::MAX,
        spec_scan(code, pos) == Some(insts),
    ensures
        insts.len() == 0 ==> pos >= code.len(),
        insts.len() > 0 ==> insts[0].offset == pos,
        insts.len() > 0 ==> insts.last().offset + insts.last().total_size == code.len(),
        forall|i: int|
            0 <= i < insts.len() - 1 ==> #[trigger] insts[i + 1].offset == insts[i].offset
                + insts[i].total_size,
        forall|i: int|
            0 <= i < insts.len() ==> #[trigger] insts[i].total_size >= 1 && inst_at(
                code,
                insts[i].offset as int,
            ) == Some(insts[i]),
    decreases code.len() - pos,
{
    if pos >= code.len() {
    } else {
        let inst = inst_at(code, pos).unwrap();
        let rest = spec_scan(code, pos + inst.total_size).unwrap();
        lemma_scan_complete(code, pos + inst.total_size, rest);
        assert(insts == seq![inst] + rest);
        assert(insts[0] == inst);
        assert(inst.offset as int == pos);
        if rest.len() > 0 {
            assert(insts.last() == rest.last());
            assert(rest[0].offset == pos + inst.total_size);
        } else {
            assert(insts.last() == inst);
            assert(pos + inst.total_size >= code.len());
        }
        assert forall|i: int| 0 <= i < insts.len() - 1 implies #[trigger] insts[i + 1].offset
            == insts[i].offset + insts[i].total_size by {
            if i == 0 {
                assert(insts[1] == rest[0]);
                assert(rest[0].offset == pos + inst.total_size);
            } else {
                assert(insts[i] == rest[i - 1] && insts[i + 1] == rest[i]);
                assert(rest[i - 1 + 1].offset == rest[i - 1].offset + rest[i - 1].total_size);
            }
        }
        assert forall|i: int| 0 <= i < insts.len() implies #[trigger] insts[i].total_size >= 1
            && inst_at(code, insts[i].offset as int) == Some(insts[i]) by {
            if i > 0 {
                assert(insts[i] == rest[i - 1]);
                assert(rest[i - 1].total_size >= 1 && inst_at(code, rest[i - 1].offset as int)
                    == Some(rest[i - 1]));
            }
        }
    }
}

/// Result of preprocessing user code for instrumentation.
#[derive(Debug)]
pub struct PreprocessedCode {
    /// The rewritten bytecode.
    pub code: Vec<u8>,
    /// Mapping from old offset to new offset for each original instruction,
    /// used to update exception-handler offsets after ret rewriting.
    pub offset_map: Vec<(usize, usize)>,
}

/// Convert a short-form branch opcode to its long-form equivalent: short
/// branches `0x2B..=0x37` map to `0x38..=0x44`, `leave.s` to `leave`;
/// anything else is returned unchanged.
pub open spec fn spec_short_to_long_branch(opcode: u16) -> u16 {
    if 0x2B <= opcode && opcode <= 0x37 {
        (opcode + 0x0D) as u16
    } else if opcode == 0xDE {
        0xDDu16
    } else {
        opcode
    }
}

/// Convert a short-form branch opcode to its long-form equivalent.
pub fn short_to_long_branch(opcode: u16) -> (r: u16)
    ensures
        r == spec_short_to_long_branch(opcode),
{
    if 0x2B <= opcode && opcode <= 0x37 {
        opcode + 0x0D
    } else if opcode == 0xDE {
        0xDD
    } else {
        opcode
    }
}

/// Size of instruction `i` after rewriting: a non-final `ret` grows to a
/// 5-byte `br`; when widening is on, every short branch grows to its 5-byte
/// long form; everything else keeps its size.
pub open spec fn spec_new_size(inst: IlInstruction, is_last: bool, widen: bool) -> int {
    if inst.opcode == 0x2A && !is_last {
        5
    } else if widen && spec_is_short_branch(inst.opcode) {
        5
    } else {
        inst.total_size as int
    }
}

/// Sum of the first `n` rewritten sizes: the new offset of instruction `n`.
pub open spec fn spec_new_offset(insts: Seq<IlInstruction>, widen: bool, n: int) -> int
    decreases n,
{
    if n <= 0 {
        0
    } else {
        spec_new_offset(insts, widen, n - 1) + spec_new_size(
            insts[n - 1],
            n - 1 == insts.len() - 1,
            widen,
        )
    }
}

/// Whether the rewrite widens all short branches: true when growing the
/// non-final `ret`s alone already moves some offset past the reach of a
/// signed byte.
pub open spec fn spec_widen(code: Seq<u8>, insts: Seq<IlInstruction>) -> bool {
    spec_new_offset(insts, false, insts.len() as int) > code.len() + 127
}

/// Index of the first instruction whose offset equals `off`, if any.
pub open spec fn spec_find_inst(insts: Seq<IlInstruction>, off: int) -> Option<int>
    decreases insts.len(),
{
    if insts.len() == 0 {
        None
    } else if insts[0].offset == off {
        Some(0int)
    } else {
        match spec_find_inst(insts.skip(1), off) {
            None => None,
            Some(j) => Some(j + 1),
        }
    }
}

/// [`spec_find_inst`] returns the first matching index, and `None` exactly
/// when no instruction sits at the offset.
pub proof fn lemma_find_inst_props(insts: Seq<IlInstruction>, off: int)
    ensures
        spec_find_inst(insts, off) matches Some(j) ==> 0 <= j < insts.len() && insts[j].offset
            == off && forall|k: int| 0 <= k < j ==> #[trigger] insts[k].offset != off,
        spec_find_inst(insts, off) is None ==> forall|k: int|
            0 <= k < insts.len() ==> #[trigger] insts[k].offset != off,
    decreases insts.len(),
{
    if insts.len() == 0 {
    } else if insts[0].offset == off {
    } else {
        lemma_find_inst_props(insts.skip(1), off);
        assert(forall|k: int| 0 <= k < insts.len() - 1 ==> #[trigger] insts.skip(1)[k] == insts[k
            + 1]);
        match spec_find_inst(insts.skip(1), off) {
            Some(j) => {
                assert(insts.skip(1)[j] == insts[j + 1]);
                assert forall|k: int| 0 <= k < j + 1 implies #[trigger] insts[k].offset != off by {
                    if k >= 1 {
                        assert(insts.skip(1)[k - 1].offset != off);
                    }
                }
            },
            None => {
                assert forall|k: int| 0 <= k < insts.len() implies #[trigger] insts[k].offset
                    != off by {
                    if k >= 1 {
                        assert(insts.skip(1)[k - 1].offset != off);
                    }
                }
            },
        }
    }
}

/// When instruction `i` is the first at offset `off`, [`spec_find_inst`]
/// finds exactly it.
pub proof fn lemma_find_inst_unique(insts: Seq<IlInstruction>, off: int, i: int)
    requires
        0 <= i < insts.len(),
        insts[i].offset == off,
        forall|k: int| 0 <= k < i ==> #[trigger] insts[k].offset != off,
    ensures
        spec_find_inst(insts, off) == Some(i),
    decreases insts.len(),
{
    if i == 0 {
    } else {
        assert(forall|k: int| 1 <= k < insts.len() ==> insts[k] == #[trigger] insts.skip(1)[k - 1]);
        lemma_find_inst_unique(insts.skip(1), off, i - 1);
    }
}

/// The unsigned 32-bit two's-complement image of a displacement.
pub open spec fn disp32(d: int) -> u32
    recommends
        -0x8000_0000 <= d < 0x8000_0000,
{
    if d >= 0 {
        d as u32
    } else {
        (d + 0x1_0000_0000) as u32
    }
}

/// The unsigned byte image of a short displacement.
pub open spec fn disp8(d: int) -> u8
    recommends
        -0x80 <= d < 0x80,
    {
    if d >= 0 {
        d as u8
    } else {
        (d + 0x100) as u8
    }
}

/// The bytes instruction `i` contributes to the rewritten stream.
pub open spec fn spec_piece(
    code: Seq<u8>,
    insts: Seq<IlInstruction>,
    widen: bool,
    i: int,
) -> Seq<u8>
    recommends
        0 <= i < insts.len(),
{
    let inst = insts[i];
    let last = insts.len() - 1;
    if inst.opcode == 0x2A && i == last {
        seq![0x00u8]
    } else if inst.opcode == 0x2A {
        let disp = spec_new_offset(insts, widen, last) - (spec_new_offset(insts, widen, i) + 5);
        seq![0x38u8] + le32(disp32(disp))
    } else if spec_is_branch(inst.opcode) {
        let old_target = inst.spec_branch_target(code);
        match spec_find_inst(insts, old_target) {
            Some(j) => {
                let new_target = spec_new_offset(insts, widen, j);
                if widen && spec_is_short_branch(inst.opcode) {
                    let disp = new_target - (spec_new_offset(insts, widen, i) + 5);
                    seq![(spec_short_to_long_branch(inst.opcode) % 0x100) as u8] + le32(
                        disp32(disp),
                    )
                } else if spec_is_short_branch(inst.opcode) {
                    let disp = new_target - (spec_new_offset(insts, widen, i)
                        + inst.total_size);
                    seq![(inst.opcode % 0x100) as u8, disp8(disp)]
                } else {
                    let disp = new_target - (spec_new_offset(insts, widen, i)
                        + inst.total_size);
                    seq![(inst.opcode % 0x100) as u8] + le32(disp32(disp))
                }
            },
            None => {
                if widen && spec_is_short_branch(inst.opcode) {
                    Seq::empty()
                } else {
                    code.subrange(inst.offset as int, inst.offset + inst.total_size)
                }
            },
        }
    } else {
        code.subrange(inst.offset as int, inst.offset + inst.total_size)
    }
}

/// Concatenation of the first `n` rewritten pieces.
pub open spec fn spec_pieces(code: Seq<u8>, insts: Seq<IlInstruction>, widen: bool, n: int) -> Seq<
    u8,
>
    decreases n,
{
    if n <= 0 {
        Seq::empty()
    } else {
        spec_pieces(code, insts, widen, n - 1) + spec_piece(code, insts, widen, n - 1)
    }
}

/// The check the multi-ret rewrite makes at instruction `i`: its recomputed
/// displacement fits its slot, and a widened short branch's target lies on
/// an instruction boundary.
pub open spec fn spec_multi_ok_at(
    code: Seq<u8>,
    insts: Seq<IlInstruction>,
    widen: bool,
    i: int,
) -> bool {
    let last = insts.len() - 1;
    let inst = insts[i];
    let next_l = spec_new_offset(insts, widen, i) + 5;
    if inst.opcode == 0x2A {
        i == last || spec_new_offset(insts, widen, last) - next_l < 0x8000_0000
    } else if spec_is_branch(inst.opcode) {
        match spec_find_inst(insts, inst.spec_branch_target(code)) {
            Some(j) => {
                let t = spec_new_offset(insts, widen, j);
                if widen && spec_is_short_branch(inst.opcode) {
                    -0x8000_0000 <= t - next_l < 0x8000_0000
                } else if spec_is_short_branch(inst.opcode) {
                    -0x80 <= t - (spec_new_offset(insts, widen, i) + inst.total_size) < 0x80
                } else {
                    -0x8000_0000 <= t - (spec_new_offset(insts, widen, i) + inst.total_size)
                        < 0x8000_0000
                }
            },
            None => !(widen && spec_is_short_branch(inst.opcode)),
        }
    } else {
        true
    }
}

/// The checks the multi-ret rewrite makes along the way: the rewritten code
/// length fits a `usize` and every instruction passes [`spec_multi_ok_at`].
pub open spec fn spec_multi_ok(code: Seq<u8>, insts: Seq<IlInstruction>, widen: bool) -> bool {
    &&& spec_new_offset(insts, widen, insts.len() as int) <= usize::MAX
    &&& forall|i: int| 0 <= i < insts.len() ==> #[trigger] spec_multi_ok_at(code, insts, widen, i)
}

/// New offsets grow with the index.
pub proof fn lemma_new_offset_mono(insts: Seq<IlInstruction>, widen: bool, i: int, j: int)
    requires
        0 <= i <= j,
    ensures
        spec_new_offset(insts, widen, i) <= spec_new_offset(insts, widen, j),
    decreases j - i,
{
    if i < j {
        lemma_new_offset_mono(insts, widen, i, j - 1);
    }
}

/// No instruction sits at an offset outside the `usize` range.
pub proof fn lemma_find_out_of_range(insts: Seq<IlInstruction>, off: int)
    requires
        off < 0 || off > usize::MAX,
    ensures
        spec_find_inst(insts, off) is None,
    decreases insts.len(),
{
    if insts.len() > 0 {
        lemma_find_out_of_range(insts.skip(1), off);
    }
}

/// Index of the first instruction at byte offset `off`, if any.
fn find_inst_index(instructions: &Vec<IlInstruction>, off: usize) -> (r: Option<usize>)
    ensures
        match r {
            Some(j) => spec_find_inst(instructions@, off as int) == Some(j as int),
            None => spec_find_inst(instructions@, off as int) is None,
        },
{
    let mut i: usize = 0;
    while i < instructions.len()
        invariant
            0 <= i <= instructions@.len(),
            forall|k: int| 0 <= k < i ==> #[trigger] instructions@[k].offset != off,
        decreases instructions@.len() - i,
    {
        if instructions[i].offset == off {
            proof {
                lemma_find_inst_unique(instructions@, off as int, i as int);
            }
            return Some(i);
        }
        i = i + 1;
    }
    proof {
        lemma_find_inst_props(instructions@, off as int);
        match spec_find_inst(instructions@, off as int) {
            Some(j) => {
                assert(instructions@[j].offset == off);
                assert(false);
            },
            None => {},
        }
    }
    None
}

/// The rewritten length of the whole stream, as [`spec_new_offset`] gives
/// it at the sequence's end.  Never overflows: each instruction grows by at
/// most four bytes.
fn compute_new_total(code: &[u8], instructions: &Vec<IlInstruction>, widen: bool) -> (r: u128)
    requires
        spec_scan(code@, 0) == Some(instructions@),
    ensures
        r == spec_new_offset(instructions@, widen, instructions@.len() as int),
{
    proof {
        lemma_code_len_bound(code);
        lemma_scan_complete(code@, 0, instructions@);
    }
    let n = instructions.len();
    let mut sum: u128 = 0;
    let mut i: usize = 0;
    while i < n
        invariant
            0 <= i <= n,
            n == instructions@.len(),
            spec_scan(code@, 0) == Some(instructions@),
            sum == spec_new_offset(instructions@, widen, i as int),
            sum <= (if i < n {
                instructions@[i as int].offset as int
            } else {
                code@.len() as int
            }) + 4 * i,
            code@.len() <= usize::MAX,
        decreases n - i,
    {
        proof {
            lemma_scan_complete(code@, 0, instructions@);
        }
        let inst = &instructions[i];
        let size: usize = if inst.opcode == 0x2A && i != n - 1 {
            5
        } else if widen && inst.is_short_branch() {
            5
        } else {
            inst.total_size
        };
        proof {
            let insts = instructions@;
            assert(insts[i as int].total_size >= 1 && inst_at(
                code@,
                insts[i as int].offset as int,
            ) == Some(insts[i as int]));
            lemma_inst_at_bounds(code@, insts[i as int]);
            if insts[i as int].opcode == 0x2A && i != n - 1 {
                assert(size <= insts[i as int].total_size + 4);
            } else if widen && spec_is_short_branch(insts[i as int].opcode) {
                assert(insts[i as int].operand_size == 1 && insts[i as int].opcode_size == 1);
                assert(size <= insts[i as int].total_size + 4);
            } else {
                assert(size == insts[i as int].total_size);
            }
            if i as int + 1 < n {
                assert(insts[i as int + 1].offset == insts[i as int].offset
                    + insts[i as int].total_size);
                assert(insts[i as int].offset + insts[i as int].total_size <= code@.len());
            } else {
                assert(insts.last().offset + insts.last().total_size == code@.len());
            }
            assert(spec_new_offset(instructions@, widen, i + 1) == spec_new_offset(
                instructions@,
                widen,
                i as int,
            ) + spec_new_size(insts[i as int], i as int == n - 1, widen));
        }
        sum = sum + size as u128;
        i = i + 1;
    }
    sum
}

/// The new offset of every instruction under the rewrite, and the length
/// of the rewritten stream.  Fails exactly when that length does not fit a
/// `usize`.
fn compute_new_offsets(code: &[u8], instructions: &Vec<IlInstruction>, widen: bool) -> (r: Result<
    (Vec<usize>, usize),
    IlError,
>)
    requires
        spec_scan(code@, 0) == Some(instructions@),
    ensures
        r is Ok <==> spec_new_offset(instructions@, widen, instructions@.len() as int)
            <= usize::MAX,
        r matches Ok((offs, total)) ==> {
            &&& offs@.len() == instructions@.len()
            &&& forall|i: int|
                0 <= i < offs@.len() ==> #[trigger] offs@[i] == spec_new_offset(
                    instructions@,
                    widen,
                    i,
                )
            &&& total == spec_new_offset(instructions@, widen, instructions@.len() as int)
        },
        r matches Err(e) ==> e is GenerationError,
{
    let total = compute_new_total(code, instructions, widen);
    if total > usize::MAX as u128 {
        return Err(IlError::GenerationError(String::from_str("rewritten code too large")));
    }

    let n = instructions.len();
    let mut offsets: Vec<usize> = Vec::new();
    let mut off: usize = 0;
    let mut i: usize = 0;
    while i < n
        invariant
            0 <= i <= n,
            n == instructions@.len(),
            spec_scan(code@, 0) == Some(instructions@),
            offsets@.len() == i,
            forall|k: int|
                0 <= k < i ==> #[trigger] offsets@[k] == spec_new_offset(
                    instructions@,
                    widen,
                    k,
                ),
            off == spec_new_offset(instructions@, widen, i as int),
            spec_new_offset(instructions@, widen, n as int) <= usize::MAX,
        decreases n - i,
    {
        offsets.push(off);
        let inst = &instructions[i];
        let size: usize = if inst.opcode == 0x2A && i != n - 1 {
            5
        } else if widen && inst.is_short_branch() {
            5
        } else {
            inst.total_size
        };
        proof {
            assert(spec_new_offset(instructions@, widen, i + 1) == spec_new_offset(
                instructions@,
                widen,
                i as int,
            ) + spec_new_size(instructions@[i as int], i as int == n - 1, widen));
            lemma_new_offset_mono(instructions@, widen, i + 1, n as int);
        }
        off = off + size;
        i = i + 1;
    }
    Ok((offsets, off))
}

/// Append the `size` bytes of `code` starting at `start`.
fn copy_inst_bytes(v: &mut Vec<u8>, code: &[u8], start: usize, size: usize)
    requires
        start + size <= code@.len(),
    ensures
        final(v)@ == old(v)@ + code@.subrange(start as int, start + size),
{
    proof {
        lemma_code_len_bound(code);
    }
    let end = start + size;
    let mut k: usize = start;
    while k < end
        invariant
            start <= k <= end,
            end <= code@.len(),
            end == start + size,
            v@ == old(v)@ + code@.subrange(start as int, k as int),
        decreases end - k,
    {
        v.push(code[k]);
        k = k + 1;
        assert(v@ =~= old(v)@ + code@.subrange(start as int, k as int));
    }
}

/// True when the displacement from `next` to `target` fits a signed 32-bit
/// slot.
fn disp_fits_i32(target: usize, next: usize) -> (r: bool)
    ensures
        r <==> -0x8000_0000 <= target - next < 0x8000_0000,
{
    if target >= next {
        target - next < 0x8000_0000
    } else {
        next - target <= 0x8000_0000
    }
}

/// True when the displacement from `next` to `target` fits a signed byte.
fn disp_fits_i8(target: usize, next: usize) -> (r: bool)
    ensures
        r <==> -0x80 <= target - next < 0x80,
{
    if target >= next {
        target - next < 0x80
    } else {
        next - target <= 0x80
    }
}

/// Append the four little-endian bytes of the signed displacement from
/// `next` to `target`.
fn push_disp32(v: &mut Vec<u8>, target: usize, next: usize)
    requires
        -0x8000_0000 <= target - next < 0x8000_0000,
    ensures
        final(v)@ == old(v)@ + le32(disp32(target - next)),
{
    if target >= next {
        let d = target - next;
        crate::le::push_le32(v, d as u32);
        assert(disp32(target - next) == d as u32);
    } else {
        let d = next - target;
        crate::le::push_le32(v, (0x1_0000_0000u64 - d as u64) as u32);
        assert(disp32(target - next) == (0x1_0000_0000u64 - d as u64) as u32);
    }
}

/// Append the single byte of the signed displacement from `next` to
/// `target`.
fn push_disp8(v: &mut Vec<u8>, target: usize, next: usize)
    requires
        -0x80 <= target - next < 0x80,
    ensures
        final(v)@ == old(v)@ + seq![disp8(target - next)],
{
    if target >= next {
        let d = target - next;
        v.push(d as u8);
        assert(disp8(target - next) == d as u8);
        assert(final(v)@ =~= old(v)@ + seq![disp8(target - next)]);
    } else {
        let d = next - target;
        v.push((0x100 - d) as u8);
        assert(disp8(target - next) == (0x100 - d) as u8);
        assert(final(v)@ =~= old(v)@ + seq![disp8(target - next)]);
    }
}

/// Rewrite a method with multiple `ret` instructions: the final `ret`
/// becomes `nop`, every other `ret` becomes a long `br` to that `nop`, and
/// branch displacements are recomputed against the new offsets (widening
/// all short branches when the growth can put a target out of a signed
/// byte's reach).
///
/// Succeeds exactly when every recomputed displacement fits its slot, every
/// widened short branch's target lies on an instruction boundary, and the
/// rewritten stream's length fits a `usize`; the result is then precisely
/// the concatenation [`spec_pieces`] describes, with the old-to-new offset
/// map alongside.
#[verifier::rlimit(100)]
#[verifier::spinoff_prover]
fn rewrite_multi_return(code: &[u8], instructions: &Vec<IlInstruction>) -> (r: Result<
    PreprocessedCode,
    IlError,
>)
    requires
        spec_scan(code@, 0) == Some(instructions@),
        instructions@.len() > 0,
        instructions@.last().opcode == 0x2A,
    ensures
        ({
            let insts = instructions@;
            let widen = spec_widen(code@, insts);
            &&& (r is Ok <==> spec_multi_ok(code@, insts, widen))
            &&& (r matches Ok(p) ==> {
                &&& p.code@ == spec_pieces(code@, insts, widen, insts.len() as int)
                &&& p.offset_map@.len() == insts.len()
                &&& forall|i: int|
                    0 <= i < insts.len() ==> #[trigger] p.offset_map@[i] == (
                        insts[i].offset,
                        spec_new_offset(insts, widen, i) as usize,
                    )
            })
            &&& (r matches Err(e) ==> e is GenerationError)
        }),
{
    proof {
        lemma_code_len_bound(code);
        lemma_scan_complete(code@, 0, instructions@);
    }
    let ghost insts = instructions@;
    let n = instructions.len();

    let total_grown = compute_new_total(code, instructions, false);
    let widen = total_grown > code.len() as u128 + 127;
    proof {
        assert(widen == spec_widen(code@, insts));
    }

    let (new_offsets, total) = match compute_new_offsets(code, instructions, widen) {
        Ok(p) => p,
        Err(e) => {
            proof {
                assert(!spec_multi_ok(code@, insts, widen));
            }
            return Err(e);
        },
    };

    let final_nop_offset = new_offsets[n - 1];

    let mut new_code: Vec<u8> = Vec::new();
    let mut i: usize = 0;
    while i < n
        invariant
            0 <= i <= n,
            n == insts.len(),
            insts == instructions@,
            insts.last().opcode == 0x2A,
            spec_scan(code@, 0) == Some(insts),
            code@.len() <= usize::MAX,
            widen == spec_widen(code@, insts),
            new_offsets@.len() == n,
            forall|k: int|
                0 <= k < n ==> #[trigger] new_offsets@[k] == spec_new_offset(insts, widen, k),
            total == spec_new_offset(insts, widen, n as int),
            final_nop_offset == spec_new_offset(insts, widen, n - 1),
            new_code@ == spec_pieces(code@, insts, widen, i as int),
            new_code@.len() == spec_new_offset(insts, widen, i as int),
            forall|k: int| 0 <= k < i ==> #[trigger] spec_multi_ok_at(code@, insts, widen, k),
        decreases n - i,
    {
        proof {
            lemma_scan_complete(code@, 0, insts);
            assert(insts[i as int].total_size >= 1 && inst_at(
                code@,
                insts[i as int].offset as int,
            ) == Some(insts[i as int]));
            lemma_inst_at_bounds(code@, insts[i as int]);
            assert(spec_new_offset(insts, widen, i + 1) == spec_new_offset(insts, widen, i as int)
                + spec_new_size(insts[i as int], i as int == n - 1, widen));
            lemma_new_offset_mono(insts, widen, i + 1, n as int);
            assert(spec_pieces(code@, insts, widen, i + 1) == spec_pieces(
                code@,
                insts,
                widen,
                i as int,
            ) + spec_piece(code@, insts, widen, i as int));
        }
        let inst = instructions[i];
        let ghost piece = spec_piece(code@, insts, widen, i as int);

        if inst.opcode == 0x2A && i == n - 1 {
            new_code.push(0x00);
            proof {
                assert(piece =~= seq![0x00u8]);
                assert(new_code@ =~= spec_pieces(code@, insts, widen, i + 1));
            }
        } else if inst.opcode == 0x2A {
            let next = new_offsets[i] + 5;
            proof {
                lemma_new_offset_mono(insts, widen, i + 1, n - 1 as int);
            }
            if !disp_fits_i32(final_nop_offset, next) {
                proof {
                    assert(!spec_multi_ok_at(code@, insts, widen, i as int));
                }
                return Err(
                    IlError::GenerationError(
                        String::from_str("branch displacement out of range"),
                    ),
                );
            }
            new_code.push(0x38);
            push_disp32(&mut new_code, final_nop_offset, next);
            proof {
                assert(piece =~= seq![0x38u8] + le32(disp32(final_nop_offset - next)));
                assert(new_code@ =~= spec_pieces(code@, insts, widen, i + 1));
                assert(spec_multi_ok_at(code@, insts, widen, i as int));
            }
        } else if inst.is_branch() {
            let ghost old_target = insts[i as int].spec_branch_target(code@);
            let target_opt = inst.branch_target(code);
            let idx_opt: Option<usize> = match target_opt {
                Some(t) => find_inst_index(instructions, t),
                None => {
                    proof {
                        lemma_find_out_of_range(insts, old_target);
                    }
                    None
                },
            };
            match idx_opt {
                Some(j) => {
                    proof {
                        lemma_find_inst_props(insts, old_target);
                    }
                    let new_target = new_offsets[j];
                    if widen && inst.is_short_branch() {
                        let long_op = short_to_long_branch(inst.opcode);
                        let next = new_offsets[i] + 5;
                        if !disp_fits_i32(new_target, next) {
                            proof {
                                assert(!spec_multi_ok_at(code@, insts, widen, i as int));
                            }
                            return Err(
                                IlError::GenerationError(
                                    String::from_str("branch displacement out of range"),
                                ),
                            );
                        }
                        new_code.push((long_op % 0x100) as u8);
                        push_disp32(&mut new_code, new_target, next);
                        proof {
                            assert(piece =~= seq![
                                (spec_short_to_long_branch(insts[i as int].opcode) % 0x100) as u8,
                            ] + le32(disp32(new_target - next)));
                            assert(new_code@ =~= spec_pieces(code@, insts, widen, i + 1));
                            assert(spec_multi_ok_at(code@, insts, widen, i as int));
                        }
                    } else if inst.is_short_branch() {
                        let next = new_offsets[i] + inst.total_size;
                        if !disp_fits_i8(new_target, next) {
                            proof {
                                assert(!spec_multi_ok_at(code@, insts, widen, i as int));
                            }
                            return Err(
                                IlError::GenerationError(
                                    String::from_str(
                                        "short branch displacement out of range",
                                    ),
                                ),
                            );
                        }
                        new_code.push((inst.opcode % 0x100) as u8);
                        push_disp8(&mut new_code, new_target, next);
                        proof {
                            assert(piece =~= seq![
                                (insts[i as int].opcode % 0x100) as u8,
                                disp8(new_target - next),
                            ]);
                            assert(new_code@ =~= spec_pieces(code@, insts, widen, i + 1));
                            assert(spec_multi_ok_at(code@, insts, widen, i as int));
                        }
                    } else {
                        let next = new_offsets[i] + inst.total_size;
                        if !disp_fits_i32(new_target, next) {
                            proof {
                                assert(!spec_multi_ok_at(code@, insts, widen, i as int));
                            }
                            return Err(
                                IlError::GenerationError(
                                    String::from_str("branch displacement out of range"),
                                ),
                            );
                        }
                        new_code.push((inst.opcode % 0x100) as u8);
                        push_disp32(&mut new_code, new_target, next);
                        proof {
                            assert(piece =~= seq![(insts[i as int].opcode % 0x100) as u8] + le32(
                                disp32(new_target - next),
                            ));
                            assert(new_code@ =~= spec_pieces(code@, insts, widen, i + 1));
                            assert(spec_multi_ok_at(code@, insts, widen, i as int));
                        }
                    }
                },
                None => {
                    if widen && inst.is_short_branch() {
                        proof {
                            assert(!spec_multi_ok_at(code@, insts, widen, i as int));
                        }
                        return Err(
                            IlError::GenerationError(
                                String::from_str("branch target not on an instruction boundary"),
                            ),
                        );
                    }
                    copy_inst_bytes(&mut new_code, code, inst.offset, inst.total_size);
                    proof {
                        assert(piece == code@.subrange(
                            inst.offset as int,
                            inst.offset + inst.total_size,
                        ));
                        assert(new_code@ =~= spec_pieces(code@, insts, widen, i + 1));
                        assert(spec_multi_ok_at(code@, insts, widen, i as int));
                    }
                },
            }
        } else {
            copy_inst_bytes(&mut new_code, code, inst.offset, inst.total_size);
            proof {
                assert(piece == code@.subrange(inst.offset as int, inst.offset + inst.total_size));
                assert(new_code@ =~= spec_pieces(code@, insts, widen, i + 1));
                assert(spec_multi_ok_at(code@, insts, widen, i as int));
            }
        }

        i = i + 1;
    }

    let mut offset_map: Vec<(usize, usize)> = Vec::new();
    let mut j: usize = 0;
    while j < n
        invariant
            0 <= j <= n,
            n == insts.len(),
            insts == instructions@,
            new_offsets@.len() == n,
            forall|k: int|
                0 <= k < n ==> #[trigger] new_offsets@[k] == spec_new_offset(insts, widen, k),
            offset_map@.len() == j,
            forall|k: int|
                0 <= k < j ==> #[trigger] offset_map@[k] == (
                    insts[k].offset,
                    spec_new_offset(insts, widen, k) as usize,
                ),
        decreases n - j,
    {
        offset_map.push((instructions[j].offset, new_offsets[j]));
        j = j + 1;
    }

    proof {
        assert(spec_multi_ok(code@, insts, widen));
    }
    Ok(PreprocessedCode { code: new_code, offset_map })
}

/// Preprocess user code to handle `ret` instructions before wrapping it in
/// a `try` region.
///
/// With no `ret` the code comes back unchanged under an identity offset
/// map.  With exactly one `ret`—which must be the final instruction—that
/// byte becomes `nop`, still under an identity map.  With several, the
/// final instruction must still be `ret` and the stream is rewritten as
/// [`rewrite_multi_return`] describes.
pub fn preprocess_user_code(code: &[u8]) -> (r: Result<PreprocessedCode, IlError>)
    ensures
        spec_scan(code@, 0) is None ==> (r matches Err(e) && (e is UnexpectedEnd
            || e is GenerationError)),
        ({
            spec_scan(code@, 0) matches Some(insts) ==> {
                let rc = spec_ret_count(insts);
                &&& (rc == 0 ==> (r matches Ok(p) && p.code@ == code@ && p.offset_map@.len()
                    == insts.len() && (forall|i: int|
                    0 <= i < insts.len() ==> #[trigger] p.offset_map@[i] == (
                        insts[i].offset,
                        insts[i].offset,
                    ))))
                &&& (rc > 0 && insts.last().opcode != 0x2A ==> (r matches Err(e)
                    && e is GenerationError))
                &&& (rc == 1 && insts.last().opcode == 0x2A ==> (r matches Ok(p) && p.code@
                    == code@.update(insts.last().offset as int, 0x00u8) && p.offset_map@.len()
                    == insts.len() && (forall|i: int|
                    0 <= i < insts.len() ==> #[trigger] p.offset_map@[i] == (
                        insts[i].offset,
                        insts[i].offset,
                    ))))
                &&& (rc >= 2 && insts.last().opcode == 0x2A ==> {
                    let widen = spec_widen(code@, insts);
                    &&& (r is Ok <==> spec_multi_ok(code@, insts, widen))
                    &&& (r matches Ok(p) ==> {
                        &&& p.code@ == spec_pieces(code@, insts, widen, insts.len() as int)
                        &&& p.offset_map@.len() == insts.len()
                        &&& forall|i: int|
                            0 <= i < insts.len() ==> #[trigger] p.offset_map@[i] == (
                                insts[i].offset,
                                spec_new_offset(insts, widen, i) as usize,
                            )
                    })
                    &&& (r matches Err(e) ==> e is GenerationError)
                })
            }
        }),
{
    let instructions = match scan_instructions(code) {
        Ok(v) => v,
        Err(e) => {
            return Err(e);
        },
    };
    let ghost insts = instructions@;
    proof {
        lemma_code_len_bound(code);
        lemma_scan_complete(code@, 0, insts);
    }
    let ret_count = count_rets(instructions.as_slice());
    let n = instructions.len();

    if ret_count == 0 {
        let mut new_code: Vec<u8> = Vec::new();
        let mut k: usize = 0;
        while k < code.len()
            invariant
                0 <= k <= code@.len(),
                new_code@ == code@.subrange(0, k as int),
            decreases code@.len() - k,
        {
            new_code.push(code[k]);
            k = k + 1;
            assert(new_code@ =~= code@.subrange(0, k as int));
        }
        assert(new_code@ =~= code@);
        let offset_map = identity_offset_map(&instructions);
        return Ok(PreprocessedCode { code: new_code, offset_map });
    }

    // ret_count >= 1, so the stream is nonempty.
    assert(n > 0) by {
        if insts.len() == 0 {
            assert(spec_ret_count(insts) == 0);
        }
    }

    if instructions[n - 1].opcode != 0x2A {
        return Err(IlError::GenerationError(String::from_str("final instruction is not ret")));
    }

    if ret_count == 1 {
        let ret_offset = instructions[n - 1].offset;
        proof {
            assert(insts[n - 1].total_size >= 1 && inst_at(code@, insts[n - 1].offset as int)
                == Some(insts[n - 1]));
            lemma_inst_at_bounds(code@, insts[n - 1]);
        }
        let mut new_code: Vec<u8> = Vec::new();
        let mut k: usize = 0;
        while k < code.len()
            invariant
                0 <= k <= code@.len(),
                ret_offset < code@.len(),
                new_code@ == code@.update(ret_offset as int, 0x00u8).subrange(0, k as int),
            decreases code@.len() - k,
        {
            if k == ret_offset {
                new_code.push(0x00);
            } else {
                new_code.push(code[k]);
            }
            k = k + 1;
            assert(new_code@ =~= code@.update(ret_offset as int, 0x00u8).subrange(0, k as int));
        }
        assert(new_code@ =~= code@.update(ret_offset as int, 0x00u8));
        let offset_map = identity_offset_map(&instructions);
        return Ok(PreprocessedCode { code: new_code, offset_map });
    }

    rewrite_multi_return(code, &instructions)
}

/// The identity offset map: each instruction maps to its own offset.
fn identity_offset_map(instructions: &Vec<IlInstruction>) -> (r: Vec<(usize, usize)>)
    ensures
        r@.len() == instructions@.len(),
        forall|i: int|
            0 <= i < instructions@.len() ==> #[trigger] r@[i] == (
                instructions@[i].offset,
                instructions@[i].offset,
            ),
{
    let mut offset_map: Vec<(usize, usize)> = Vec::new();
    let mut j: usize = 0;
    while j < instructions.len()
        invariant
            0 <= j <= instructions@.len(),
            offset_map@.len() == j,
            forall|k: int|
                0 <= k < j ==> #[trigger] offset_map@[k] == (
                    instructions@[k].offset,
                    instructions@[k].offset,
                ),
        decreases instructions@.len() - j,
    {
        offset_map.push((instructions[j].offset, instructions[j].offset));
        j = j + 1;
    }
    offset_map
}

/// Replacing the final one-byte `ret` with `nop` moves no instruction:
/// the rewritten stream scans to the same boundaries, only the final
/// instruction's opcode changes.
proof fn lemma_scan_nop_last(code: Seq<u8>, pos: int, s: Seq<IlInstruction>, q: int)
    requires
        0 <= pos,
        code.len() <= usize::MAX,
        spec_scan(code, pos) == Some(s),
        q == code.len() - 1,
        0 <= q,
        s.len() > 0 ==> s.last().offset == q && s.last().opcode == 0x2A && s.last().total_size
            == 1,
    ensures
        ({
            let s2 = spec_scan(code.update(q, 0x00u8), pos);
            &&& s2 is Some
            &&& s2.unwrap().len() == s.len()
            &&& forall|i: int| 0 <= i < s.len() - 1 ==> #[trigger] s2.unwrap()[i] == s[i]
            &&& s.len() > 0 ==> s2.unwrap().last() == IlInstruction {
                opcode: 0x00,
                ..s.last()
            }
        }),
    decreases code.len() - pos,
{
    let new = code.update(q, 0x00u8);
    assert(new.len() == code.len());
    if pos >= code.len() {
        assert(spec_scan(new, pos) == Some(Seq::<IlInstruction>::empty()));
    } else {
        lemma_scan_complete(code, pos, s);
        let inst = inst_at(code, pos).unwrap();
        let rest = spec_scan(code, pos + inst.total_size).unwrap();
        assert(s == seq![inst] + rest);
        if rest.len() == 0 {
            // `inst` is the final instruction: the one-byte ret at q
            assert(s.last() == inst);
            assert(pos == q);
            assert(new[q] == 0x00);
            let inst2 = IlInstruction { opcode: 0x00, ..inst };
            assert(inst_at(new, pos) == Some(inst2));
            assert(spec_scan(new, pos + 1) == Some(Seq::<IlInstruction>::empty()));
            assert(spec_scan(new, pos) == Some(seq![inst2]));
            assert(spec_scan(new, pos).unwrap().last() == inst2);
        } else {
            // `inst` ends at or before q, so its bytes are unchanged
            assert(rest[0].offset == pos + inst.total_size);
            assert(s.last() == rest.last());
            assert(pos + inst.total_size <= q);
            assert forall|j: int| pos <= j < pos + inst.total_size implies new[j] == code[j] by {}
            assert(inst_at(new, pos) == Some(inst)) by {
                assert(new[pos] == code[pos]);
                if code[pos] == 0xFE {
                    assert(new[pos + 1] == code[pos + 1]);
                } else if code[pos] == 0x45 {
                    assert(new[pos + 1] == code[pos + 1] && new[pos + 2] == code[pos + 2] && new[pos
                        + 3] == code[pos + 3] && new[pos + 4] == code[pos + 4]);
                }
            }
            lemma_scan_nop_last(code, pos + inst.total_size, rest, q);
            let rest2 = spec_scan(new, pos + inst.total_size).unwrap();
            assert(spec_scan(new, pos) == Some(seq![inst] + rest2));
            let s2 = seq![inst] + rest2;
            assert(s2.len() == s.len());
            assert forall|i: int| 0 <= i < s.len() - 1 implies #[trigger] s2[i] == s[i] by {
                if i > 0 {
                    assert(s2[i] == rest2[i - 1] && s[i] == rest[i - 1]);
                }
            }
            assert(s2.last() == rest2.last());
        }
    }
}

/// Branch-target invariance under the identity rewrite: code that
/// preprocesses to itself up to the final `ret` becoming `nop`—no `ret`,
/// or exactly one as the final instruction—keeps every instruction
/// boundary, and every branch's target in the rewritten stream equals its
/// original target.
#[verifier::rlimit(100)]
#[verifier::spinoff_prover]
pub proof fn lemma_identity_rewrite_branch_targets(
    code: Seq<u8>,
    insts: Seq<IlInstruction>,
    nopped: Seq<u8>,
)
    requires
        code.len() <= usize::MAX,
        spec_scan(code, 0) == Some(insts),
        spec_ret_count(insts) == 0 ==> nopped == code,
        spec_ret_count(insts) == 1 ==> insts.len() > 0 && insts.last().opcode == 0x2A && nopped
            == code.update(insts.last().offset as int, 0x00u8),
        spec_ret_count(insts) <= 1,
    ensures
        ({
            let s2 = spec_scan(nopped, 0);
            &&& s2 is Some
            &&& s2.unwrap().len() == insts.len()
            &&& forall|i: int|
                0 <= i < insts.len() ==> (#[trigger] s2.unwrap()[i]).offset == insts[i].offset
                    && s2.unwrap()[i].total_size == insts[i].total_size
            &&& forall|i: int|
                0 <= i < insts.len() && spec_is_branch(#[trigger] insts[i].opcode) ==> {
                    &&& s2.unwrap()[i] == insts[i]
                    &&& s2.unwrap()[i].spec_branch_target(nopped) == insts[i].spec_branch_target(
                        code,
                    )
                }
        }),
{
    lemma_scan_complete(code, 0, insts);
    if spec_ret_count(insts) == 0 {
        assert(spec_scan(nopped, 0) == Some(insts));
    } else {
        let q = insts.last().offset as int;
        assert(insts.last().total_size == 1);
        assert(q == code.len() - 1);
        lemma_scan_nop_last(code, 0, insts, q);
        let s2 = spec_scan(nopped, 0).unwrap();
        assert forall|i: int|
            0 <= i < insts.len() && spec_is_branch(#[trigger] insts[i].opcode) implies s2[i]
            == insts[i] && s2[i].spec_branch_target(nopped) == insts[i].spec_branch_target(
            code,
        ) by {
            assert(!spec_is_branch(0x2A));
            assert(i < insts.len() - 1);
            assert(s2[i] == insts[i]);
            let inst = insts[i];
            lemma_scan_complete(code, 0, insts);
            assert(insts[i].total_size >= 1 && inst_at(code, insts[i].offset as int) == Some(
                insts[i],
            ));
            lemma_inst_at_bounds(code, inst);
            assert(insts[i + 1].offset == inst.offset + inst.total_size);
            assert(insts.last().offset >= insts[i + 1].offset) by {
                lemma_offsets_mono(insts, i + 1, insts.len() - 1);
            }
            assert(inst.offset + inst.total_size <= q);
            assert forall|j: int| inst.offset <= j < inst.offset + inst.total_size implies #[
            trigger] nopped[j] == code[j] by {}
            assert(nopped[inst.offset + inst.opcode_size] == code[inst.offset + inst.opcode_size]);
            if !spec_is_short_branch(inst.opcode) {
                assert(inst.operand_size == 4);
                assert(nopped[inst.offset + inst.opcode_size + 1] == code[inst.offset
                    + inst.opcode_size + 1] && nopped[inst.offset + inst.opcode_size + 2]
                    == code[inst.offset + inst.opcode_size + 2] && nopped[inst.offset
                    + inst.opcode_size + 3] == code[inst.offset + inst.opcode_size + 3]);
            }
        }
    }
}

/// Scanned instruction offsets grow with the index.
proof fn lemma_offsets_mono(insts: Seq<IlInstruction>, i: int, j: int)
    requires
        0 <= i <= j < insts.len(),
        forall|k: int|
            0 <= k < insts.len() - 1 ==> #[trigger] insts[k + 1].offset == insts[k].offset
                + insts[k].total_size,
        forall|k: int| 0 <= k < insts.len() ==> #[trigger] insts[k].total_size >= 1,
    ensures
        insts[i].offset <= insts[j].offset,
    decreases j - i,
{
    if i < j {
        lemma_offsets_mono(insts, i + 1, j);
        assert(insts[i + 1].offset == insts[i].offset + insts[i].total_size);
    }
}

/// The ret rewrite preserves the instruction correspondence: the offset
/// map pairs every original instruction with exactly one position in the
/// rewritten stream, in strictly increasing order (so the correspondence
/// is one to one), starting at zero.
pub proof fn lemma_rewrite_offsets_injective(insts: Seq<IlInstruction>, widen: bool)
    requires
        forall|k: int| 0 <= k < insts.len() ==> #[trigger] insts[k].total_size >= 1,
    ensures
        spec_new_offset(insts, widen, 0) == 0,
        forall|i: int, j: int|
            0 <= i < j < insts.len() ==> spec_new_offset(insts, widen, i) < spec_new_offset(
                insts,
                widen,
                j,
            ),
{
    assert forall|i: int, j: int| 0 <= i < j < insts.len() implies spec_new_offset(insts, widen, i)
        < spec_new_offset(insts, widen, j) by {
        lemma_new_offset_strict_mono(insts, widen, i, j);
    }
}

/// Strictly increasing new offsets, step by step.
proof fn lemma_new_offset_strict_mono(insts: Seq<IlInstruction>, widen: bool, i: int, j: int)
    requires
        0 <= i < j < insts.len(),
        forall|k: int| 0 <= k < insts.len() ==> #[trigger] insts[k].total_size >= 1,
    ensures
        spec_new_offset(insts, widen, i) < spec_new_offset(insts, widen, j),
    decreases j - i,
{
    if i + 1 < j {
        lemma_new_offset_strict_mono(insts, widen, i + 1, j);
    }
    assert(spec_new_size(insts[i], i == insts.len() - 1, widen) >= 1);
}

} // verus!
