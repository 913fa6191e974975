//! IL method header parsing and writing (tiny and fat formats, ECMA-335
//! II.25.4).
//!
//! A tiny header is one byte: low two bits `0b10`, upper six bits the code
//! size.  A fat header is twelve bytes: a 16-bit word packing a 12-bit flags
//! field with a 4-bit size-in-dwords, a 16-bit max stack, a 32-bit code size
//! and a 32-bit local-variable-signature token.  Instrumentation always
//! emits the fat form, so a parsed tiny header is normalized to fat.

use vstd::prelude::*;

use crate::le::{le16, le32, lemma_le16_round_trip, lemma_le32_round_trip, push_le16, push_le32,
    read_u16_le, read_u32_le, u16_le, u32_le};
use crate::IlError;

verus! {

/// Fat header format flag (low two bits of the flags word).
pub const COR_ILMETHOD_FAT_FORMAT: u16 = 0x0003;

/// InitLocals flag: the runtime zero-initializes local variables.
pub const COR_ILMETHOD_INIT_LOCALS: u16 = 0x0010;

/// MoreSects flag: extra data sections (exception tables) follow the code.
pub const COR_ILMETHOD_MORE_SECTS: u16 = 0x0008;

/// Standard fat header size in bytes.
pub const FAT_HEADER_SIZE: usize = 12;

/// Fat header size in DWORDs (always 3).
pub const FAT_HEADER_DWORDS: u16 = 3;

/// A fat IL method header (12 bytes on the wire).
#[derive(Debug, Clone, PartialEq, Eq, Structural)]
pub struct FatHeader {
    /// Flags: FatFormat, InitLocals, MoreSects (12 bits)
    pub flags: u16,
    /// Header size in DWORDs (4 bits; always 3 for a standard fat header)
    pub size: u16,
    /// Maximum evaluation stack depth
    pub max_stack: u16,
    /// IL code size in bytes
    pub code_size: u32,
    /// Metadata token for the local variable signature (0 if no locals)
    pub local_var_sig_tok: u32,
}

/// Parsed result from extracting a method's IL.
#[derive(Debug)]
pub struct ParsedMethod {
    /// The method header (converted to fat if originally tiny)
    pub header: FatHeader,
    /// The code bytes (method body)
    pub code: Vec<u8>,
    /// Extra section bytes (exception handler tables), if any
    pub extra_sections: Option<Vec<u8>>,
}

/// A header whose fields fit their on-wire widths: 12-bit flags, 4-bit size.
pub open spec fn header_wf(h: FatHeader) -> bool {
    h.flags < 0x1000 && h.size < 0x10
}

/// The twelve on-wire bytes of a fat header: the packed flags-and-size word,
/// max stack, code size and local-signature token, all little-endian.
pub open spec fn fat_header_bytes(h: FatHeader) -> Seq<u8> {
    le16(((h.flags % 0x1000) + (h.size % 0x10) * 0x1000) as u16) + le16(h.max_stack) + le32(
        h.code_size,
    ) + le32(h.local_var_sig_tok)
}

/// The header read from the first twelve bytes of `s`.
pub open spec fn spec_parse_fat_header(s: Seq<u8>) -> FatHeader
    recommends
        s.len() >= 12,
{
    FatHeader {
        flags: (u16_le(s[0], s[1]) % 0x1000) as u16,
        size: (u16_le(s[0], s[1]) / 0x1000) as u16,
        max_stack: u16_le(s[2], s[3]),
        code_size: u32_le(s[4], s[5], s[6], s[7]),
        local_var_sig_tok: u32_le(s[8], s[9], s[10], s[11]),
    }
}

/// True when the first two bytes mark the fat format (low two bits of the
/// 16-bit word equal `0b11`).
pub open spec fn is_fat_image(s: Seq<u8>) -> bool {
    s.len() >= 2 && u16_le(s[0], s[1]) % 4 == 3
}

/// True when the first byte marks the tiny format (low two bits `0b10`),
/// and the image is not fat.
pub open spec fn is_tiny_image(s: Seq<u8>) -> bool {
    !is_fat_image(s) && s.len() >= 1 && s[0] % 4 == 2
}

/// The smallest multiple of 4 at or above `n`.
pub open spec fn align4(n: int) -> int {
    (n + 3) / 4 * 4
}

/// Parse a fat header from the first 12 bytes.
///
/// Succeeds exactly when 12 bytes are present; the result is the header the
/// bytes spell.
pub fn parse_fat_header(bytes: &[u8]) -> (r: Result<FatHeader, IlError>)
    ensures
        r is Ok <==> bytes@.len() >= 12,
        r matches Ok(h) ==> h == spec_parse_fat_header(bytes@) && header_wf(h),
        r matches Err(e) ==> e is InvalidHeader,
{
    if bytes.len() < FAT_HEADER_SIZE {
        return Err(IlError::InvalidHeader(String::from_str("fat header truncated")));
    }

    let flags_and_size = read_u16_le(bytes, 0);
    let flags = flags_and_size % 0x1000;
    let size = flags_and_size / 0x1000;
    let max_stack = read_u16_le(bytes, 2);
    let code_size = read_u32_le(bytes, 4);
    let local_var_sig_tok = read_u32_le(bytes, 8);

    Ok(FatHeader { flags, size, max_stack, code_size, local_var_sig_tok })
}

/// Convert a tiny header to a fat header with default settings: flags
/// `FatFormat | InitLocals`, size 3, max stack 8, no locals token.
pub fn tiny_to_fat(code_size: u32) -> (h: FatHeader)
    ensures
        h.flags == COR_ILMETHOD_FAT_FORMAT | COR_ILMETHOD_INIT_LOCALS,
        h.size == FAT_HEADER_DWORDS,
        h.max_stack == 8,
        h.code_size == code_size,
        h.local_var_sig_tok == 0,
        header_wf(h),
{
    assert((COR_ILMETHOD_FAT_FORMAT | COR_ILMETHOD_INIT_LOCALS) == 0x13u16) by (bit_vector);
    FatHeader {
        flags: COR_ILMETHOD_FAT_FORMAT | COR_ILMETHOD_INIT_LOCALS,
        size: FAT_HEADER_DWORDS,
        max_stack: 8,
        code_size,
        local_var_sig_tok: 0,
    }
}

/// Serialize a fat header to its 12 on-wire bytes.
pub fn write_fat_header(header: &FatHeader) -> (r: Vec<u8>)
    ensures
        r@ == fat_header_bytes(*header),
        r@.len() == 12,
{
    let mut bytes: Vec<u8> = Vec::new();
    push_le16(&mut bytes, (header.flags % 0x1000) + (header.size % 0x10) * 0x1000);
    push_le16(&mut bytes, header.max_stack);
    push_le32(&mut bytes, header.code_size);
    push_le32(&mut bytes, header.local_var_sig_tok);
    assert(bytes@ =~= fat_header_bytes(*header));
    bytes
}

/// Writing a well-formed fat header and parsing the bytes back restores
/// every field.
pub proof fn lemma_fat_header_round_trip(h: FatHeader)
    requires
        header_wf(h),
    ensures
        spec_parse_fat_header(fat_header_bytes(h)) == h,
{
    let packed: u16 = ((h.flags % 0x1000) + (h.size % 0x10) * 0x1000) as u16;
    lemma_le16_round_trip(packed);
    lemma_le16_round_trip(h.max_stack);
    lemma_le32_round_trip(h.code_size);
    lemma_le32_round_trip(h.local_var_sig_tok);
    assert(packed % 0x1000 == h.flags);
    assert(packed / 0x1000 == h.size);
    let s = fat_header_bytes(h);
    assert(s[2] == le16(h.max_stack)[0] && s[3] == le16(h.max_stack)[1]);
    assert(s[4] == le32(h.code_size)[0] && s[5] == le32(h.code_size)[1] && s[6] == le32(
        h.code_size,
    )[2] && s[7] == le32(h.code_size)[3]);
    assert(s[8] == le32(h.local_var_sig_tok)[0] && s[9] == le32(h.local_var_sig_tok)[1] && s[10]
        == le32(h.local_var_sig_tok)[2] && s[11] == le32(h.local_var_sig_tok)[3]);
    assert(spec_parse_fat_header(s) == h);
}

/// Parse a complete IL method from raw bytes.
///
/// Detects tiny and fat formats; the header comes back normalized to fat.
/// For a tiny image the code is the `code_size` bytes after the single
/// header byte and there are never extra sections.  For a fat image the
/// code follows the header (whose size field gives its length in dwords)
/// and, when `MoreSects` is set, the extra sections start at the first
/// 4-byte-aligned offset after the code.
pub fn parse_method(bytes: &[u8]) -> (r: Result<ParsedMethod, IlError>)
    ensures
        r matches Err(e) ==> e is InvalidHeader,
        bytes@.len() == 0 ==> r is Err,
        is_fat_image(bytes@) ==> {
            let h = spec_parse_fat_header(bytes@);
            let code_start = h.size * 4;
            let code_end = code_start + h.code_size;
            &&& (r is Ok <==> bytes@.len() >= 12 && code_end <= bytes@.len())
            &&& r matches Ok(p) ==> {
                &&& p.header == h
                &&& p.code@ == bytes@.subrange(code_start as int, code_end as int)
                &&& if h.flags & COR_ILMETHOD_MORE_SECTS != 0 && align4(code_end as int)
                    < bytes@.len() {
                    p.extra_sections matches Some(extra) && extra@ == bytes@.subrange(
                        align4(code_end as int),
                        bytes@.len() as int,
                    )
                } else {
                    p.extra_sections is None
                }
            }
        },
        is_tiny_image(bytes@) ==> {
            let code_size = bytes@[0] / 4;
            &&& (r is Ok <==> 1 + code_size <= bytes@.len())
            &&& r matches Ok(p) ==> {
                &&& p.header.flags == COR_ILMETHOD_FAT_FORMAT | COR_ILMETHOD_INIT_LOCALS
                &&& p.header.size == FAT_HEADER_DWORDS
                &&& p.header.max_stack == 8
                &&& p.header.code_size == code_size
                &&& p.header.local_var_sig_tok == 0
                &&& p.code@ == bytes@.subrange(1, 1 + code_size as int)
                &&& p.extra_sections is None
            }
        },
        bytes@.len() > 0 && !is_fat_image(bytes@) && !is_tiny_image(bytes@) ==> r is Err,
{
    if bytes.len() == 0 {
        return Err(IlError::InvalidHeader(String::from_str("empty method bytes")));
    }

    if bytes.len() >= 2 {
        let flags_word = read_u16_le(bytes, 0);
        if flags_word % 4 == 3 {
            return parse_fat_method(bytes);
        }
    }

    if bytes[0] % 4 == 2 {
        return parse_tiny_method(bytes);
    }

    Err(IlError::InvalidHeader(String::from_str("unrecognized header format")))
}

/// Parse a tiny-format method and convert its header to fat.
fn parse_tiny_method(bytes: &[u8]) -> (r: Result<ParsedMethod, IlError>)
    requires
        bytes@.len() >= 1,
    ensures
        ({
            let code_size = bytes@[0] / 4;
            &&& (r is Ok <==> 1 + code_size <= bytes@.len())
            &&& r matches Err(e) ==> e is InvalidHeader
            &&& r matches Ok(p) ==> {
                &&& p.header.flags == COR_ILMETHOD_FAT_FORMAT | COR_ILMETHOD_INIT_LOCALS
                &&& p.header.size == FAT_HEADER_DWORDS
                &&& p.header.max_stack == 8
                &&& p.header.code_size == code_size
                &&& p.header.local_var_sig_tok == 0
                &&& p.code@ == bytes@.subrange(1, 1 + code_size as int)
                &&& p.extra_sections is None
            }
        }),
{
    let code_size = (bytes[0] / 4) as u32;
    assert(code_size <= 63);
    let code_end: usize = 1 + code_size as usize;

    if bytes.len() < code_end {
        return Err(IlError::InvalidHeader(String::from_str("tiny method code truncated")));
    }

    let mut code: Vec<u8> = Vec::new();
    let mut i: usize = 1;
    while i < code_end
        invariant
            1 <= i <= code_end,
            code_end == 1 + code_size,
            code_end <= bytes@.len(),
            code@ == bytes@.subrange(1, i as int),
        decreases code_end - i,
    {
        code.push(bytes[i]);
        i = i + 1;
        assert(code@ =~= bytes@.subrange(1, i as int));
    }

    let header = tiny_to_fat(code_size);
    Ok(ParsedMethod { header, code, extra_sections: None })
}

/// Parse a fat-format method.
fn parse_fat_method(bytes: &[u8]) -> (r: Result<ParsedMethod, IlError>)
    requires
        bytes@.len() >= 2,
    ensures
        ({
            let h = spec_parse_fat_header(bytes@);
            let code_start = h.size * 4;
            let code_end = code_start + h.code_size;
            &&& (r is Ok <==> bytes@.len() >= 12 && code_end <= bytes@.len())
            &&& r matches Err(e) ==> e is InvalidHeader
            &&& r matches Ok(p) ==> {
                &&& p.header == h
                &&& p.code@ == bytes@.subrange(code_start as int, code_end as int)
                &&& if h.flags & COR_ILMETHOD_MORE_SECTS != 0 && align4(code_end as int)
                    < bytes@.len() {
                    p.extra_sections matches Some(extra) && extra@ == bytes@.subrange(
                        align4(code_end as int),
                        bytes@.len() as int,
                    )
                } else {
                    p.extra_sections is None
                }
            }
        }),
{
    let header = match parse_fat_header(bytes) {
        Ok(h) => h,
        Err(e) => {
            return Err(e);
        },
    };

    let code_start = (header.size as usize) * 4;
    let code_size = header.code_size as usize;
    if bytes.len() < code_size || bytes.len() - code_size < code_start {
        return Err(IlError::InvalidHeader(String::from_str("fat method code truncated")));
    }
    let code_end = code_start + code_size;

    let mut code: Vec<u8> = Vec::new();
    let mut i: usize = code_start;
    while i < code_end
        invariant
            code_start <= i <= code_end,
            code_end <= bytes@.len(),
            code@ == bytes@.subrange(code_start as int, i as int),
        decreases code_end - i,
    {
        code.push(bytes[i]);
        i = i + 1;
        assert(code@ =~= bytes@.subrange(code_start as int, i as int));
    }

    let extra_sections: Option<Vec<u8>> = if header.flags & COR_ILMETHOD_MORE_SECTS != 0 {
        let pad = (4 - code_end % 4) % 4;
        if pad < bytes.len() - code_end {
            let extra_start = code_end + pad;
            assert(extra_start == align4(code_end as int));
            let mut extra: Vec<u8> = Vec::new();
            let mut j: usize = extra_start;
            while j < bytes.len()
                invariant
                    extra_start <= j <= bytes@.len(),
                    extra@ == bytes@.subrange(extra_start as int, j as int),
                decreases bytes@.len() - j,
            {
                extra.push(bytes[j]);
                j = j + 1;
                assert(extra@ =~= bytes@.subrange(extra_start as int, j as int));
            }
            Some(extra)
        } else {
            assert(align4(code_end as int) >= bytes@.len());
            None
        }
    } else {
        None
    };

    Ok(ParsedMethod { header, code, extra_sections })
}

/// Build a complete method image: fat header, code, then—when extra
/// sections are present—zero padding to the next 4-byte boundary followed
/// by the extra-section bytes.
pub fn build_method_bytes(header: &FatHeader, code: &[u8], extra_section: Option<&[u8]>) -> (r:
    Vec<u8>)
    requires
        12 + code@.len() + 4 <= usize::MAX,
    ensures
        extra_section is None ==> r@ == fat_header_bytes(*header) + code@,
        extra_section matches Some(extra) ==> r@ == fat_header_bytes(*header) + code@ + Seq::new(
            (align4(12 + code@.len() as int) - (12 + code@.len() as int)) as nat,
            |i: int| 0u8,
        ) + extra@,
{
    let mut result = write_fat_header(header);

    let mut i: usize = 0;
    while i < code.len()
        invariant
            0 <= i <= code@.len(),
            result@ == fat_header_bytes(*header) + code@.subrange(0, i as int),
        decreases code@.len() - i,
    {
        result.push(code[i]);
        i = i + 1;
        assert(result@ =~= fat_header_bytes(*header) + code@.subrange(0, i as int));
    }
    assert(code@.subrange(0, code@.len() as int) =~= code@);

    match extra_section {
        Some(extra) => {
            let body_len = 12 + code.len();
            let pad = (4 - body_len % 4) % 4;
            assert(body_len + pad == align4(body_len as int));
            let mut p: usize = 0;
            while p < pad
                invariant
                    0 <= p <= pad,
                    pad < 4,
                    result@ == fat_header_bytes(*header) + code@ + Seq::new(
                        p as nat,
                        |i: int| 0u8,
                    ),
                decreases pad - p,
            {
                result.push(0x00);
                p = p + 1;
                assert(result@ =~= fat_header_bytes(*header) + code@ + Seq::new(
                    p as nat,
                    |i: int| 0u8,
                ));
            }

            let mut j: usize = 0;
            while j < extra.len()
                invariant
                    0 <= j <= extra@.len(),
                    result@ == fat_header_bytes(*header) + code@ + Seq::new(
                        pad as nat,
                        |i: int| 0u8,
                    ) + extra@.subrange(0, j as int),
                decreases extra@.len() - j,
            {
                result.push(extra[j]);
                j = j + 1;
                assert(result@ =~= fat_header_bytes(*header) + code@ + Seq::new(
                    pad as nat,
                    |i: int| 0u8,
                ) + extra@.subrange(0, j as int));
            }
            assert(extra@.subrange(0, extra@.len() as int) =~= extra@);
            assert(pad == align4(12 + code@.len() as int) - (12 + code@.len() as int));
        },
        None => {},
    }

    result
}

} // verus!
