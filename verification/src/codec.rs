//! Compressed unsigned integers and `TypeDefOrRefOrSpecEncoded` metadata
//! tokens (ECMA-335 II.23.2).
//!
//! An unsigned value up to `0x1FFF_FFFF` is stored in 1, 2 or 4 bytes; the
//! top bits of the first byte select the width.  A metadata token rotates its
//! table tag into the low two bits of the compressed value.

use vstd::prelude::*;

use crate::IlError;

verus! {

/// Largest value the compressed encoding can hold.
pub const MAX_COMPRESSED_VALUE: u32 = 0x1FFF_FFFF;

/// The compressed encoding of `v` (meaningful for `v <= 0x1FFF_FFFF`):
/// one byte below `0x80`, two bytes with lead bits `10` below `0x4000`,
/// else four bytes with lead bits `110`.
pub open spec fn encode_uint(v: u32) -> Seq<u8> {
    if v <= 0x7F {
        seq![v as u8]
    } else if v <= 0x3FFF {
        seq![(v / 0x100 + 0x80) as u8, (v % 0x100) as u8]
    } else {
        seq![
            (v / 0x100_0000 + 0xC0) as u8,
            ((v / 0x1_0000) % 0x100) as u8,
            ((v / 0x100) % 0x100) as u8,
            (v % 0x100) as u8,
        ]
    }
}

/// Decoding of a compressed unsigned integer from the front of `s`:
/// `Some((value, bytes_consumed))`, or `None` when `s` is too short or the
/// first byte has the reserved lead bits `111`.
pub open spec fn decode_uint(s: Seq<u8>) -> Option<(u32, int)> {
    if s.len() == 0 {
        None
    } else if s[0] < 0x80 {
        Some((s[0] as u32, 1int))
    } else if s[0] < 0xC0 {
        if s.len() < 2 {
            None
        } else {
            Some((((s[0] - 0x80) * 0x100 + s[1]) as u32, 2int))
        }
    } else if s[0] < 0xE0 {
        if s.len() < 4 {
            None
        } else {
            Some((((s[0] - 0xC0) * 0x100_0000 + s[1] * 0x1_0000 + s[2] * 0x100 + s[3]) as u32, 4int))
        }
    } else {
        None
    }
}

/// Table byte of a metadata token.
pub open spec fn token_table(t: u32) -> u32 {
    t / 0x100_0000
}

/// Row index of a metadata token (low three bytes).
pub open spec fn token_row(t: u32) -> u32 {
    t % 0x100_0000
}

/// The two-bit tag that `TypeDefOrRefOrSpecEncoded` assigns to a table, or
/// `None` for a table outside the encodable set.
pub open spec fn table_tag(table: u32) -> Option<u32> {
    if table == 0x02 {
        Some(0u32)
    } else if table == 0x01 {
        Some(1u32)
    } else if table == 0x1B {
        Some(2u32)
    } else if table == 0x00 {
        Some(3u32)
    } else {
        None
    }
}

/// Inverse of [`table_tag`]: the table byte a two-bit tag stands for.
pub open spec fn tag_table(tag: u32) -> u32 {
    if tag == 0 {
        0x02u32
    } else if tag == 1 {
        0x01u32
    } else if tag == 2 {
        0x1Bu32
    } else {
        0x00u32
    }
}

/// The compressed value a token is encoded through: row shifted left two
/// bits with the table tag in the low bits.
pub open spec fn token_compressed_value(t: u32) -> u32
    recommends
        table_tag(token_table(t)) is Some,
{
    (token_row(t) * 4 + table_tag(token_table(t)).unwrap()) as u32
}

/// Compress an unsigned integer per ECMA-335 II.23.2.
///
/// Returns the 1-, 2- or 4-byte encoding, or `CompressionOverflow` exactly
/// when the value exceeds `0x1FFF_FFFF`.
pub fn compress_data(value: u32) -> (r: Result<Vec<u8>, IlError>)
    ensures
        value <= MAX_COMPRESSED_VALUE <==> r is Ok,
        r matches Ok(bytes) ==> bytes@ == encode_uint(value),
        r matches Err(e) ==> e matches IlError::CompressionOverflow(v) && v == value,
{
    if value <= 0x7F {
        let mut bytes: Vec<u8> = Vec::new();
        bytes.push(value as u8);
        assert(bytes@ =~= encode_uint(value));
        Ok(bytes)
    } else if value <= 0x3FFF {
        let mut bytes: Vec<u8> = Vec::new();
        bytes.push((value / 0x100 + 0x80) as u8);
        bytes.push((value % 0x100) as u8);
        assert(bytes@ =~= encode_uint(value));
        Ok(bytes)
    } else if value <= MAX_COMPRESSED_VALUE {
        let mut bytes: Vec<u8> = Vec::new();
        bytes.push((value / 0x100_0000 + 0xC0) as u8);
        bytes.push(((value / 0x1_0000) % 0x100) as u8);
        bytes.push(((value / 0x100) % 0x100) as u8);
        bytes.push((value % 0x100) as u8);
        assert(bytes@ =~= encode_uint(value));
        Ok(bytes)
    } else {
        Err(IlError::CompressionOverflow(value))
    }
}

/// Decompress an unsigned integer per ECMA-335 II.23.2.
///
/// Returns `(value, bytes_consumed)` exactly when [`decode_uint`] is defined
/// on the input; fails with `UnexpectedEnd` on empty or truncated input and
/// with `InvalidHeader` when the lead byte carries the reserved bits `111`.
pub fn uncompress_data(bytes: &[u8]) -> (r: Result<(u32, usize), IlError>)
    ensures
        r is Ok <==> decode_uint(bytes@) is Some,
        r matches Ok((v, n)) ==> decode_uint(bytes@) == Some((v, n as int)),
        bytes@.len() == 0 ==> (r matches Err(e) && e is UnexpectedEnd),
        bytes@.len() > 0 && bytes@[0] >= 0xE0 ==> (r matches Err(e) && e is InvalidHeader),
        bytes@.len() > 0 && bytes@[0] < 0xE0 && r is Err ==> (r matches Err(e)
            && e is UnexpectedEnd),
{
    if bytes.len() == 0 {
        return Err(IlError::UnexpectedEnd);
    }
    let first = bytes[0];
    if first < 0x80 {
        Ok((first as u32, 1))
    } else if first < 0xC0 {
        if bytes.len() < 2 {
            return Err(IlError::UnexpectedEnd);
        }
        let value = ((first - 0x80) as u32) * 0x100 + (bytes[1] as u32);
        Ok((value, 2))
    } else if first < 0xE0 {
        if bytes.len() < 4 {
            return Err(IlError::UnexpectedEnd);
        }
        let value = ((first - 0xC0) as u32) * 0x100_0000 + (bytes[1] as u32) * 0x1_0000
            + (bytes[2] as u32) * 0x100 + (bytes[3] as u32);
        Ok((value, 4))
    } else {
        Err(IlError::InvalidHeader(String::from_str(
            "reserved lead bits in compressed data",
        )))
    }
}

/// The compressed round trip is the identity: decoding what [`encode_uint`]
/// produced yields the value back, consuming the whole encoding.
pub proof fn lemma_uint_codec_round_trip(v: u32)
    requires
        v <= MAX_COMPRESSED_VALUE,
    ensures
        decode_uint(encode_uint(v)) == Some((v, encode_uint(v).len() as int)),
{
    if v <= 0x7F {
    } else if v <= 0x3FFF {
        let b0: u8 = (v / 0x100 + 0x80) as u8;
        let b1: u8 = (v % 0x100) as u8;
        assert(0x80 <= b0 < 0xC0);
        assert((b0 - 0x80) * 0x100 + b1 == v);
    } else {
        let b0: u8 = (v / 0x100_0000 + 0xC0) as u8;
        assert(0xC0 <= b0 < 0xE0);
        assert((b0 - 0xC0) * 0x100_0000 + ((v / 0x1_0000) % 0x100) * 0x1_0000 + ((v / 0x100)
            % 0x100) * 0x100 + (v % 0x100) == v) by {
            let a: u32 = v;
            assert(a / 0x100_0000 * 0x100_0000 + (a / 0x1_0000) % 0x100 * 0x1_0000 + (a / 0x100)
                % 0x100 * 0x100 + a % 0x100 == a) by (bit_vector);
        }
    }
}

/// Decoding works from the front: whatever follows an encoding, decoding
/// still yields the encoded value and the encoding's own width.
pub proof fn lemma_uint_codec_round_trip_prefix(v: u32, rest: Seq<u8>)
    requires
        v <= MAX_COMPRESSED_VALUE,
    ensures
        decode_uint(encode_uint(v) + rest) == Some((v, encode_uint(v).len() as int)),
{
    lemma_uint_codec_round_trip(v);
    let s = encode_uint(v) + rest;
    assert(s[0] == encode_uint(v)[0]);
    if v <= 0x7F {
    } else if v <= 0x3FFF {
        assert(s[1] == encode_uint(v)[1]);
    } else {
        assert(s[1] == encode_uint(v)[1] && s[2] == encode_uint(v)[2] && s[3] == encode_uint(
            v,
        )[3]);
    }
}

/// Compress a metadata token per ECMA-335 `TypeDefOrRefOrSpecEncoded`.
///
/// Succeeds exactly for the TypeDef, TypeRef, TypeSpec and BaseType tables;
/// any other table fails with `TokenResolutionFailed`.
pub fn compress_token(token: u32) -> (r: Result<Vec<u8>, IlError>)
    ensures
        r is Ok <==> table_tag(token_table(token)) is Some,
        r matches Ok(bytes) ==> bytes@ == encode_uint(token_compressed_value(token)),
        r matches Err(e) ==> e is TokenResolutionFailed,
{
    let table = token / 0x100_0000;
    let row = token % 0x100_0000;

    let tag: u32 = if table == 0x02 {
        0
    } else if table == 0x01 {
        1
    } else if table == 0x1B {
        2
    } else if table == 0x00 {
        3
    } else {
        return Err(IlError::TokenResolutionFailed(String::from_str(
            "token table unsupported by the compressed encoding",
        )));
    };

    let compressed_value = row * 4 + tag;
    assert(compressed_value <= MAX_COMPRESSED_VALUE);
    compress_data(compressed_value)
}

/// Decompress a metadata token per ECMA-335 `TypeDefOrRefOrSpecEncoded`.
///
/// Returns `(token, bytes_consumed)` with the table byte restored to the
/// high byte of the token.
pub fn uncompress_token(bytes: &[u8]) -> (r: Result<(u32, usize), IlError>)
    ensures
        r is Ok <==> decode_uint(bytes@) is Some,
        r matches Ok((t, n)) ==> {
            &&& decode_uint(bytes@) matches Some((cv, cn))
            &&& n as int == cn
            &&& t == tag_table((cv % 4) as u32) * 0x100_0000 + cv / 4
        },
        r is Err ==> decode_uint(bytes@) is None,
{
    let (compressed_value, consumed) = match uncompress_data(bytes) {
        Ok(p) => p,
        Err(e) => {
            return Err(e);
        },
    };

    let tag = compressed_value % 4;
    let row = compressed_value / 4;

    let table: u32 = if tag == 0 {
        0x02
    } else if tag == 1 {
        0x01
    } else if tag == 2 {
        0x1B
    } else {
        0x00
    };

    let token = table * 0x100_0000 + row;
    Ok((token, consumed))
}

/// The token round trip is the identity: for a token of a supported table
/// with its row within three bytes, decoding the encoding restores the
/// token and consumes the whole encoding.
pub proof fn lemma_token_codec_round_trip(t: u32)
    requires
        table_tag(token_table(t)) is Some,
    ensures
        ({
            let cv = token_compressed_value(t);
            &&& cv <= MAX_COMPRESSED_VALUE
            &&& decode_uint(encode_uint(cv)) == Some((cv, encode_uint(cv).len() as int))
            &&& tag_table((cv % 4) as u32) * 0x100_0000 + cv / 4 == t
        }),
{
    let cv = token_compressed_value(t);
    assert(token_row(t) <= 0xFF_FFFF);
    lemma_uint_codec_round_trip(cv);
    let tag = table_tag(token_table(t)).unwrap();
    assert(cv % 4 == tag && cv / 4 == token_row(t));
    assert(token_table(t) * 0x100_0000 + token_row(t) == t);
}

} // verus!
