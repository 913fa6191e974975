//! Local-variable signature construction (ECMA-335 II.23.2.6).
//!
//! A LOCAL_SIG blob is the header byte `0x07`, a compressed local count,
//! then one type encoding per local.  Instrumentation appends new locals to
//! a method's existing signature, re-encoding the count in place—its
//! compressed width can grow when the count crosses `0x80` or `0x4000`.

use vstd::prelude::*;

use crate::codec::{compress_data, compress_token, decode_uint, encode_uint,
    lemma_uint_codec_round_trip_prefix, table_tag, token_compressed_value, token_table,
    uncompress_data};
use crate::IlError;

verus! {

/// LOCAL_SIG header byte per ECMA-335 II.23.2.6.
pub const LOCAL_SIG_HEADER: u8 = 0x07;

/// ELEMENT_TYPE_CLASS: reference to a class type.
pub const ELEMENT_TYPE_CLASS: u8 = 0x12;

/// The count a signature blob carries, with the width of its encoding, as
/// read after the header byte.
pub open spec fn sig_count(s: Seq<u8>) -> Option<(u32, int)> {
    decode_uint(s.skip(1))
}

/// The blob after appending one local of the given type encoding: same
/// header, the count re-encoded one higher, the old type stream, then the
/// new type's bytes.
pub open spec fn appended_sig(s: Seq<u8>, type_bytes: Seq<u8>) -> Seq<u8>
    recommends
        sig_count(s) is Some,
        s.len() >= 1,
{
    let (c, k) = sig_count(s).unwrap();
    seq![s[0]] + encode_uint((c + 1) as u32) + s.skip(1 + k) + type_bytes
}

/// Builds and modifies local-variable signature blobs.
#[derive(Debug, Clone)]
pub struct LocalVariableSignature {
    bytes: Vec<u8>,
}

impl View for LocalVariableSignature {
    type V = Seq<u8>;

    closed spec fn view(&self) -> Seq<u8> {
        self.bytes@
    }
}

impl LocalVariableSignature {
    /// Create a new empty local-variable signature, `[0x07, 0x00]`: a
    /// method with zero locals.
    pub fn new() -> (r: Self)
        ensures
            r@ == seq![0x07u8, 0x00u8],
    {
        let mut bytes: Vec<u8> = Vec::new();
        bytes.push(LOCAL_SIG_HEADER);
        bytes.push(0x00);
        assert(bytes@ =~= seq![0x07u8, 0x00u8]);
        Self { bytes }
    }

    /// Create a signature from existing blob bytes.  Succeeds exactly when
    /// the blob is nonempty and starts with the LOCAL_SIG header `0x07`.
    pub fn from_existing(bytes: Vec<u8>) -> (r: Result<Self, IlError>)
        ensures
            r is Ok <==> bytes@.len() >= 1 && bytes@[0] == LOCAL_SIG_HEADER,
            r matches Ok(sig) ==> sig@ == bytes@,
            r matches Err(e) ==> e is InvalidHeader,
    {
        if bytes.len() == 0 {
            return Err(IlError::InvalidHeader(String::from_str("empty local variable signature")));
        }
        if bytes[0] != LOCAL_SIG_HEADER {
            return Err(IlError::InvalidHeader(String::from_str("missing LOCAL_SIG header byte")));
        }
        Ok(Self { bytes })
    }

    /// Get the raw signature bytes.
    pub fn get_bytes(&self) -> (r: &[u8])
        ensures
            r@ == self@,
    {
        self.bytes.as_slice()
    }

    /// Consume the signature and return the raw bytes.
    pub fn into_bytes(self) -> (r: Vec<u8>)
        ensures
            r@ == self@,
    {
        self.bytes
    }

    /// Get the current number of local variables.  Succeeds exactly when a
    /// compressed count follows the header byte.
    pub fn count(&self) -> (r: Result<u32, IlError>)
        ensures
            r is Ok <==> self@.len() >= 2 && sig_count(self@) is Some,
            r matches Ok(c) ==> (sig_count(self@) matches Some((v, _)) && v == c),
            r matches Err(e) ==> (e is UnexpectedEnd || e is InvalidHeader),
    {
        if self.bytes.len() < 2 {
            proof {
                if self@.len() == 1 {
                    assert(self@.skip(1) =~= Seq::<u8>::empty());
                }
            }
            return Err(IlError::UnexpectedEnd);
        }
        let rest = vstd::slice::slice_subrange(self.bytes.as_slice(), 1, self.bytes.len());
        assert(rest@ =~= self@.skip(1));
        match uncompress_data(rest) {
            Ok((c, _)) => Ok(c),
            Err(e) => Err(e),
        }
    }

    /// Append a local variable with the given type bytes and return the new
    /// local's zero-based index (the old count).
    ///
    /// Succeeds exactly when the blob carries a readable count below
    /// `0xFFFE`; the count is then re-encoded one higher—growing from one
    /// to two or from two to four bytes when it crosses `0x80` or
    /// `0x4000`—and the type bytes go on the end.  On failure the
    /// signature is unchanged.
    pub fn append_type(&mut self, type_bytes: &[u8]) -> (r: Result<u16, IlError>)
        ensures
            r is Ok <==> (old(self)@.len() >= 2 && (sig_count(old(self)@) matches Some((c, _))
                && c < 0xFFFE)),
            r matches Ok(idx) ==> {
                &&& sig_count(old(self)@) matches Some((c, _)) && idx == c
                &&& final(self)@ == appended_sig(old(self)@, type_bytes@)
            },
            r is Err ==> final(self)@ == old(self)@,
            r matches Err(e) ==> (e is UnexpectedEnd || e is InvalidHeader
                || e is GenerationError),
            (old(self)@.len() >= 2 && (sig_count(old(self)@) matches Some((c, _)) && c >= 0xFFFE))
                ==> (r matches Err(e) && e is GenerationError),
    {
        if self.bytes.len() < 2 {
            proof {
                if self@.len() == 1 {
                    assert(self@.skip(1) =~= Seq::<u8>::empty());
                }
            }
            return Err(IlError::UnexpectedEnd);
        }
        let rest = vstd::slice::slice_subrange(self.bytes.as_slice(), 1, self.bytes.len());
        assert(rest@ =~= self@.skip(1));
        let (old_count, count_width) = match uncompress_data(rest) {
            Ok(p) => p,
            Err(e) => {
                return Err(e);
            },
        };

        if old_count >= 0xFFFE {
            return Err(IlError::GenerationError(String::from_str("local variable count overflow")));
        }

        let new_count_compressed = match compress_data(old_count + 1) {
            Ok(v) => v,
            Err(_) => {
                // old_count + 1 <= 0xFFFE always fits the compressed range
                assert(false);
                return Err(IlError::UnexpectedEnd);
            },
        };

        let mut new_bytes: Vec<u8> = Vec::new();
        new_bytes.push(self.bytes[0]);
        let mut i: usize = 0;
        while i < new_count_compressed.len()
            invariant
                0 <= i <= new_count_compressed@.len(),
                new_bytes@ == seq![old(self)@[0]] + new_count_compressed@.subrange(0, i as int),
            decreases new_count_compressed@.len() - i,
        {
            new_bytes.push(new_count_compressed[i]);
            i = i + 1;
            assert(new_bytes@ =~= seq![old(self)@[0]] + new_count_compressed@.subrange(
                0,
                i as int,
            ));
        }
        assert(new_count_compressed@.subrange(0, new_count_compressed@.len() as int)
            =~= new_count_compressed@);

        let tail_start = 1 + count_width;
        let mut j: usize = tail_start;
        while j < self.bytes.len()
            invariant
                tail_start <= j <= old(self)@.len(),
                self@ == old(self)@,
                tail_start == 1 + count_width,
                new_bytes@ == seq![old(self)@[0]] + new_count_compressed@ + old(self)@.subrange(
                    tail_start as int,
                    j as int,
                ),
            decreases old(self)@.len() - j,
        {
            new_bytes.push(self.bytes[j]);
            j = j + 1;
            assert(new_bytes@ =~= seq![old(self)@[0]] + new_count_compressed@
                + old(self)@.subrange(tail_start as int, j as int));
        }

        let mut k: usize = 0;
        while k < type_bytes.len()
            invariant
                0 <= k <= type_bytes@.len(),
                self@ == old(self)@,
                tail_start == 1 + count_width,
                tail_start <= old(self)@.len(),
                new_bytes@ == seq![old(self)@[0]] + new_count_compressed@ + old(self)@.subrange(
                    tail_start as int,
                    old(self)@.len() as int,
                ) + type_bytes@.subrange(0, k as int),
            decreases type_bytes@.len() - k,
        {
            new_bytes.push(type_bytes[k]);
            k = k + 1;
            assert(new_bytes@ =~= seq![old(self)@[0]] + new_count_compressed@
                + old(self)@.subrange(tail_start as int, old(self)@.len() as int)
                + type_bytes@.subrange(0, k as int));
        }

        proof {
            assert(type_bytes@.subrange(0, type_bytes@.len() as int) =~= type_bytes@);
            assert(old(self)@.subrange(tail_start as int, old(self)@.len() as int)
                =~= old(self)@.skip(tail_start as int));
            assert(new_bytes@ =~= appended_sig(old(self)@, type_bytes@));
        }

        self.bytes = new_bytes;
        Ok(old_count as u16)
    }

    /// Append a local of type `class <token>`: `ELEMENT_TYPE_CLASS`
    /// followed by the compressed token.  Fails on a token whose table the
    /// compressed encoding cannot carry, leaving the signature unchanged.
    pub fn append_class_type(&mut self, class_token: u32) -> (r: Result<u16, IlError>)
        ensures
            r is Ok <==> (table_tag(token_table(class_token)) is Some && old(self)@.len() >= 2 && (
            sig_count(old(self)@) matches Some((c, _)) && c < 0xFFFE)),
            r matches Ok(idx) ==> {
                &&& sig_count(old(self)@) matches Some((c, _)) && idx == c
                &&& final(self)@ == appended_sig(
                    old(self)@,
                    seq![ELEMENT_TYPE_CLASS] + encode_uint(token_compressed_value(class_token)),
                )
            },
            r is Err ==> final(self)@ == old(self)@,
    {
        let compressed = match compress_token(class_token) {
            Ok(v) => v,
            Err(e) => {
                return Err(e);
            },
        };
        let mut type_bytes: Vec<u8> = Vec::new();
        type_bytes.push(ELEMENT_TYPE_CLASS);
        let mut i: usize = 0;
        while i < compressed.len()
            invariant
                0 <= i <= compressed@.len(),
                type_bytes@ == seq![ELEMENT_TYPE_CLASS] + compressed@.subrange(0, i as int),
            decreases compressed@.len() - i,
        {
            type_bytes.push(compressed[i]);
            i = i + 1;
            assert(type_bytes@ =~= seq![ELEMENT_TYPE_CLASS] + compressed@.subrange(0, i as int));
        }
        assert(type_bytes@ =~= seq![ELEMENT_TYPE_CLASS] + encode_uint(
            token_compressed_value(class_token),
        ));
        self.append_type(type_bytes.as_slice())
    }
}

/// Appending a local re-encodes the count correctly: the new blob's count
/// reads back as one more than the old, whatever width the new encoding
/// takes (in particular across the one-to-two-byte boundary at `0x80` and
/// the two-to-four-byte boundary at `0x4000`).
pub proof fn lemma_append_recount(s: Seq<u8>, type_bytes: Seq<u8>)
    requires
        s.len() >= 1,
        sig_count(s) matches Some((c, _)) && c < 0xFFFE,
    ensures
        ({
            let old_c = sig_count(s).unwrap().0;
            sig_count(appended_sig(s, type_bytes)) matches Some((c2, w)) && c2 == old_c + 1 && w
                == encode_uint((old_c + 1) as u32).len()
        }),
{
    let (c, k) = sig_count(s).unwrap();
    let appended = appended_sig(s, type_bytes);
    lemma_uint_codec_round_trip_prefix((c + 1) as u32, s.skip(1 + k) + type_bytes);
    assert(appended.skip(1) =~= encode_uint((c + 1) as u32) + (s.skip(1 + k) + type_bytes));
}

/// Appending a local preserves the original locals: the new blob is the
/// same header byte, the count re-encoded one higher, the original type
/// stream unchanged, then the new type's bytes.
pub proof fn lemma_append_preserves_type_stream(s: Seq<u8>, type_bytes: Seq<u8>)
    requires
        s.len() >= 1,
        sig_count(s) matches Some((c, _)) && c < 0xFFFE,
    ensures
        ({
            let (c, k) = sig_count(s).unwrap();
            let a = appended_sig(s, type_bytes);
            &&& a[0] == s[0]
            &&& a.subrange(1, 1 + encode_uint((c + 1) as u32).len() as int) == encode_uint(
                (c + 1) as u32,
            )
            &&& a.subrange(1 + encode_uint((c + 1) as u32).len() as int, a.len() as int)
                == s.skip(1 + k) + type_bytes
        }),
{
    let (c, k) = sig_count(s).unwrap();
    let enc = encode_uint((c + 1) as u32);
    let a = appended_sig(s, type_bytes);
    assert(a.subrange(1, 1 + enc.len() as int) =~= enc);
    assert(a.subrange(1 + enc.len() as int, a.len() as int) =~= s.skip(1 + k) + type_bytes);
}

} // verus!
