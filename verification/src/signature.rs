//! Method-signature parsing (ECMA-335 II.23.2.1).
//!
//! Reads the few properties of a method's signature blob that IL injection
//! needs: whether the method has a `this` parameter, whether it is generic,
//! its parameter count, and whether its return type is void.  The raw blob
//! is kept verbatim for pass-through to other interfaces.

use vstd::prelude::*;

use crate::codec::{decode_uint, uncompress_data};
use crate::IlError;

verus! {

/// Calling-convention flag: the method has an implicit `this` parameter.
pub const IMAGE_CEE_CS_CALLCONV_HASTHIS: u8 = 0x20;

/// Calling-convention flag: the method has generic type parameters.
pub const IMAGE_CEE_CS_CALLCONV_GENERIC: u8 = 0x10;

/// ELEMENT_TYPE_VOID.
pub const ELEMENT_TYPE_VOID: u8 = 0x01;

/// Parsed method signature with just the fields IL injection needs.
#[derive(Debug, Clone)]
pub struct MethodSignature {
    /// True if the method has an implicit `this` parameter (instance method)
    pub has_this: bool,
    /// True if the method has generic type parameters
    pub is_generic: bool,
    /// Number of generic type parameters (0 if not generic)
    pub generic_param_count: u32,
    /// Number of explicit parameters
    pub param_count: u32,
    /// True if the return type is void
    pub return_type_is_void: bool,
    /// The raw signature bytes (for passing through to other interfaces)
    pub raw_signature: Vec<u8>,
}

/// Width of the generic-parameter-count field: the generic bit selects
/// whether a compressed count follows the calling convention at all.
pub open spec fn spec_generic_count(s: Seq<u8>) -> Option<(u32, int)> {
    if (s[0] / 0x10) % 2 == 1 {
        decode_uint(s.skip(1))
    } else {
        Some((0u32, 0int))
    }
}

/// Parse a method signature blob.
///
/// The first byte is the calling convention: bit `0x20` marks an instance
/// method, bit `0x10` a generic one.  A generic signature carries a
/// compressed generic-parameter count next; a compressed parameter count
/// follows in either case; the return type is void exactly when its first
/// byte is `ELEMENT_TYPE_VOID` (a blob that ends right after the counts
/// counts as void).  Fails on an empty blob, or when a compressed count is
/// truncated or malformed.
pub fn parse_method_signature(sig_bytes: &[u8]) -> (r: Result<MethodSignature, IlError>)
    ensures
        sig_bytes@.len() == 0 ==> (r matches Err(e) && e is InvalidHeader),
        sig_bytes@.len() > 0 ==> {
            &&& (r is Ok <==> (spec_generic_count(sig_bytes@) matches Some((_, k1))
                && decode_uint(sig_bytes@.skip(1 + k1)) is Some))
            &&& (r matches Ok(sig) ==> {
                let (gc, k1) = spec_generic_count(sig_bytes@).unwrap();
                let (pc, k2) = decode_uint(sig_bytes@.skip(1 + k1)).unwrap();
                &&& sig.has_this == ((sig_bytes@[0] / 0x20) % 2 == 1)
                &&& sig.is_generic == ((sig_bytes@[0] / 0x10) % 2 == 1)
                &&& sig.generic_param_count == gc
                &&& sig.param_count == pc
                &&& sig.return_type_is_void == (1 + k1 + k2 < sig_bytes@.len()
                    ==> sig_bytes@[1 + k1 + k2] == ELEMENT_TYPE_VOID)
                &&& sig.raw_signature@ == sig_bytes@
            })
            &&& (r matches Err(e) ==> (e is UnexpectedEnd || e is InvalidHeader))
        },
{
    if sig_bytes.len() == 0 {
        return Err(IlError::InvalidHeader(String::from_str("empty method signature")));
    }

    let calling_convention = sig_bytes[0];
    let has_this = (calling_convention / 0x20) % 2 == 1;
    let is_generic = (calling_convention / 0x10) % 2 == 1;

    let (generic_param_count, k1): (u32, usize) = if is_generic {
        let rest = vstd::slice::slice_subrange(sig_bytes, 1, sig_bytes.len());
        assert(rest@ =~= sig_bytes@.skip(1));
        match uncompress_data(rest) {
            Ok(p) => p,
            Err(e) => {
                return Err(e);
            },
        }
    } else {
        (0, 0)
    };

    let rest = vstd::slice::slice_subrange(sig_bytes, 1 + k1, sig_bytes.len());
    assert(rest@ =~= sig_bytes@.skip(1 + k1 as int));
    let (param_count, k2) = match uncompress_data(rest) {
        Ok(p) => p,
        Err(e) => {
            return Err(e);
        },
    };

    let ret_pos = 1 + k1 + k2;
    let return_type_is_void = if ret_pos < sig_bytes.len() {
        sig_bytes[ret_pos] == ELEMENT_TYPE_VOID
    } else {
        true
    };

    let mut raw_signature: Vec<u8> = Vec::new();
    let mut i: usize = 0;
    while i < sig_bytes.len()
        invariant
            0 <= i <= sig_bytes@.len(),
            raw_signature@ == sig_bytes@.subrange(0, i as int),
        decreases sig_bytes@.len() - i,
    {
        raw_signature.push(sig_bytes[i]);
        i = i + 1;
        assert(raw_signature@ =~= sig_bytes@.subrange(0, i as int));
    }
    assert(raw_signature@ =~= sig_bytes@);

    Ok(
        MethodSignature {
            has_this,
            is_generic,
            generic_param_count,
            param_count,
            return_type_is_void,
            raw_signature,
        },
    )
}

} // verus!
