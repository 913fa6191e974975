//! UTF-16 wide-string conversion.
//!
//! The metadata interfaces exchange names as null-terminated UTF-16 buffers;
//! these routines convert between them and Rust strings.  Decoding follows
//! the usual lossy rule: a well-formed surrogate pair becomes one character,
//! a lone surrogate becomes U+FFFD.

use vstd::prelude::*;

verus! {

broadcast use vstd::utf8::char_u32_cast, vstd::utf8::char_is_scalar;

/// The UTF-16 code units of one character: itself for the basic plane, a
/// surrogate pair above it.
pub open spec fn utf16_units(c: char) -> Seq<u16> {
    if (c as u32) < 0x1_0000 {
        seq![(c as u32) as u16]
    } else {
        let v = c as u32 - 0x1_0000;
        seq![(0xD800 + v / 0x400) as u16, (0xDC00 + v % 0x400) as u16]
    }
}

/// The UTF-16 encoding of a character sequence.
pub open spec fn utf16_of(s: Seq<char>) -> Seq<u16>
    decreases s.len(),
{
    if s.len() == 0 {
        Seq::empty()
    } else {
        utf16_units(s[0]) + utf16_of(s.skip(1))
    }
}

/// The characters a UTF-16 unit sequence decodes to: a high surrogate
/// followed by a low surrogate forms one supplementary character, a lone
/// surrogate becomes U+FFFD, anything else is its own character.
pub open spec fn utf16_decode(s: Seq<u16>) -> Seq<char>
    decreases s.len(),
{
    if s.len() == 0 {
        Seq::empty()
    } else if 0xD800 <= s[0] < 0xDC00 {
        if s.len() >= 2 && 0xDC00 <= s[1] < 0xE000 {
            seq![((0x1_0000 + (s[0] - 0xD800) * 0x400 + (s[1] - 0xDC00)) as u32) as char]
                + utf16_decode(s.skip(2))
        } else {
            seq!['\u{FFFD}'] + utf16_decode(s.skip(1))
        }
    } else if 0xDC00 <= s[0] < 0xE000 {
        seq!['\u{FFFD}'] + utf16_decode(s.skip(1))
    } else {
        seq![(s[0] as u32) as char] + utf16_decode(s.skip(1))
    }
}

/// Relies on `char::from_u32`: `Some` exactly for the Unicode scalar
/// values (below the surrogate range or between it and `0x110000`), and
/// the returned character carries exactly the given value.
#[verifier::external_body]
pub(crate) fn char_from_u32(v: u32) -> (r: Option<char>)
    ensures
        r is Some <==> (v < 0xD800 || (0xE000 <= v < 0x11_0000)),
        r matches Some(c) ==> c as u32 == v,
{
    char::from_u32(v)
}

/// Relies on `String::push`: appends exactly the given character.
#[verifier::external_body]
fn push_char(s: &mut String, c: char)
    ensures
        final(s)@ == old(s)@.push(c),
{
    s.push(c)
}

/// Convert a string to a null-terminated UTF-16 (wide) buffer.
pub fn to_wide_string(s: &str) -> (r: Vec<u16>)
    ensures
        r@ == utf16_of(s@) + seq![0u16],
{
    let chars = chars_of(s);
    let mut out: Vec<u16> = Vec::new();
    let mut i: usize = 0;
    while i < chars.len()
        invariant
            0 <= i <= chars@.len(),
            chars@ == s@,
            out@ == utf16_of(s@.subrange(0, i as int)),
        decreases chars@.len() - i,
    {
        let c = chars[i];
        let v = c as u32;
        if v < 0x1_0000 {
            out.push(v as u16);
        } else {
            let w = v - 0x1_0000;
            out.push((0xD800 + w / 0x400) as u16);
            out.push((0xDC00 + w % 0x400) as u16);
        }
        i = i + 1;
        proof {
            let prefix = s@.subrange(0, i as int);
            lemma_utf16_of_push(s@.subrange(0, i - 1), s@[i - 1]);
            assert(prefix =~= s@.subrange(0, i - 1).push(s@[i - 1]));
            assert(out@ =~= utf16_of(prefix));
        }
    }
    assert(s@.subrange(0, s@.len() as int) =~= s@);
    out.push(0);
    assert(out@ =~= utf16_of(s@) + seq![0u16]);
    out
}

/// Encoding distributes over appending one character.
proof fn lemma_utf16_of_push(s: Seq<char>, c: char)
    ensures
        utf16_of(s.push(c)) == utf16_of(s) + utf16_units(c),
    decreases s.len(),
{
    assert(utf16_of(Seq::<char>::empty()) == Seq::<u16>::empty());
    if s.len() == 0 {
        assert(s.push(c)[0] == c);
        assert(s.push(c).skip(1) =~= Seq::<char>::empty());
        assert(utf16_of(s.push(c)) == utf16_units(c) + utf16_of(s.push(c).skip(1)));
        assert(utf16_of(s.push(c)) =~= utf16_of(s) + utf16_units(c));
    } else {
        assert(s.push(c)[0] == s[0]);
        assert(utf16_of(s.push(c)) == utf16_units(s[0]) + utf16_of(s.push(c).skip(1)));
        assert(s.push(c).skip(1) =~= s.skip(1).push(c));
        lemma_utf16_of_push(s.skip(1), c);
        assert(utf16_of(s) == utf16_units(s[0]) + utf16_of(s.skip(1)));
        assert(utf16_of(s.push(c)) =~= utf16_of(s) + utf16_units(c));
    }
}

/// The characters of a string, in order.
pub fn chars_of(s: &str) -> (r: Vec<char>)
    ensures
        r@ == s@,
{
    let n = s.unicode_len();
    let mut out: Vec<char> = Vec::new();
    let mut i: usize = 0;
    while i < n
        invariant
            0 <= i <= n,
            n == s@.len(),
            out@ == s@.subrange(0, i as int),
        decreases n - i,
    {
        out.push(s.get_char(i));
        i = i + 1;
        assert(out@ =~= s@.subrange(0, i as int));
    }
    assert(out@ =~= s@);
    out
}

/// Decode a UTF-16 buffer up to (not including) its end.
fn decode_units(buf: &[u16], len: usize) -> (r: String)
    requires
        len <= buf@.len(),
    ensures
        r@ == utf16_decode(buf@.subrange(0, len as int)),
{
    let mut out = String::new();
    let mut i: usize = 0;
    while i < len
        invariant
            0 <= i <= len,
            len <= buf@.len(),
            out@ + utf16_decode(buf@.subrange(i as int, len as int)) == utf16_decode(
                buf@.subrange(0, len as int),
            ),
        decreases len - i,
    {
        let ghost pending = buf@.subrange(i as int, len as int);
        let u = buf[i];
        if 0xD800 <= u && u < 0xDC00 {
            if i + 1 < len && 0xDC00 <= buf[i + 1] && buf[i + 1] < 0xE000 {
                let v: u32 = 0x1_0000 + (u as u32 - 0xD800) * 0x400 + (buf[i + 1] as u32 - 0xDC00);
                let c = match char_from_u32(v) {
                    Some(c) => c,
                    None => {
                        assert(false);
                        '\u{FFFD}'
                    },
                };
                push_char(&mut out, c);
                i = i + 2;
                proof {
                    assert(pending[0] == u && pending[1] == buf@[i - 1]);
                    assert(pending.skip(2) =~= buf@.subrange(i as int, len as int));
                    assert(v == (0x1_0000 + (pending[0] - 0xD800) * 0x400 + (pending[1] - 0xDC00))
                        as u32);
                    vstd::utf8::char_u32_cast(c, v);
                    assert(((0x1_0000 + (pending[0] - 0xD800) * 0x400 + (pending[1] - 0xDC00))
                        as u32) as char == c);
                    assert(utf16_decode(pending) =~= seq![c] + utf16_decode(pending.skip(2)));
                    assert(out@ + utf16_decode(buf@.subrange(i as int, len as int))
                        =~= utf16_decode(buf@.subrange(0, len as int)));
                }
            } else {
                push_char(&mut out, '\u{FFFD}');
                i = i + 1;
                proof {
                    assert(pending[0] == u);
                    if pending.len() >= 2 {
                        assert(pending[1] == buf@[i as int]);
                    }
                    assert(pending.skip(1) =~= buf@.subrange(i as int, len as int));
                    assert(out@ + utf16_decode(buf@.subrange(i as int, len as int))
                        =~= utf16_decode(buf@.subrange(0, len as int)));
                }
            }
        } else if 0xDC00 <= u && u < 0xE000 {
            push_char(&mut out, '\u{FFFD}');
            i = i + 1;
            proof {
                assert(pending[0] == u);
                assert(pending.skip(1) =~= buf@.subrange(i as int, len as int));
                assert(out@ + utf16_decode(buf@.subrange(i as int, len as int)) =~= utf16_decode(
                    buf@.subrange(0, len as int),
                ));
            }
        } else {
            let c = match char_from_u32(u as u32) {
                Some(c) => c,
                None => {
                    assert(false);
                    '\u{FFFD}'
                },
            };
            push_char(&mut out, c);
            i = i + 1;
            proof {
                assert(pending[0] == u);
                assert(pending.skip(1) =~= buf@.subrange(i as int, len as int));
                vstd::utf8::char_u32_cast(c, u as u32);
                assert((pending[0] as u32) as char == c);
                assert(utf16_decode(pending) =~= seq![c] + utf16_decode(pending.skip(1)));
                assert(out@ + utf16_decode(buf@.subrange(i as int, len as int)) =~= utf16_decode(
                    buf@.subrange(0, len as int),
                ));
            }
        }
    }
    proof {
        assert(buf@.subrange(len as int, len as int) =~= Seq::<u16>::empty());
    }
    out
}

/// How many units come before the first null (the whole sequence when no
/// unit is null).
pub open spec fn null_len(s: Seq<u16>) -> int
    decreases s.len(),
{
    if s.len() == 0 {
        0
    } else if s[0] == 0 {
        0
    } else {
        1 + null_len(s.skip(1))
    }
}

/// A prefix of nonzero units followed by a null (or the sequence's end)
/// pins [`null_len`] down.
proof fn lemma_null_len(s: Seq<u16>, len: int)
    requires
        0 <= len <= s.len(),
        forall|m: int| 0 <= m < len ==> s[m] != 0,
        len == s.len() || s[len] == 0,
    ensures
        null_len(s) == len,
    decreases s.len(),
{
    if s.len() == 0 {
    } else if len == 0 {
    } else {
        assert(s[0] != 0);
        assert(forall|m: int| 0 <= m < len - 1 ==> s.skip(1)[m] == s[m + 1]);
        if len < s.len() {
            assert(s.skip(1)[len - 1] == s[len as int]);
        }
        lemma_null_len(s.skip(1), len - 1);
    }
}

/// Convert a null-terminated UTF-16 buffer to a string: everything before
/// the first null unit (the whole buffer when there is none), decoded.
pub fn wchar_to_string(buf: &[u16]) -> (r: String)
    ensures
        r@ == utf16_decode(buf@.subrange(0, null_len(buf@))),
{
    let mut len: usize = 0;
    while len < buf.len()
        invariant
            0 <= len <= buf@.len(),
            forall|m: int| 0 <= m < len ==> buf@[m] != 0,
        decreases buf@.len() - len,
    {
        if buf[len] == 0 {
            proof {
                lemma_null_len(buf@, len as int);
            }
            return decode_units(buf, len);
        }
        len = len + 1;
    }
    proof {
        lemma_null_len(buf@, len as int);
    }
    decode_units(buf, len)
}

/// Convert a UTF-16 buffer with an explicit unit count to a string,
/// dropping one trailing null unit when present.
pub fn wchar_to_string_len(buf: &[u16], len: u32) -> (r: String)
    requires
        len <= buf@.len(),
    ensures
        ({
            let n = if len > 0 && buf@[len - 1] == 0 {
                len - 1
            } else {
                len as int
            };
            r@ == utf16_decode(buf@.subrange(0, n))
        }),
{
    if len == 0 {
        proof {
            assert(buf@.subrange(0, 0) =~= Seq::<u16>::empty());
        }
        return String::new();
    }
    let n = len as usize;
    if buf[n - 1] == 0 {
        decode_units(buf, n - 1)
    } else {
        decode_units(buf, n)
    }
}

} // verus!
