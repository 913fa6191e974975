//! Tests for UTF-16 conversion, including the method-resolver-style
//! null-terminated buffer reads.

use il_rewriter::strutil::{chars_of, to_wide_string, wchar_to_string};

#[test]
fn wchar_to_string_basic() {
    let buf: Vec<u16> = vec![0x48, 0x65, 0x6C, 0x6C, 0x6F, 0x00];
    assert_eq!(wchar_to_string(&buf), "Hello");
}

#[test]
fn method_resolver_wchar_to_string_empty() {
    let buf: Vec<u16> = vec![0x00];
    assert_eq!(wchar_to_string(&buf), "");
}

#[test]
fn wchar_to_string_no_null() {
    let buf: Vec<u16> = vec![0x41, 0x42, 0x43];
    assert_eq!(wchar_to_string(&buf), "ABC");
}

#[test]
fn wchar_to_string_dotnet_namespace() {
    let s = "System.Console";
    let buf: Vec<u16> = s.encode_utf16().chain(std::iter::once(0)).collect();
    assert_eq!(wchar_to_string(&buf), "System.Console");
}

#[test]
fn wide_round_trip_with_surrogate_pair() {
    // a supplementary-plane character encodes as a surrogate pair
    let s = "a\u{1F600}b";
    let wide = to_wide_string(s);
    assert_eq!(wide.len(), 5); // 'a', two surrogates, 'b', terminator
    assert_eq!(wide[1], 0xD83D);
    assert_eq!(wide[2], 0xDE00);
    assert_eq!(wchar_to_string(&wide), s);
}

#[test]
fn lone_surrogate_decodes_to_replacement() {
    let buf: Vec<u16> = vec![0x41, 0xD800, 0x42, 0x00];
    assert_eq!(wchar_to_string(&buf), "A\u{FFFD}B");
}

#[test]
fn chars_of_lists_characters() {
    assert_eq!(chars_of("ab\u{00E9}"), vec!['a', 'b', '\u{00E9}']);
}
