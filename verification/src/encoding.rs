//! Hexadecimal and base64 texts.

use base64::Engine;
use vstd::prelude::*;

verus! {

pub open spec fn hex_char(digit: int) -> char {
    if digit < 10 {
        ('0' as int + digit) as char
    } else {
        ('a' as int + digit - 10) as char
    }
}

/// Two lower-case digits a byte.
pub open spec fn hex_text(bytes: Seq<u8>) -> Seq<char> {
    Seq::new(
        2 * bytes.len(),
        |i: int|
            hex_char(
                if i % 2 == 0 {
                    bytes[i / 2] as int / 16
                } else {
                    bytes[i / 2] as int % 16
                },
            ),
    )
}

/// The value of a digit in lower or upper case.
pub open spec fn hex_digit(c: char) -> Option<int> {
    if '0' <= c <= '9' {
        Some(c as int - '0' as int)
    } else if 'a' <= c <= 'f' {
        Some(c as int - 'a' as int + 10)
    } else if 'A' <= c <= 'F' {
        Some(c as int - 'A' as int + 10)
    } else {
        None
    }
}

/// The bytes of a text of pairs of digits.
pub open spec fn hex_bytes(text: Seq<char>) -> Option<Seq<u8>> {
    if text.len() % 2 == 0 && forall|i: int| 0 <= i < text.len() ==> hex_digit(#[trigger] text[i]) is Some {
        Some(
            Seq::new(
                text.len() / 2,
                |i: int| (hex_digit(text[2 * i])->0 * 16 + hex_digit(text[2 * i + 1])->0) as u8,
            ),
        )
    } else {
        None
    }
}

/// Calls `hex::encode`.
#[verifier::external_body]
pub(crate) fn hex_encode(bytes: &[u8]) -> (text: String)
    ensures
        text@ == hex_text(bytes@),
{
    hex::encode(bytes)
}

/// Calls `hex::decode`.
#[verifier::external_body]
pub(crate) fn hex_decode(text: &str) -> (bytes: Option<Vec<u8>>)
    ensures
        match hex_bytes(text@) {
            Some(expected) => bytes is Some && bytes->0@ == expected,
            None => bytes is None,
        },
{
    hex::decode(text).ok()
}

/// What is written in hexadecimal is read back.
pub proof fn hex_roundtrip(bytes: Seq<u8>)
    ensures
        hex_bytes(hex_text(bytes)) == Some(bytes),
{
    let text = hex_text(bytes);
    assert forall|i: int| 0 <= i < text.len() implies hex_digit(#[trigger] text[i]) is Some by {}
    assert(hex_bytes(text)->0 =~= bytes);
}

pub open spec fn byte_at(bytes: Seq<u8>, i: int) -> int {
    if i < bytes.len() {
        bytes[i] as int
    } else {
        0
    }
}

/// The six bits at place `i`, with zeros after the end.
pub open spec fn sextet(bytes: Seq<u8>, i: int) -> int {
    let at = i / 4 * 3;
    if i % 4 == 0 {
        byte_at(bytes, at) / 4
    } else if i % 4 == 1 {
        byte_at(bytes, at) % 4 * 16 + byte_at(bytes, at + 1) / 16
    } else if i % 4 == 2 {
        byte_at(bytes, at + 1) % 16 * 4 + byte_at(bytes, at + 2) / 64
    } else {
        byte_at(bytes, at + 2) % 64
    }
}

/// The URL-safe alphabet.
pub open spec fn base64_char(sextet: int) -> char {
    if sextet < 26 {
        ('A' as int + sextet) as char
    } else if sextet < 52 {
        ('a' as int + sextet - 26) as char
    } else if sextet < 62 {
        ('0' as int + sextet - 52) as char
    } else if sextet == 62 {
        '-'
    } else {
        '_'
    }
}

/// The base64 text of the bytes, without padding.
pub open spec fn base64_text(bytes: Seq<u8>) -> Seq<char> {
    Seq::new((4 * bytes.len() + 2) / 3, |i: int| base64_char(sextet(bytes, i)))
}

/// As many `=` as fill up a length to a multiple of four.
pub open spec fn base64_fill(len: nat) -> Seq<char> {
    Seq::new(((4 - len % 4) % 4) as nat, |i: int| '=')
}

/// The base64 text of the bytes, with padding.
pub open spec fn base64_padded(bytes: Seq<u8>) -> Seq<char> {
    base64_text(bytes) + base64_fill(base64_text(bytes).len())
}

/// Calls `encode` of the engine `URL_SAFE_NO_PAD` of `base64`.
#[verifier::external_body]
pub(crate) fn base64_encode(bytes: &[u8]) -> (text: String)
    ensures
        text@ == base64_text(bytes@),
{
    base64::engine::general_purpose::URL_SAFE_NO_PAD.encode(bytes)
}

/// Calls `decode` of the engine `URL_SAFE` of `base64`, which takes exactly the
/// padded texts, with no stray bits at the end. The error is told in words of
/// that crate.
#[verifier::external_body]
pub(crate) fn base64_decode(text: &str) -> (bytes: Result<Vec<u8>, String>)
    ensures
        bytes matches Ok(found) ==> base64_padded(found@) == text@,
        forall|expected: Seq<u8>|
            #[trigger] base64_padded(expected) == text@ ==> bytes is Ok && bytes->Ok_0@ == expected,
{
    base64::engine::general_purpose::URL_SAFE.decode(text).map_err(|error| error.to_string())
}

} // verus!
