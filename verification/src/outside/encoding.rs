//! Text encodings of bytes: `base64` and `hex`.
use base64::Engine;
use base64::engine::general_purpose::{STANDARD, URL_SAFE_NO_PAD};
use vstd::prelude::*;

verus! {

/// The padded standard base64 text of `bytes`.
pub uninterp spec fn base64_text(bytes: Seq<u8>) -> Seq<char>;

/// The bytes that a padded standard base64 text encodes.
pub uninterp spec fn base64_bytes(text: Seq<char>) -> Option<Seq<u8>>;

/// The unpadded URL-safe base64 text of `bytes`.
pub uninterp spec fn base64url_text(bytes: Seq<u8>) -> Seq<char>;

/// The bytes that an unpadded URL-safe base64 text encodes.
pub uninterp spec fn base64url_bytes(text: Seq<char>) -> Option<Seq<u8>>;

/// The characters of URL-safe base64.
pub open spec fn is_base64url_char(c: char) -> bool {
    ('A' <= c && c <= 'Z') || ('a' <= c && c <= 'z') || ('0' <= c && c <= '9') || c == '-' || c
        == '_'
}

/// The characters of padded standard base64.
pub open spec fn is_base64_char(c: char) -> bool {
    ('A' <= c && c <= 'Z') || ('a' <= c && c <= 'z') || ('0' <= c && c <= '9') || c == '+' || c
        == '/' || c == '='
}

/// The lower-case hexadecimal digit of a value below sixteen.
pub open spec fn hex_digit(n: int) -> char {
    if n < 10 {
        (('0' as u32) + n) as char
    } else {
        (('a' as u32) + n - 10) as char
    }
}

/// The lower-case hexadecimal text of `bytes`: two digits for each, the high half first.
pub open spec fn hex_text(bytes: Seq<u8>) -> Seq<char> {
    Seq::new(
        2 * bytes.len(),
        |i: int|
            if i % 2 == 0 {
                hex_digit(bytes[i / 2] as int / 16)
            } else {
                hex_digit(bytes[i / 2] as int % 16)
            },
    )
}

/// The value of a hexadecimal digit of either case.
pub open spec fn hex_value(c: char) -> Option<int> {
    if '0' <= c && c <= '9' {
        Some((c as u32) - ('0' as u32))
    } else if 'a' <= c && c <= 'f' {
        Some((c as u32) - ('a' as u32) + 10)
    } else if 'A' <= c && c <= 'F' {
        Some((c as u32) - ('A' as u32) + 10)
    } else {
        None
    }
}

/// The bytes that a hexadecimal text denotes: an even number of digits of either case.
pub open spec fn hex_bytes(text: Seq<char>) -> Option<Seq<u8>> {
    if text.len() % 2 == 0 && (forall|i: int|
        0 <= i < text.len() ==> hex_value(#[trigger] text[i]) is Some) {
        Some(
            Seq::new(
                text.len() / 2,
                |i: int| (hex_value(text[2 * i])->0 * 16 + hex_value(text[2 * i + 1])->0) as u8,
            ),
        )
    } else {
        None
    }
}

/// `base64` with the `STANDARD` engine, `encode`: the text is a function of the bytes, uses the
/// standard alphabet with padding, and decodes to the bytes.
#[verifier::external_body]
pub(crate) fn base64_encode(bytes: &[u8]) -> (text: String)
    ensures
        text@ == base64_text(bytes@),
        base64_bytes(text@) == Some(bytes@),
        forall|i: int| 0 <= i < text@.len() ==> is_base64_char(#[trigger] text@[i]),
        text@.len() == 0 <==> bytes@.len() == 0,
{
    STANDARD.encode(bytes)
}

/// `base64` with the `STANDARD` engine, `decode`: the outcome is a function of the text.
#[verifier::external_body]
pub(crate) fn base64_decode(text: &str) -> (bytes: Option<Vec<u8>>)
    ensures
        match (bytes, base64_bytes(text@)) {
            (Some(b), Some(v)) => b@ == v,
            (None, None) => true,
            _ => false,
        },
{
    STANDARD.decode(text).ok()
}

/// `base64` with the `URL_SAFE_NO_PAD` engine, `encode`: the text is a function of the bytes, uses
/// the URL-safe alphabet without padding, and decodes to the bytes.
#[verifier::external_body]
pub(crate) fn base64url_encode(bytes: &[u8]) -> (text: String)
    ensures
        text@ == base64url_text(bytes@),
        base64url_bytes(text@) == Some(bytes@),
        forall|i: int| 0 <= i < text@.len() ==> is_base64url_char(#[trigger] text@[i]),
        text@.len() == 0 <==> bytes@.len() == 0,
{
    URL_SAFE_NO_PAD.encode(bytes)
}

/// `base64` with the `URL_SAFE_NO_PAD` engine, `decode`: the outcome is a function of the text.
#[verifier::external_body]
pub(crate) fn base64url_decode(text: &str) -> (bytes: Option<Vec<u8>>)
    ensures
        match (bytes, base64url_bytes(text@)) {
            (Some(b), Some(v)) => b@ == v,
            (None, None) => true,
            _ => false,
        },
{
    URL_SAFE_NO_PAD.decode(text).ok()
}

/// `hex::encode`: two lower-case digits for each byte.
#[verifier::external_body]
pub(crate) fn hex_encode(bytes: &[u8]) -> (text: String)
    ensures
        text@ == hex_text(bytes@),
{
    hex::encode(bytes)
}

/// `hex::decode_to_slice` into 32 bytes: the bytes of 64 hexadecimal digits of either case, an error
/// for any other text.
#[verifier::external_body]
pub(crate) fn hex_decode32(text: &str) -> (bytes: Option<[u8; 32]>)
    ensures
        match (bytes, hex_bytes(text@)) {
            (Some(b), Some(v)) => b@ == v,
            (Some(_), None) => false,
            (None, Some(v)) => v.len() != 32,
            (None, None) => true,
        },
{
    let mut out = [0u8; 32];
    match hex::decode_to_slice(text, &mut out) {
        Ok(()) => Some(out),
        Err(_) => None,
    }
}

} // verus!
