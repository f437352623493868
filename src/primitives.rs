//! The calls this library makes into other crates and into std, each with
//! the contract that the rest of the library relies on.
use vstd::prelude::*;
use vstd::utf8::{decode_utf8, encode_utf8, valid_utf8};
use base64::Engine;

verus! {

/// The base64url text (URL-safe alphabet, no padding) of a byte sequence.
pub uninterp spec fn b64url_of(b: Seq<u8>) -> Seq<char>;

/// The HMAC-SHA256 tag of `msg` under `key`, as base64url text.
pub uninterp spec fn hs256_sig(msg: Seq<u8>, key: Seq<u8>) -> Seq<char>;

/// A lowercase hexadecimal digit.
pub open spec fn hex_digit(n: u32) -> char {
    if n < 10 {
        (48 + n) as char
    } else {
        (87 + n) as char
    }
}

/// How serde_json writes one character inside a string literal: quote and
/// backslash escaped, the five short control escapes, other control
/// characters as `\u00XX` in lowercase hex, everything else as it is.
pub open spec fn json_escape_char(c: char) -> Seq<char> {
    if c == '"' {
        seq!['\\', '"']
    } else if c == '\\' {
        seq!['\\', '\\']
    } else if c == '\u{8}' {
        seq!['\\', 'b']
    } else if c == '\t' {
        seq!['\\', 't']
    } else if c == '\n' {
        seq!['\\', 'n']
    } else if c == '\u{c}' {
        seq!['\\', 'f']
    } else if c == '\r' {
        seq!['\\', 'r']
    } else if (c as u32) < 32 {
        seq!['\\', 'u', '0', '0', hex_digit(c as u32 / 16), hex_digit(c as u32 % 16)]
    } else {
        seq![c]
    }
}

/// The escaped characters of a string literal's contents.
pub open spec fn json_escaped(s: Seq<char>) -> Seq<char>
    decreases s.len(),
{
    if s.len() == 0 {
        Seq::empty()
    } else {
        json_escape_char(s[0]) + json_escaped(s.drop_first())
    }
}

/// The JSON string literal that denotes `s`, quotes and escapes included.
pub open spec fn json_quoted(s: Seq<char>) -> Seq<char> {
    seq!['"'] + json_escaped(s) + seq!['"']
}

/// A character of the URL-safe base64 alphabet.
pub open spec fn b64url_char(c: char) -> bool {
    ('A' <= c <= 'Z') || ('a' <= c <= 'z') || ('0' <= c <= '9') || c == '-' || c == '_'
}

/// Relies on base64's `URL_SAFE_NO_PAD.encode`: the unpadded base64url text of
/// the bytes, written in the URL-safe alphabet.
#[verifier::external_body]
pub(crate) fn b64url_encode(b: &[u8]) -> (r: String)
    ensures
        r@ == b64url_of(b@),
        forall|i: int| 0 <= i < r@.len() ==> b64url_char(#[trigger] r@[i]),
{
    base64::engine::general_purpose::URL_SAFE_NO_PAD.encode(b)
}

/// Relies on base64's `URL_SAFE_NO_PAD.decode`: with padding refused and
/// trailing bits refused, it accepts exactly the texts that `encode` writes,
/// and gives back the bytes they were written from.
#[verifier::external_body]
pub(crate) fn b64url_decode(s: &[u8]) -> (r: Option<Vec<u8>>)
    ensures
        r is Some ==> s@ == encode_utf8(b64url_of(r->0@)),
        forall|b: Seq<u8>|
            s@ == encode_utf8(#[trigger] b64url_of(b)) ==> (r is Some && r->0@ == b),
{
    base64::engine::general_purpose::URL_SAFE_NO_PAD.decode(s).ok()
}

/// Relies on `String::from_utf8`: it succeeds exactly on valid UTF-8 and holds
/// the characters the bytes encode.
#[verifier::external_body]
pub(crate) fn utf8_string(b: Vec<u8>) -> (r: Option<String>)
    ensures
        r is Some <==> valid_utf8(b@),
        r is Some ==> r->0@ == decode_utf8(b@),
{
    String::from_utf8(b).ok()
}

/// Relies on `jsonwebtoken::crypto::sign` with `Algorithm::HS256` and a key
/// from `EncodingKey::from_secret`: for the HMAC algorithms it always returns
/// `Ok`, with the base64url text of the HMAC-SHA256 tag.
#[verifier::external_body]
pub(crate) fn hs256_sign(msg: &[u8], key: &[u8]) -> (r: String)
    ensures
        r@ == hs256_sig(msg@, key@),
        forall|i: int| 0 <= i < r@.len() ==> b64url_char(#[trigger] r@[i]),
{
    let k = jsonwebtoken::EncodingKey::from_secret(key);
    jsonwebtoken::crypto::sign(msg, &k, jsonwebtoken::Algorithm::HS256).unwrap_or_default()
}

/// Relies on `jsonwebtoken::crypto::verify` with `Algorithm::HS256` and a key
/// from `DecodingKey::from_secret`: it signs `msg` again and compares the text
/// with `sig` in constant time; for the HMAC algorithms it always returns `Ok`.
#[verifier::external_body]
pub(crate) fn hs256_verify(sig: &str, msg: &[u8], key: &[u8]) -> (r: bool)
    ensures
        r == (sig@ == hs256_sig(msg@, key@)),
{
    let k = jsonwebtoken::DecodingKey::from_secret(key);
    jsonwebtoken::crypto::verify(sig, msg, &k, jsonwebtoken::Algorithm::HS256).unwrap_or(false)
}

/// Relies on `serde_json::to_string` on a string slice, which cannot fail: the
/// JSON string literal for `s`, escaped as `format_escaped_str` and its
/// `ESCAPE` table do.
#[verifier::external_body]
pub(crate) fn json_string(s: &str) -> (r: String)
    ensures
        r@ == json_quoted(s@),
{
    serde_json::to_string(s).unwrap_or_default()
}

/// Relies on `serde_json::from_slice::<String>`: a JSON string literal that
/// `serde_json::to_string` wrote for some text reads back as that text.
#[verifier::external_body]
pub(crate) fn json_unquote(q: &[u8]) -> (r: Option<String>)
    ensures
        forall|s: Seq<char>|
            q@ == encode_utf8(#[trigger] json_quoted(s)) ==> (r is Some && r->0@ == s),
{
    serde_json::from_slice::<String>(q).ok()
}

/// Relies on `SystemTime::now` and `duration_since(UNIX_EPOCH)`: the whole
/// seconds since the Unix epoch, or `None` when the system clock reads an
/// earlier instant. Nothing is known of the value.
#[verifier::external_body]
pub(crate) fn now_utc() -> (r: Option<u64>) {
    std::time::SystemTime::now().duration_since(std::time::UNIX_EPOCH).ok().map(|d| d.as_secs())
}

} // verus!
