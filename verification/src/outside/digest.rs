//! Compression, text forms of bytes and hashes.

use base64::Engine;
use sha2::Digest;
use std::io::{Read, Write};
use vstd::prelude::*;

verus! {

/// The gzip stream of bytes at the best compression (`flate2`); none where
/// writing it fails.
pub uninterp spec fn gzipped(bytes: Seq<u8>) -> Option<Seq<u8>>;

/// The bytes of a gzip stream (`flate2::read::GzDecoder`); none where it is none.
pub uninterp spec fn gunzipped(stream: Seq<u8>) -> Option<Seq<u8>>;

/// The standard Base64 text of bytes, padded (`base64`).
pub uninterp spec fn base64_of(bytes: Seq<u8>) -> Seq<char>;

/// The bytes of a standard Base64 text, padded (`base64`); none where it is none.
pub uninterp spec fn base64_bytes(text: Seq<char>) -> Option<Seq<u8>>;

/// The SHA-256 hash of bytes in small hexadecimal digits (`sha2`).
pub uninterp spec fn sha256_hex(bytes: Seq<u8>) -> Seq<char>;

/// The letters of standard Base64 and its padding.
pub open spec fn base64_letter(c: char) -> bool {
    ||| 'A' <= c <= 'Z'
    ||| 'a' <= c <= 'z'
    ||| '0' <= c <= '9'
    ||| c == '+'
    ||| c == '/'
    ||| c == '='
}

/// The characters that a JSON string holds as they are.
pub open spec fn unquoted_letter(c: char) -> bool {
    ' ' <= c && c != '"' && c != '\\'
}

/// A digit of a hexadecimal number.
pub open spec fn hex_digit(n: int) -> char {
    if n < 10 {
        (48 + n) as char
    } else {
        (87 + n) as char
    }
}

/// How a character stands in a JSON string.
pub open spec fn json_char(c: char) -> Seq<char> {
    if unquoted_letter(c) {
        seq![c]
    } else if c == '"' || c == '\\' {
        seq!['\\', c]
    } else if c == '\n' {
        seq!['\\', 'n']
    } else if c == '\r' {
        seq!['\\', 'r']
    } else if c == '\t' {
        seq!['\\', 't']
    } else if c as u32 == 8 {
        seq!['\\', 'b']
    } else if c as u32 == 12 {
        seq!['\\', 'f']
    } else {
        seq!['\\', 'u', '0', '0', hex_digit(c as int / 16), hex_digit(c as int % 16)]
    }
}

/// How the first `n` characters of a text stand in a JSON string.
pub open spec fn json_head(text: Seq<char>, n: int) -> Seq<char>
    decreases n,
{
    if n <= 0 {
        Seq::empty()
    } else {
        json_head(text, n - 1) + json_char(text[n - 1])
    }
}

/// A JSON string with a text in it.
pub open spec fn json_quoted(text: Seq<char>) -> Seq<char> {
    seq!['"'] + json_head(text, text.len() as int) + seq!['"']
}

/// A text without quotation marks, backslashes and control characters stands in
/// a JSON string as it is.
pub proof fn lemma_plain_json(text: Seq<char>, n: int)
    requires
        0 <= n <= text.len(),
        forall|i: int| 0 <= i < text.len() ==> unquoted_letter(#[trigger] text[i]),
    ensures
        json_head(text, n) == text.take(n),
    decreases n,
{
    if n > 0 {
        lemma_plain_json(text, n - 1);
        assert(unquoted_letter(text[n - 1]));
        assert(json_head(text, n) =~= text.take(n));
    } else {
        assert(json_head(text, n) =~= text.take(n));
    }
}

/// `flate2::write::GzEncoder` compresses what is written to it; `finish` gives
/// the stream, of which `flate2::read::GzDecoder` gives the bytes back.
#[verifier::external_body]
pub(crate) fn gzip(bytes: &[u8]) -> (r: Option<Vec<u8>>)
    ensures
        (match r {
            Some(v) => gzipped(bytes@) == Some(v@) && gunzipped(v@) == Some(bytes@),
            None => gzipped(bytes@) is None,
        }),
{
    let mut out = flate2::write::GzEncoder::new(Vec::new(), flate2::Compression::best());
    out.write_all(bytes).ok()?;
    out.finish().ok()
}

/// `flate2::read::GzDecoder` reads a gzip stream to its end.
#[verifier::external_body]
pub(crate) fn gunzip(stream: &[u8]) -> (r: Option<Vec<u8>>)
    ensures
        (match r {
            Some(v) => gunzipped(stream@) == Some(v@),
            None => gunzipped(stream@) is None,
        }),
{
    let mut out = Vec::new();
    flate2::read::GzDecoder::new(stream).read_to_end(&mut out).ok()?;
    Some(out)
}

/// `base64` with its standard engine gives a text of the standard alphabet with
/// padding, of which it gives the bytes back. It fails on lengths that no memory holds, which are left out.
#[verifier::external_body]
pub(crate) fn base64(bytes: &[u8]) -> (r: String)
    requires
        bytes@.len() <= usize::MAX / 4,
    ensures
        r@ == base64_of(bytes@),
        base64_bytes(r@) == Some(bytes@),
        forall|i: int| 0 <= i < r@.len() ==> base64_letter(#[trigger] r@[i]),
{
    base64::engine::general_purpose::STANDARD.encode(bytes)
}

/// `base64` with its standard engine reads a text.
#[verifier::external_body]
pub(crate) fn unbase64(text: &str) -> (r: Option<Vec<u8>>)
    ensures
        (match r {
            Some(v) => base64_bytes(text@) == Some(v@),
            None => base64_bytes(text@) is None,
        }),
{
    base64::engine::general_purpose::STANDARD.decode(text).ok()
}

/// `serde_json::Value::to_string` of a text gives a JSON string: quotation marks,
/// backslashes and control characters are escaped, the rest stands as it is.
#[verifier::external_body]
pub(crate) fn quote(text: &str) -> (r: String)
    ensures
        r@ == json_quoted(text@),
{
    serde_json::Value::from(text).to_string()
}

/// `sha2::Sha256` gives the hash of the bytes; it is written in hexadecimal.
#[verifier::external_body]
pub(crate) fn sha256(bytes: &[u8]) -> (r: String)
    ensures
        r@ == sha256_hex(bytes@),
{
    format!("{:x}", sha2::Sha256::digest(bytes))
}

} // verus!
