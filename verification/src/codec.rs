//! Text encodings at the edge of the book sources: GBK pages and queries of
//! the biquge source (the `encoding_rs` crate), and percent-encoded query
//! values (the `urlencoding` crate).

use vstd::prelude::*;
use vstd::utf8::encode_utf8;

verus! {

/// The text that `encoding_rs::GBK.decode` gives for `bytes`.
pub uninterp spec fn gbk_decoded(bytes: Seq<u8>) -> Seq<char>;

/// The bytes that `encoding_rs::GBK.encode` gives for `text`.
pub uninterp spec fn gbk_encoded(text: Seq<char>) -> Seq<u8>;

/// Calls `encoding_rs::Encoding::decode` on `GBK`: decodes the bytes as GBK
/// (or as the encoding a byte-order mark names), malformed sequences becoming
/// U+FFFD. The result is taken to be `gbk_decoded(bytes)`.
#[verifier::external_body]
pub(crate) fn decode_gbk(bytes: &[u8]) -> (text: String)
    ensures
        text@ == gbk_decoded(bytes@),
{
    let (text, _, _) = encoding_rs::GBK.decode(bytes);
    text.into_owned()
}

/// Calls `encoding_rs::Encoding::encode` on `GBK`: encodes the text as GBK,
/// characters GBK lacks becoming decimal numeric character references. The
/// result is taken to be `gbk_encoded(text)`.
#[verifier::external_body]
pub(crate) fn encode_gbk(text: &str) -> (bytes: Vec<u8>)
    ensures
        bytes@ == gbk_encoded(text@),
{
    let (bytes, _, _) = encoding_rs::GBK.encode(text);
    bytes.into_owned()
}

/// A byte that percent-encoding leaves as it is: ASCII letters and digits,
/// `-`, `.`, `_`, `~`.
pub open spec fn url_safe(b: u8) -> bool {
    (48 <= b && b <= 57) || (65 <= b && b <= 90) || (97 <= b && b <= 122) || b == 45 || b == 46
        || b == 95 || b == 126
}

/// An upper-case hexadecimal digit.
pub open spec fn hex_digit(d: u8) -> char {
    if d < 10 {
        (48 + d) as u8 as char
    } else {
        (55 + d) as u8 as char
    }
}

/// Percent-encoding of bytes: each safe byte as its character, each other
/// byte as `%` and two upper-case hexadecimal digits.
pub open spec fn percent_encoded(bytes: Seq<u8>) -> Seq<char>
    decreases bytes.len(),
{
    if bytes.len() == 0 {
        seq![]
    } else {
        let b = bytes[0];
        (if url_safe(b) {
            seq![b as char]
        } else {
            seq!['%', hex_digit(b / 16), hex_digit(b % 16)]
        }) + percent_encoded(bytes.drop_first())
    }
}

/// Calls `urlencoding::encode`, which percent-encodes every byte of the
/// UTF-8 form of `text` except ASCII letters, digits, `-`, `_`, `.` and `~`,
/// with upper-case hexadecimal digits.
#[verifier::external_body]
pub(crate) fn url_encode(text: &str) -> (out: String)
    ensures
        out@ == percent_encoded(encode_utf8(text@)),
{
    urlencoding::encode(text).into_owned()
}

} // verus!
