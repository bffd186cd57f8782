//! The character classes that the cleaning rules of the book sources use.

use vstd::prelude::*;
use crate::text::is_white_space;

verus! {

pub open spec fn newline() -> spec_fn(char) -> bool {
    |c: char| c == '\n'
}

pub fn is_newline(c: char) -> (b: bool)
    ensures
        b == newline()(c),
{
    c == '\n'
}

/// The empty class: a scan that stops at nothing.
pub open spec fn nothing() -> spec_fn(char) -> bool {
    |c: char| false
}

pub fn is_nothing(c: char) -> (b: bool)
    ensures
        b == nothing()(c),
{
    false
}

/// `(` or the full-width `（`.
pub open spec fn open_paren() -> spec_fn(char) -> bool {
    |c: char| c == '(' || c == '（'
}

pub fn is_open_paren(c: char) -> (b: bool)
    ensures
        b == open_paren()(c),
{
    c == '(' || c == '（'
}

/// `)` or the full-width `）`.
pub open spec fn close_paren() -> spec_fn(char) -> bool {
    |c: char| c == ')' || c == '）'
}

pub fn is_close_paren(c: char) -> (b: bool)
    ensures
        b == close_paren()(c),
{
    c == ')' || c == '）'
}

pub open spec fn single(x: char) -> spec_fn(char) -> bool {
    |c: char| c == x
}

pub fn is_gt(c: char) -> (b: bool)
    ensures
        b == single('>')(c),
{
    c == '>'
}

pub fn is_quote(c: char) -> (b: bool)
    ensures
        b == single('"')(c),
{
    c == '"'
}

pub fn is_close_bracket(c: char) -> (b: bool)
    ensures
        b == single(']')(c),
{
    c == ']'
}

pub fn is_close_title_mark(c: char) -> (b: bool)
    ensures
        b == single('》')(c),
{
    c == '》'
}

/// ASCII white space: `\s` of `regex_lite` (`[\t\n\x0B\x0C\r ]`).
pub open spec fn ascii_space() -> spec_fn(char) -> bool {
    |c: char| c == '\t' || c == '\n' || c == '\x0B' || c == '\x0C' || c == '\r' || c == ' '
}

pub fn is_ascii_space(c: char) -> (b: bool)
    ensures
        b == ascii_space()(c),
{
    c == '\t' || c == '\n' || c == '\x0B' || c == '\x0C' || c == '\r' || c == ' '
}

/// Unicode white space: `\s` of the `regex` crate.
pub open spec fn unicode_space() -> spec_fn(char) -> bool {
    |c: char| is_white_space(c)
}

pub fn is_unicode_space(c: char) -> (b: bool)
    ensures
        b == unicode_space()(c),
{
    crate::text::white_space(c)
}

/// ASCII word characters: what `\b` of `regex_lite` looks at (`[0-9A-Za-z_]`).
pub open spec fn ascii_word() -> spec_fn(char) -> bool {
    |c: char| ('0' <= c && c <= '9') || ('A' <= c && c <= 'Z') || ('a' <= c && c <= 'z') || c == '_'
}

pub fn is_ascii_word(c: char) -> (b: bool)
    ensures
        b == ascii_word()(c),
{
    ('0' <= c && c <= '9') || ('A' <= c && c <= 'Z') || ('a' <= c && c <= 'z') || c == '_'
}

/// The characters a book name keeps when it is normalized: the CJK
/// ideographs from `一` to `龥` and the ASCII letters and digits.
pub open spec fn name_char() -> spec_fn(char) -> bool {
    |c: char|
        ('一' <= c && c <= '龥') || ('a' <= c && c <= 'z') || ('A' <= c && c <= 'Z') || ('0' <= c
            && c <= '9')
}

pub fn is_name_char(c: char) -> (b: bool)
    ensures
        b == name_char()(c),
{
    ('一' <= c && c <= '龥') || ('a' <= c && c <= 'z') || ('A' <= c && c <= 'Z') || ('0' <= c && c
        <= '9')
}

/// Unicode decimal digits (general category `Decimal_Number`, Unicode 16.0),
/// given by code point: `\d` of the `regex` crate.
pub open spec fn is_decimal_code(u: u32) -> bool {
    ||| (0x30 <= u && u <= 0x30 + 9) || (0x660 <= u && u <= 0x660 + 9) || (0x6f0 <= u && u <= 0x6f0 + 9) || (0x7c0 <= u && u <= 0x7c0 + 9)
    ||| (0x966 <= u && u <= 0x966 + 9) || (0x9e6 <= u && u <= 0x9e6 + 9) || (0xa66 <= u && u <= 0xa66 + 9) || (0xae6 <= u && u <= 0xae6 + 9)
    ||| (0xb66 <= u && u <= 0xb66 + 9) || (0xbe6 <= u && u <= 0xbe6 + 9) || (0xc66 <= u && u <= 0xc66 + 9) || (0xce6 <= u && u <= 0xce6 + 9)
    ||| (0xd66 <= u && u <= 0xd66 + 9) || (0xde6 <= u && u <= 0xde6 + 9) || (0xe50 <= u && u <= 0xe50 + 9) || (0xed0 <= u && u <= 0xed0 + 9)
    ||| (0xf20 <= u && u <= 0xf20 + 9) || (0x1040 <= u && u <= 0x1040 + 9) || (0x1090 <= u && u <= 0x1090 + 9) || (0x17e0 <= u && u <= 0x17e0 + 9)
    ||| (0x1810 <= u && u <= 0x1810 + 9) || (0x1946 <= u && u <= 0x1946 + 9) || (0x19d0 <= u && u <= 0x19d0 + 9) || (0x1a80 <= u && u <= 0x1a80 + 9)
    ||| (0x1a90 <= u && u <= 0x1a90 + 9) || (0x1b50 <= u && u <= 0x1b50 + 9) || (0x1bb0 <= u && u <= 0x1bb0 + 9) || (0x1c40 <= u && u <= 0x1c40 + 9)
    ||| (0x1c50 <= u && u <= 0x1c50 + 9) || (0xa620 <= u && u <= 0xa620 + 9) || (0xa8d0 <= u && u <= 0xa8d0 + 9) || (0xa900 <= u && u <= 0xa900 + 9)
    ||| (0xa9d0 <= u && u <= 0xa9d0 + 9) || (0xa9f0 <= u && u <= 0xa9f0 + 9) || (0xaa50 <= u && u <= 0xaa50 + 9) || (0xabf0 <= u && u <= 0xabf0 + 9)
    ||| (0xff10 <= u && u <= 0xff10 + 9) || (0x104a0 <= u && u <= 0x104a0 + 9) || (0x10d30 <= u && u <= 0x10d30 + 9) || (0x10d40 <= u && u <= 0x10d40 + 9)
    ||| (0x11066 <= u && u <= 0x11066 + 9) || (0x110f0 <= u && u <= 0x110f0 + 9) || (0x11136 <= u && u <= 0x11136 + 9) || (0x111d0 <= u && u <= 0x111d0 + 9)
    ||| (0x112f0 <= u && u <= 0x112f0 + 9) || (0x11450 <= u && u <= 0x11450 + 9) || (0x114d0 <= u && u <= 0x114d0 + 9) || (0x11650 <= u && u <= 0x11650 + 9)
    ||| (0x116c0 <= u && u <= 0x116c0 + 9) || (0x11730 <= u && u <= 0x11730 + 9) || (0x118e0 <= u && u <= 0x118e0 + 9) || (0x11950 <= u && u <= 0x11950 + 9)
    ||| (0x11bf0 <= u && u <= 0x11bf0 + 9) || (0x11c50 <= u && u <= 0x11c50 + 9) || (0x11d50 <= u && u <= 0x11d50 + 9) || (0x11da0 <= u && u <= 0x11da0 + 9)
    ||| (0x11f50 <= u && u <= 0x11f50 + 9) || (0x16130 <= u && u <= 0x16130 + 9) || (0x16a60 <= u && u <= 0x16a60 + 9) || (0x16ac0 <= u && u <= 0x16ac0 + 9)
    ||| (0x16b50 <= u && u <= 0x16b50 + 9) || (0x16d70 <= u && u <= 0x16d70 + 9) || (0x1ccf0 <= u && u <= 0x1ccf0 + 9) || (0x1e140 <= u && u <= 0x1e140 + 9)
    ||| (0x1e2f0 <= u && u <= 0x1e2f0 + 9) || (0x1e4f0 <= u && u <= 0x1e4f0 + 9) || (0x1e5f1 <= u && u <= 0x1e5f1 + 9) || (0x1e950 <= u && u <= 0x1e950 + 9)
    ||| (0x1fbf0 <= u && u <= 0x1fbf0 + 9)
    ||| (0x116d0 <= u && u <= 0x116e3)
    ||| (0x1d7ce <= u && u <= 0x1d7ff)
}

pub open spec fn decimal_digit() -> spec_fn(char) -> bool {
    |c: char| is_decimal_code(c as u32)
}

pub fn is_decimal_digit(c: char) -> (b: bool)
    ensures
        b == decimal_digit()(c),
{
    let u = c as u32;
        (0x30 <= u && u <= 0x30 + 9) || (0x660 <= u && u <= 0x660 + 9) || (0x6f0 <= u && u <= 0x6f0 + 9) ||
        (0x7c0 <= u && u <= 0x7c0 + 9) || (0x966 <= u && u <= 0x966 + 9) || (0x9e6 <= u && u <= 0x9e6 + 9) ||
        (0xa66 <= u && u <= 0xa66 + 9) || (0xae6 <= u && u <= 0xae6 + 9) || (0xb66 <= u && u <= 0xb66 + 9) ||
        (0xbe6 <= u && u <= 0xbe6 + 9) || (0xc66 <= u && u <= 0xc66 + 9) || (0xce6 <= u && u <= 0xce6 + 9) ||
        (0xd66 <= u && u <= 0xd66 + 9) || (0xde6 <= u && u <= 0xde6 + 9) || (0xe50 <= u && u <= 0xe50 + 9) ||
        (0xed0 <= u && u <= 0xed0 + 9) || (0xf20 <= u && u <= 0xf20 + 9) || (0x1040 <= u && u <= 0x1040 + 9) ||
        (0x1090 <= u && u <= 0x1090 + 9) || (0x17e0 <= u && u <= 0x17e0 + 9) || (0x1810 <= u && u <= 0x1810 + 9) ||
        (0x1946 <= u && u <= 0x1946 + 9) || (0x19d0 <= u && u <= 0x19d0 + 9) || (0x1a80 <= u && u <= 0x1a80 + 9) ||
        (0x1a90 <= u && u <= 0x1a90 + 9) || (0x1b50 <= u && u <= 0x1b50 + 9) || (0x1bb0 <= u && u <= 0x1bb0 + 9) ||
        (0x1c40 <= u && u <= 0x1c40 + 9) || (0x1c50 <= u && u <= 0x1c50 + 9) || (0xa620 <= u && u <= 0xa620 + 9) ||
        (0xa8d0 <= u && u <= 0xa8d0 + 9) || (0xa900 <= u && u <= 0xa900 + 9) || (0xa9d0 <= u && u <= 0xa9d0 + 9) ||
        (0xa9f0 <= u && u <= 0xa9f0 + 9) || (0xaa50 <= u && u <= 0xaa50 + 9) || (0xabf0 <= u && u <= 0xabf0 + 9) ||
        (0xff10 <= u && u <= 0xff10 + 9) || (0x104a0 <= u && u <= 0x104a0 + 9) || (0x10d30 <= u && u <= 0x10d30 + 9) ||
        (0x10d40 <= u && u <= 0x10d40 + 9) || (0x11066 <= u && u <= 0x11066 + 9) || (0x110f0 <= u && u <= 0x110f0 + 9) ||
        (0x11136 <= u && u <= 0x11136 + 9) || (0x111d0 <= u && u <= 0x111d0 + 9) || (0x112f0 <= u && u <= 0x112f0 + 9) ||
        (0x11450 <= u && u <= 0x11450 + 9) || (0x114d0 <= u && u <= 0x114d0 + 9) || (0x11650 <= u && u <= 0x11650 + 9) ||
        (0x116c0 <= u && u <= 0x116c0 + 9) || (0x11730 <= u && u <= 0x11730 + 9) || (0x118e0 <= u && u <= 0x118e0 + 9) ||
        (0x11950 <= u && u <= 0x11950 + 9) || (0x11bf0 <= u && u <= 0x11bf0 + 9) || (0x11c50 <= u && u <= 0x11c50 + 9) ||
        (0x11d50 <= u && u <= 0x11d50 + 9) || (0x11da0 <= u && u <= 0x11da0 + 9) || (0x11f50 <= u && u <= 0x11f50 + 9) ||
        (0x16130 <= u && u <= 0x16130 + 9) || (0x16a60 <= u && u <= 0x16a60 + 9) || (0x16ac0 <= u && u <= 0x16ac0 + 9) ||
        (0x16b50 <= u && u <= 0x16b50 + 9) || (0x16d70 <= u && u <= 0x16d70 + 9) || (0x1ccf0 <= u && u <= 0x1ccf0 + 9) ||
        (0x1e140 <= u && u <= 0x1e140 + 9) || (0x1e2f0 <= u && u <= 0x1e2f0 + 9) || (0x1e4f0 <= u && u <= 0x1e4f0 + 9) ||
        (0x1e5f1 <= u && u <= 0x1e5f1 + 9) || (0x1e950 <= u && u <= 0x1e950 + 9) || (0x1fbf0 <= u && u <= 0x1fbf0 + 9) ||
        (0x116d0 <= u && u <= 0x116e3) || (0x1d7ce <= u && u <= 0x1d7ff)
}


/// Whether `c` is a Unicode word character (UTS#18 Annex C: `Alphabetic`,
/// `Join_Control`, `Decimal_Number`, `Mark`, `Connector_Punctuation`): the
/// class of `\w`, and so of `\b`, in the `regex` crate.
pub uninterp spec fn unicode_word_char(c: char) -> bool;

/// Calls `regex_syntax::is_word_character`, which returns whether `c` is a
/// Unicode word character (it panics only when the crate is built without its
/// `unicode-perl` feature, which is on by default). Its result is taken to be
/// `unicode_word_char(c)`.
#[verifier::external_body]
pub(crate) fn is_unicode_word(c: char) -> (b: bool)
    ensures
        b == unicode_word_char(c),
{
    regex_syntax::is_word_character(c)
}

pub open spec fn unicode_word() -> spec_fn(char) -> bool {
    |c: char| unicode_word_char(c)
}

} // verus!
