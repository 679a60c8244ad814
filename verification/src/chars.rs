//! The character classes that the tokenizer tells apart.
use vstd::prelude::*;

verus! {

/// Whether a character beyond ASCII has the Unicode property `Alphabetic`.
/// The property is a table of the Unicode standard; it is left without a
/// definition here and is given by [`alphabetic`].
pub uninterp spec fn unicode_alphabetic(c: char) -> bool;

/// Calls `char::is_alphabetic` of the standard library. Nothing is claimed
/// of the answer but that it depends on the character alone.
#[verifier::external_body]
pub(crate) fn alphabetic(c: char) -> (b: bool)
    ensures
        b == unicode_alphabetic(c),
{
    c.is_alphabetic()
}

/// Whitespace separates tokens and belongs to none: space, tab and newline.
pub open spec fn is_space(c: char) -> bool {
    c == ' ' || c == '\t' || c == '\n'
}

/// An ASCII letter.
pub open spec fn is_ascii_letter(c: char) -> bool {
    ('a' <= c && c <= 'z') || ('A' <= c && c <= 'Z')
}

/// A letter of an identifier: an alphabetic character or an underscore. In
/// ASCII the alphabetic characters are the letters `a` to `z` and `A` to `Z`.
pub open spec fn is_letter(c: char) -> bool {
    c == '_' || is_ascii_letter(c) || (c > '\u{7f}' && unicode_alphabetic(c))
}

/// An ASCII digit.
pub open spec fn is_digit(c: char) -> bool {
    '0' <= c && c <= '9'
}

/// A character of a number: an ASCII digit or a dot.
pub open spec fn is_number_char(c: char) -> bool {
    is_digit(c) || c == '.'
}

/// Whether `c` is whitespace.
pub fn space(c: char) -> (b: bool)
    ensures
        b == is_space(c),
{
    c == ' ' || c == '\t' || c == '\n'
}

/// Whether `c` is a letter of an identifier.
pub fn letter(c: char) -> (b: bool)
    ensures
        b == is_letter(c),
{
    if c <= '\u{7f}' {
        c == '_' || (c >= 'a' && c <= 'z') || (c >= 'A' && c <= 'Z')
    } else {
        alphabetic(c)
    }
}

/// Whether `c` is an ASCII digit.
pub fn digit(c: char) -> (b: bool)
    ensures
        b == is_digit(c),
{
    c >= '0' && c <= '9'
}

} // verus!
