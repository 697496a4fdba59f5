//! Character classes of the source language, and the two functions of the
//! standard library that the scanner takes on trust.

use vstd::prelude::*;

verus! {

/// Whether `c` is insignificant whitespace: space, tab, carriage return or newline.
pub open spec fn is_space_spec(c: char) -> bool {
    c == ' ' || c == '\t' || c == '\r' || c == '\n'
}

/// Whether `c` is one of the ten ASCII decimal digits.
pub open spec fn is_digit_spec(c: char) -> bool {
    '0' <= c && c <= '9'
}

/// Whether `c` is one of the 52 ASCII letters.
pub open spec fn is_ascii_letter(c: char) -> bool {
    ('a' <= c && c <= 'z') || ('A' <= c && c <= 'Z')
}

/// The Unicode `Alphabetic` property of `c`, as `char::is_alphabetic` reports it.
pub uninterp spec fn alphabetic(c: char) -> bool;

/// Whether `c` may stand in an identifier: an underscore or a letter. The
/// letters of ASCII are `a` to `z` and `A` to `Z`; beyond ASCII a letter is
/// whatever Unicode calls alphabetic.
pub open spec fn is_letter_spec(c: char) -> bool {
    c == '_' || is_ascii_letter(c) || (c > '\x7f' && alphabetic(c))
}

/// `char::is_alphabetic` of the standard library. Nothing is proved of it:
/// its result is taken to be the Unicode `Alphabetic` property of the
/// character, which this crate names and does not define.
pub assume_specification[ char::is_alphabetic ](c: char) -> (b: bool)
    ensures
        b == alphabetic(c),
;

/// `String::push` of the standard library. Nothing is proved of it: it is
/// taken to append the one character to the end of the string.
pub assume_specification[ String::push ](s: &mut String, ch: char)
    ensures
        final(s)@ == old(s)@.push(ch),
;

/// Tells whether `c` is insignificant whitespace.
#[verifier::when_used_as_spec(is_space_spec)]
pub fn is_space(c: char) -> (b: bool)
    ensures
        b == is_space_spec(c),
{
    c == ' ' || c == '\t' || c == '\r' || c == '\n'
}

/// Tells whether `c` is an ASCII decimal digit.
#[verifier::when_used_as_spec(is_digit_spec)]
pub fn is_digit(c: char) -> (b: bool)
    ensures
        b == is_digit_spec(c),
{
    '0' <= c && c <= '9'
}

/// Tells whether `ch` may stand in an identifier.
#[verifier::when_used_as_spec(is_letter_spec)]
pub fn is_letter(ch: char) -> (b: bool)
    ensures
        b == is_letter_spec(ch),
{
    ch == '_' || ('a' <= ch && ch <= 'z') || ('A' <= ch && ch <= 'Z') || (ch > '\x7f'
        && ch.is_alphabetic())
}

} // verus!
