//! Character classes and string building blocks used by the lexer and by the
//! rendering of values.

use rayon::iter::ParallelExtend;
use rayon::str::ParallelString;
use vstd::prelude::*;

verus! {

/// Whether `c` has the Unicode property `Alphabetic`, as
/// `char::is_alphabetic` decides it.
pub uninterp spec fn alphabetic(c: char) -> bool;

/// Whether `c` has the Unicode property `White_Space`, as
/// `char::is_whitespace` decides it.
pub uninterp spec fn whitespace(c: char) -> bool;

/// Calls `char::is_alphabetic`. The answer is a property of the character
/// alone, taken from the Unicode tables of the standard library; the contract
/// only gives it the name [`alphabetic`].
#[verifier::external_body]
pub(crate) fn is_alphabetic(c: char) -> (r: bool)
    ensures
        r == alphabetic(c),
{
    c.is_alphabetic()
}

/// Calls `char::is_whitespace`. The answer is a property of the character
/// alone; the contract only gives it the name [`whitespace`].
#[verifier::external_body]
pub(crate) fn is_whitespace(c: char) -> (r: bool)
    ensures
        r == whitespace(c),
{
    c.is_whitespace()
}

/// Calls `String::push`, which appends one character to the end of the string.
#[verifier::external_body]
pub(crate) fn push_char(text: &mut String, c: char)
    ensures
        final(text)@ == old(text)@.push(c),
{
    text.push(c)
}

/// Calls rayon's `ParallelExtend::par_extend` on a `String`, with
/// `ParallelString::par_chars` of `tail` as the source. Rayon splits the
/// characters among its workers and joins the pieces in the order of the text,
/// so the string ends up with the characters of `tail` appended.
#[verifier::external_body]
pub(crate) fn append_chars(text: &mut String, tail: &str)
    ensures
        final(text)@ == old(text)@ + tail@,
{
    text.par_extend(tail.par_chars())
}

/// An ASCII letter or an ASCII decimal digit.
pub open spec fn ascii_alphanumeric(c: char) -> bool {
    ('a' <= c && c <= 'z') || ('A' <= c && c <= 'Z') || decimal_digit(c)
}

/// One of the ten characters `0` to `9`.
pub open spec fn decimal_digit(c: char) -> bool {
    '0' <= c && c <= '9'
}

/// The value of a decimal digit character.
pub open spec fn digit_value(c: char) -> u8
    recommends
        decimal_digit(c),
{
    (c as u32 - '0' as u32) as u8
}

/// Whether `c` is an ASCII letter or an ASCII decimal digit.
pub fn is_ascii_alphanumeric(c: char) -> (r: bool)
    ensures
        r == ascii_alphanumeric(c),
{
    ('a' <= c && c <= 'z') || ('A' <= c && c <= 'Z') || ('0' <= c && c <= '9')
}

/// Whether `c` is one of the ten characters `0` to `9`.
pub fn is_decimal_digit(c: char) -> (r: bool)
    ensures
        r == decimal_digit(c),
{
    '0' <= c && c <= '9'
}

/// The value of the digit `c`, from 0 to 9; `None` if `c` is no decimal digit.
pub fn digit_of(c: char) -> (r: Option<u8>)
    ensures
        decimal_digit(c) ==> r == Some(digit_value(c)) && digit_value(c) < 10,
        !decimal_digit(c) ==> r is None,
{
    if '0' <= c && c <= '9' {
        let code: u32 = c as u32;
        Some((code - 48) as u8)
    } else {
        None
    }
}

/// The character that shows the digit `d`.
pub open spec fn digit_char(d: u8) -> char
    recommends
        d < 10,
{
    (d as u32 + 48) as char
}

/// The character for the digit `d`; `None` if `d` is not below ten.
pub fn char_of_digit(d: u8) -> (r: Option<char>)
    ensures
        d < 10 ==> r == Some(digit_char(d)),
        d >= 10 ==> r is None,
{
    if d < 10 {
        let code: u8 = 48 + d;
        Some(code as char)
    } else {
        None
    }
}

} // verus!
