//! Character classes and small string utilities shared by the lexer and the
//! query generator.
use vstd::prelude::*;
use vstd::string::*;

verus! {

/// The Unicode `Alphabetic` property, as `char::is_alphabetic` reports it.
pub uninterp spec fn alphabetic(c: char) -> bool;

/// `char::is_alphanumeric`: `Alphabetic` or `Numeric`.
pub uninterp spec fn alphanumeric(c: char) -> bool;

/// The Unicode `White_Space` property, as `char::is_whitespace` reports it.
pub uninterp spec fn whitespace(c: char) -> bool;

pub open spec fn ascii_letter(c: char) -> bool {
    ('a' <= c && c <= 'z') || ('A' <= c && c <= 'Z')
}

pub open spec fn ascii_digit(c: char) -> bool {
    '0' <= c && c <= '9'
}

pub open spec fn ascii(c: char) -> bool {
    c <= '\u{7f}'
}

/// A character that may start a type selector: a letter.
pub open spec fn letter(c: char) -> bool {
    if ascii(c) {
        ascii_letter(c)
    } else {
        alphabetic(c)
    }
}

/// A character that may continue an identifier: a letter, a digit, `-` or
/// `_`.
pub open spec fn ident_char(c: char) -> bool {
    if ascii(c) {
        ascii_letter(c) || ascii_digit(c) || c == '-' || c == '_'
    } else {
        alphabetic(c) || alphanumeric(c)
    }
}

/// Whitespace: on ASCII, space and tab to carriage return; beyond it, the
/// White_Space property, which no letter has.
pub open spec fn space(c: char) -> bool {
    if ascii(c) {
        c == ' ' || ('\t' <= c && c <= '\r')
    } else {
        whitespace(c) && !alphabetic(c)
    }
}

/// Relies on `char::is_alphabetic`: the Alphabetic property, which on ASCII
/// the letters alone have.
#[verifier::external_body]
fn char_is_alphabetic(c: char) -> (r: bool)
    ensures
        r == alphabetic(c),
        ascii(c) ==> r == ascii_letter(c),
{
    c.is_alphabetic()
}

/// Relies on `char::is_alphanumeric`: alphabetic or numeric, which on ASCII
/// the letters and digits alone are.
#[verifier::external_body]
fn char_is_alphanumeric(c: char) -> (r: bool)
    ensures
        r == alphanumeric(c),
        ascii(c) ==> r == (ascii_letter(c) || ascii_digit(c)),
        alphabetic(c) ==> r,
{
    c.is_alphanumeric()
}

/// Relies on `char::is_whitespace`: the White_Space property, which on ASCII
/// space and tab to carriage return alone have, and which no alphabetic
/// character has.
#[verifier::external_body]
fn char_is_whitespace(c: char) -> (r: bool)
    ensures
        r == whitespace(c),
        ascii(c) ==> r == (c == ' ' || ('\t' <= c && c <= '\r')),
        alphabetic(c) ==> !r,
{
    c.is_whitespace()
}

pub fn is_letter(c: char) -> (r: bool)
    ensures
        r == letter(c),
{
    char_is_alphabetic(c)
}

pub fn is_ident_char(c: char) -> (r: bool)
    ensures
        r == ident_char(c),
{
    c == '-' || c == '_' || char_is_alphanumeric(c)
}

pub fn is_space(c: char) -> (r: bool)
    ensures
        r == space(c),
{
    char_is_whitespace(c)
}

/// Relies on `FromIterator<char>` for `String`: the characters in order.
#[verifier::external_body]
pub(crate) fn string_from_chars(v: &[char]) -> (r: String)
    ensures
        r@ == v@,
{
    v.iter().collect()
}

/// The characters of `s`, in order.
pub fn chars_of(s: &str) -> (r: Vec<char>)
    ensures
        r@ == s@,
{
    broadcast use vstd::string::group_string_axioms;
    let mut v: Vec<char> = Vec::new();
    let it = s.chars();
    for c in iter: it
        invariant
            iter.seq() == s@,
            v@ == iter.seq().subrange(0, iter.index() as int),
    {
        v.push(c);
    }
    v
}

} // verus!
