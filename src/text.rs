//! Character classes and conversions between `str`, `String` and `Vec<char>`.
use vstd::prelude::*;

verus! {

/// Whether `c` has the Unicode `Alphabetic` property.
pub uninterp spec fn alphabetic(c: char) -> bool;

/// Whether `c` is a Unicode numeric character.
pub uninterp spec fn numeric(c: char) -> bool;

/// An ASCII letter.
pub open spec fn ascii_letter(c: char) -> bool {
    ('a' <= c && c <= 'z') || ('A' <= c && c <= 'Z')
}

/// An ASCII decimal digit.
pub open spec fn ascii_digit(c: char) -> bool {
    '0' <= c && c <= '9'
}

/// A letter: for ASCII the 52 Latin letters, beyond it the Unicode
/// `Alphabetic` property.
pub open spec fn letter(c: char) -> bool {
    if (c as u32) < 128 {
        ascii_letter(c)
    } else {
        alphabetic(c)
    }
}

/// A numeric character: for ASCII the ten digits, beyond it the Unicode
/// numeric categories.
pub open spec fn numeral(c: char) -> bool {
    if (c as u32) < 128 {
        ascii_digit(c)
    } else {
        numeric(c)
    }
}

/// Relies on `char::is_alphabetic`: ASCII letters are alphabetic, other ASCII
/// characters are not.
#[verifier::external_body]
pub(crate) fn is_alphabetic(c: char) -> (r: bool)
    ensures
        (c as u32) < 128 ==> r == ascii_letter(c),
        (c as u32) >= 128 ==> r == alphabetic(c),
{
    c.is_alphabetic()
}

/// Relies on `char::is_numeric`: ASCII digits are numeric, other ASCII
/// characters are not.
#[verifier::external_body]
pub(crate) fn is_numeric(c: char) -> (r: bool)
    ensures
        (c as u32) < 128 ==> r == ascii_digit(c),
        (c as u32) >= 128 ==> r == numeric(c),
{
    c.is_numeric()
}

/// Relies on `str::chars`: the characters of `s`, in order.
#[verifier::external_body]
pub(crate) fn chars_of(s: &str) -> (r: Vec<char>)
    ensures
        r@ == s@,
{
    s.chars().collect()
}

/// Relies on `String: FromIterator<char>`: the string of the characters `v`.
#[verifier::external_body]
pub(crate) fn string_of(v: &Vec<char>) -> (r: String)
    ensures
        r@ == v@,
{
    v.iter().collect()
}

/// Relies on `String: FromIterator<char>`: the string of `v[lo..hi]`.
#[verifier::external_body]
pub(crate) fn string_of_range(v: &Vec<char>, lo: usize, hi: usize) -> (r: String)
    requires
        lo <= hi <= v@.len(),
    ensures
        r@ == v@.subrange(lo as int, hi as int),
{
    v[lo..hi].iter().collect()
}

} // verus!
