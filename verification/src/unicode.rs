//! What Unicode's tables decide, asked of the standard library.
use vstd::prelude::*;
use vstd::string::*;
use vstd::utf8::is_ascii_chars;

use crate::text::ascii_lower;

verus! {

/// The capital twin of an ASCII small letter; every other character is itself.
pub open spec fn ascii_upper(c: char) -> char {
    if 'a' <= c <= 'z' {
        ((c as u32) - 32) as u32 as char
    } else {
        c
    }
}

/// What `str::to_uppercase` makes of a text.
pub uninterp spec fn uppercase(s: Seq<char>) -> Seq<char>;

/// What `str::to_lowercase` makes of a text.
pub uninterp spec fn lowercase(s: Seq<char>) -> Seq<char>;

/// `char::is_alphanumeric`.
pub uninterp spec fn alphanumeric(c: char) -> bool;

/// `char::is_lowercase`.
pub uninterp spec fn small(c: char) -> bool;

/// What `char::to_uppercase` yields.
pub uninterp spec fn capitals(c: char) -> Seq<char>;

/// What `char::to_lowercase` yields.
pub uninterp spec fn smalls(c: char) -> Seq<char>;

/// `str::to_uppercase`: the uppercase form of a text, which on ASCII text is each
/// letter's capital.
#[verifier::external_body]
pub(crate) fn to_uppercase(s: &str) -> (r: String)
    ensures
        r@ == uppercase(s@),
        is_ascii_chars(s@) ==> r@ == s@.map_values(|c: char| ascii_upper(c)),
{
    s.to_uppercase()
}

/// `str::to_lowercase`: the lowercase form of a text, which on ASCII text is each
/// letter's small form.
#[verifier::external_body]
pub(crate) fn to_lowercase(s: &str) -> (r: String)
    ensures
        r@ == lowercase(s@),
        is_ascii_chars(s@) ==> r@ == s@.map_values(|c: char| ascii_lower(c)),
{
    s.to_lowercase()
}

/// `char::is_alphanumeric`, which among ASCII characters holds of the letters and
/// the digits.
#[verifier::external_body]
pub(crate) fn is_alphanumeric(c: char) -> (r: bool)
    ensures
        r == alphanumeric(c),
        c <= '\u{7f}' ==> r == ('a' <= c <= 'z' || 'A' <= c <= 'Z' || '0' <= c <= '9'),
{
    c.is_alphanumeric()
}

/// `char::is_lowercase`, which among ASCII characters holds of the small letters.
#[verifier::external_body]
pub(crate) fn is_small(c: char) -> (r: bool)
    ensures
        r == small(c),
        c <= '\u{7f}' ==> r == ('a' <= c <= 'z'),
{
    c.is_lowercase()
}

/// `char::to_uppercase`: the characters a character becomes in uppercase, which
/// for an ASCII character is one.
#[verifier::external_body]
pub(crate) fn char_to_uppercase(c: char) -> (r: Vec<char>)
    ensures
        r@ == capitals(c),
        c <= '\u{7f}' ==> r@ == seq![ascii_upper(c)],
{
    c.to_uppercase().collect()
}

/// `char::to_lowercase`: the characters a character becomes in lowercase, which
/// for an ASCII character is one.
#[verifier::external_body]
pub(crate) fn char_to_lowercase(c: char) -> (r: Vec<char>)
    ensures
        r@ == smalls(c),
        c <= '\u{7f}' ==> r@ == seq![ascii_lower(c)],
{
    c.to_lowercase().collect()
}

} // verus!
