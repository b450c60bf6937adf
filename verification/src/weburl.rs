//! What a URL parser decides, asked of `reqwest::Url`.
use vstd::prelude::*;
use vstd::string::*;

use crate::caret::{byte_length, offset, offset_of};
use crate::order::{rows_of, Row};
use crate::text::{char_from, char_width, chars_of, find_char, slice_string, width};

verus! {

/// A URL to hang a query on where there is no usable one.
pub open spec fn placeholder_url() -> Seq<char> {
    "http://placeholder.invalid/"@
}

/// A URL as parsed with query pairs appended to it: its text, and its query.
pub uninterp spec fn folded(url: Seq<char>, rows: Seq<Row>) -> Option<(Seq<char>, Seq<char>)>;

/// The decoded query pairs of a URL as parsed.
pub uninterp spec fn url_pairs(url: Seq<char>) -> Option<Seq<Row>>;

/// A URL as parsing writes it, where it parses.
pub uninterp spec fn normal_url(url: Seq<char>) -> Option<Seq<char>>;

/// A character that an encoded query holds as it is.
pub open spec fn unchanged(c: char) -> bool {
    'a' <= c <= 'z' || 'A' <= c <= 'Z' || '0' <= c <= '9' || c == '*' || c == '-' || c == '.' || c
        == '_'
}

/// The bytes that a text takes in an encoded query: one for a space or a character
/// that is held as it is, three for each byte of any other.
pub open spec fn encoded_size(s: Seq<char>) -> nat
    decreases s.len(),
{
    if s.len() == 0 {
        0
    } else {
        encoded_size(s.drop_last()) + (if unchanged(s.last()) || s.last() == ' ' {
            1
        } else {
            3 * width(s.last())
        })
    }
}

/// The bytes that rows take in an encoded query, each with the sign before it and the
/// one between its name and its value.
pub open spec fn rows_size(rows: Seq<Row>) -> nat
    decreases rows.len(),
{
    if rows.len() == 0 {
        0
    } else {
        rows_size(rows.drop_last()) + encoded_size(rows.last().0) + encoded_size(rows.last().1) + 2
    }
}

/// Rows can be appended to a URL that parsing writes as `text`. Where its query and
/// its fragment begin is kept in 32 bits, and so is the place behind each; the fragment
/// moves behind what is appended. The first row needs no sign before it where the query
/// is there and empty.
pub open spec fn countable(text: Seq<char>, rows: Seq<Row>) -> bool {
    let hash = char_from(text, '#', 0);
    let mark = char_from(text.take(hash), '?', 0);
    &&& offset(text, mark) < 0xffff_ffff
    &&& hash < text.len() ==> {
        &&& offset(text, hash) < 0xffff_ffff
        &&& offset(text, hash) + rows_size(rows) <= 0xffff_ffff + (if mark + 1 == hash {
            1int
        } else {
            0
        })
    }
}

/// Rows can be appended to a URL, if it parses at all.
pub open spec fn foldable(url: Seq<char>, rows: Seq<Row>) -> bool {
    normal_url(url) matches Some(text) ==> countable(text, rows)
}

/// A character that stands for itself, a space, or part of an escape or a
/// separator in an encoded query.
pub open spec fn query_safe(c: char) -> bool {
    unchanged(c) || c == '+' || c == '%' || c == '=' || c == '&'
}

/// A query that is there, holds only what an encoded query holds, and from which
/// the rows are read back.
pub open spec fn reads_back(query: Seq<char>, rows: Seq<Row>) -> bool {
    &&& query.len() > 0
    &&& forall|i: int| 0 <= i < query.len() ==> query_safe(#[trigger] query[i])
    &&& url_pairs(placeholder_url() + "?"@ + query) == Some(rows)
}

/// `Url::parse`, then the text of the outcome.
#[verifier::external_body]
pub(crate) fn parse_url(url: &str) -> (r: Option<String>)
    ensures
        r is Some <==> normal_url(url@) is Some,
        r matches Some(text) ==> normal_url(url@) == Some(text@),
{
    let parsed = reqwest::Url::parse(url).ok()?;
    Some(parsed.to_string())
}

/// `Url::parse`, then `query_pairs_mut().extend_pairs(..)`, then the text and the
/// `query()` of the outcome. It fails only where the URL does not parse, and the
/// placeholder URL parses. A URL without query and fragment that parsing leaves as it is
/// keeps its text, and the query follows behind a question mark. On a URL without a
/// query of its own the pairs come out form-encoded, and `Url::query_pairs` reads the
/// same pairs back from there.
#[verifier::external_body]
pub(crate) fn fold_pairs(url: &str, pairs: &Vec<(String, String)>) -> (r: Option<(String, String)>)
    requires
        pairs.len() > 0,
        url@ == placeholder_url() || foldable(url@, rows_of(pairs@)),
    ensures
        r is Some <==> folded(url@, rows_of(pairs@)) is Some,
        r matches Some(p) ==> folded(url@, rows_of(pairs@)) == Some((p.0@, p.1@)),
        r is Some <==> normal_url(url@) is Some,
        url@ == placeholder_url() ==> r is Some,
        r matches Some(p) ==> (normal_url(url@) == Some(url@) && !url@.contains('?')
            && !url@.contains('#') ==> p.0@ == url@ + "?"@ + p.1@),
        r matches Some(p) ==> (!url@.contains('?') ==> reads_back(p.1@, rows_of(pairs@))),
{
    let mut parsed = reqwest::Url::parse(url).ok()?;
    parsed.query_pairs_mut().extend_pairs(pairs.iter());
    let query = parsed.query().unwrap_or_default().to_string();
    Some((parsed.to_string(), query))
}

/// `Url::parse`, then `query_pairs()`.
#[verifier::external_body]
pub(crate) fn read_pairs(url: &str) -> (r: Option<Vec<(String, String)>>)
    ensures
        r is Some <==> url_pairs(url@) is Some,
        r matches Some(v) ==> url_pairs(url@) == Some(rows_of(v@)),
{
    let parsed = reqwest::Url::parse(url).ok()?;
    Some(parsed.query_pairs().into_owned().collect())
}

// ─── What can be counted ──────────────────────────────────────────────────────

/// The bytes that a text takes in an encoded query.
fn encoded_length(s: &str) -> (n: u128)
    ensures
        n == encoded_size(s@),
        n <= 12 * s@.len(),
        n <= 0xc_0000_0000_0000_0000,
{
    let v = chars_of(s);
    let mut n: u128 = 0;
    let mut i: usize = 0;
    proof {
        assert(v@.take(0) =~= Seq::empty());
    }
    while i < v.len()
        invariant
            i <= v.len(),
            n == encoded_size(v@.take(i as int)),
            n <= 12 * i,
        decreases v.len() - i,
    {
        proof {
            assert(v@.take(i + 1).drop_last() =~= v@.take(i as int));
        }
        let c = v[i];
        let plain = ('a' <= c && c <= 'z') || ('A' <= c && c <= 'Z') || ('0' <= c && c <= '9') || c
            == '*' || c == '-' || c == '.' || c == '_';
        if plain || c == ' ' {
            n = n + 1;
        } else {
            n = n + 3 * (char_width(c) as u128);
        }
        i = i + 1;
    }
    proof {
        assert(v@.take(v@.len() as int) =~= s@);
    }
    n
}

proof fn lemma_rows_size_grows(rows: Seq<Row>, n: int)
    requires
        0 <= n <= rows.len(),
    ensures
        rows_size(rows.take(n)) <= rows_size(rows),
    decreases rows.len(),
{
    if n < rows.len() {
        lemma_rows_size_grows(rows.drop_last(), n);
        assert(rows.drop_last().take(n) =~= rows.take(n));
    } else {
        assert(rows.take(n) =~= rows);
    }
}

/// Whether rows take at most so many bytes in an encoded query.
fn fits(pairs: &Vec<(String, String)>, most: u64) -> (r: bool)
    ensures
        r == (rows_size(rows_of(pairs@)) <= most),
{
    let ghost rows = rows_of(pairs@);
    let mut size: u128 = 0;
    let mut i: usize = 0;
    proof {
        assert(rows.take(0) =~= Seq::empty());
    }
    while i < pairs.len()
        invariant
            rows == rows_of(pairs@),
            i <= pairs.len(),
            size == rows_size(rows.take(i as int)),
            size <= most,
        decreases pairs.len() - i,
    {
        let name: u128 = encoded_length(pairs[i].0.as_str());
        let value: u128 = encoded_length(pairs[i].1.as_str());
        proof {
            assert(rows.take(i + 1).drop_last() =~= rows.take(i as int));
            assert(rows[i as int] == (pairs@[i as int].0@, pairs@[i as int].1@));
            lemma_rows_size_grows(rows, i + 1);
        }
        size = size + name + value + 2;
        if size > most as u128 {
            return false;
        }
        i = i + 1;
    }
    proof {
        assert(rows.take(pairs@.len() as int) =~= rows);
    }
    true
}

/// Whether rows can be appended to a URL that parsing writes as `text`.
pub fn is_countable(text: &str, pairs: &Vec<(String, String)>) -> (r: bool)
    ensures
        r == countable(text@, rows_of(pairs@)),
{
    let most: u64 = 0xffff_ffff;
    // A string that is held has a length in bytes.
    byte_length(text);
    let v = chars_of(text);
    let hash: usize = find_char(&v, '#', 0);
    let head = chars_of(slice_string(&v, 0, hash).as_str());
    let mark: usize = find_char(&head, '?', 0);
    proof {
        assert(head@ =~= text@.take(hash as int));
    }
    if offset_of(&v, mark) as u64 >= most {
        return false;
    }
    if hash == v.len() {
        return true;
    }
    let stem: u64 = offset_of(&v, hash) as u64;
    if stem >= most {
        return false;
    }
    let bare: u64 = if mark + 1 == hash {
        1
    } else {
        0
    };
    fits(pairs, most - stem + bare)
}

/// Whether rows can be appended to a URL, if it parses at all.
pub fn can_fold(url: &str, pairs: &Vec<(String, String)>) -> (r: bool)
    ensures
        r == foldable(url@, rows_of(pairs@)),
{
    match parse_url(url) {
        Some(text) => is_countable(text.as_str(), pairs),
        None => true,
    }
}

} // verus!
