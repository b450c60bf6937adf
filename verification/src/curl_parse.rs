//! Reading a cURL command: from its words to what they add up to.
use vstd::prelude::*;
use vstd::string::*;
use vstd::utf8::*;

use crate::curl_error::{CurlError, Fault};
use crate::order::{rows_of, Row};
use crate::request::{text_opt, Body, BodyView, RequestConfig, RequestView, TextMap};
use crate::shell::{tokenize, words};
use crate::strmap::StrMap;
use crate::text::{
    chars_of, concat2, concat3, contains, contains_char, eq_ignoring_case, find_char, join, joined,
    lemma_char_from, occurs, same_ignoring_case, slice_string, str_eq, string_of, texts, trim, trimmed,
    char_from,
};
use crate::unicode::{to_uppercase, uppercase};
use crate::weburl::{fold_pairs, folded, placeholder_url, read_pairs, url_pairs};

verus! {

// ─── Base64 ───────────────────────────────────────────────────────────────────

/// The character that stands for a group of six bits.
pub open spec fn base64_char(k: int) -> char {
    if k < 26 {
        (65 + k) as u32 as char
    } else if k < 52 {
        (97 + k - 26) as u32 as char
    } else if k < 62 {
        (48 + k - 52) as u32 as char
    } else if k == 62 {
        '+'
    } else {
        '/'
    }
}

/// Standard base64: four characters for three bytes, the last group padded.
pub open spec fn base64(b: Seq<u8>) -> Seq<char>
    decreases b.len(),
{
    if b.len() == 0 {
        Seq::empty()
    } else {
        let n = b[0] * 65536 + (if b.len() > 1 {
            b[1] * 256
        } else {
            0
        }) + (if b.len() > 2 {
            b[2] as int
        } else {
            0
        });
        let group = seq![
            base64_char(n / 262144),
            base64_char((n / 4096) % 64),
            if b.len() > 1 {
                base64_char((n / 64) % 64)
            } else {
                '='
            },
            if b.len() > 2 {
                base64_char(n % 64)
            } else {
                '='
            },
        ];
        if b.len() <= 3 {
            group
        } else {
            group + base64(b.skip(3))
        }
    }
}

fn base64_letter(k: u32) -> (r: char)
    requires
        k < 64,
    ensures
        r == base64_char(k as int),
{
    let b: u8 = k as u8;
    if b < 26 {
        (65 + b) as char
    } else if b < 52 {
        (97 + (b - 26)) as char
    } else if b < 62 {
        (48 + (b - 52)) as char
    } else if b == 62 {
        '+'
    } else {
        '/'
    }
}

/// Encodes bytes as base64.
pub fn base64_encode(input: &[u8]) -> (r: String)
    ensures
        r@ == base64(input@),
{
    let mut out = String::new();
    let mut i: usize = 0;
    proof {
        assert(input@.skip(0) =~= input@);
        assert(out@ + base64(input@.skip(0)) =~= base64(input@));
    }
    while i < input.len()
        invariant
            i <= input.len(),
            out@ + base64(input@.skip(i as int)) == base64(input@),
        decreases input.len() - i,
    {
        let ghost before = out@;
        let ghost rest = input@.skip(i as int);
        let left: usize = input.len() - i;
        let b0: u32 = input[i] as u32;
        let b1: u32 = if left > 1 {
            input[i + 1] as u32
        } else {
            0
        };
        let b2: u32 = if left > 2 {
            input[i + 2] as u32
        } else {
            0
        };
        let n: u32 = b0 * 65536 + b1 * 256 + b2;
        out.push(base64_letter(n / 262144));
        out.push(base64_letter((n / 4096) % 64));
        out.push(
            if left > 1 {
                base64_letter((n / 64) % 64)
            } else {
                '='
            },
        );
        out.push(
            if left > 2 {
                base64_letter(n % 64)
            } else {
                '='
            },
        );
        if left <= 3 {
            proof {
                assert(out@ =~= before + base64(rest));
                assert(out@ + base64(input@.skip(input@.len() as int)) =~= base64(input@));
            }
            i = input.len();
        } else {
            proof {
                assert(rest.skip(3) =~= input@.skip(i + 3));
                assert(out@ + base64(rest.skip(3)) =~= before + base64(rest));
            }
            i = i + 3;
        }
    }
    proof {
        assert(out@ + base64(input@.skip(input@.len() as int)) =~= out@);
    }
    out
}

// ─── Collected flags ──────────────────────────────────────────────────────────

/// What the flags read so far add up to.
pub struct Parts {
    pub url: Option<String>,
    pub method: Option<String>,
    pub headers: Vec<(String, String)>,
    pub data: Vec<String>,
    pub get: bool,
    pub head: bool,
}

/// The same, as text.
pub struct PartsView {
    pub url: Option<Seq<char>>,
    pub method: Option<Seq<char>>,
    pub headers: Seq<Row>,
    pub data: Seq<Seq<char>>,
    pub get: bool,
    pub head: bool,
}

impl View for Parts {
    type V = PartsView;

    open spec fn view(&self) -> PartsView {
        PartsView {
            url: match self.url {
                Some(s) => Some(s@),
                None => None,
            },
            method: match self.method {
                Some(s) => Some(s@),
                None => None,
            },
            headers: rows_of(self.headers@),
            data: texts(self.data@),
            get: self.get,
            head: self.head,
        }
    }
}

/// Nothing read yet.
pub open spec fn no_parts() -> PartsView {
    PartsView {
        url: None,
        method: None,
        headers: Seq::empty(),
        data: Seq::empty(),
        get: false,
        head: false,
    }
}

/// The first header at or after `i` that goes by `name` whatever its case, or the
/// number of headers.
pub open spec fn header_from(headers: Seq<Row>, name: Seq<char>, i: int) -> int
    decreases headers.len() - i,
{
    if i >= headers.len() {
        headers.len() as int
    } else if same_ignoring_case(headers[i].0, name) {
        i
    } else {
        header_from(headers, name, i + 1)
    }
}

/// The headers with one more: a repeat of a name is combined with the value that
/// is there, by HTTP's rule for repeated fields.
pub open spec fn with_header(headers: Seq<Row>, name: Seq<char>, value: Seq<char>) -> Seq<Row> {
    let i = header_from(headers, name, 0);
    if i < headers.len() {
        headers.update(i, (headers[i].0, headers[i].1 + ", "@ + value))
    } else {
        headers.push((name, value))
    }
}

/// The headers with one more, unless they hold one of that name.
pub open spec fn with_default_header(headers: Seq<Row>, name: Seq<char>, value: Seq<char>) -> Seq<
    Row,
> {
    if header_from(headers, name, 0) < headers.len() {
        headers
    } else {
        headers.push((name, value))
    }
}

pub proof fn lemma_header_from(headers: Seq<Row>, name: Seq<char>, i: int)
    requires
        0 <= i <= headers.len(),
    ensures
        i <= header_from(headers, name, i) <= headers.len(),
        header_from(headers, name, i) < headers.len() ==> same_ignoring_case(
            headers[header_from(headers, name, i)].0,
            name,
        ),
        forall|j: int|
            i <= j < header_from(headers, name, i) ==> !same_ignoring_case(
                #[trigger] headers[j].0,
                name,
            ),
    decreases headers.len() - i,
{
    if i < headers.len() && !same_ignoring_case(headers[i].0, name) {
        lemma_header_from(headers, name, i + 1);
    }
}

/// The parts with a URL; a command that gives two is refused.
pub open spec fn with_url(parts: PartsView, url: Seq<char>) -> Result<PartsView, Fault> {
    match parts.url {
        Some(existing) => Err(Fault::TwoUrls(existing, url)),
        None => Ok(PartsView { url: Some(url), ..parts }),
    }
}

impl Parts {
    /// Nothing read yet.
    pub fn new() -> (r: Parts)
        ensures
            r@ == no_parts(),
    {
        let r = Parts {
            url: None,
            method: None,
            headers: Vec::new(),
            data: Vec::new(),
            get: false,
            head: false,
        };
        proof {
            assert(r@.headers =~= Seq::empty());
            assert(r@.data =~= Seq::empty());
        }
        r
    }

    /// Takes down the URL, unless there is one.
    pub fn set_url(&mut self, url: &str) -> (r: Result<(), CurlError>)
        ensures
            with_url(old(self)@, url@) matches Ok(p) ==> r is Ok && final(self)@ == p,
            with_url(old(self)@, url@) matches Err(f) ==> (r matches Err(e) && e@ == f)
                && final(self)@ == old(self)@,
    {
        match &self.url {
            Some(existing) => Err(CurlError::TwoUrls(existing.clone(), url.to_owned())),
            None => {
                self.url = Some(url.to_owned());
                Ok(())
            },
        }
    }

    /// The place of the first header of a name, whatever its case.
    pub fn find_header(&self, name: &str) -> (r: Option<usize>)
        ensures
            r matches Some(i) ==> i < self.headers.len() && i == header_from(
                self@.headers,
                name@,
                0,
            ),
            r is None ==> header_from(self@.headers, name@, 0) == self.headers.len(),
    {
        let mut i: usize = 0;
        while i < self.headers.len()
            invariant
                i <= self.headers.len(),
                header_from(self@.headers, name@, 0) == header_from(
                    self@.headers,
                    name@,
                    i as int,
                ),
            decreases self.headers.len() - i,
        {
            if eq_ignoring_case(self.headers[i].0.as_str(), name) {
                return Some(i);
            }
            i = i + 1;
        }
        None
    }

    /// Appends a header, combining a repeat of the same name with `, `.
    pub fn push_header(&mut self, name: &str, value: &str)
        ensures
            final(self)@ == (PartsView {
                headers: with_header(old(self)@.headers, name@, value@),
                ..old(self)@
            }),
    {
        match self.find_header(name) {
            Some(idx) => {
                let ghost h0 = self.headers@;
                let held_name = self.headers[idx].0.clone();
                let combined = concat3(self.headers[idx].1.as_str(), ", ", value);
                self.headers.set(idx, (held_name, combined));
                proof {
                    assert(rows_of(self.headers@) =~= with_header(rows_of(h0), name@, value@));
                }
            },
            None => {
                let ghost h0 = self.headers@;
                self.headers.push((name.to_owned(), value.to_owned()));
                proof {
                    assert(rows_of(self.headers@) =~= with_header(rows_of(h0), name@, value@));
                }
            },
        }
    }

    /// Appends a header that a flag only implies: an explicit one wins.
    pub fn push_header_if_absent(&mut self, name: &str, value: &str)
        ensures
            final(self)@ == (PartsView {
                headers: with_default_header(old(self)@.headers, name@, value@),
                ..old(self)@
            }),
    {
        match self.find_header(name) {
            Some(_) => {},
            None => {
                let ghost h0 = self.headers@;
                self.headers.push((name.to_owned(), value.to_owned()));
                proof {
                    assert(rows_of(self.headers@) =~= with_default_header(
                        rows_of(h0),
                        name@,
                        value@,
                    ));
                }
            },
        }
    }

    /// Removes the first header of a name and hands its value over.
    pub fn take_header(&mut self, name: &str) -> (r: Option<String>)
        ensures
            ({
                let h = old(self)@.headers;
                let i = header_from(h, name@, 0);
                if i < h.len() {
                    &&& r matches Some(v) && v@ == h[i].1
                    &&& final(self)@ == (PartsView { headers: h.remove(i), ..old(self)@ })
                } else {
                    r is None && final(self)@ == old(self)@
                }
            }),
    {
        match self.find_header(name) {
            Some(idx) => {
                let ghost h0 = self.headers@;
                let pair = self.headers.remove(idx);
                proof {
                    assert(rows_of(self.headers@) =~= rows_of(h0).remove(idx as int));
                }
                Some(pair.1)
            },
            None => None,
        }
    }

    fn push_data(&mut self, data: String)
        ensures
            final(self)@ == (PartsView { data: old(self)@.data.push(data@), ..old(self)@ }),
    {
        let ghost d0 = self.data@;
        self.data.push(data);
        proof {
            assert(texts(self.data@) =~= texts(d0).push(data@));
        }
    }
}

// ─── Flags ────────────────────────────────────────────────────────────────────

/// The long name of a short flag.
pub open spec fn long_name(ch: char) -> Option<Seq<char>> {
    if ch == 'X' {
        Some("request"@)
    } else if ch == 'H' {
        Some("header"@)
    } else if ch == 'd' {
        Some("data"@)
    } else if ch == 'G' {
        Some("get"@)
    } else if ch == 'I' {
        Some("head"@)
    } else if ch == 'u' {
        Some("user"@)
    } else if ch == 'b' {
        Some("cookie"@)
    } else if ch == 'A' {
        Some("user-agent"@)
    } else if ch == 'e' {
        Some("referer"@)
    } else if ch == 'o' {
        Some("output"@)
    } else if ch == 'm' {
        Some("max-time"@)
    } else if ch == 'w' {
        Some("write-out"@)
    } else if ch == 's' {
        Some("silent"@)
    } else if ch == 'S' {
        Some("show-error"@)
    } else if ch == 'v' {
        Some("verbose"@)
    } else if ch == 'i' {
        Some("include"@)
    } else if ch == 'k' {
        Some("insecure"@)
    } else if ch == 'L' {
        Some("location"@)
    } else if ch == 'f' {
        Some("fail"@)
    } else {
        None
    }
}

/// The long name of a short flag, for a letter that is one.
pub fn short_to_long(ch: char) -> (r: Option<&'static str>)
    ensures
        r is Some <==> long_name(ch) is Some,
        r matches Some(name) ==> long_name(ch) == Some(name@),
{
    match ch {
        'X' => Some("request"),
        'H' => Some("header"),
        'd' => Some("data"),
        'G' => Some("get"),
        'I' => Some("head"),
        'u' => Some("user"),
        'b' => Some("cookie"),
        'A' => Some("user-agent"),
        'e' => Some("referer"),
        'o' => Some("output"),
        'm' => Some("max-time"),
        'w' => Some("write-out"),
        's' => Some("silent"),
        'S' => Some("show-error"),
        'v' => Some("verbose"),
        'i' => Some("include"),
        'k' => Some("insecure"),
        'L' => Some("location"),
        'f' => Some("fail"),
        _ => None,
    }
}

/// The flag is followed by a value.
pub open spec fn wants_value(name: Seq<char>) -> bool {
    ||| name == "url"@
    ||| name == "request"@
    ||| name == "header"@
    ||| name == "data"@
    ||| name == "data-raw"@
    ||| name == "data-ascii"@
    ||| name == "data-binary"@
    ||| name == "data-urlencode"@
    ||| name == "json"@
    ||| name == "user"@
    ||| name == "cookie"@
    ||| name == "user-agent"@
    ||| name == "referer"@
    ||| name == "output"@
    ||| name == "max-time"@
    ||| name == "connect-timeout"@
    ||| name == "write-out"@
    ||| name == "retry"@
    ||| name == "limit-rate"@
}

/// Whether a flag is followed by a value.
pub fn takes_value(name: &str) -> (r: bool)
    ensures
        r == wants_value(name@),
{
    str_eq(name, "url") || str_eq(name, "request") || str_eq(name, "header") || str_eq(name, "data")
        || str_eq(name, "data-raw") || str_eq(name, "data-ascii") || str_eq(name, "data-binary")
        || str_eq(name, "data-urlencode") || str_eq(name, "json") || str_eq(name, "user")
        || str_eq(name, "cookie") || str_eq(name, "user-agent") || str_eq(name, "referer")
        || str_eq(name, "output") || str_eq(name, "max-time") || str_eq(name, "connect-timeout")
        || str_eq(name, "write-out") || str_eq(name, "retry") || str_eq(name, "limit-rate")
}

/// The flag says how curl behaves rather than what it sends.
pub open spec fn no_effect(name: Seq<char>) -> bool {
    ||| name == "silent"@
    ||| name == "show-error"@
    ||| name == "verbose"@
    ||| name == "include"@
    ||| name == "insecure"@
    ||| name == "location"@
    ||| name == "compressed"@
    ||| name == "fail"@
    ||| name == "output"@
    ||| name == "max-time"@
    ||| name == "connect-timeout"@
    ||| name == "write-out"@
    ||| name == "retry"@
    ||| name == "limit-rate"@
}

/// Whether a flag is accepted and dropped. `--compressed` is one: the client
/// negotiates encoding itself, so a stored `Accept-Encoding` would claim something
/// that sending does not do.
pub fn is_ignored(name: &str) -> (r: bool)
    ensures
        r == no_effect(name@),
{
    str_eq(name, "silent") || str_eq(name, "show-error") || str_eq(name, "verbose") || str_eq(
        name,
        "include",
    ) || str_eq(name, "insecure") || str_eq(name, "location") || str_eq(name, "compressed")
        || str_eq(name, "fail") || str_eq(name, "output") || str_eq(name, "max-time")
        || str_eq(name, "connect-timeout") || str_eq(name, "write-out") || str_eq(name, "retry")
        || str_eq(name, "limit-rate")
}

/// The value of a flag, and the index of the word behind it: what is attached to
/// the flag, or else the next word.
pub open spec fn flag_value(
    display: Seq<char>,
    inline: Option<Seq<char>>,
    tokens: Seq<Seq<char>>,
    i: int,
) -> Result<(Seq<char>, int), Fault> {
    match inline {
        Some(v) => Ok((v, i)),
        None => if 0 <= i < tokens.len() {
            Ok((tokens[i], i + 1))
        } else {
            Err(Fault::MissingValue(display))
        },
    }
}

fn read_value(display: &str, inline: Option<String>, tokens: &Vec<String>, i: usize) -> (r: Result<
    (String, usize),
    CurlError,
>)
    requires
        i <= tokens.len(),
    ensures
        flag_value(display@, text_opt(inline), texts(tokens@), i as int) matches Ok(p) ==> (
        r matches Ok(q) && q.0@ == p.0 && q.1 == p.1 && q.1 <= tokens.len()),
        flag_value(display@, text_opt(inline), texts(tokens@), i as int) matches Err(f) ==> (
        r matches Err(e) && e@ == f),
{
    match inline {
        Some(v) => Ok((v, i)),
        None => {
            if i < tokens.len() {
                Ok((tokens[i].clone(), i + 1))
            } else {
                Err(CurlError::MissingValue(display.to_owned()))
            }
        },
    }
}

/// `Name: value`, or `Name;` for a header that is sent empty.
pub open spec fn header_split(raw: Seq<char>) -> Result<Row, Fault> {
    let colon = char_from(raw, ':', 0);
    if colon < raw.len() {
        Ok((trimmed(raw.take(colon)), trimmed(raw.skip(colon + 1))))
    } else if raw.len() > 0 && raw.last() == ';' {
        Ok((trimmed(raw.drop_last()), Seq::empty()))
    } else {
        Err(Fault::MalformedHeader(raw))
    }
}

/// Splits a header as it is written behind `-H`.
pub fn split_header(raw: &str) -> (r: Result<(String, String), CurlError>)
    ensures
        header_split(raw@) matches Ok(p) ==> (r matches Ok(q) && q.0@ == p.0 && q.1@ == p.1),
        header_split(raw@) matches Err(f) ==> (r matches Err(e) && e@ == f),
{
    let v = chars_of(raw);
    let colon: usize = find_char(&v, ':', 0);
    let n: usize = v.len();
    if colon < n {
        let name = slice_string(&v, 0, colon);
        let value = slice_string(&v, colon + 1, n);
        proof {
            assert(v@.subrange(0, colon as int) =~= raw@.take(colon as int));
            assert(v@.subrange(colon + 1, n as int) =~= raw@.skip(colon + 1));
        }
        return Ok((trim(name.as_str()), trim(value.as_str())));
    }
    if n > 0 && v[n - 1] == ';' {
        let name = slice_string(&v, 0, n - 1);
        proof {
            assert(v@.subrange(0, n - 1) =~= raw@.drop_last());
        }
        return Ok((trim(name.as_str()), String::new()));
    }
    Err(CurlError::MalformedHeader(raw.to_owned()))
}

/// `s` without the `c`s it begins with.
pub open spec fn without_leading(s: Seq<char>, c: char) -> Seq<char>
    decreases s.len(),
{
    if s.len() > 0 && s[0] == c {
        without_leading(s.drop_first(), c)
    } else {
        s
    }
}

fn strip_leading(s: &str, c: char) -> (r: String)
    ensures
        r@ == without_leading(s@, c),
{
    let v = chars_of(s);
    let mut i: usize = 0;
    proof {
        assert(v@.skip(0) =~= v@);
    }
    while i < v.len() && v[i] == c
        invariant
            i <= v.len(),
            v@ == s@,
            without_leading(v@.skip(i as int), c) == without_leading(s@, c),
        decreases v.len() - i,
    {
        proof {
            assert(v@.skip(i as int).drop_first() =~= v@.skip(i + 1));
        }
        i = i + 1;
    }
    proof {
        assert(v@.subrange(i as int, v@.len() as int) =~= v@.skip(i as int));
    }
    slice_string(&v, i, v.len())
}

/// The name and the content of a `--data-urlencode` value: split at the first
/// `=`, or content alone.
pub open spec fn urlencode_row(raw: Seq<char>) -> Row {
    let eq = char_from(raw, '=', 0);
    if eq < raw.len() {
        (raw.take(eq), raw.skip(eq + 1))
    } else {
        (Seq::empty(), raw)
    }
}

/// What `--data-urlencode` sends: the content form-encoded, behind the name where
/// there is one. The forms that name a file are refused.
pub open spec fn urlencoded(raw: Seq<char>, display: Seq<char>) -> Result<Seq<char>, Fault> {
    let at = char_from(raw, '@', 0);
    if at < raw.len() && !raw.take(at).contains('=') {
        Err(Fault::FileUrlencode(display))
    } else {
        match folded(placeholder_url(), seq![urlencode_row(raw)]) {
            None => Ok(Seq::empty()),
            Some(p) => Ok(encoded_form(urlencode_row(raw).0, p.1)),
        }
    }
}

/// An encoded pair as `--data-urlencode` writes it: a pair without a name is
/// written as its content alone, without the `=` before it.
pub open spec fn encoded_form(name: Seq<char>, encoded: Seq<char>) -> Seq<char> {
    if name.len() == 0 {
        without_leading(encoded, '=')
    } else {
        encoded
    }
}

/// Writes an encoded pair as `--data-urlencode` does.
pub fn format_encoded(name: &str, encoded: String) -> (r: String)
    ensures
        r@ == encoded_form(name@, encoded@),
{
    if name.is_empty() {
        strip_leading(encoded.as_str(), '=')
    } else {
        encoded
    }
}

/// curl's `--data-urlencode`, minus the `@file` forms.
pub fn urlencode_data(raw: &str, display: &str) -> (r: Result<String, CurlError>)
    ensures
        urlencoded(raw@, display@) matches Ok(s) ==> (r matches Ok(t) && t@ == s),
        urlencoded(raw@, display@) matches Err(f) ==> (r matches Err(e) && e@ == f),
{
    let v = chars_of(raw);
    let n: usize = v.len();
    let at: usize = find_char(&v, '@', 0);
    let eq: usize = find_char(&v, '=', 0);
    proof {
        lemma_char_from(raw@, '=', 0);
        assert(raw@.take(at as int).contains('=') <==> eq < at) by {
            if eq < at {
                assert(raw@.take(at as int)[eq as int] == '=');
            }
        }
    }
    if at < n && eq >= at {
        return Err(CurlError::FileUrlencode(display.to_owned()));
    }
    let (name, content) = if eq < n {
        proof {
            assert(v@.subrange(0, eq as int) =~= raw@.take(eq as int));
            assert(v@.subrange(eq + 1, n as int) =~= raw@.skip(eq + 1));
        }
        (slice_string(&v, 0, eq), slice_string(&v, eq + 1, n))
    } else {
        (String::new(), raw.to_owned())
    };
    let mut pairs: Vec<(String, String)> = Vec::new();
    pairs.push((name.clone(), content));
    proof {
        reveal_strlit("http://placeholder.invalid/");
        assert(rows_of(pairs@) =~= seq![urlencode_row(raw@)]);
    }
    match fold_pairs("http://placeholder.invalid/", &pairs) {
        Some(p) => Ok(format_encoded(name.as_str(), p.1)),
        None => Ok(String::new()),
    }
}

/// What a flag does to the parts, and the index of the word behind its value. The
/// `-d` family and `--json` read a leading `@` as the name of a file and are refused
/// there; `--data-raw` does not.
pub open spec fn flag_applied(
    name: Seq<char>,
    display: Seq<char>,
    inline: Option<Seq<char>>,
    tokens: Seq<Seq<char>>,
    i: int,
    parts: PartsView,
) -> Result<(int, PartsView), Fault> {
    if name == "get"@ {
        Ok((i, PartsView { get: true, ..parts }))
    } else if name == "head"@ {
        Ok((i, PartsView { head: true, ..parts }))
    } else if wants_value(name) {
        match flag_value(display, inline, tokens, i) {
            Err(f) => Err(f),
            Ok((v, next)) => match value_applied(name, display, v, parts) {
                Err(f) => Err(f),
                Ok(p) => Ok((next, p)),
            },
        }
    } else if no_effect(name) {
        Ok((i, parts))
    } else {
        Err(Fault::UnsupportedFlag(display))
    }
}

/// What a flag with the value `v` does to the parts.
pub open spec fn value_applied(
    name: Seq<char>,
    display: Seq<char>,
    v: Seq<char>,
    parts: PartsView,
) -> Result<PartsView, Fault> {
    if name == "url"@ {
        with_url(parts, v)
    } else if name == "request"@ {
        Ok(PartsView { method: Some(v), ..parts })
    } else if name == "header"@ {
        match header_split(v) {
            Err(f) => Err(f),
            Ok((n, w)) => Ok(PartsView { headers: with_header(parts.headers, n, w), ..parts }),
        }
    } else if name == "data"@ || name == "data-ascii"@ || name == "data-binary"@ {
        if v.len() > 0 && v[0] == '@' {
            Err(Fault::FileData(display, v.drop_first()))
        } else {
            Ok(PartsView { data: parts.data.push(v), ..parts })
        }
    } else if name == "data-raw"@ {
        Ok(PartsView { data: parts.data.push(v), ..parts })
    } else if name == "data-urlencode"@ {
        match urlencoded(v, display) {
            Err(f) => Err(f),
            Ok(s) => Ok(PartsView { data: parts.data.push(s), ..parts }),
        }
    } else if name == "json"@ {
        if v.len() > 0 && v[0] == '@' {
            Err(Fault::FileData(display, v.drop_first()))
        } else {
            Ok(
                PartsView {
                    data: parts.data.push(v),
                    headers: with_default_header(
                        with_default_header(parts.headers, "Content-Type"@, "application/json"@),
                        "Accept"@,
                        "application/json"@,
                    ),
                    ..parts
                },
            )
        }
    } else if name == "user"@ {
        if !v.contains(':') {
            Err(Fault::MissingPassword(display))
        } else {
            Ok(
                PartsView {
                    headers: with_header(
                        parts.headers,
                        "Authorization"@,
                        "Basic "@ + base64(encode_utf8(v)),
                    ),
                    ..parts
                },
            )
        }
    } else if name == "cookie"@ {
        if v.contains('=') || v.contains(';') {
            Ok(PartsView { headers: with_header(parts.headers, "Cookie"@, v), ..parts })
        } else {
            Err(Fault::CookieFile(display, v))
        }
    } else if name == "user-agent"@ {
        Ok(PartsView { headers: with_header(parts.headers, "User-Agent"@, v), ..parts })
    } else if name == "referer"@ {
        Ok(PartsView { headers: with_header(parts.headers, "Referer"@, v), ..parts })
    } else {
        Ok(parts)
    }
}

/// The file that a value names with a leading `@`.
fn file_named(v: &str) -> (r: Option<String>)
    ensures
        match r {
            Some(file) => v@.len() > 0 && v@[0] == '@' && file@ == v@.drop_first(),
            None => !(v@.len() > 0 && v@[0] == '@'),
        },
{
    let chars = chars_of(v);
    if chars.len() > 0 && chars[0] == '@' {
        let file = slice_string(&chars, 1, chars.len());
        proof {
            assert(chars@.subrange(1, chars@.len() as int) =~= v@.drop_first());
        }
        Some(file)
    } else {
        None
    }
}

/// Applies a flag whose value has been read.
fn apply_value(name: &str, display: &str, v: String, parts: &mut Parts) -> (r: Result<
    (),
    CurlError,
>)
    ensures
        value_applied(name@, display@, v@, old(parts)@) matches Ok(p) ==> r is Ok && final(parts)@
            == p,
        value_applied(name@, display@, v@, old(parts)@) matches Err(f) ==> (r matches Err(e) && e@
            == f) && final(parts)@ == old(parts)@,
{
    if str_eq(name, "url") {
        return parts.set_url(v.as_str());
    }
    if str_eq(name, "request") {
        parts.method = Some(v);
    } else if str_eq(name, "header") {
        match split_header(v.as_str()) {
            Err(e) => {
                return Err(e);
            },
            Ok(p) => {
                parts.push_header(p.0.as_str(), p.1.as_str());
            },
        }
    } else if str_eq(name, "data") || str_eq(name, "data-ascii") || str_eq(name, "data-binary") {
        match file_named(v.as_str()) {
            Some(file) => {
                return Err(CurlError::FileData(display.to_owned(), file));
            },
            None => {},
        }
        parts.push_data(v);
    } else if str_eq(name, "data-raw") {
        parts.push_data(v);
    } else if str_eq(name, "data-urlencode") {
        match urlencode_data(v.as_str(), display) {
            Err(e) => {
                return Err(e);
            },
            Ok(s) => {
                parts.push_data(s);
            },
        }
    } else if str_eq(name, "json") {
        match file_named(v.as_str()) {
            Some(file) => {
                return Err(CurlError::FileData(display.to_owned(), file));
            },
            None => {},
        }
        parts.push_data(v);
        parts.push_header_if_absent("Content-Type", "application/json");
        parts.push_header_if_absent("Accept", "application/json");
    } else if str_eq(name, "user") {
        if !contains_char(v.as_str(), ':') {
            return Err(CurlError::MissingPassword(display.to_owned()));
        }
        let encoded = base64_encode(v.as_str().as_bytes());
        let credentials = concat2("Basic ", encoded.as_str());
        parts.push_header("Authorization", credentials.as_str());
    } else if str_eq(name, "cookie") {
        if contains_char(v.as_str(), '=') || contains_char(v.as_str(), ';') {
            parts.push_header("Cookie", v.as_str());
        } else {
            return Err(CurlError::CookieFile(display.to_owned(), v));
        }
    } else if str_eq(name, "user-agent") {
        parts.push_header("User-Agent", v.as_str());
    } else if str_eq(name, "referer") {
        parts.push_header("Referer", v.as_str());
    }
    Ok(())
}

/// Applies one flag: to the parts collected so far, reading its value from behind
/// it where none is attached. Hands back the index of the next word.
pub fn apply_flag(
    name: &str,
    display: &str,
    inline: Option<String>,
    tokens: &Vec<String>,
    i: usize,
    parts: &mut Parts,
) -> (r: Result<usize, CurlError>)
    requires
        i <= tokens.len(),
    ensures
        flag_applied(
            name@,
            display@,
            text_opt(inline),
            texts(tokens@),
            i as int,
            old(parts)@,
        ) matches Ok(p) ==> (r matches Ok(next) && next == p.0 && final(parts)@ == p.1 && i <= next
            <= tokens.len()),
        flag_applied(
            name@,
            display@,
            text_opt(inline),
            texts(tokens@),
            i as int,
            old(parts)@,
        ) matches Err(f) ==> (r matches Err(e) && e@ == f) && final(parts)@ == old(parts)@,
{
    if str_eq(name, "get") {
        parts.get = true;
        return Ok(i);
    }
    if str_eq(name, "head") {
        parts.head = true;
        return Ok(i);
    }
    if takes_value(name) {
        match read_value(display, inline, tokens, i) {
            Err(e) => Err(e),
            Ok(p) => match apply_value(name, display, p.0, parts) {
                Err(e) => Err(e),
                Ok(_) => Ok(p.1),
            },
        }
    } else if is_ignored(name) {
        Ok(i)
    } else {
        Err(CurlError::UnsupportedFlag(display.to_owned()))
    }
}

/// What a run of short flags does from its letter `pos` on. The rest of the run is
/// the value of the first letter that wants one.
pub open spec fn bundle_applied(
    bundle: Seq<char>,
    pos: int,
    tokens: Seq<Seq<char>>,
    i: int,
    parts: PartsView,
) -> Result<(int, PartsView), Fault>
    decreases bundle.len() - pos,
{
    if pos >= bundle.len() {
        Ok((i, parts))
    } else {
        let display = seq!['-', bundle[pos]];
        match long_name(bundle[pos]) {
            None => Err(Fault::UnsupportedFlag(display)),
            Some(name) => if wants_value(name) {
                let rest = bundle.skip(pos + 1);
                let inline = if rest.len() == 0 {
                    None
                } else {
                    Some(rest)
                };
                flag_applied(name, display, inline, tokens, i, parts)
            } else {
                match flag_applied(name, display, None, tokens, i, parts) {
                    Err(f) => Err(f),
                    Ok((next, p)) => bundle_applied(bundle, pos + 1, tokens, next, p),
                }
            },
        }
    }
}

/// The parts as a run of short flags leaves them: what its letters did up to the one
/// that is refused.
pub open spec fn bundle_reached(
    bundle: Seq<char>,
    pos: int,
    tokens: Seq<Seq<char>>,
    i: int,
    parts: PartsView,
) -> PartsView
    decreases bundle.len() - pos,
{
    if pos >= bundle.len() {
        parts
    } else {
        let display = seq!['-', bundle[pos]];
        match long_name(bundle[pos]) {
            None => parts,
            Some(name) => if wants_value(name) {
                match bundle_applied(bundle, pos, tokens, i, parts) {
                    Err(_) => parts,
                    Ok((_, p)) => p,
                }
            } else {
                match flag_applied(name, display, None, tokens, i, parts) {
                    Err(_) => parts,
                    Ok((next, p)) => bundle_reached(bundle, pos + 1, tokens, next, p),
                }
            },
        }
    }
}

pub proof fn lemma_bundle_applied(
    bundle: Seq<char>,
    pos: int,
    tokens: Seq<Seq<char>>,
    i: int,
    parts: PartsView,
)
    requires
        0 <= i <= tokens.len(),
    ensures
        bundle_applied(bundle, pos, tokens, i, parts) matches Ok(p) ==> i <= p.0 <= tokens.len(),
    decreases bundle.len() - pos,
{
    if pos < bundle.len() {
        let display = seq!['-', bundle[pos]];
        match long_name(bundle[pos]) {
            None => {},
            Some(name) => {
                if !wants_value(name) {
                    match flag_applied(name, display, None, tokens, i, parts) {
                        Err(f) => {},
                        Ok((next, p)) => {
                            lemma_bundle_applied(bundle, pos + 1, tokens, next, p);
                        },
                    }
                }
            },
        }
    }
}

/// Expands a run of short flags (`-sSL`, `-XPOST`) one letter at a time, so that
/// an unsupported letter inside an otherwise fine run is an error.
pub fn apply_short_bundle(bundle: &Vec<char>, tokens: &Vec<String>, i: usize, parts: &mut Parts) -> (r:
    Result<usize, CurlError>)
    requires
        i <= tokens.len(),
    ensures
        bundle_applied(bundle@, 0, texts(tokens@), i as int, old(parts)@) matches Ok(p) ==> (
        r matches Ok(next) && next == p.0 && final(parts)@ == p.1 && i <= next <= tokens.len()),
        bundle_applied(bundle@, 0, texts(tokens@), i as int, old(parts)@) matches Err(f) ==> (
        r matches Err(e) && e@ == f),
        final(parts)@ == bundle_reached(bundle@, 0, texts(tokens@), i as int, old(parts)@),
{
    let mut pos: usize = 0;
    let mut at: usize = i;
    let ghost whole = bundle_applied(bundle@, 0, texts(tokens@), i as int, parts@);
    while pos < bundle.len()
        invariant
            pos <= bundle.len(),
            i <= at <= tokens.len(),
            whole == bundle_applied(bundle@, 0, texts(tokens@), i as int, old(parts)@),
            bundle_applied(bundle@, pos as int, texts(tokens@), at as int, parts@) == whole,
            bundle_reached(bundle@, pos as int, texts(tokens@), at as int, parts@)
                == bundle_reached(bundle@, 0, texts(tokens@), i as int, old(parts)@),
        decreases bundle.len() - pos,
    {
        let ch = bundle[pos];
        let mut display = String::new();
        display.push('-');
        display.push(ch);
        proof {
            assert(display@ =~= seq!['-', ch]);
        }
        match short_to_long(ch) {
            None => {
                return Err(CurlError::UnsupportedFlag(display));
            },
            Some(name) => {
                if takes_value(name) {
                    let rest = slice_string(bundle, pos + 1, bundle.len());
                    proof {
                        assert(bundle@.subrange(pos + 1, bundle@.len() as int) =~= bundle@.skip(
                            pos + 1,
                        ));
                    }
                    let inline: Option<String> = if pos + 1 == bundle.len() {
                        None
                    } else {
                        Some(rest)
                    };
                    return apply_flag(name, display.as_str(), inline, tokens, at, parts);
                }
                match apply_flag(name, display.as_str(), None, tokens, at, parts) {
                    Err(e) => {
                        return Err(e);
                    },
                    Ok(next) => {
                        at = next;
                    },
                }
            },
        }
        pos = pos + 1;
    }
    Ok(at)
}

/// A long flag as it is written: its name, and the value attached with `=`.
pub open spec fn long_split(body: Seq<char>) -> (Seq<char>, Option<Seq<char>>) {
    let eq = char_from(body, '=', 0);
    if eq < body.len() {
        (body.take(eq), Some(body.skip(eq + 1)))
    } else {
        (body, None)
    }
}

/// What one word does to the parts; `next` is the index of the word behind it.
pub open spec fn word_applied(
    word: Seq<char>,
    tokens: Seq<Seq<char>>,
    next: int,
    parts: PartsView,
) -> Result<(int, PartsView), Fault> {
    if word.len() >= 2 && word[0] == '-' && word[1] == '-' {
        let (name, inline) = long_split(word.skip(2));
        flag_applied(name, "--"@ + name, inline, tokens, next, parts)
    } else if word.len() >= 2 && word[0] == '-' {
        bundle_applied(word.skip(1), 0, tokens, next, parts)
    } else {
        match with_url(parts, word) {
            Err(f) => Err(f),
            Ok(p) => Ok((next, p)),
        }
    }
}

/// What the words from index `i` on add to the parts.
pub open spec fn words_applied(tokens: Seq<Seq<char>>, i: int, parts: PartsView) -> Result<
    PartsView,
    Fault,
>
    decreases tokens.len() - i,
    via words_applied_shrinks
{
    if i < 0 || i >= tokens.len() {
        Ok(parts)
    } else {
        match word_applied(tokens[i], tokens, i + 1, parts) {
            Err(f) => Err(f),
            Ok((next, p)) => words_applied(tokens, next, p),
        }
    }
}

#[via_fn]
proof fn words_applied_shrinks(tokens: Seq<Seq<char>>, i: int, parts: PartsView) {
    if 0 <= i < tokens.len() {
        lemma_bundle_applied(tokens[i].skip(1), 0, tokens, i + 1, parts);
    }
}

fn apply_word(word: &str, tokens: &Vec<String>, next: usize, parts: &mut Parts) -> (r: Result<
    usize,
    CurlError,
>)
    requires
        next <= tokens.len(),
    ensures
        word_applied(word@, texts(tokens@), next as int, old(parts)@) matches Ok(p) ==> (
        r matches Ok(n) && n == p.0 && final(parts)@ == p.1 && next <= n <= tokens.len()),
        word_applied(word@, texts(tokens@), next as int, old(parts)@) matches Err(f) ==> (
        r matches Err(e) && e@ == f),
{
    let v = chars_of(word);
    let n: usize = v.len();
    if n >= 2 && v[0] == '-' && v[1] == '-' {
        let eq: usize = find_char(&v, '=', 2);
        proof {
            lemma_char_from_skip(v@, '=', 2, 0);
            lemma_char_from(v@, '=', 2);
            assert(v@.subrange(2, eq as int) =~= v@.skip(2).take(eq - 2));
            if eq < n {
                assert(v@.subrange(eq + 1, n as int) =~= v@.skip(2).skip(eq - 2 + 1));
            } else {
                assert(v@.skip(2).take(eq - 2) =~= v@.skip(2));
            }
        }
        let name = slice_string(&v, 2, eq);
        let display = concat2("--", name.as_str());
        let inline: Option<String> = if eq < n {
            Some(slice_string(&v, eq + 1, n))
        } else {
            None
        };
        return apply_flag(name.as_str(), display.as_str(), inline, tokens, next, parts);
    }
    if n >= 2 && v[0] == '-' {
        let letters = slice_string(&v, 1, n);
        let bundle = chars_of(letters.as_str());
        proof {
            assert(v@.subrange(1, n as int) =~= v@.skip(1));
        }
        return apply_short_bundle(&bundle, tokens, next, parts);
    }
    match parts.set_url(word) {
        Err(e) => Err(e),
        Ok(_) => Ok(next),
    }
}

/// Searching behind a prefix finds the same place.
proof fn lemma_char_from_skip(s: Seq<char>, c: char, k: int, from: int)
    requires
        0 <= k,
        0 <= from,
        k + from <= s.len(),
    ensures
        char_from(s, c, k + from) == k + char_from(s.skip(k), c, from),
    decreases s.len() - from,
{
    if k + from < s.len() && s[k + from] != c {
        lemma_char_from_skip(s, c, k, from + 1);
    }
}

// ─── From parts to a request ──────────────────────────────────────────────────

/// Two rows go by one name.
pub open spec fn names_repeat(rows: Seq<Row>) -> bool {
    exists|i: int, j: int| 0 <= i < j < rows.len() && rows[i].0 == rows[j].0
}

/// The map that the rows make, a later row in place of an earlier one of its name.
pub open spec fn collected(rows: Seq<Row>) -> TextMap
    decreases rows.len(),
{
    if rows.len() == 0 {
        Map::empty()
    } else {
        collected(rows.drop_last()).insert(rows.last().0, rows.last().1)
    }
}

pub proof fn lemma_collected_names(rows: Seq<Row>, k: Seq<char>)
    ensures
        collected(rows).dom().contains(k) <==> exists|i: int|
            0 <= i < rows.len() && #[trigger] rows[i].0 == k,
    decreases rows.len(),
{
    if rows.len() > 0 {
        let front = rows.drop_last();
        lemma_collected_names(front, k);
        if collected(front).dom().contains(k) {
            let i = choose|i: int| 0 <= i < front.len() && #[trigger] front[i].0 == k;
            assert(rows[i].0 == k);
        }
        if rows.last().0 == k {
            assert(rows[rows.len() - 1].0 == k);
        }
        if exists|i: int| 0 <= i < rows.len() && #[trigger] rows[i].0 == k {
            let i = choose|i: int| 0 <= i < rows.len() && #[trigger] rows[i].0 == k;
            if i < front.len() {
                assert(front[i].0 == k);
            }
        }
    }
}

/// Collects pairs into a map.
pub fn collect_pairs(pairs: &Vec<(String, String)>) -> (r: StrMap)
    ensures
        r@ == collected(rows_of(pairs@)),
{
    let mut map = StrMap::new();
    let mut i: usize = 0;
    let ghost rows = rows_of(pairs@);
    while i < pairs.len()
        invariant
            i <= pairs.len(),
            rows == rows_of(pairs@),
            map@ == collected(rows.take(i as int)),
        decreases pairs.len() - i,
    {
        let p = &pairs[i];
        proof {
            assert(rows.take(i + 1).drop_last() =~= rows.take(i as int));
            assert(rows[i as int] == (p.0@, p.1@));
        }
        map.insert(p.0.clone(), p.1.clone());
        i = i + 1;
    }
    proof {
        assert(rows.take(pairs@.len() as int) =~= rows);
    }
    map
}

/// A URL and the query lifted off it, given what its query decodes to. A repeated
/// name keeps the query on the URL, where every value survives.
pub open spec fn lifted_with(url: Seq<char>, at: int, pairs: Option<Seq<Row>>) -> (
    Seq<char>,
    TextMap,
) {
    match pairs {
        None => (url, Map::empty()),
        Some(rows) => if names_repeat(rows) {
            (url, Map::empty())
        } else {
            (url.take(at), collected(rows))
        },
    }
}

/// A URL and the query lifted off it. A URL with placeholders or a fragment is not
/// taken apart.
pub open spec fn lifted(url: Seq<char>) -> (Seq<char>, TextMap) {
    let at = char_from(url, '?', 0);
    let query = url.skip(at + 1);
    if at >= url.len() || query.len() == 0 || occurs(url, "{{"@) || url.contains('#') {
        (url, Map::empty())
    } else {
        lifted_with(url, at, url_pairs(placeholder_url() + "?"@ + query))
    }
}

/// Takes the query off a URL, given what it decodes to.
pub fn lift_pairs(url: &str, at: usize, pairs: Option<Vec<(String, String)>>) -> (r: (
    String,
    StrMap,
))
    requires
        at <= url@.len(),
    ensures
        (r.0@, r.1@) == lifted_with(
            url@,
            at as int,
            match pairs {
                Some(v) => Some(rows_of(v@)),
                None => None,
            },
        ),
{
    match pairs {
        None => (url.to_owned(), StrMap::new()),
        Some(found) => {
            let mut map = StrMap::new();
            let mut i: usize = 0;
            let ghost rows = rows_of(found@);
            while i < found.len()
                invariant
                    i <= found.len(),
                    rows == rows_of(found@),
                    pairs is Some && rows_of(pairs->0@) == rows,
                    map@ == collected(rows.take(i as int)),
                    !names_repeat(rows.take(i as int)),
                decreases found.len() - i,
            {
                let p = &found[i];
                proof {
                    assert(rows.take(i + 1).drop_last() =~= rows.take(i as int));
                    assert(rows[i as int] == (p.0@, p.1@));
                    lemma_collected_names(rows.take(i as int), p.0@);
                }
                if map.contains_key(p.0.as_str()) {
                    proof {
                        let j = choose|j: int|
                            0 <= j < i && #[trigger] rows.take(i as int)[j].0 == p.0@;
                        assert(rows[j].0 == rows[i as int].0);
                        assert(names_repeat(rows));
                    }
                    return (url.to_owned(), StrMap::new());
                }
                map.insert(p.0.clone(), p.1.clone());
                proof {
                    let t = rows.take(i + 1);
                    if names_repeat(t) {
                        let (a, b) = choose|a: int, b: int|
                            0 <= a < b < t.len() && t[a].0 == t[b].0;
                        if b < i {
                            assert(rows.take(i as int)[a].0 == rows.take(i as int)[b].0);
                        } else {
                            assert(rows.take(i as int)[a].0 == p.0@);
                        }
                    }
                }
                i = i + 1;
            }
            proof {
                assert(rows.take(found@.len() as int) =~= rows);
                assert(url@.subrange(0, at as int) =~= url@.take(at as int));
            }
            let v = chars_of(url);
            (slice_string(&v, 0, at), map)
        },
    }
}

/// Splits a query string off the URL and decodes it into a map, undoing the
/// folding that rendering does, wherever that loses nothing.
pub fn lift_query(url: &str) -> (r: (String, StrMap))
    ensures
        (r.0@, r.1@) == lifted(url@),
{
    let v = chars_of(url);
    let n: usize = v.len();
    let at: usize = find_char(&v, '?', 0);
    if at >= n {
        return (url.to_owned(), StrMap::new());
    }
    let query = slice_string(&v, at + 1, n);
    proof {
        assert(v@.subrange(at + 1, n as int) =~= url@.skip(at + 1));
    }
    if query.as_str().is_empty() || contains(url, "{{") || contains_char(url, '#') {
        return (url.to_owned(), StrMap::new());
    }
    let full = concat3("http://placeholder.invalid/", "?", query.as_str());
    let pairs = read_pairs(full.as_str());
    lift_pairs(url, at, pairs)
}

/// The URL with `-G`'s data moved onto its query string.
pub open spec fn target_url(url: Seq<char>, get: bool, data: Seq<char>) -> Seq<char> {
    if get && data.len() > 0 {
        url + (if url.contains('?') {
            "&"@
        } else {
            "?"@
        }) + data
    } else {
        url
    }
}

/// curl's own rules: an explicit method wins, `-I` means HEAD, a body means POST,
/// everything else is GET.
pub open spec fn method_of(parts: PartsView) -> Seq<char> {
    match parts.method {
        Some(m) => uppercase(m),
        None => if parts.head {
            "HEAD"@
        } else if !parts.get && parts.data.len() > 0 {
            "POST"@
        } else {
            "GET"@
        },
    }
}

/// The request the parts describe. A content type belongs to the body where there
/// is one, and to the headers where there is none.
pub open spec fn finished(parts: PartsView) -> Result<RequestView, Fault> {
    match parts.url {
        None => Err(Fault::NoUrl),
        Some(url) => {
            let data = joined(parts.data, "&"@);
            let has_body = !parts.get && parts.data.len() > 0;
            let at = header_from(parts.headers, "Content-Type"@, 0);
            let typed = has_body && at < parts.headers.len();
            let (url, query) = lifted(target_url(url, parts.get, data));
            Ok(
                RequestView {
                    name: Seq::empty(),
                    method: method_of(parts),
                    url,
                    description: None,
                    headers: collected(
                        if typed {
                            parts.headers.remove(at)
                        } else {
                            parts.headers
                        },
                    ),
                    query,
                    body: if has_body {
                        Some(
                            BodyView {
                                content_type: if typed {
                                    parts.headers[at].1
                                } else {
                                    "application/x-www-form-urlencoded"@
                                },
                                data,
                            },
                        )
                    } else {
                        None
                    },
                    extract: None,
                    profiles: None,
                },
            )
        },
    }
}

impl Parts {
    /// Turns the parts into a request.
    pub fn finish(self) -> (r: Result<RequestConfig, CurlError>)
        ensures
            finished(self@) matches Ok(c) ==> (r matches Ok(d) && d@ == c),
            finished(self@) matches Err(f) ==> (r matches Err(e) && e@ == f),
    {
        let mut parts = self;
        let given = match &parts.url {
            None => {
                return Err(CurlError::NoUrl);
            },
            Some(u) => u.clone(),
        };
        let has_data = parts.data.len() > 0;
        let data = join(&parts.data, "&");
        let url = if parts.get && !data.as_str().is_empty() {
            let separator = if contains_char(given.as_str(), '?') {
                "&"
            } else {
                "?"
            };
            concat3(given.as_str(), separator, data.as_str())
        } else {
            given
        };
        let has_body = !parts.get && has_data;
        let method = match &parts.method {
            Some(m) => to_uppercase(m.as_str()),
            None => {
                if parts.head {
                    "HEAD".to_owned()
                } else if has_body {
                    "POST".to_owned()
                } else {
                    "GET".to_owned()
                }
            },
        };
        let body: Option<Body> = if has_body {
            let content_type = match parts.take_header("Content-Type") {
                Some(t) => t,
                None => "application/x-www-form-urlencoded".to_owned(),
            };
            Some(Body { content_type, data })
        } else {
            None
        };
        let (bare, query) = lift_query(url.as_str());
        Ok(
            RequestConfig {
                name: String::new(),
                method,
                url: bare,
                description: None,
                headers: collect_pairs(&parts.headers),
                query,
                body,
                extract: None,
                profiles: None,
            },
        )
    }
}

/// A command without the prompt it was copied with.
pub open spec fn without_prompt(s: Seq<char>) -> Seq<char> {
    if s.len() >= 2 && (s[0] == '$' || s[0] == '%') && s[1] == ' ' {
        s.skip(2)
    } else {
        s
    }
}

/// Takes off the prompt that a command was copied with.
pub fn strip_prompt(input: &str) -> (r: String)
    ensures
        r@ == without_prompt(input@),
{
    let v = chars_of(input);
    if v.len() >= 2 && (v[0] == '$' || v[0] == '%') && v[1] == ' ' {
        proof {
            assert(v@.subrange(2, v@.len() as int) =~= v@.skip(2));
        }
        slice_string(&v, 2, v.len())
    } else {
        string_of(&v)
    }
}

/// The request that a list of words describes.
pub open spec fn command_read(words: Seq<Seq<char>>) -> Result<RequestView, Fault> {
    if words.len() == 0 {
        Err(Fault::NoCommand)
    } else if words[0] != "curl"@ {
        Err(Fault::NotCurl(words[0]))
    } else {
        match words_applied(words, 1, no_parts()) {
            Err(f) => Err(f),
            Ok(parts) => finished(parts),
        }
    }
}

/// The request that a pasted command describes.
pub open spec fn imported(input: Seq<char>) -> Result<RequestView, Fault> {
    match words(without_prompt(trimmed(input))) {
        Err(f) => Err(f),
        Ok(w) => command_read(w),
    }
}

/// Parses a cURL command into a request. The name is left empty, since a command
/// does not carry one; so are the description, the profiles and what to extract.
/// An unrecognized flag is an error rather than a silent skip.
pub fn from_curl(input: &str) -> (r: Result<RequestConfig, CurlError>)
    ensures
        imported(input@) matches Ok(c) ==> (r matches Ok(d) && d@ == c),
        imported(input@) matches Err(f) ==> (r matches Err(e) && e@ == f),
{
    let bare = strip_prompt(trim(input).as_str());
    let tokens = match tokenize(bare.as_str()) {
        Err(e) => {
            return Err(e);
        },
        Ok(t) => t,
    };
    if tokens.len() == 0 {
        return Err(CurlError::NoCommand);
    }
    proof {
        assert(texts(tokens@)[0] == tokens@[0]@);
    }
    if !str_eq(tokens[0].as_str(), "curl") {
        return Err(CurlError::NotCurl(tokens[0].clone()));
    }
    let mut parts = Parts::new();
    let mut i: usize = 1;
    let ghost whole = words_applied(texts(tokens@), 1, no_parts());
    while i < tokens.len()
        invariant
            1 <= i <= tokens.len(),
            words(without_prompt(trimmed(input@))) == Ok::<Seq<Seq<char>>, Fault>(texts(tokens@)),
            texts(tokens@)[0] == "curl"@,
            whole == words_applied(texts(tokens@), 1, no_parts()),
            words_applied(texts(tokens@), i as int, parts@) == whole,
        decreases tokens.len() - i,
    {
        proof {
            assert(texts(tokens@)[i as int] == tokens@[i as int]@);
        }
        match apply_word(tokens[i].as_str(), &tokens, i + 1, &mut parts) {
            Err(e) => {
                return Err(e);
            },
            Ok(next) => {
                i = next;
            },
        }
    }
    parts.finish()
}

} // verus!
