//! Shell quoting, both ways: splitting a command into words, and quoting a value
//! so that a shell reproduces it.
use vstd::prelude::*;
use vstd::string::*;
use vstd::utf8::*;

use crate::curl_error::{CurlError, Fault};
use crate::text::{
    joined, char_from, chars_of, find_char, is_white, lemma_char_from, slice_string, texts, white,
};

verus! {

// ─── Outside calls ────────────────────────────────────────────────────────────

/// `String::from_utf8`: the text whose UTF-8 form the bytes are, exactly where
/// they are the UTF-8 form of some text.
#[verifier::external_body]
fn text_from_utf8(bytes: Vec<u8>) -> (r: Option<String>)
    ensures
        r is Some <==> valid_utf8(bytes@),
        r matches Some(s) ==> encode_utf8(s@) == bytes@,
{
    String::from_utf8(bytes).ok()
}

// ─── Quoting ──────────────────────────────────────────────────────────────────

/// `s` with each single quote replaced by one that stands outside the quotes.
pub open spec fn quotes_escaped(s: Seq<char>) -> Seq<char>
    decreases s.len(),
{
    if s.len() == 0 {
        s
    } else if s.last() == '\'' {
        quotes_escaped(s.drop_last()) + seq!['\'', '\\', '\'', '\'']
    } else {
        quotes_escaped(s.drop_last()).push(s.last())
    }
}

/// `s` in single quotes.
pub open spec fn quoted(s: Seq<char>) -> Seq<char> {
    seq!['\''] + quotes_escaped(s) + seq!['\'']
}

/// Wraps a value in single quotes so the shell reproduces it literally. Single
/// quotes suppress every form of expansion, so the only character needing care
/// is a single quote itself: close, emit an escaped one, reopen.
pub fn shell_quote(s: &str) -> (r: String)
    ensures
        r@ == quoted(s@),
{
    let v = chars_of(s);
    let mut r = String::new();
    r.push('\'');
    let mut i: usize = 0;
    proof {
        assert(r@ =~= seq!['\''] + quotes_escaped(v@.take(0)));
    }
    while i < v.len()
        invariant
            i <= v.len(),
            v@ == s@,
            r@ == seq!['\''] + quotes_escaped(v@.take(i as int)),
        decreases v.len() - i,
    {
        proof {
            assert(v@.take(i + 1).drop_last() =~= v@.take(i as int));
        }
        if v[i] == '\'' {
            r.push('\'');
            r.push('\\');
            r.push('\'');
            r.push('\'');
        } else {
            r.push(v[i]);
        }
        proof {
            assert(r@ =~= seq!['\''] + quotes_escaped(v@.take(i + 1)));
        }
        i = i + 1;
    }
    proof {
        assert(v@.take(v@.len() as int) =~= v@);
    }
    r.push('\'');
    proof {
        assert(r@ =~= quoted(s@));
    }
    r
}

// ─── Double quotes ────────────────────────────────────────────────────────────

/// What a double-quoted run that goes on at `i` adds to `acc`, and the index
/// behind its closing quote. The shell unescapes four characters in it and drops
/// an escaped newline; any other backslash stays.
pub open spec fn double_quoted(s: Seq<char>, i: int, acc: Seq<char>) -> Option<(Seq<char>, int)>
    decreases s.len() - i,
{
    if i >= s.len() {
        None
    } else if s[i] == '"' {
        Some((acc, i + 1))
    } else if s[i] == '\\' {
        if i + 1 >= s.len() {
            None
        } else if s[i + 1] == '"' || s[i + 1] == '\\' || s[i + 1] == '`' || s[i + 1] == '$' {
            double_quoted(s, i + 2, acc.push(s[i + 1]))
        } else if s[i + 1] == '\n' {
            double_quoted(s, i + 2, acc)
        } else {
            double_quoted(s, i + 2, acc.push('\\').push(s[i + 1]))
        }
    } else {
        double_quoted(s, i + 1, acc.push(s[i]))
    }
}

proof fn lemma_double_quoted(s: Seq<char>, i: int, acc: Seq<char>)
    ensures
        double_quoted(s, i, acc) matches Some(p) ==> i < p.1 <= s.len(),
    decreases s.len() - i,
{
    if i < s.len() && s[i] != '"' {
        if s[i] == '\\' {
            if i + 1 < s.len() {
                lemma_double_quoted(s, i + 2, acc.push(s[i + 1]));
                lemma_double_quoted(s, i + 2, acc);
                lemma_double_quoted(s, i + 2, acc.push('\\').push(s[i + 1]));
            }
        } else {
            lemma_double_quoted(s, i + 1, acc.push(s[i]));
        }
    }
}

/// Reads on in a double-quoted run, from behind its opening quote.
pub fn read_double_quoted(v: &Vec<char>, start: usize, out: &mut String) -> (r: Result<
    usize,
    CurlError,
>)
    requires
        start <= v.len(),
    ensures
        double_quoted(v@, start as int, old(out)@) matches Some(p) ==> (r matches Ok(next) && next
            == p.1 && final(out)@ == p.0 && start < next <= v.len()),
        double_quoted(v@, start as int, old(out)@) is None ==> (r matches Err(e) && e@
            == Fault::OpenDoubleQuote) && final(out)@ == old(out)@,
{
    let mut text = out.clone();
    let mut i: usize = start;
    let ghost whole = double_quoted(v@, start as int, out@);
    while i < v.len()
        invariant
            start <= i <= v.len(),
            out@ == old(out)@,
            whole == double_quoted(v@, start as int, old(out)@),
            double_quoted(v@, i as int, text@) == whole,
        decreases v.len() - i,
    {
        if v[i] == '"' {
            *out = text;
            return Ok(i + 1);
        }
        if v[i] == '\\' {
            if v.len() - i < 2 {
                return Err(CurlError::OpenDoubleQuote);
            }
            let c = v[i + 1];
            if c == '"' || c == '\\' || c == '`' || c == '$' {
                text.push(c);
            } else if c == '\n' {
            } else {
                text.push('\\');
                text.push(c);
            }
            i = i + 2;
        } else {
            text.push(v[i]);
            i = i + 1;
        }
    }
    Err(CurlError::OpenDoubleQuote)
}

// ─── ANSI-C quotes ────────────────────────────────────────────────────────────

/// The byte a one-letter escape in `$'…'` stands for.
pub open spec fn simple_escape(c: char) -> Option<u8> {
    if c == 'n' {
        Some(0x0a)
    } else if c == 't' {
        Some(0x09)
    } else if c == 'r' {
        Some(0x0d)
    } else if c == 'a' {
        Some(0x07)
    } else if c == 'b' {
        Some(0x08)
    } else if c == 'f' {
        Some(0x0c)
    } else if c == 'v' {
        Some(0x0b)
    } else if c == 'e' {
        Some(0x1b)
    } else if c == '\\' {
        Some(0x5c)
    } else if c == '\'' {
        Some(0x27)
    } else if c == '"' {
        Some(0x22)
    } else {
        None
    }
}

fn escape_byte(c: char) -> (r: Option<u8>)
    ensures
        r == simple_escape(c),
{
    match c {
        'n' => Some(0x0a),
        't' => Some(0x09),
        'r' => Some(0x0d),
        'a' => Some(0x07),
        'b' => Some(0x08),
        'f' => Some(0x0c),
        'v' => Some(0x0b),
        'e' => Some(0x1b),
        '\\' => Some(0x5c),
        '\'' => Some(0x27),
        '"' => Some(0x22),
        _ => None,
    }
}

/// The value of a hex digit.
pub open spec fn hex_digit(c: char) -> Option<u8> {
    if '0' <= c <= '9' {
        Some((c as u32 - 48) as u8)
    } else if 'a' <= c <= 'f' {
        Some((c as u32 - 87) as u8)
    } else if 'A' <= c <= 'F' {
        Some((c as u32 - 55) as u8)
    } else {
        None
    }
}

/// The value of a hex digit, for a character that is one.
pub fn hex_value(c: char) -> (r: Option<u8>)
    ensures
        r == hex_digit(c),
        r matches Some(d) ==> d < 16,
{
    if '0' <= c && c <= '9' {
        Some((c as u8) - 48)
    } else if 'a' <= c && c <= 'f' {
        Some((c as u8) - 87)
    } else if 'A' <= c && c <= 'F' {
        Some((c as u8) - 55)
    } else {
        None
    }
}

/// The bytes of a `$'…'` run that goes on at `i`, after `acc`, and the index
/// behind its closing quote. Bytes rather than characters, so that a run of
/// `\xNN` escapes spelling a multi-byte character reassembles into it.
pub open spec fn ansi_bytes(s: Seq<char>, i: int, acc: Seq<u8>) -> Result<(Seq<u8>, int), Fault>
    decreases s.len() - i,
{
    if i >= s.len() {
        Err(Fault::OpenAnsiQuote)
    } else if s[i] == '\'' {
        Ok((acc, i + 1))
    } else if s[i] == '\\' {
        if i + 1 >= s.len() {
            Err(Fault::OpenAnsiQuote)
        } else if simple_escape(s[i + 1]) is Some {
            ansi_bytes(s, i + 2, acc.push(simple_escape(s[i + 1])->0))
        } else if s[i + 1] == 'x' {
            if i + 2 < s.len() && hex_digit(s[i + 2]) is Some {
                let high = hex_digit(s[i + 2])->0;
                if i + 3 < s.len() && hex_digit(s[i + 3]) is Some {
                    let low = hex_digit(s[i + 3])->0;
                    ansi_bytes(s, i + 4, acc.push((16 * high + low) as u8))
                } else {
                    ansi_bytes(s, i + 3, acc.push(high))
                }
            } else {
                Err(Fault::NoHexDigits)
            }
        } else {
            ansi_bytes(s, i + 2, acc + encode_scalar(s[i + 1] as u32))
        }
    } else {
        ansi_bytes(s, i + 1, acc + encode_scalar(s[i] as u32))
    }
}

proof fn lemma_ansi_bytes(s: Seq<char>, i: int, acc: Seq<u8>)
    ensures
        ansi_bytes(s, i, acc) matches Ok(p) ==> i < p.1 <= s.len(),
    decreases s.len() - i,
{
    if i < s.len() && s[i] != '\'' {
        if s[i] == '\\' {
            if i + 1 < s.len() {
                let c = s[i + 1];
                if simple_escape(c) is Some {
                    lemma_ansi_bytes(s, i + 2, acc.push(simple_escape(c)->0));
                } else if c == 'x' {
                    if i + 2 < s.len() && hex_digit(s[i + 2]) is Some {
                        let high = hex_digit(s[i + 2])->0;
                        if i + 3 < s.len() && hex_digit(s[i + 3]) is Some {
                            let low = hex_digit(s[i + 3])->0;
                            lemma_ansi_bytes(s, i + 4, acc.push((16 * high + low) as u8));
                        } else {
                            lemma_ansi_bytes(s, i + 3, acc.push(high));
                        }
                    }
                } else {
                    lemma_ansi_bytes(s, i + 2, acc + encode_scalar(c as u32));
                }
            }
        } else {
            lemma_ansi_bytes(s, i + 1, acc + encode_scalar(s[i] as u32));
        }
    }
}

/// A `$'…'` run that goes on at `i`: its text and the index behind its closing
/// quote.
pub open spec fn ansi_quoted(s: Seq<char>, i: int) -> Result<(Seq<char>, int), Fault> {
    match ansi_bytes(s, i, Seq::empty()) {
        Err(f) => Err(f),
        Ok((bytes, next)) => if valid_utf8(bytes) {
            Ok((decode_utf8(bytes), next))
        } else {
            Err(Fault::NotUtf8)
        },
    }
}

/// Appends the UTF-8 form of a character.
fn push_utf8(bytes: &mut Vec<u8>, c: char)
    ensures
        final(bytes)@ == old(bytes)@ + encode_scalar(c as u32),
{
    let n: u32 = c as u32;
    let ghost before = bytes@;
    if n <= 0x7f {
        bytes.push((n & 0x7f) as u8);
        proof {
            assert(bytes@ =~= before + encode_scalar(n));
        }
    } else if n <= 0x7ff {
        bytes.push(0xc0 | ((n >> 6) & 0x1f) as u8);
        bytes.push(0x80 | (n & 0x3f) as u8);
        proof {
            assert(bytes@ =~= before + encode_scalar(n));
        }
    } else if n <= 0xffff {
        bytes.push(0xe0 | ((n >> 12) & 0x0f) as u8);
        bytes.push(0x80 | ((n >> 6) & 0x3f) as u8);
        bytes.push(0x80 | (n & 0x3f) as u8);
        proof {
            char_is_scalar(c);
            assert(bytes@ =~= before + encode_scalar(n));
        }
    } else {
        bytes.push(0xf0 | ((n >> 18) & 0x7) as u8);
        bytes.push(0x80 | ((n >> 12) & 0x3f) as u8);
        bytes.push(0x80 | ((n >> 6) & 0x3f) as u8);
        bytes.push(0x80 | (n & 0x3f) as u8);
        proof {
            assert(bytes@ =~= before + encode_scalar(n));
        }
    }
}

/// Reads a `$'…'` run, from behind its opening quote.
pub fn read_ansi_c_quoted(v: &Vec<char>, start: usize, out: &mut String) -> (r: Result<
    usize,
    CurlError,
>)
    requires
        start <= v.len(),
    ensures
        ansi_quoted(v@, start as int) matches Ok(p) ==> (r matches Ok(next) && next == p.1
            && final(out)@ == old(out)@ + p.0 && start < next <= v.len()),
        ansi_quoted(v@, start as int) matches Err(f) ==> (r matches Err(e) && e@ == f)
            && final(out)@ == old(out)@,
{
    let mut bytes: Vec<u8> = Vec::new();
    let mut i: usize = start;
    let ghost whole = ansi_bytes(v@, start as int, Seq::empty());
    loop
        invariant_except_break
            start <= i <= v.len(),
            ansi_bytes(v@, i as int, bytes@) == whole,
        invariant
            whole == ansi_bytes(v@, start as int, Seq::empty()),
            start <= v.len(),
            out@ == old(out)@,
        ensures
            start < i <= v.len(),
            whole == Ok::<(Seq<u8>, int), Fault>((bytes@, i as int)),
        decreases v.len() - i,
    {
        if i >= v.len() {
            return Err(CurlError::OpenAnsiQuote);
        }
        let c = v[i];
        if c == '\'' {
            i = i + 1;
            break;
        }
        if c == '\\' {
            if v.len() - i < 2 {
                return Err(CurlError::OpenAnsiQuote);
            }
            let e = v[i + 1];
            match escape_byte(e) {
                Some(b) => {
                    bytes.push(b);
                    i = i + 2;
                },
                None => {
                    if e == 'x' {
                        if v.len() - i < 3 {
                            return Err(CurlError::NoHexDigits);
                        }
                        match hex_value(v[i + 2]) {
                            None => {
                                return Err(CurlError::NoHexDigits);
                            },
                            Some(high) => {
                                let low: Option<u8> = if v.len() - i < 4 {
                                    None
                                } else {
                                    hex_value(v[i + 3])
                                };
                                match low {
                                    Some(low) => {
                                        bytes.push(16 * high + low);
                                        i = i + 4;
                                    },
                                    None => {
                                        bytes.push(high);
                                        i = i + 3;
                                    },
                                }
                            },
                        }
                    } else {
                        push_utf8(&mut bytes, e);
                        i = i + 2;
                    }
                },
            }
        } else {
            push_utf8(&mut bytes, c);
            i = i + 1;
        }
    }
    match text_from_utf8(bytes) {
        None => Err(CurlError::NotUtf8),
        Some(s) => {
            proof {
                encode_utf8_decode_utf8(s@);
            }
            out.append(s.as_str());
            Ok(i)
        },
    }
}

// ─── Single quotes ────────────────────────────────────────────────────────────

/// A single-quoted run that goes on at `i`: everything up to the next single
/// quote, and the index behind it.
pub open spec fn single_quoted(s: Seq<char>, i: int) -> Option<(Seq<char>, int)> {
    let close = char_from(s, '\'', i);
    if i <= close < s.len() {
        Some((s.subrange(i, close), close + 1))
    } else {
        None
    }
}

/// Reads a single-quoted run, from behind its opening quote.
pub fn read_single_quoted(v: &Vec<char>, start: usize, out: &mut String) -> (r: Result<
    usize,
    CurlError,
>)
    requires
        start <= v.len(),
    ensures
        single_quoted(v@, start as int) matches Some(p) ==> (r matches Ok(next) && next == p.1
            && final(out)@ == old(out)@ + p.0 && start < next <= v.len()),
        single_quoted(v@, start as int) is None ==> (r matches Err(e) && e@
            == Fault::OpenSingleQuote) && final(out)@ == old(out)@,
{
    let close: usize = find_char(v, '\'', start);
    if close < v.len() {
        let text = slice_string(v, start, close);
        out.append(text.as_str());
        Ok(close + 1)
    } else {
        Err(CurlError::OpenSingleQuote)
    }
}

// ─── Words ────────────────────────────────────────────────────────────────────

/// The words of a command from index `i` on, after the words `done`. `current`
/// is the word being read; `started` says that there is one, which an empty
/// quoted run starts too.
pub open spec fn words_from(
    s: Seq<char>,
    i: int,
    current: Seq<char>,
    started: bool,
    done: Seq<Seq<char>>,
) -> Result<Seq<Seq<char>>, Fault>
    decreases s.len() - i,
    via words_from_shrinks
{
    if i < 0 || i >= s.len() {
        Ok(
            if started {
                done.push(current)
            } else {
                done
            },
        )
    } else if white(s[i]) {
        if started {
            words_from(s, i + 1, Seq::empty(), false, done.push(current))
        } else {
            words_from(s, i + 1, current, false, done)
        }
    } else if s[i] == '\\' {
        if i + 1 >= s.len() {
            Err(Fault::TrailingBackslash)
        } else if s[i + 1] == '\n' {
            words_from(s, i + 2, current, started, done)
        } else if s[i + 1] == '\r' {
            if i + 2 < s.len() && s[i + 2] == '\n' {
                words_from(s, i + 3, current, started, done)
            } else {
                words_from(s, i + 2, current, started, done)
            }
        } else {
            words_from(s, i + 2, current.push(s[i + 1]), true, done)
        }
    } else if s[i] == '\'' {
        match single_quoted(s, i + 1) {
            None => Err(Fault::OpenSingleQuote),
            Some((text, next)) => words_from(s, next, current + text, true, done),
        }
    } else if s[i] == '"' {
        match double_quoted(s, i + 1, current) {
            None => Err(Fault::OpenDoubleQuote),
            Some((text, next)) => words_from(s, next, text, true, done),
        }
    } else if s[i] == '$' && i + 1 < s.len() && s[i + 1] == '\'' {
        match ansi_quoted(s, i + 2) {
            Err(f) => Err(f),
            Ok((text, next)) => words_from(s, next, current + text, true, done),
        }
    } else {
        words_from(s, i + 1, current.push(s[i]), true, done)
    }
}

#[via_fn]
proof fn words_from_shrinks(
    s: Seq<char>,
    i: int,
    current: Seq<char>,
    started: bool,
    done: Seq<Seq<char>>,
) {
    lemma_double_quoted(s, i + 1, current);
    lemma_ansi_bytes(s, i + 2, Seq::empty());
}

/// The words a command is made of.
pub open spec fn words(s: Seq<char>) -> Result<Seq<Seq<char>>, Fault> {
    words_from(s, 0, Seq::empty(), false, Seq::empty())
}

/// Splits a command into words using shell quoting rules: only the quoting a
/// cURL command uses, so `$(…)`, pipes and variables are literal text.
pub fn tokenize(input: &str) -> (r: Result<Vec<String>, CurlError>)
    ensures
        words(input@) matches Ok(w) ==> (r matches Ok(t) && texts(t@) == w),
        words(input@) matches Err(f) ==> (r matches Err(e) && e@ == f),
{
    let v = chars_of(input);
    let mut tokens: Vec<String> = Vec::new();
    let mut current = String::new();
    let mut started = false;
    let mut i: usize = 0;
    let ghost whole = words(input@);
    proof {
        assert(texts(tokens@) =~= Seq::empty());
    }
    while i < v.len()
        invariant
            i <= v.len(),
            v@ == input@,
            whole == words(input@),
            words_from(v@, i as int, current@, started, texts(tokens@)) == whole,
        decreases v.len() - i,
    {
        let c = v[i];
        if is_white(c) {
            if started {
                let ghost before = texts(tokens@);
                let ghost word = current@;
                tokens.push(current);
                proof {
                    assert(texts(tokens@) =~= before.push(word));
                }
                current = String::new();
                started = false;
            }
            i = i + 1;
        } else if c == '\\' {
            if v.len() - i < 2 {
                return Err(CurlError::TrailingBackslash);
            }
            let e = v[i + 1];
            if e == '\n' {
                i = i + 2;
            } else if e == '\r' {
                if v.len() - i > 2 && v[i + 2] == '\n' {
                    i = i + 3;
                } else {
                    i = i + 2;
                }
            } else {
                current.push(e);
                started = true;
                i = i + 2;
            }
        } else if c == '\'' {
            match read_single_quoted(&v, i + 1, &mut current) {
                Ok(next) => {
                    started = true;
                    i = next;
                },
                Err(e) => {
                    return Err(e);
                },
            }
        } else if c == '"' {
            match read_double_quoted(&v, i + 1, &mut current) {
                Ok(next) => {
                    started = true;
                    i = next;
                },
                Err(e) => {
                    return Err(e);
                },
            }
        } else if c == '$' && v.len() - i > 1 && v[i + 1] == '\'' {
            match read_ansi_c_quoted(&v, i + 2, &mut current) {
                Ok(next) => {
                    started = true;
                    i = next;
                },
                Err(e) => {
                    return Err(e);
                },
            }
        } else {
            current.push(c);
            started = true;
            i = i + 1;
        }
    }
    if started {
        let ghost before = texts(tokens@);
        let ghost word = current@;
        tokens.push(current);
        proof {
            assert(texts(tokens@) =~= before.push(word));
        }
    }
    Ok(tokens)
}

// ─── Quoting and reading back ─────────────────────────────────────────────────

proof fn lemma_escape_add(a: Seq<char>, b: Seq<char>)
    ensures
        quotes_escaped(a + b) == quotes_escaped(a) + quotes_escaped(b),
    decreases b.len(),
{
    if b.len() == 0 {
        assert(a + b =~= a);
        assert(quotes_escaped(a) + quotes_escaped(b) =~= quotes_escaped(a));
    } else {
        assert((a + b).drop_last() =~= a + b.drop_last());
        lemma_escape_add(a, b.drop_last());
        assert(quotes_escaped(a + b) =~= quotes_escaped(a) + quotes_escaped(b));
    }
}

proof fn lemma_escape_plain(a: Seq<char>)
    requires
        forall|j: int| 0 <= j < a.len() ==> #[trigger] a[j] != '\'',
    ensures
        quotes_escaped(a) == a,
    decreases a.len(),
{
    if a.len() > 0 {
        let front = a.drop_last();
        assert forall|j: int| 0 <= j < front.len() implies #[trigger] front[j] != '\'' by {
            assert(front[j] == a[j]);
        }
        lemma_escape_plain(front);
        assert(a =~= front.push(a.last()));
    }
}

proof fn lemma_char_from_is(s: Seq<char>, c: char, from: int, at: int)
    requires
        0 <= from <= at < s.len(),
        s[at] == c,
        forall|j: int| from <= j < at ==> #[trigger] s[j] != c,
    ensures
        char_from(s, c, from) == at,
    decreases at - from,
{
    if from < at {
        assert(s[from] != c);
        lemma_char_from_is(s, c, from + 1, at);
    }
}

/// Inside a quoted value: the run up to the next quote is read, and behind it
/// the reading goes on to where the whole value has been read.
proof fn lemma_read_quoted_tail(
    t: Seq<char>,
    i: int,
    current: Seq<char>,
    done: Seq<Seq<char>>,
    s: Seq<char>,
)
    requires
        0 <= i,
        i + quotes_escaped(s).len() + 1 <= t.len(),
        t.subrange(i, i + quotes_escaped(s).len() + 1) == quotes_escaped(s).push('\''),
    ensures
        single_quoted(t, i) matches Some(p) && words_from(t, p.1, current + p.0, true, done)
            == words_from(t, i + quotes_escaped(s).len() + 1, current + s, true, done),
    decreases s.len(),
{
    let q = quotes_escaped(s).push('\'');
    assert(forall|j: int| 0 <= j < q.len() ==> #[trigger] q[j] == t[i + j]) by {
        assert forall|j: int| 0 <= j < q.len() implies #[trigger] q[j] == t[i + j] by {
            assert(t.subrange(i, i + q.len())[j] == t[i + j]);
        }
    }
    lemma_char_from(s, '\'', 0);
    let k = char_from(s, '\'', 0);
    let head = s.take(k);
    assert forall|j: int| 0 <= j < head.len() implies #[trigger] head[j] != '\'' by {
        assert(head[j] == s[j]);
    }
    lemma_escape_plain(head);
    if k == s.len() {
        assert(head =~= s);
        assert(t[i + k] == q[k]);
        assert forall|j: int| i <= j < i + k implies #[trigger] t[j] != '\'' by {
            assert(t[j] == q[j - i]);
            assert(q[j - i] == s[j - i]);
        }
        lemma_char_from_is(t, '\'', i, i + k);
        assert(t.subrange(i, i + k) =~= s) by {
            assert forall|j: int| 0 <= j < k implies t.subrange(i, i + k)[j] == s[j] by {
                assert(q[j] == t[i + j]);
            }
        }
    } else {
        let rest = s.skip(k + 1);
        assert(s =~= head.push('\'') + rest);
        lemma_escape_add(head.push('\''), rest);
        assert(head.push('\'').drop_last() =~= head);
        let e = head + seq!['\'', '\\', '\'', '\''];
        assert(quotes_escaped(head.push('\'')) == e);
        assert(quotes_escaped(s) == e + quotes_escaped(rest));
        assert(forall|j: int| 0 <= j < e.len() ==> #[trigger] e[j] == t[i + j]) by {
            assert forall|j: int| 0 <= j < e.len() implies #[trigger] e[j] == t[i + j] by {
                assert(q[j] == e[j]);
            }
        }
        assert forall|j: int| i <= j < i + k implies #[trigger] t[j] != '\'' by {
            assert(t[j] == e[j - i]);
            assert(e[j - i] == head[j - i]);
        }
        assert(e[k] == '\'' && e[k + 1] == '\\' && e[k + 2] == '\'' && e[k + 3] == '\'');
        assert(t[i + k] == '\'' && t[i + (k + 1)] == '\\' && t[i + (k + 2)] == '\'' && t[i + (k
            + 3)] == '\'');
        lemma_char_from_is(t, '\'', i, i + k);
        assert(t.subrange(i, i + k) =~= head) by {
            assert forall|j: int| 0 <= j < k implies t.subrange(i, i + k)[j] == head[j] by {
                assert(e[j] == t[i + j]);
            }
        }
        let i2 = i + k + 4;
        let q2 = quotes_escaped(rest).push('\'');
        assert(t.subrange(i2, i2 + q2.len()) =~= q2) by {
            assert forall|j: int| 0 <= j < q2.len() implies t.subrange(i2, i2 + q2.len())[j]
                == q2[j] by {
                assert(q[k + 4 + j] == t[i + (k + 4 + j)]);
                assert(q[k + 4 + j] == q2[j]);
            }
        }
        let c2 = (current + head).push('\'');
        lemma_read_quoted_tail(t, i2, c2, done, rest);
        assert(c2 + rest =~= current + s);
        let p = single_quoted(t, i)->0;
        assert(p == (head, i + k + 1));
        // The escaped quote, then the reopening one.
        let at = i + k + 1;
        assert(words_from(t, at, current + head, true, done) == words_from(
            t,
            at + 2,
            c2,
            true,
            done,
        ));
        assert(t[at + 2] == '\'');
    }
}

/// Where a quoted value stands in a command, reading it adds exactly the value to
/// the word being read.
pub proof fn lemma_read_quoted(
    t: Seq<char>,
    i: int,
    current: Seq<char>,
    started: bool,
    done: Seq<Seq<char>>,
    s: Seq<char>,
)
    requires
        0 <= i,
        i + quoted(s).len() <= t.len(),
        t.subrange(i, i + quoted(s).len()) == quoted(s),
    ensures
        words_from(t, i, current, started, done) == words_from(
            t,
            i + quoted(s).len(),
            current + s,
            true,
            done,
        ),
{
    let q = quoted(s);
    assert(t.subrange(i, i + q.len())[0] == t[i]);
    assert(t[i] == '\'');
    assert(t.subrange(i + 1, i + 1 + quotes_escaped(s).len() + 1) =~= quotes_escaped(s).push('\''))
        by {
        assert forall|j: int| 0 <= j < quotes_escaped(s).len() + 1 implies t.subrange(
            i + 1,
            i + 1 + quotes_escaped(s).len() + 1,
        )[j] == quotes_escaped(s).push('\'')[j] by {
            assert(t.subrange(i, i + q.len())[j + 1] == q[j + 1]);
        }
    }
    lemma_read_quoted_tail(t, i + 1, current, done, s);
}

/// Values on a line, each quoted, with a space between neighbours.
pub open spec fn quoted_line(values: Seq<Seq<char>>) -> Seq<char> {
    joined(values.map_values(|v: Seq<char>| quoted(v)), " "@)
}

proof fn lemma_read_values(t: Seq<char>, values: Seq<Seq<char>>)
    requires
        values.len() > 0,
        quoted_line(values).len() <= t.len(),
        t.take(quoted_line(values).len() as int) == quoted_line(values),
    ensures
        words(t) == words_from(
            t,
            quoted_line(values).len() as int,
            values.last(),
            true,
            values.drop_last(),
        ),
    decreases values.len(),
{
    reveal_strlit(" ");
    let q = values.map_values(|v: Seq<char>| quoted(v));
    let line = quoted_line(values);
    let last = values.last();
    assert(q.last() == quoted(last));
    if values.len() == 1 {
        assert(line == quoted(last));
        assert(t.subrange(0, quoted(last).len() as int) =~= line);
        lemma_read_quoted(t, 0, Seq::empty(), false, Seq::empty(), last);
        assert(Seq::<char>::empty() + last =~= last);
        assert(values.drop_last() =~= Seq::<Seq<char>>::empty());
    } else {
        let front = values.drop_last();
        assert(q.drop_last() =~= front.map_values(|v: Seq<char>| quoted(v)));
        let n = quoted_line(front).len() as int;
        assert(line == quoted_line(front) + " "@ + quoted(last));
        assert(t.take(n) =~= line.take(n));
        assert(line.take(n) =~= quoted_line(front));
        lemma_read_values(t, front);
        assert(t[n] == t.take(line.len() as int)[n]);
        assert(t[n] == ' ');
        assert(front.drop_last().push(front.last()) =~= front);
        assert(t.subrange(n + 1, n + 1 + quoted(last).len()) =~= quoted(last)) by {
            assert forall|j: int| 0 <= j < quoted(last).len() implies t[n + 1 + j] == quoted(
                last,
            )[j] by {
                assert(t[n + 1 + j] == t.take(line.len() as int)[n + 1 + j]);
            }
        }
        lemma_read_quoted(t, n + 1, Seq::empty(), false, front, last);
        assert(Seq::<char>::empty() + last =~= last);
    }
}

/// Quoted values are read back as words, each of which is its value.
pub proof fn law_quoted_values_are_read_back(values: Seq<Seq<char>>)
    ensures
        words(quoted_line(values)) == Ok::<Seq<Seq<char>>, Fault>(values),
{
    let t = quoted_line(values);
    if values.len() == 0 {
        assert(values.map_values(|v: Seq<char>| quoted(v)).len() == 0);
        assert(values =~= Seq::empty());
    } else {
        assert(t.take(t.len() as int) =~= t);
        lemma_read_values(t, values);
        assert(values.drop_last().push(values.last()) =~= values);
    }
}

/// A quoted value is read back as one word, which is the value.
pub proof fn law_quoted_value_is_read_back(s: Seq<char>)
    ensures
        words(quoted(s)) == Ok::<Seq<Seq<char>>, Fault>(seq![s]),
{
    let t = quoted(s);
    assert(t.subrange(0, t.len() as int) =~= t);
    lemma_read_quoted(t, 0, Seq::empty(), false, Seq::empty(), s);
    assert(Seq::<char>::empty() + s =~= s);
    assert(Seq::<Seq<char>>::empty().push(s) =~= seq![s]);
}

} // verus!
