//! What holds of a command line as a shell reads it.
use vstd::prelude::*;
use vstd::string::*;
use vstd::utf8::*;

use crate::curl_error::Fault;
use crate::shell::{ansi_bytes, double_quoted, hex_digit, words, words_from};
use crate::text::{char_from, white};

verus! {

/// A character that means itself outside quotes.
pub open spec fn plain(c: char) -> bool {
    !white(c) && c != '\\' && c != '\'' && c != '"' && c != '$'
}

/// A text of such characters.
pub open spec fn all_plain(s: Seq<char>) -> bool {
    forall|i: int| 0 <= i < s.len() ==> plain(#[trigger] s[i])
}

/// Plain characters are added to the word being read.
proof fn lemma_plain_run(
    s: Seq<char>,
    i: int,
    k: int,
    current: Seq<char>,
    started: bool,
    done: Seq<Seq<char>>,
)
    requires
        0 <= i,
        0 < k,
        i + k <= s.len(),
        forall|j: int| i <= j < i + k ==> plain(#[trigger] s[j]),
    ensures
        words_from(s, i, current, started, done) == words_from(
            s,
            i + k,
            current + s.subrange(i, i + k),
            true,
            done,
        ),
    decreases k,
{
    let c = s[i];
    assert(plain(c));
    assert(words_from(s, i, current, started, done) == words_from(
        s,
        i + 1,
        current.push(c),
        true,
        done,
    ));
    if k > 1 {
        lemma_plain_run(s, i + 1, k - 1, current.push(c), true, done);
        assert(current.push(c) + s.subrange(i + 1, i + k) =~= current + s.subrange(i, i + k));
    } else {
        assert(current.push(c) =~= current + s.subrange(i, i + 1));
    }
}

proof fn lemma_word_ends(s: Seq<char>, current: Seq<char>, done: Seq<Seq<char>>)
    ensures
        words_from(s, s.len() as int, current, true, done) == Ok::<Seq<Seq<char>>, Fault>(
            done.push(current),
        ),
{
}

proof fn lemma_read_plain(s: Seq<char>, a: Seq<char>, i: int, current: Seq<char>, started: bool, done: Seq<Seq<char>>)
    requires
        0 <= i,
        i + a.len() <= s.len(),
        s.subrange(i, i + a.len()) == a,
        all_plain(a),
        a.len() > 0 || started,
    ensures
        words_from(s, i, current, started, done) == words_from(
            s,
            i + a.len(),
            current + a,
            true,
            done,
        ),
{
    if a.len() > 0 {
        assert forall|j: int| i <= j < i + a.len() implies plain(#[trigger] s[j]) by {
            assert(s[j] == a[j - i]);
        }
        lemma_plain_run(s, i, a.len() as int, current, started, done);
    } else {
        assert(current + a =~= current);
    }
}

/// White space parts words, however much of it there is and wherever it stands; the
/// words themselves come out as they were written.
pub proof fn law_white_space_parts_words(
    before: Seq<char>,
    a: Seq<char>,
    gap: Seq<char>,
    b: Seq<char>,
    after: Seq<char>,
)
    requires
        all_plain(a) && a.len() > 0,
        all_plain(b) && b.len() > 0,
        gap.len() > 0,
        forall|i: int| 0 <= i < before.len() ==> white(#[trigger] before[i]),
        forall|i: int| 0 <= i < gap.len() ==> white(#[trigger] gap[i]),
        forall|i: int| 0 <= i < after.len() ==> white(#[trigger] after[i]),
    ensures
        words(before + a + gap + b + after) == Ok::<Seq<Seq<char>>, Fault>(seq![a, b]),
{
    let s = before + a + gap + b + after;
    let none = Seq::<char>::empty();
    let i1 = before.len() as int;
    let i2 = i1 + a.len();
    let i3 = i2 + gap.len();
    let i4 = i3 + b.len();
    assert(s.subrange(i1, i2) =~= a);
    assert(s.subrange(i3, i4) =~= b);
    assert forall|j: int| 0 <= j < i1 implies white(#[trigger] s[j]) by {
        assert(s[j] == before[j]);
    }
    assert forall|j: int| i2 <= j < i3 implies white(#[trigger] s[j]) by {
        assert(s[j] == gap[j - i2]);
    }
    assert forall|j: int| i4 <= j < s.len() implies white(#[trigger] s[j]) by {
        assert(s[j] == after[j - i4]);
    }
    lemma_white_run(s, 0, i1, Seq::empty());
    lemma_read_plain(s, a, i1, none, false, Seq::empty());
    assert(none + a =~= a);
    assert(white(s[i2]));
    lemma_white_run(s, i2 + 1, gap.len() - 1, seq![a]);
    assert(Seq::<Seq<char>>::empty().push(a) =~= seq![a]);
    lemma_read_plain(s, b, i3, none, false, seq![a]);
    assert(none + b =~= b);
    assert(seq![a].push(b) =~= seq![a, b]);
    if after.len() > 0 {
        assert(white(s[i4]));
        lemma_white_run(s, i4 + 1, after.len() - 1, seq![a, b]);
    } else {
        lemma_word_ends(s, b, seq![a]);
    }
}

proof fn lemma_white_run(s: Seq<char>, i: int, k: int, done: Seq<Seq<char>>)
    requires
        0 <= i,
        0 <= k,
        i + k <= s.len(),
        forall|j: int| i <= j < i + k ==> white(#[trigger] s[j]),
    ensures
        words_from(s, i, Seq::empty(), false, done) == words_from(s, i + k, Seq::empty(), false, done),
    decreases k,
{
    if k > 0 {
        assert(white(s[i]));
        lemma_white_run(s, i + 1, k - 1, done);
    }
}

/// A backslash takes the character behind it as it is, be it a space, a quote or another
/// backslash, and the word goes on.
pub proof fn law_a_backslash_takes_what_follows(a: Seq<char>, c: char, b: Seq<char>)
    requires
        all_plain(a),
        all_plain(b),
        c != '\n' && c != '\r',
    ensures
        words(a + seq!['\\', c] + b) == Ok::<Seq<Seq<char>>, Fault>(seq![a + seq![c] + b]),
{
    let s = a + seq!['\\', c] + b;
    let none = Seq::<char>::empty();
    let n = a.len() as int;
    assert(s.subrange(0, n) =~= a);
    assert(s.subrange(n + 2, n + 2 + b.len()) =~= b);
    if n > 0 {
        lemma_read_plain(s, a, 0, none, false, Seq::empty());
    }
    assert(none + a =~= a);
    assert(n == 0 ==> a =~= none);
    assert(s[n] == '\\' && s[n + 1] == c);
    assert(!white('\\'));
    assert(words_from(s, n, a, n > 0, Seq::empty()) == words_from(
        s,
        n + 2,
        a.push(c),
        true,
        Seq::empty(),
    ));
    lemma_read_plain(s, b, n + 2, a.push(c), true, Seq::empty());
    assert(a.push(c) + b =~= a + seq![c] + b);
    lemma_word_ends(s, a.push(c) + b, Seq::empty());
    assert(Seq::<Seq<char>>::empty().push(a + seq![c] + b) =~= seq![a + seq![c] + b]);
}

/// A backslash at the end of a line joins the next line to it, whichever way the lines
/// end; one at the very end of the command is refused.
pub proof fn law_a_backslash_joins_lines(a: Seq<char>, b: Seq<char>)
    requires
        all_plain(a) && a.len() > 0,
        all_plain(b),
    ensures
        words(a + seq!['\\', '\n'] + b) == Ok::<Seq<Seq<char>>, Fault>(seq![a + b]),
        words(a + seq!['\\', '\r', '\n'] + b) == Ok::<Seq<Seq<char>>, Fault>(seq![a + b]),
        words(a + seq!['\\']) == Err::<Seq<Seq<char>>, Fault>(Fault::TrailingBackslash),
{
    let none = Seq::<char>::empty();
    let n = a.len() as int;
    assert(none + a =~= a);
    assert(!white('\\'));
    assert(Seq::<Seq<char>>::empty().push(a + b) =~= seq![a + b]);
    let s = a + seq!['\\', '\n'] + b;
    assert(s.subrange(0, n) =~= a);
    assert(s.subrange(n + 2, n + 2 + b.len()) =~= b);
    lemma_read_plain(s, a, 0, none, false, Seq::empty());
    assert(s[n] == '\\' && s[n + 1] == '\n');
    lemma_read_plain(s, b, n + 2, a, true, Seq::empty());
    lemma_word_ends(s, a + b, Seq::empty());
    let t = a + seq!['\\', '\r', '\n'] + b;
    assert(t.subrange(0, n) =~= a);
    assert(t.subrange(n + 3, n + 3 + b.len()) =~= b);
    lemma_read_plain(t, a, 0, none, false, Seq::empty());
    assert(t[n] == '\\' && t[n + 1] == '\r' && t[n + 2] == '\n');
    lemma_read_plain(t, b, n + 3, a, true, Seq::empty());
    lemma_word_ends(t, a + b, Seq::empty());
    let u = a + seq!['\\'];
    assert(u.subrange(0, n) =~= a);
    lemma_read_plain(u, a, 0, none, false, Seq::empty());
    assert(u[n] == '\\');
}

// ─── Double quotes ────────────────────────────────────────────────────────────

/// A text as it is written between double quotes: the four characters that mean
/// something there behind a backslash, every other as it is.
pub open spec fn in_double_quotes(t: Seq<char>) -> Seq<char>
    decreases t.len(),
{
    if t.len() == 0 {
        t
    } else {
        (if t[0] == '"' || t[0] == '\\' || t[0] == '`' || t[0] == '$' {
            seq!['\\', t[0]]
        } else {
            seq![t[0]]
        }) + in_double_quotes(t.skip(1))
    }
}

proof fn lemma_double_run(s: Seq<char>, i: int, t: Seq<char>, acc: Seq<char>)
    requires
        0 <= i,
        i + in_double_quotes(t).len() < s.len(),
        s.subrange(i, i + in_double_quotes(t).len()) == in_double_quotes(t),
        s[i + in_double_quotes(t).len()] == '"',
    ensures
        double_quoted(s, i, acc) == Some((acc + t, i + in_double_quotes(t).len() + 1)),
    decreases t.len(),
{
    let w = in_double_quotes(t);
    if t.len() == 0 {
        assert(acc + t =~= acc);
    } else {
        let rest = t.skip(1);
        let v = in_double_quotes(rest);
        let k = w.len() - v.len();
        assert(s.subrange(i, i + w.len())[0] == s[i]);
        assert(s.subrange(i + k, i + k + v.len()) =~= v) by {
            assert forall|j: int| 0 <= j < v.len() implies s[i + k + j] == v[j] by {
                assert(s.subrange(i, i + w.len())[k + j] == w[k + j]);
            }
        }
        if k == 2 {
            assert(s.subrange(i, i + w.len())[1] == s[i + 1]);
        }
        lemma_double_run(s, i + k, rest, acc.push(t[0]));
        assert(acc.push(t[0]) + rest =~= acc + t);
    }
}

/// Any text, written between double quotes, is read back as one word.
pub proof fn law_double_quotes_hold_any_text(t: Seq<char>)
    ensures
        words(seq!['"'] + in_double_quotes(t) + seq!['"']) == Ok::<Seq<Seq<char>>, Fault>(seq![t]),
{
    let w = in_double_quotes(t);
    let s = seq!['"'] + w + seq!['"'];
    assert(s.subrange(1, 1 + w.len() as int) =~= w);
    assert(s[1 + w.len() as int] == '"');
    assert(s[0] == '"' && !white('"'));
    lemma_double_run(s, 1, t, Seq::empty());
    assert(Seq::<char>::empty() + t =~= t);
    lemma_word_ends(s, t, Seq::empty());
    assert(Seq::<Seq<char>>::empty().push(t) =~= seq![t]);
}

/// Between double quotes a backslash before any other character stays, and both are kept;
/// before a line break both are dropped.
pub proof fn law_other_backslashes_stay_in_double_quotes(a: Seq<char>, c: char, b: Seq<char>)
    requires
        c != '"' && c != '\\' && c != '`' && c != '$',
        forall|i: int| 0 <= i < a.len() ==> #[trigger] a[i] != '"' && a[i] != '\\',
        forall|i: int| 0 <= i < b.len() ==> #[trigger] b[i] != '"' && b[i] != '\\',
    ensures
        c != '\n' ==> words(seq!['"'] + a + seq!['\\', c] + b + seq!['"']) == Ok::<Seq<Seq<char>>, Fault>(
            seq![a + seq!['\\', c] + b],
        ),
        c == '\n' ==> words(seq!['"'] + a + seq!['\\', c] + b + seq!['"']) == Ok::<Seq<Seq<char>>, Fault>(
            seq![a + b],
        ),
{
    let s = seq!['"'] + a + seq!['\\', c] + b + seq!['"'];
    let none = Seq::<char>::empty();
    let n = a.len() as int;
    assert(s[0] == '"' && !white('"'));
    assert forall|j: int| 0 <= j < n implies s[1 + j] == #[trigger] a[j] by {}
    lemma_held_run(s, 1, a, none);
    assert(none + a =~= a);
    assert(s[n + 1] == '\\' && s[n + 2] == c);
    let mid = if c == '\n' {
        a
    } else {
        a.push('\\').push(c)
    };
    assert(double_quoted(s, n + 1, a) == double_quoted(s, n + 3, mid));
    assert forall|j: int| 0 <= j < b.len() implies s[n + 3 + j] == #[trigger] b[j] by {}
    lemma_held_run(s, n + 3, b, mid);
    let end = n + 3 + b.len();
    assert(s[end] == '"');
    assert(double_quoted(s, end, mid + b) == Some((mid + b, end + 1)));
    assert(mid + b =~= if c == '\n' {
        a + b
    } else {
        a + seq!['\\', c] + b
    });
    lemma_word_ends(s, mid + b, Seq::empty());
    assert(Seq::<Seq<char>>::empty().push(mid + b) =~= seq![mid + b]);
}

proof fn lemma_held_run(s: Seq<char>, i: int, t: Seq<char>, acc: Seq<char>)
    requires
        0 <= i,
        i + t.len() < s.len(),
        forall|j: int| 0 <= j < t.len() ==> s[i + j] == #[trigger] t[j],
        forall|j: int| 0 <= j < t.len() ==> #[trigger] t[j] != '"' && t[j] != '\\',
    ensures
        double_quoted(s, i, acc) == double_quoted(s, i + t.len(), acc + t),
    decreases t.len(),
{
    if t.len() > 0 {
        let rest = t.skip(1);
        assert(s[i + 0] == t[0]);
        assert(double_quoted(s, i, acc) == double_quoted(s, i + 1, acc.push(t[0])));
        assert forall|j: int| 0 <= j < rest.len() implies s[i + 1 + j] == #[trigger] rest[j] by {
            assert(s[i + (j + 1)] == t[j + 1]);
        }
        lemma_held_run(s, i + 1, rest, acc.push(t[0]));
        assert(acc.push(t[0]) + rest =~= acc + t);
    } else {
        assert(acc + t =~= acc);
    }
}

// ─── Dollar quotes ────────────────────────────────────────────────────────────

/// A text as it is written between `$'` and `'`: what has a letter of its own behind a
/// backslash, by that letter, every other character as it is.
pub open spec fn dollar_char(c: char) -> Seq<char> {
    if c == '\n' {
        seq!['\\', 'n']
    } else if c == '\t' {
        seq!['\\', 't']
    } else if c == '\r' {
        seq!['\\', 'r']
    } else if c == '\u{7}' {
        seq!['\\', 'a']
    } else if c == '\u{8}' {
        seq!['\\', 'b']
    } else if c == '\u{c}' {
        seq!['\\', 'f']
    } else if c == '\u{b}' {
        seq!['\\', 'v']
    } else if c == '\u{1b}' {
        seq!['\\', 'e']
    } else if c == '\\' || c == '\'' || c == '"' {
        seq!['\\', c]
    } else {
        seq![c]
    }
}

/// A text so written.
pub open spec fn in_dollar_quotes(t: Seq<char>) -> Seq<char>
    decreases t.len(),
{
    if t.len() == 0 {
        t
    } else {
        dollar_char(t[0]) + in_dollar_quotes(t.skip(1))
    }
}

proof fn lemma_one_byte(c: char, b: u8)
    requires
        c as u32 == b,
        b < 0x80,
    ensures
        encode_scalar(c as u32) == seq![b],
{
    let n = c as u32;
    assert(has_width_1_encoding(n));
    assert((n & 0x7F) as u8 == b) by (bit_vector)
        requires
            n == b as u32,
            b < 0x80,
    ;
    assert(leading_byte_width_1(n) == b);
    assert(encode_scalar(c as u32) =~= seq![b]);
}

proof fn lemma_dollar_run(s: Seq<char>, i: int, t: Seq<char>, acc: Seq<u8>)
    requires
        0 <= i,
        i + in_dollar_quotes(t).len() < s.len(),
        s.subrange(i, i + in_dollar_quotes(t).len()) == in_dollar_quotes(t),
        s[i + in_dollar_quotes(t).len()] == '\'',
    ensures
        ansi_bytes(s, i, acc) == Ok::<(Seq<u8>, int), Fault>(
            (acc + encode_utf8(t), i + in_dollar_quotes(t).len() + 1),
        ),
    decreases t.len(),
{
    let w = in_dollar_quotes(t);
    if t.len() == 0 {
        assert(acc + encode_utf8(t) =~= acc);
    } else {
        let c = t[0];
        let rest = t.skip(1);
        assert(rest =~= t.drop_first());
        let v = in_dollar_quotes(rest);
        let d = dollar_char(c);
        let k = d.len() as int;
        assert(s.subrange(i, i + w.len())[0] == s[i]);
        assert(s[i] == d[0]);
        assert(s.subrange(i + k, i + k + v.len()) =~= v) by {
            assert forall|j: int| 0 <= j < v.len() implies s[i + k + j] == v[j] by {
                assert(s.subrange(i, i + w.len())[k + j] == w[k + j]);
            }
        }
        let bytes = encode_scalar(c as u32);
        if k == 2 {
            assert(s.subrange(i, i + w.len())[1] == s[i + 1]);
            assert(s[i + 1] == d[1]);
            let b = crate::shell::simple_escape(s[i + 1])->0;
            lemma_one_byte(c, b);
            assert(acc.push(b) =~= acc + bytes);
        }
        assert(ansi_bytes(s, i, acc) == ansi_bytes(s, i + k, acc + bytes));
        lemma_dollar_run(s, i + k, rest, acc + bytes);
        assert(encode_utf8(t) == bytes + encode_utf8(rest));
        assert(acc + bytes + encode_utf8(rest) =~= acc + encode_utf8(t));
    }
}

/// Any text, written between `$'` and `'`, is read back as one word.
pub proof fn law_dollar_quotes_hold_any_text(t: Seq<char>)
    ensures
        words(seq!['$', '\''] + in_dollar_quotes(t) + seq!['\'']) == Ok::<Seq<Seq<char>>, Fault>(seq![t]),
{
    let w = in_dollar_quotes(t);
    let s = seq!['$', '\''] + w + seq!['\''];
    assert(s.subrange(2, 2 + w.len() as int) =~= w);
    assert(s[2 + w.len() as int] == '\'');
    assert(s[0] == '$' && s[1] == '\'' && !white('$'));
    lemma_dollar_run(s, 2, t, Seq::empty());
    assert(Seq::<u8>::empty() + encode_utf8(t) =~= encode_utf8(t));
    encode_utf8_valid_utf8(t);
    encode_utf8_decode_utf8(t);
    assert(Seq::<char>::empty() + t =~= t);
    lemma_word_ends(s, t, Seq::empty());
    assert(Seq::<Seq<char>>::empty().push(t) =~= seq![t]);
}

/// The sixteen digits.
pub open spec fn hex_digits() -> Seq<char> {
    seq!['0', '1', '2', '3', '4', '5', '6', '7', '8', '9', 'a', 'b', 'c', 'd', 'e', 'f']
}

/// Between `$'` and `'`, `\x` and two digits stand for the character of that number.
pub proof fn law_a_number_stands_for_its_character(c: char, high: int, low: int)
    requires
        0 <= high < 8,
        0 <= low < 16,
        c as u32 == 16 * high + low,
    ensures
        words(seq!['$', '\'', '\\', 'x', hex_digits()[high], hex_digits()[low], '\'']) == Ok::<
            Seq<Seq<char>>,
            Fault,
        >(seq![seq![c]]),
{
    let h = hex_digits()[high];
    let l = hex_digits()[low];
    let s = seq!['$', '\'', '\\', 'x', h, l, '\''];
    assert(hex_digit(h) == Some(high as u8));
    assert(hex_digit(l) == Some(low as u8));
    assert(s[0] == '$' && s[1] == '\'' && s[2] == '\\' && s[3] == 'x' && s[4] == h && s[5] == l && s[6]
        == '\'');
    assert(!white('$'));
    let b = (16 * high + low) as u8;
    lemma_one_byte(c, b);
    let bytes = Seq::<u8>::empty().push(b);
    reveal_with_fuel(ansi_bytes, 3);
    assert(ansi_bytes(s, 6, bytes) == Ok::<(Seq<u8>, int), Fault>((bytes, 7)));
    assert(ansi_bytes(s, 2, Seq::empty()) == ansi_bytes(s, 6, bytes));
    let t = seq![c];
    assert(t.drop_first() =~= Seq::<char>::empty());
    reveal_with_fuel(encode_utf8, 2);
    assert(encode_utf8(t) =~= bytes);
    encode_utf8_valid_utf8(t);
    encode_utf8_decode_utf8(t);
    assert(Seq::<char>::empty() + t =~= t);
    lemma_word_ends(s, t, Seq::empty());
    assert(Seq::<Seq<char>>::empty().push(t) =~= seq![t]);
}

// ─── Quotes left open ─────────────────────────────────────────────────────────

/// A quote that nothing closes is refused, each for what it is.
pub proof fn law_an_open_quote_is_refused(a: Seq<char>, t: Seq<char>)
    requires
        all_plain(a),
        forall|i: int| 0 <= i < t.len() ==> #[trigger] t[i] != '"' && t[i] != '\\' && t[i] != '\'',
    ensures
        words(a + seq!['\''] + t) == Err::<Seq<Seq<char>>, Fault>(Fault::OpenSingleQuote),
        words(a + seq!['"'] + t) == Err::<Seq<Seq<char>>, Fault>(Fault::OpenDoubleQuote),
{
    let none = Seq::<char>::empty();
    let n = a.len() as int;
    assert(none + a =~= a);
    assert(n == 0 ==> a =~= none);
    assert(!white('\'') && !white('"'));
    let s = a + seq!['\''] + t;
    assert(s.subrange(0, n) =~= a);
    if n > 0 {
        lemma_read_plain(s, a, 0, none, false, Seq::empty());
    }
    assert(s[n] == '\'');
    crate::text::lemma_char_from(s, '\'', n + 1);
    let close = char_from(s, '\'', n + 1);
    if close < s.len() {
        assert(s[close] == t[close - n - 1]);
    }
    let u = a + seq!['"'] + t;
    assert(u.subrange(0, n) =~= a);
    if n > 0 {
        lemma_read_plain(u, a, 0, none, false, Seq::empty());
    }
    assert(u[n] == '"');
    assert forall|j: int| n + 1 <= j < u.len() implies #[trigger] u[j] != '"' && u[j] != '\\' by {
        assert(u[j] == t[j - n - 1]);
    }
    lemma_never_closed(u, n + 1, a);
}

proof fn lemma_never_closed(s: Seq<char>, i: int, acc: Seq<char>)
    requires
        0 <= i <= s.len(),
        forall|j: int| i <= j < s.len() ==> #[trigger] s[j] != '"' && s[j] != '\\',
    ensures
        double_quoted(s, i, acc) is None,
    decreases s.len() - i,
{
    if i < s.len() {
        lemma_never_closed(s, i + 1, acc.push(s[i]));
    }
}

} // verus!
