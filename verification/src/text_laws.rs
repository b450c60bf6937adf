//! What holds of taking texts apart and putting them together.
use vstd::prelude::*;

use crate::order::text_lt;
use crate::text::{
    all_digits, char_from, decimal, digit, joined, lemma_char_from, lines_from, number, same_ignoring_case,
    split_at_char, split_from, text_lines, trim_end, trim_start, trimmed, white, without_cr, word_number,
};

verus! {

// ─── Splitting and joining ────────────────────────────────────────────────────

proof fn lemma_char_from_front(s: Seq<char>, t: Seq<char>, c: char, from: int)
    requires
        0 <= from <= s.len(),
    ensures
        char_from(s, c, from) < s.len() ==> char_from(s + t, c, from) == char_from(s, c, from),
        char_from(s, c, from) == s.len() ==> char_from(s + t, c, from) == char_from(
            s + t,
            c,
            s.len() as int,
        ),
    decreases s.len() - from,
{
    if from < s.len() {
        assert((s + t)[from] == s[from]);
        if s[from] != c {
            lemma_char_from_front(s, t, c, from + 1);
        }
    }
}

proof fn lemma_split_push(s: Seq<char>, t: Seq<char>, c: char, from: int)
    requires
        0 <= from <= s.len(),
        !t.contains(c),
    ensures
        split_from(s + seq![c] + t, c, from) == split_from(s, c, from).push(t),
    decreases s.len() - from,
{
    let whole = s + seq![c] + t;
    assert(whole =~= s + (seq![c] + t));
    lemma_char_from(s, c, from);
    lemma_char_from_front(s, seq![c] + t, c, from);
    let at = char_from(s, c, from);
    if at < s.len() {
        lemma_split_push(s, t, c, at + 1);
        assert(whole.subrange(from, at) =~= s.subrange(from, at));
        assert(seq![s.subrange(from, at)] + split_from(s, c, at + 1).push(t) =~= (seq![
            s.subrange(from, at),
        ] + split_from(s, c, at + 1)).push(t));
    } else {
        assert(whole[s.len() as int] == c);
        assert(char_from(whole, c, s.len() as int) == s.len());
        lemma_char_from(whole, c, s.len() as int + 1);
        assert(char_from(whole, c, s.len() as int + 1) == whole.len()) by {
            let k = char_from(whole, c, s.len() as int + 1);
            if k < whole.len() {
                assert(t[k - s.len() - 1] == c);
            }
        }
        assert(whole.skip(s.len() as int + 1) =~= t);
        assert(split_from(whole, c, s.len() as int + 1) =~= seq![t]);
        assert(whole.subrange(from, s.len() as int) =~= s.skip(from));
        assert(split_from(s, c, from) =~= seq![s.skip(from)]);
        assert(seq![s.skip(from)] + seq![t] =~= seq![s.skip(from)].push(t));
    }
}

/// Splitting gives back what was joined: parts that do not hold the character between
/// them come out as they went in.
pub proof fn law_splitting_undoes_joining(parts: Seq<Seq<char>>, c: char)
    requires
        parts.len() > 0,
        forall|i: int| 0 <= i < parts.len() ==> !(#[trigger] parts[i]).contains(c),
    ensures
        split_at_char(joined(parts, seq![c]), c) == parts,
    decreases parts.len(),
{
    if parts.len() == 1 {
        let s = parts[0];
        lemma_char_from(s, c, 0);
        assert(char_from(s, c, 0) == s.len()) by {
            let k = char_from(s, c, 0);
            if k < s.len() {
                assert(s[k] == c);
            }
        }
        assert(s.skip(0) =~= s);
        assert(split_at_char(s, c) =~= parts);
    } else {
        let front = parts.drop_last();
        law_splitting_undoes_joining(front, c);
        assert(!parts[parts.len() - 1].contains(c));
        lemma_split_push(joined(front, seq![c]), parts.last(), c, 0);
        assert(front.push(parts.last()) =~= parts);
    }
}

pub proof fn lemma_joined_cons(first: Seq<char>, rest: Seq<Seq<char>>, sep: Seq<char>)
    requires
        rest.len() > 0,
    ensures
        joined(seq![first] + rest, sep) == first + sep + joined(rest, sep),
    decreases rest.len(),
{
    let all = seq![first] + rest;
    assert(all.drop_last() =~= seq![first] + rest.drop_last());
    if rest.len() == 1 {
        assert(all.drop_last() =~= seq![first]);
        assert(joined(all.drop_last(), sep) == first);
        assert(joined(rest, sep) == rest[0]);
    } else {
        lemma_joined_cons(first, rest.drop_last(), sep);
        assert(first + sep + joined(rest.drop_last(), sep) + sep + rest.last() =~= first + sep + (
        joined(rest.drop_last(), sep) + sep + rest.last()));
    }
}

proof fn lemma_split_joins(s: Seq<char>, c: char, from: int)
    requires
        0 <= from <= s.len(),
    ensures
        split_from(s, c, from).len() > 0,
        joined(split_from(s, c, from), seq![c]) == s.skip(from),
        forall|i: int|
            0 <= i < split_from(s, c, from).len() ==> !(#[trigger] split_from(
                s,
                c,
                from,
            )[i]).contains(c),
    decreases s.len() - from,
{
    lemma_char_from(s, c, from);
    let at = char_from(s, c, from);
    let parts = split_from(s, c, from);
    if at < s.len() {
        lemma_split_joins(s, c, at + 1);
        let rest = split_from(s, c, at + 1);
        lemma_joined_cons(s.subrange(from, at), rest, seq![c]);
        assert(s.subrange(from, at) + seq![c] + s.skip(at + 1) =~= s.skip(from));
        assert forall|i: int| 0 <= i < parts.len() implies !(#[trigger] parts[i]).contains(c) by {
            if i > 0 {
                assert(parts[i] == rest[i - 1]);
            } else if parts[0].contains(c) {
                let k = choose|k: int| 0 <= k < parts[0].len() && parts[0][k] == c;
                assert(s[from + k] == c);
            }
        }
    } else {
        assert(parts =~= seq![s.skip(from)]);
        if parts[0].contains(c) {
            let k = choose|k: int| 0 <= k < parts[0].len() && parts[0][k] == c;
            assert(s[from + k] == c);
        }
    }
}

/// Joining gives back what was split, and no part holds the character it was split at.
pub proof fn law_joining_undoes_splitting(s: Seq<char>, c: char)
    ensures
        split_at_char(s, c).len() > 0,
        joined(split_at_char(s, c), seq![c]) == s,
        forall|i: int|
            0 <= i < split_at_char(s, c).len() ==> !(#[trigger] split_at_char(s, c)[i]).contains(c),
{
    lemma_split_joins(s, c, 0);
    assert(s.skip(0) =~= s);
}

// ─── Numbers ──────────────────────────────────────────────────────────────────

proof fn lemma_decimal(n: nat)
    ensures
        decimal(n).len() > 0,
        all_digits(decimal(n)),
        number(decimal(n)) == n,
        n >= 10 ==> decimal(n)[0] != '0',
        n > 0 ==> decimal(n)[0] != '0',
    decreases n,
{
    if n < 10 {
        assert(decimal(n).drop_last() =~= Seq::empty());
        assert(number(decimal(n).drop_last()) == 0);
    } else {
        lemma_decimal(n / 10);
        let front = decimal(n / 10);
        let s = decimal(n);
        assert(s.drop_last() =~= front);
        assert forall|i: int| 0 <= i < s.len() implies '0' <= #[trigger] s[i] <= '9' by {
            if i < front.len() {
                assert(s[i] == front[i]);
            }
        }
        assert(s[0] == front[0]);
    }
}

/// A number reads back from its decimal text, which is digits alone and begins with a
/// zero for zero alone.
pub proof fn law_a_number_reads_back(n: nat)
    requires
        n <= usize::MAX,
    ensures
        word_number(decimal(n)) == Some(n),
        word_number("+"@ + decimal(n)) == Some(n),
        forall|i: int| 0 <= i < decimal(n).len() ==> '0' <= #[trigger] decimal(n)[i] <= '9',
        decimal(n)[0] == '0' ==> n == 0,
{
    lemma_decimal(n);
    reveal_strlit("+");
    assert(("+"@ + decimal(n)).skip(1) =~= decimal(n));
    assert('0' <= decimal(n)[0] <= '9');
}

/// A text with a character that is no digit behind its first is no number.
pub proof fn law_only_digits_are_a_number(s: Seq<char>, i: int)
    requires
        0 <= i < s.len(),
        !('0' <= s[i] <= '9'),
        i > 0 || s[0] != '+',
    ensures
        word_number(s) is None,
{
    if s[0] == '+' {
        assert(s.skip(1)[i - 1] == s[i]);
    }
}

// ─── Trimming ─────────────────────────────────────────────────────────────────

proof fn lemma_trim_end(s: Seq<char>)
    ensures
        trim_end(s).len() <= s.len(),
        trim_end(s) == s.take(trim_end(s).len() as int),
        forall|i: int| trim_end(s).len() <= i < s.len() ==> white(#[trigger] s[i]),
        trim_end(s).len() > 0 ==> !white(trim_end(s).last()),
    decreases s.len(),
{
    if s.len() > 0 && white(s.last()) {
        let front = s.drop_last();
        lemma_trim_end(front);
        assert(front.take(trim_end(front).len() as int) =~= s.take(trim_end(front).len() as int));
        assert forall|i: int| trim_end(s).len() <= i < s.len() implies white(#[trigger] s[i]) by {
            if i < front.len() {
                assert(front[i] == s[i]);
            }
        }
    } else {
        assert(s.take(s.len() as int) =~= s);
    }
}

proof fn lemma_trim_start(s: Seq<char>)
    ensures
        trim_start(s).len() <= s.len(),
        trim_start(s) == s.skip(s.len() - trim_start(s).len()),
        forall|i: int| 0 <= i < s.len() - trim_start(s).len() ==> white(#[trigger] s[i]),
        trim_start(s).len() > 0 ==> !white(trim_start(s)[0]),
    decreases s.len(),
{
    if s.len() > 0 && white(s[0]) {
        let rest = s.drop_first();
        lemma_trim_start(rest);
        let k = rest.len() - trim_start(rest).len();
        assert(rest.skip(k) =~= s.skip(k + 1));
        assert forall|i: int| 0 <= i < s.len() - trim_start(s).len() implies white(
            #[trigger] s[i],
        ) by {
            if i > 0 {
                assert(rest[i - 1] == s[i]);
            }
        }
    } else {
        assert(s.skip(0) =~= s);
    }
}

/// Trimming takes off white space at the two ends and nothing else: what it leaves is a
/// stretch of the text with white space alone before and behind it, and begins and ends
/// with a character that is none.
pub proof fn law_trimming_takes_the_white_ends(s: Seq<char>)
    ensures
        exists|i: int, j: int|
            #![trigger s.subrange(i, j)]
            0 <= i <= j <= s.len() && trimmed(s) == s.subrange(i, j) && (forall|k: int|
                0 <= k < i || j <= k < s.len() ==> white(#[trigger] s[k])) && (i < j ==> !white(
                s[i],
            ) && !white(s[j - 1])),
        (s.len() == 0 || !white(s[0]) && !white(s.last())) ==> trimmed(s) == s,
{
    lemma_trim_start(s);
    let t = trim_start(s);
    lemma_trim_end(t);
    let i = s.len() - t.len();
    let j = i + trim_end(t).len();
    assert(s.subrange(i, j) =~= trim_end(t));
    assert forall|k: int| 0 <= k < i || j <= k < s.len() implies white(#[trigger] s[k]) by {
        if k >= j {
            assert(t[k - i] == s[k]);
        }
    }
    if i < j {
        assert(s[i] == t[0]);
        assert(s[j - 1] == trim_end(t).last());
    }
    if s.len() > 0 && !white(s[0]) && !white(s.last()) {
        if i > 0 {
            assert(white(s[0]));
        }
        if j < s.len() {
            assert(white(s[s.len() - 1]));
        }
        assert(s.subrange(0, s.len() as int) =~= s);
    }
}

// ─── Case ─────────────────────────────────────────────────────────────────────

/// An ASCII letter and the same letter in the other case.
pub open spec fn two_cases(a: char, b: char) -> bool {
    ||| 'a' <= a <= 'z' && b as u32 + 32 == a as u32
    ||| 'a' <= b <= 'z' && a as u32 + 32 == b as u32
}

/// Texts that are the same whatever their case hold at each place one character, or one
/// ASCII letter in its two cases.
pub proof fn law_case_is_all_that_is_ignored(a: Seq<char>, b: Seq<char>)
    ensures
        same_ignoring_case(a, b) <==> a.len() == b.len() && forall|i: int|
            0 <= i < a.len() ==> #[trigger] a[i] == b[i] || two_cases(a[i], b[i]),
        same_ignoring_case(a, a),
        same_ignoring_case(a, b) == same_ignoring_case(b, a),
{
    if a.len() == b.len() {
        assert forall|i: int| 0 <= i < a.len() implies (crate::text::ascii_lower(#[trigger] a[i])
            == crate::text::ascii_lower(b[i])) == (a[i] == b[i] || two_cases(a[i], b[i])) by {}
    }
    if same_ignoring_case(a, b) {
        assert forall|i: int| 0 <= i < a.len() implies #[trigger] a[i] == b[i] || two_cases(
            a[i],
            b[i],
        ) by {}
        assert forall|i: int| 0 <= i < b.len() implies crate::text::ascii_lower(#[trigger] b[i])
            == crate::text::ascii_lower(a[i]) by {
            assert(a[i] == a[i]);
        }
    }
    if same_ignoring_case(b, a) {
        assert forall|i: int| 0 <= i < a.len() implies crate::text::ascii_lower(#[trigger] a[i])
            == crate::text::ascii_lower(b[i]) by {
            assert(b[i] == b[i]);
        }
    }
}

// ─── Lines ────────────────────────────────────────────────────────────────────

proof fn lemma_char_from_shift(s: Seq<char>, c: char, from: int)
    requires
        0 <= from <= s.len(),
    ensures
        char_from(s, c, from) == from + char_from(s.skip(from), c, 0),
{
    lemma_char_from(s, c, from);
    lemma_char_from(s.skip(from), c, 0);
    let a = char_from(s, c, from);
    let b = char_from(s.skip(from), c, 0);
    if a < from + b {
        assert(s.skip(from)[a - from] == s[a]);
    }
    if from + b < a {
        assert(s[from + b] == s.skip(from)[b]);
    }
}

proof fn lemma_lines_shift(s: Seq<char>, from: int)
    requires
        0 <= from <= s.len(),
    ensures
        lines_from(s, from) == text_lines(s.skip(from)),
    decreases s.len() - from,
{
    let t = s.skip(from);
    lemma_char_from_shift(s, '\n', from);
    lemma_char_from(s, '\n', from);
    let at = char_from(s, '\n', from);
    if from < s.len() {
        if at < s.len() {
            lemma_lines_shift(s, at + 1);
            lemma_lines_shift(t, at - from + 1);
            assert(t.skip(at - from + 1) =~= s.skip(at + 1));
            assert(t.subrange(0, at - from) =~= s.subrange(from, at));
        } else {
            assert(t.skip(0) =~= s.skip(from));
        }
    }
}

/// The lines of a text are what stands between its newlines, each without the carriage
/// return before the newline, and nothing is lost of the rest.
pub proof fn law_a_line_ends_at_its_newline(line: Seq<char>, rest: Seq<char>)
    requires
        !line.contains('\n'),
        !(line.len() > 0 && line.last() == '\r'),
    ensures
        text_lines(line + "\n"@ + rest) == seq![line] + text_lines(rest),
        text_lines(line + "\r\n"@ + rest) == seq![line] + text_lines(rest),
        line.len() > 0 ==> text_lines(line) == seq![line],
        text_lines(Seq::<char>::empty()) == Seq::<Seq<char>>::empty(),
{
    reveal_strlit("\n");
    reveal_strlit("\r\n");
    let n = line.len() as int;
    let a = line + "\n"@ + rest;
    lemma_char_from(a, '\n', 0);
    assert(a[n] == '\n');
    assert forall|k: int| 0 <= k < n implies #[trigger] a[k] != '\n' by {
        assert(line[k] == a[k]);
        assert(line.contains(line[k]));
    }
    assert(char_from(a, '\n', 0) == n);
    lemma_lines_shift(a, n + 1);
    assert(a.skip(n + 1) =~= rest);
    assert(a.subrange(0, n) =~= line);
    let b = line + "\r\n"@ + rest;
    lemma_char_from(b, '\n', 0);
    assert(b[n] == '\r' && b[n + 1] == '\n');
    assert forall|k: int| 0 <= k < n implies #[trigger] b[k] != '\n' by {
        assert(line[k] == b[k]);
        assert(line.contains(line[k]));
    }
    assert(char_from(b, '\n', 0) == n + 1);
    lemma_lines_shift(b, n + 2);
    assert(b.skip(n + 2) =~= rest);
    assert(b.subrange(0, n + 1).drop_last() =~= line);
    assert(without_cr(b.subrange(0, n + 1)) == line);
    if n > 0 {
        lemma_char_from(line, '\n', 0);
        assert(char_from(line, '\n', 0) == n) by {
            let k = char_from(line, '\n', 0);
            if k < n {
                assert(line[k] == '\n');
            }
        }
        assert(line.skip(0) =~= line);
    }
}

/// Texts are ordered by the first character in which they differ, and one that the other
/// begins with comes first.
pub proof fn law_the_order_of_texts(common: Seq<char>, x: char, a: Seq<char>, y: char, b: Seq<char>)
    ensures
        x != y ==> (text_lt(common + seq![x] + a, common + seq![y] + b) <==> x < y),
        text_lt(common, common + seq![y] + b),
        !text_lt(common + seq![y] + b, common),
        !text_lt(common, common),
    decreases common.len(),
{
    let p = common + seq![x] + a;
    let q = common + seq![y] + b;
    if common.len() > 0 {
        let rest = common.drop_first();
        law_the_order_of_texts(rest, x, a, y, b);
        assert(p.drop_first() =~= rest + seq![x] + a);
        assert(q.drop_first() =~= rest + seq![y] + b);
        assert(p[0] == common[0] && q[0] == common[0]);
    } else {
        assert(p[0] == x && q[0] == y);
    }
}

} // verus!
