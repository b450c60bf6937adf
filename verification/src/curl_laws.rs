//! A command says what the request it was made from says.
use vstd::prelude::*;
use vstd::string::*;
use vstd::utf8::encode_utf8;

use crate::curl_error::Fault;
use crate::curl_parse::{
    base64, bundle_applied, collected, command_read, finished, flag_applied, flag_value, header_from,
    header_split, imported, lemma_bundle_applied, lemma_collected_names, lemma_header_from, lifted, long_name,
    long_split, method_of, names_repeat, no_effect, no_parts, target_url, value_applied, wants_value,
    with_default_header, with_header, without_prompt, word_applied, words_applied, PartsView,
};
use crate::curl_render::{
    built_url, command_head, command_text, expressible, filled_rows, flag_rows, flag_texts, query_follows,
    header_keeps, plain_char, plain_word, rendered, resolved,
};
use crate::order::{in_order, insert_row, law_sort_rows_orders, lemma_text_lt_total, sort_rows, text_lt, Row};
use crate::request::{BodyView, RequestView, TextMap};
use crate::shell::{lemma_read_quoted, quoted, words, words_from};
use crate::strmap::{has_listing, lemma_drop_last, lemma_rows_are_the_map, listing, map_of, strictly_named};
use crate::text::{
    ascii_lower, char_from, find_from, joined, lemma_char_from, lemma_find_from, occurs, occurs_at,
    same_ignoring_case, trim_end, trim_start, trimmed, white,
};
use crate::unicode::uppercase;
use crate::vars::filled;
use crate::weburl::{folded, query_safe, reads_back};

verus! {

// ─── Trimming ─────────────────────────────────────────────────────────────────

proof fn lemma_trim_shrinks(s: Seq<char>)
    ensures
        trim_start(s).len() <= s.len(),
        trim_end(s).len() <= s.len(),
        trim_start(s).len() == s.len() ==> trim_start(s) == s,
    decreases s.len(),
{
    if s.len() > 0 {
        lemma_trim_shrinks(s.drop_first());
        lemma_trim_shrinks(s.drop_last());
    }
}

/// A text that trimming leaves as it is has no whitespace at either end.
pub proof fn lemma_trimmed_is_bare(s: Seq<char>)
    requires
        trimmed(s) == s,
    ensures
        trim_start(s) == s,
        trim_end(s) == s,
        s.len() > 0 ==> !white(s[0]) && !white(s.last()),
{
    lemma_trim_shrinks(s);
    lemma_trim_shrinks(trim_start(s));
    if s.len() > 0 {
        lemma_trim_shrinks(s.drop_first());
        lemma_trim_shrinks(s.drop_last());
    }
}

/// A text that neither begins nor ends with whitespace is left as it is.
pub proof fn lemma_bare_is_trimmed(s: Seq<char>)
    requires
        s.len() > 0 ==> !white(s[0]) && !white(s.last()),
    ensures
        trimmed(s) == s,
{
}

// ─── Words ────────────────────────────────────────────────────────────────────

/// Reading a plain run adds it to the word being read.
proof fn lemma_read_plain(
    t: Seq<char>,
    i: int,
    current: Seq<char>,
    started: bool,
    done: Seq<Seq<char>>,
    w: Seq<char>,
)
    requires
        0 <= i,
        i + w.len() <= t.len(),
        t.subrange(i, i + w.len()) == w,
        forall|j: int| 0 <= j < w.len() ==> plain_char(#[trigger] w[j]),
    ensures
        words_from(t, i, current, started, done) == words_from(
            t,
            i + w.len(),
            current + w,
            started || w.len() > 0,
            done,
        ),
    decreases w.len(),
{
    if w.len() == 0 {
        assert(current + w =~= current);
    } else {
        assert(t.subrange(i, i + w.len())[0] == t[i]);
        let rest = w.drop_first();
        assert(plain_char(w[0]));
        assert(t.subrange(i + 1, i + 1 + rest.len()) =~= rest) by {
            assert forall|j: int| 0 <= j < rest.len() implies t.subrange(i + 1, i + 1 + rest.len())[j]
                == rest[j] by {
                assert(t.subrange(i, i + w.len())[j + 1] == w[j + 1]);
            }
        }
        assert forall|j: int| 0 <= j < rest.len() implies plain_char(#[trigger] rest[j]) by {
            assert(rest[j] == w[j + 1]);
        }
        lemma_read_plain(t, i + 1, current.push(w[0]), true, done, rest);
        assert(current.push(w[0]) + rest =~= current + w);
        assert(words_from(t, i, current, started, done) == words_from(
            t,
            i + 1,
            current.push(w[0]),
            true,
            done,
        ));
    }
}

/// A space ends the word being read.
proof fn lemma_read_space(t: Seq<char>, i: int, current: Seq<char>, done: Seq<Seq<char>>)
    requires
        0 <= i < t.len(),
        t[i] == ' ',
    ensures
        words_from(t, i, current, true, done) == words_from(
            t,
            i + 1,
            Seq::empty(),
            false,
            done.push(current),
        ),
{
}

/// The line break between two flags ends the word being read.
proof fn lemma_read_break(t: Seq<char>, i: int, current: Seq<char>, done: Seq<Seq<char>>)
    requires
        0 <= i,
        i + " \\\n  "@.len() <= t.len(),
        t.subrange(i, i + " \\\n  "@.len()) == " \\\n  "@,
    ensures
        " \\\n  "@.len() == 5,
        words_from(t, i, current, true, done) == words_from(
            t,
            i + 5,
            Seq::empty(),
            false,
            done.push(current),
        ),
{
    reveal_strlit(" \\\n  ");
    let s = t.subrange(i, i + 5);
    assert(s[0] == t[i] && s[1] == t[i + 1] && s[2] == t[i + 2] && s[3] == t[i + 3] && s[4] == t[i
        + 4]);
    let d = done.push(current);
    let e = Seq::<char>::empty();
    assert(words_from(t, i, current, true, done) == words_from(t, i + 1, e, false, d));
    assert(words_from(t, i + 1, e, false, d) == words_from(t, i + 3, e, false, d));
    assert(words_from(t, i + 3, e, false, d) == words_from(t, i + 4, e, false, d));
    assert(words_from(t, i + 4, e, false, d) == words_from(t, i + 5, e, false, d));
}

/// A flag and its quoted value are read as two words, the second still open.
proof fn lemma_read_flag(t: Seq<char>, i: int, done: Seq<Seq<char>>, flag: Seq<char>, v: Seq<char>)
    requires
        0 <= i,
        plain_word(flag),
        i + (flag + " "@ + quoted(v)).len() <= t.len(),
        t.subrange(i, i + (flag + " "@ + quoted(v)).len()) == flag + " "@ + quoted(v),
    ensures
        words_from(t, i, Seq::empty(), false, done) == words_from(
            t,
            i + (flag + " "@ + quoted(v)).len(),
            v,
            true,
            done.push(flag),
        ),
{
    reveal_strlit(" ");
    let whole = flag + " "@ + quoted(v);
    let s = t.subrange(i, i + whole.len());
    let n = flag.len();
    assert(t.subrange(i, i + n) =~= flag) by {
        assert forall|j: int| 0 <= j < n implies t.subrange(i, i + n)[j] == flag[j] by {
            assert(s[j] == whole[j]);
        }
    }
    lemma_read_plain(t, i, Seq::empty(), false, done, flag);
    assert(Seq::<char>::empty() + flag =~= flag);
    assert(s[n as int] == whole[n as int]);
    assert(t[i + n] == ' ');
    lemma_read_space(t, i + n, flag, done);
    let k = i + n + 1;
    assert(t.subrange(k, k + quoted(v).len()) =~= quoted(v)) by {
        assert forall|j: int| 0 <= j < quoted(v).len() implies t.subrange(k, k + quoted(v).len())[j]
            == quoted(v)[j] by {
            assert(s[n + 1 + j] == whole[n + 1 + j]);
        }
    }
    lemma_read_quoted(t, k, Seq::empty(), false, done.push(flag), v);
    assert(Seq::<char>::empty() + v =~= v);
}

/// The words of a command ahead of its URL.
pub open spec fn head_words(method: Seq<char>) -> Seq<Seq<char>> {
    if method == "GET"@ {
        seq!["curl"@]
    } else {
        seq!["curl"@, "-X"@, method]
    }
}

/// Flags and values in turn.
pub open spec fn flat(flags: Seq<Row>) -> Seq<Seq<char>>
    decreases flags.len(),
{
    if flags.len() == 0 {
        Seq::empty()
    } else {
        flat(flags.drop_last()).push(flags.last().0).push(flags.last().1)
    }
}

pub proof fn lemma_flat(flags: Seq<Row>, k: int)
    requires
        0 <= k < flags.len(),
    ensures
        flat(flags).len() == 2 * flags.len(),
        flat(flags)[2 * k] == flags[k].0,
        flat(flags)[2 * k + 1] == flags[k].1,
    decreases flags.len(),
{
    let front = flags.drop_last();
    if front.len() > 0 {
        lemma_flat(front, 0);
    } else {
        assert(flat(front) =~= Seq::empty());
    }
    if k < front.len() {
        lemma_flat(front, k);
    }
}

proof fn lemma_plain_literals()
    ensures
        plain_word("curl"@),
        plain_word("-X"@),
        plain_word("-H"@),
        plain_word("--data-raw"@),
        " "@ == seq![' '],
        " -X "@ == seq![' '] + "-X"@ + seq![' '],
        "curl"@.len() == 4,
        "-X"@.len() == 2,
{
    reveal_strlit("curl");
    reveal_strlit("-X");
    reveal_strlit("-H");
    reveal_strlit("--data-raw");
    reveal_strlit(" ");
    reveal_strlit(" -X ");
    assert(" "@ =~= seq![' ']);
    assert(" -X "@ =~= seq![' '] + "-X"@ + seq![' ']);
}

/// The first line is read as its words, the URL still open.
proof fn lemma_read_head(t: Seq<char>, method: Seq<char>, url: Seq<char>)
    requires
        plain_word(method),
        command_head(method, url).len() <= t.len(),
        t.take(command_head(method, url).len() as int) == command_head(method, url),
    ensures
        words(t) == words_from(
            t,
            command_head(method, url).len() as int,
            url,
            true,
            head_words(method),
        ),
{
    lemma_plain_literals();
    let head = command_head(method, url);
    let e = Seq::<char>::empty();
    let none = Seq::<Seq<char>>::empty();
    assert(forall|j: int| 0 <= j < head.len() ==> #[trigger] head[j] == t[j]) by {
        assert forall|j: int| 0 <= j < head.len() implies #[trigger] head[j] == t[j] by {
            assert(t.take(head.len() as int)[j] == t[j]);
        }
    }
    assert(t.subrange(0, 4) =~= "curl"@) by {
        assert forall|j: int| 0 <= j < 4 implies t.subrange(0, 4)[j] == "curl"@[j] by {
            assert(head[j] == t[j]);
        }
    }
    lemma_read_plain(t, 0, e, false, none, "curl"@);
    assert(e + "curl"@ =~= "curl"@);
    assert(head[4] == t[4]);
    assert(head[4] == ' ');
    lemma_read_space(t, 4, "curl"@, none);
    let d1 = none.push("curl"@);
    if method == "GET"@ {
        assert(head =~= "curl"@ + seq![' '] + quoted(url));
        assert(t.subrange(5, 5int + quoted(url).len()) =~= quoted(url)) by {
            assert forall|j: int| 0 <= j < quoted(url).len() implies t.subrange(
                5,
                5int + quoted(url).len(),
            )[j] == quoted(url)[j] by {
                assert(head[5 + j] == t[5 + j]);
            }
        }
        lemma_read_quoted(t, 5, e, false, d1, url);
        assert(e + url =~= url);
        assert(d1 =~= head_words(method));
    } else {
        let m = method.len() as int;
        assert(head =~= "curl"@ + seq![' '] + "-X"@ + seq![' '] + method + seq![' '] + quoted(url));
        assert(t.subrange(5, 7) =~= "-X"@) by {
            assert forall|j: int| 0 <= j < 2 implies t.subrange(5, 7)[j] == "-X"@[j] by {
                assert(head[5 + j] == t[5 + j]);
            }
        }
        lemma_read_plain(t, 5, e, false, d1, "-X"@);
        assert(e + "-X"@ =~= "-X"@);
        assert(head[7] == t[7]);
        lemma_read_space(t, 7, "-X"@, d1);
        let d2 = d1.push("-X"@);
        assert(t.subrange(8, 8 + m) =~= method) by {
            assert forall|j: int| 0 <= j < m implies t.subrange(8, 8 + m)[j] == method[j] by {
                assert(head[8 + j] == t[8 + j]);
            }
        }
        lemma_read_plain(t, 8, e, false, d2, method);
        assert(e + method =~= method);
        assert(head[8 + m] == t[8 + m]);
        lemma_read_space(t, 8 + m as int, method, d2);
        let d3 = d2.push(method);
        let k = 9int + m;
        assert(t.subrange(k as int, k + quoted(url).len()) =~= quoted(url)) by {
            assert forall|j: int| 0 <= j < quoted(url).len() implies t.subrange(
                k as int,
                k + quoted(url).len(),
            )[j] == quoted(url)[j] by {
                assert(head[k + j] == t[k + j]);
            }
        }
        lemma_read_quoted(t, k as int, e, false, d3, url);
        assert(e + url =~= url);
        assert(d3 =~= head_words(method));
    }
}

/// The parts of a joined text are found in it one behind the other.
proof fn lemma_joined_prefix(parts: Seq<Seq<char>>, sep: Seq<char>, n: int)
    requires
        1 <= n <= parts.len(),
    ensures
        joined(parts.take(n), sep).len() <= joined(parts, sep).len(),
        joined(parts, sep).take(joined(parts.take(n), sep).len() as int) == joined(
            parts.take(n),
            sep,
        ),
    decreases parts.len(),
{
    if n == parts.len() {
        assert(parts.take(n) =~= parts);
        assert(joined(parts, sep).take(joined(parts, sep).len() as int) =~= joined(parts, sep));
    } else {
        let front = parts.drop_last();
        lemma_joined_prefix(front, sep, n);
        assert(front.take(n) =~= parts.take(n));
        let whole = joined(parts, sep);
        assert(whole == joined(front, sep) + sep + parts.last());
        let k = joined(parts.take(n), sep).len() as int;
        assert(whole.take(k) =~= joined(front, sep).take(k));
    }
}

/// The whole command is read as the words of its first line and its flags in turn.
proof fn lemma_read_lines(method: Seq<char>, url: Seq<char>, flags: Seq<Row>, n: int)
    requires
        plain_word(method),
        0 <= n <= flags.len(),
        forall|i: int| 0 <= i < flags.len() ==> plain_word(#[trigger] flags[i].0),
    ensures
        ({
            let parts = seq![command_head(method, url)] + flag_texts(flags);
            let t = command_text(method, url, flags);
            let all = head_words(method).push(url) + flat(flags.take(n));
            words(t) == words_from(
                t,
                joined(parts.take(n + 1), " \\\n  "@).len() as int,
                all.last(),
                true,
                all.drop_last(),
            )
        }),
    decreases n,
{
    let sep = " \\\n  "@;
    let parts = seq![command_head(method, url)] + flag_texts(flags);
    let t = command_text(method, url, flags);
    let all = head_words(method).push(url) + flat(flags.take(n));
    if n == 0 {
        lemma_joined_prefix(parts, sep, 1);
        assert(parts.take(1) =~= seq![command_head(method, url)]);
        lemma_read_head(t, method, url);
        assert(all =~= head_words(method).push(url));
        assert(all.drop_last() =~= head_words(method));
    } else {
        lemma_read_lines(method, url, flags, n - 1);
        let before = head_words(method).push(url) + flat(flags.take(n - 1));
        let row = flags[n - 1];
        assert(plain_word(flags[n - 1].0));
        assert(flags.take(n).drop_last() =~= flags.take(n - 1));
        assert(flat(flags.take(n)) == flat(flags.take(n - 1)).push(row.0).push(row.1));
        lemma_joined_prefix(parts, sep, n + 1);
        let prefix = joined(parts.take(n + 1), sep);
        assert(parts.take(n + 1).drop_last() =~= parts.take(n));
        let line = row.0 + " "@ + quoted(row.1);
        assert(parts.take(n + 1).last() == line) by {
            assert(parts[n] == flag_texts(flags)[n - 1]);
        }
        let k = joined(parts.take(n), sep).len() as int;
        assert(prefix == joined(parts.take(n), sep) + sep + line);
        assert(t.subrange(k, k + sep.len()) =~= sep) by {
            assert forall|j: int| 0 <= j < sep.len() implies t.subrange(k, k + sep.len())[j]
                == sep[j] by {
                assert(t.take(prefix.len() as int)[k + j] == prefix[k + j]);
            }
        }
        lemma_read_break(t, k, before.last(), before.drop_last());
        assert(before.drop_last().push(before.last()) =~= before);
        let k2 = k + 5;
        assert(t.subrange(k2, k2 + line.len()) =~= line) by {
            assert forall|j: int| 0 <= j < line.len() implies t.subrange(k2, k2 + line.len())[j]
                == line[j] by {
                assert(t.take(prefix.len() as int)[k2 + j] == prefix[k2 + j]);
            }
        }
        lemma_read_flag(t, k2, before, row.0, row.1);
        assert(all =~= before.push(row.0).push(row.1));
        assert(all.drop_last() =~= before.push(row.0));
    }
}

proof fn lemma_read_command(method: Seq<char>, url: Seq<char>, flags: Seq<Row>)
    requires
        plain_word(method),
        forall|i: int| 0 <= i < flags.len() ==> plain_word(#[trigger] flags[i].0),
    ensures
        words(command_text(method, url, flags)) == Ok::<Seq<Seq<char>>, Fault>(
            head_words(method).push(url) + flat(flags),
        ),
{
    let parts = seq![command_head(method, url)] + flag_texts(flags);
    let n = flags.len() as int;
    lemma_read_lines(method, url, flags, n);
    assert(flags.take(n) =~= flags);
    assert(parts.take(n + 1) =~= parts);
    let all = head_words(method).push(url) + flat(flags);
    assert(all.drop_last().push(all.last()) =~= all);
}

// ─── Flags ────────────────────────────────────────────────────────────────────

proof fn lemma_flag_names()
    ensures
        "get"@.len() == 3,
        "head"@.len() == 4,
        "url"@.len() == 3,
        "request"@.len() == 7,
        "header"@.len() == 6,
        "data"@.len() == 4,
        "data-ascii"@.len() == 10,
        "data-binary"@.len() == 11,
        "data-raw"@.len() == 8,
        "-X"@ == seq!['-', 'X'],
        "-H"@ == seq!['-', 'H'],
        "--data-raw"@ == seq!['-', '-'] + "data-raw"@,
        !"data-raw"@.contains('='),
{
    reveal_strlit("get");
    reveal_strlit("head");
    reveal_strlit("url");
    reveal_strlit("request");
    reveal_strlit("header");
    reveal_strlit("data");
    reveal_strlit("data-ascii");
    reveal_strlit("data-binary");
    reveal_strlit("data-raw");
    reveal_strlit("-X");
    reveal_strlit("-H");
    reveal_strlit("--data-raw");
    assert("-X"@ =~= seq!['-', 'X']);
    assert("-H"@ =~= seq!['-', 'H']);
    assert("--data-raw"@ =~= seq!['-', '-'] + "data-raw"@);
}

proof fn lemma_method_flag(tokens: Seq<Seq<char>>, i: int, parts: PartsView)
    requires
        0 <= i,
        i + 1 < tokens.len(),
        tokens[i] == "-X"@,
    ensures
        words_applied(tokens, i, parts) == words_applied(
            tokens,
            i + 2,
            PartsView { method: Some(tokens[i + 1]), ..parts },
        ),
{
    lemma_flag_names();
    let b = tokens[i].skip(1);
    assert(b =~= seq!['X']);
    assert(b.skip(1).len() == 0);
    let after = PartsView { method: Some(tokens[i + 1]), ..parts };
    assert(value_applied("request"@, seq!['-', 'X'], tokens[i + 1], parts) == Ok::<
        PartsView,
        Fault,
    >(after));
    assert(flag_applied("request"@, seq!['-', 'X'], None, tokens, i + 1, parts) == Ok::<
        (int, PartsView),
        Fault,
    >((i + 2, after)));
    assert(bundle_applied(b, 0, tokens, i + 1, parts) == Ok::<(int, PartsView), Fault>(
        (i + 2, after),
    ));
    assert(word_applied(tokens[i], tokens, i + 1, parts) == Ok::<(int, PartsView), Fault>(
        (i + 2, after),
    ));
}

proof fn lemma_split_kept(h: Row)
    requires
        header_keeps(h),
    ensures
        header_split(h.0 + ": "@ + h.1) == Ok::<Row, Fault>(h),
{
    reveal_strlit(": ");
    let raw = h.0 + ": "@ + h.1;
    let n = h.0.len() as int;
    assert forall|j: int| 0 <= j < n implies #[trigger] raw[j] != ':' by {
        assert(raw[j] == h.0[j]);
        assert(h.0.contains(h.0[j]));
    }
    lemma_char_from(raw, ':', 0);
    assert(raw[n] == ':');
    assert(char_from(raw, ':', 0) == n) by {
        let at = char_from(raw, ':', 0);
        if at < n {
            assert(raw[at] == ':');
        }
        if at > n {
            assert(raw[n] != ':');
        }
    }
    assert(raw.take(n) =~= h.0);
    let tail = raw.skip(n + 1);
    assert(tail =~= seq![' '] + h.1);
    assert(tail.drop_first() =~= h.1);
    lemma_trimmed_is_bare(h.1);
    assert(trim_start(tail) == trim_start(h.1));
    assert(trimmed(tail) == h.1);
}

proof fn lemma_header_flag(tokens: Seq<Seq<char>>, i: int, parts: PartsView, h: Row)
    requires
        0 <= i,
        i + 1 < tokens.len(),
        tokens[i] == "-H"@,
        tokens[i + 1] == h.0 + ": "@ + h.1,
        header_keeps(h),
        forall|j: int|
            0 <= j < parts.headers.len() ==> !same_ignoring_case(
                #[trigger] parts.headers[j].0,
                h.0,
            ),
    ensures
        words_applied(tokens, i, parts) == words_applied(
            tokens,
            i + 2,
            PartsView { headers: parts.headers.push(h), ..parts },
        ),
{
    lemma_flag_names();
    lemma_split_kept(h);
    lemma_header_from(parts.headers, h.0, 0);
    let b = tokens[i].skip(1);
    assert(b =~= seq!['H']);
    assert(b.skip(1).len() == 0);
    let after = PartsView { headers: parts.headers.push(h), ..parts };
    assert(value_applied("header"@, seq!['-', 'H'], tokens[i + 1], parts) == Ok::<
        PartsView,
        Fault,
    >(after));
    assert(flag_applied("header"@, seq!['-', 'H'], None, tokens, i + 1, parts) == Ok::<
        (int, PartsView),
        Fault,
    >((i + 2, after)));
    assert(bundle_applied(b, 0, tokens, i + 1, parts) == Ok::<(int, PartsView), Fault>(
        (i + 2, after),
    ));
    assert(word_applied(tokens[i], tokens, i + 1, parts) == Ok::<(int, PartsView), Fault>(
        (i + 2, after),
    ));
}

proof fn lemma_data_flag(tokens: Seq<Seq<char>>, i: int, parts: PartsView)
    requires
        0 <= i,
        i + 1 < tokens.len(),
        tokens[i] == "--data-raw"@,
    ensures
        words_applied(tokens, i, parts) == words_applied(
            tokens,
            i + 2,
            PartsView { data: parts.data.push(tokens[i + 1]), ..parts },
        ),
{
    lemma_flag_names();
    let name = "data-raw"@;
    assert(tokens[i].skip(2) =~= name);
    lemma_char_from(name, '=', 0);
    assert(char_from(name, '=', 0) == name.len()) by {
        let at = char_from(name, '=', 0);
        if at < name.len() {
            assert(name.contains(name[at]));
        }
    }
    let after = PartsView { data: parts.data.push(tokens[i + 1]), ..parts };
    assert(value_applied(name, "--"@ + name, tokens[i + 1], parts) == Ok::<PartsView, Fault>(after));
    assert(flag_applied(name, "--"@ + name, None, tokens, i + 1, parts) == Ok::<
        (int, PartsView),
        Fault,
    >((i + 2, after)));
    assert(word_applied(tokens[i], tokens, i + 1, parts) == Ok::<(int, PartsView), Fault>(
        (i + 2, after),
    ));
}

proof fn lemma_url_word(tokens: Seq<Seq<char>>, i: int, parts: PartsView)
    requires
        0 <= i < tokens.len(),
        !(tokens[i].len() > 0 && tokens[i][0] == '-'),
        parts.url is None,
    ensures
        words_applied(tokens, i, parts) == words_applied(
            tokens,
            i + 1,
            PartsView { url: Some(tokens[i]), ..parts },
        ),
{
}

/// A header flag and its value stand at `at`.
pub open spec fn header_at(tokens: Seq<Seq<char>>, at: int, h: Row) -> bool {
    tokens[at] == "-H"@ && tokens[at + 1] == h.0 + ": "@ + h.1
}

/// The header flags are read as the headers they were made from.
proof fn lemma_header_flags(
    tokens: Seq<Seq<char>>,
    i: int,
    parts: PartsView,
    headers: Seq<Row>,
    k: int,
)
    requires
        0 <= i,
        0 <= k <= headers.len(),
        i + 2 * headers.len() <= tokens.len(),
        parts.headers.len() == 0,
        forall|j: int|
            0 <= j < headers.len() ==> header_at(tokens, i + 2 * j, #[trigger] headers[j])
                && header_keeps(headers[j]),
        forall|a: int, b: int|
            0 <= a < b < headers.len() ==> !same_ignoring_case(headers[a].0, headers[b].0),
    ensures
        words_applied(tokens, i, parts) == words_applied(
            tokens,
            i + 2 * k,
            PartsView { headers: headers.take(k), ..parts },
        ),
    decreases k,
{
    if k == 0 {
        assert(headers.take(0) =~= parts.headers);
    } else {
        lemma_header_flags(tokens, i, parts, headers, k - 1);
        let held = PartsView { headers: headers.take(k - 1), ..parts };
        let h = headers[k - 1];
        assert(header_at(tokens, i + 2 * (k - 1), headers[k - 1]));
        assert forall|j: int| 0 <= j < held.headers.len() implies !same_ignoring_case(
            #[trigger] held.headers[j].0,
            h.0,
        ) by {
            assert(held.headers[j] == headers[j]);
            assert(!same_ignoring_case(headers[j].0, headers[k - 1].0));
        }
        lemma_header_flag(tokens, i + 2 * (k - 1), held, h);
        assert(held.headers.push(h) =~= headers.take(k));
    }
}

// ─── The query ────────────────────────────────────────────────────────────────

/// The query folded into a URL is lifted off it again.
proof fn lemma_lifted(base: Seq<char>, q: Seq<char>, rows: Seq<Row>)
    requires
        !base.contains('?'),
        !base.contains('#'),
        !occurs(base, "{{"@),
        reads_back(q, rows),
        forall|i: int, j: int| 0 <= i < j < rows.len() ==> rows[i].0 != rows[j].0,
    ensures
        lifted(base + "?"@ + q) == (base, collected(rows)),
{
    reveal_strlit("?");
    reveal_strlit("{{");
    let url = base + "?"@ + q;
    let n = base.len() as int;
    lemma_char_from(url, '?', 0);
    assert(url[n] == '?');
    assert(char_from(url, '?', 0) == n) by {
        let at = char_from(url, '?', 0);
        if at < n {
            assert(url[at] == base[at]);
            assert(base.contains(base[at]));
        }
        if at > n {
            assert(url[n] != '?');
        }
    }
    assert(url.skip(n + 1) =~= q);
    assert(url.take(n) =~= base);
    assert(!url.contains('#')) by {
        if url.contains('#') {
            let j = choose|j: int| 0 <= j < url.len() && url[j] == '#';
            if j < n {
                assert(base[j] == '#');
                assert(base.contains(base[j]));
            } else if j > n {
                assert(query_safe(q[j - n - 1]));
            }
        }
    }
    assert(!occurs(url, "{{"@)) by {
        if occurs(url, "{{"@) {
            let i = choose|i: int| occurs_at(url, "{{"@, i);
            let pair = url.subrange(i, i + 2);
            assert(pair[0] == '{' && pair[1] == '{');
            assert(url[i] == '{' && url[i + 1] == '{');
            if i + 1 < n {
                assert(base.subrange(i, i + 2) =~= "{{"@);
                assert(occurs_at(base, "{{"@, i));
            } else if i < n {
                assert(url[i + 1] == '?');
            } else if i == n {
            } else {
                assert(query_safe(q[i - n - 1]));
            }
        }
    }
    assert(!names_repeat(rows));
}

proof fn lemma_not_lifted(base: Seq<char>)
    requires
        !base.contains('?'),
    ensures
        lifted(base) == (base, Map::<Seq<char>, Seq<char>>::empty()),
{
    lemma_char_from(base, '?', 0);
    let at = char_from(base, '?', 0);
    if at < base.len() {
        assert(base.contains(base[at]));
    }
}

// ─── The whole ────────────────────────────────────────────────────────────────

/// The words of an expressible request add up to what it says.
#[verifier::spinoff_prover]
#[verifier::rlimit(60)]
proof fn lemma_read_parts(
    method: Seq<char>,
    url: Seq<char>,
    headers: Seq<Row>,
    body: Option<BodyView>,
    flags: Seq<Row>,
)
    requires
        !(url.len() > 0 && url[0] == '-'),
        forall|i: int| 0 <= i < headers.len() ==> header_keeps(#[trigger] headers[i]),
        forall|i: int, j: int|
            0 <= i < j < headers.len() ==> !same_ignoring_case(headers[i].0, headers[j].0),
        body matches Some(b) ==> {
            &&& trimmed(b.content_type) == b.content_type
            &&& forall|i: int|
                0 <= i < headers.len() ==> !same_ignoring_case(
                    #[trigger] headers[i].0,
                    "Content-Type"@,
                )
        },
        ({
            let given = headers.map_values(|r: Row| ("-H"@, r.0 + ": "@ + r.1));
            flags == match body {
                None => given,
                Some(b) => given.push(("-H"@, "Content-Type: "@ + b.content_type)).push(
                    ("--data-raw"@, b.data),
                ),
            }
        }),
    ensures
        words_applied(head_words(method).push(url) + flat(flags), 1, no_parts()) == Ok::<
            PartsView,
            Fault,
        >(
            PartsView {
                url: Some(url),
                method: if method == "GET"@ {
                    None
                } else {
                    Some(method)
                },
                headers: match body {
                    None => headers,
                    Some(b) => headers.push(("Content-Type"@, b.content_type)),
                },
                data: match body {
                    None => Seq::empty(),
                    Some(b) => seq![b.data],
                },
                get: false,
                head: false,
            },
        ),
{
    let tokens = head_words(method).push(url) + flat(flags);
    let given = headers.map_values(|r: Row| ("-H"@, r.0 + ": "@ + r.1));
    let u = head_words(method).len() as int;
    if flags.len() > 0 {
        lemma_flat(flags, 0);
    } else {
        assert(flat(flags) =~= Seq::empty());
    }
    assert(tokens.len() == u + 1 + 2 * flags.len());
    assert(tokens.take(u + 1) =~= head_words(method).push(url));
    lemma_read_front(tokens, method, url);
    let p2 = front_parts(method, url);
    let s = u + 1;
    assert forall|j: int| 0 <= j < headers.len() implies header_at(
        tokens,
        s + 2 * j,
        #[trigger] headers[j],
    ) && header_keeps(headers[j]) by {
        lemma_flat(flags, j);
        assert(flags[j] == given[j]);
        assert(tokens[s + 2 * j] == flat(flags)[2 * j]);
        assert(tokens[s + 2 * j + 1] == flat(flags)[2 * j + 1]);
    }
    let n = headers.len() as int;
    lemma_header_flags(tokens, s, p2, headers, n);
    assert(headers.take(n) =~= headers);
    let p3 = PartsView { headers, ..p2 };
    match body {
        None => {
            assert(words_applied(tokens, s + 2 * n, p3) == Ok::<PartsView, Fault>(p3));
        },
        Some(b) => {
            lemma_flat(flags, n);
            lemma_flat(flags, n + 1);
            let at = s + 2 * n;
            assert(tokens[at] == flat(flags)[2 * n]);
            assert(tokens[at + 1] == flat(flags)[2 * n + 1]);
            assert(tokens[at + 2] == flat(flags)[2 * (n + 1)]);
            assert(tokens[at + 3] == flat(flags)[2 * (n + 1) + 1]);
            lemma_read_body(tokens, at, p3, b);
            assert(p3.data.push(b.data) =~= seq![b.data]);
        },
    }
}

/// What the first line of a command adds up to.
pub open spec fn front_parts(method: Seq<char>, url: Seq<char>) -> PartsView {
    PartsView {
        url: Some(url),
        method: if method == "GET"@ {
            None
        } else {
            Some(method)
        },
        ..no_parts()
    }
}

proof fn lemma_read_front(tokens: Seq<Seq<char>>, method: Seq<char>, url: Seq<char>)
    requires
        head_words(method).len() < tokens.len(),
        tokens.take(head_words(method).len() as int + 1) == head_words(method).push(url),
        !(url.len() > 0 && url[0] == '-'),
    ensures
        words_applied(tokens, 1, no_parts()) == words_applied(
            tokens,
            head_words(method).len() as int + 1,
            front_parts(method, url),
        ),
{
    let head = head_words(method).push(url);
    let u = head_words(method).len() as int;
    assert(forall|j: int| 0 <= j <= u ==> #[trigger] head[j] == tokens[j]) by {
        assert forall|j: int| 0 <= j <= u implies #[trigger] head[j] == tokens[j] by {
            assert(tokens.take(u + 1)[j] == tokens[j]);
        }
    }
    assert(head[u] == url);
    if method == "GET"@ {
        lemma_url_word(tokens, 1, no_parts());
    } else {
        assert(head[1] == "-X"@);
        assert(head[2] == method);
        lemma_method_flag(tokens, 1, no_parts());
        lemma_url_word(tokens, 3, PartsView { method: Some(method), ..no_parts() });
    }
}

proof fn lemma_read_body(tokens: Seq<Seq<char>>, at: int, parts: PartsView, b: BodyView)
    requires
        0 <= at,
        tokens.len() == at + 4,
        tokens[at] == "-H"@,
        tokens[at + 1] == "Content-Type: "@ + b.content_type,
        tokens[at + 2] == "--data-raw"@,
        tokens[at + 3] == b.data,
        trimmed(b.content_type) == b.content_type,
        forall|i: int|
            0 <= i < parts.headers.len() ==> !same_ignoring_case(
                #[trigger] parts.headers[i].0,
                "Content-Type"@,
            ),
    ensures
        words_applied(tokens, at, parts) == Ok::<PartsView, Fault>(
            PartsView {
                headers: parts.headers.push(("Content-Type"@, b.content_type)),
                data: parts.data.push(b.data),
                ..parts
            },
        ),
{
    let h: Row = ("Content-Type"@, b.content_type);
    reveal_strlit("Content-Type");
    reveal_strlit("Content-Type: ");
    reveal_strlit(": ");
    assert("Content-Type: "@ + b.content_type =~= h.0 + ": "@ + h.1);
    lemma_bare_is_trimmed(h.0);
    assert(header_keeps(h));
    lemma_header_flag(tokens, at, parts, h);
    let p4 = PartsView { headers: parts.headers.push(h), ..parts };
    lemma_data_flag(tokens, at + 2, p4);
}

/// Reading the command of an expressible request gives back the request: its
/// method, its URL, its headers, its query and its body, placeholders filled in.
pub proof fn law_a_command_reads_back_as_its_request(config: RequestView, vars: TextMap, env: TextMap)
    requires
        expressible(config, vars, env),
        listing(config.query).len() > 0 ==> query_follows(config, vars, env),
    ensures
        imported(rendered(config, vars, env)) == Ok::<RequestView, Fault>(
            resolved(config, vars, env),
        ),
{
    let method = config.method;
    let base = filled(config.url, vars, env);
    let headers = sort_rows(filled_rows(listing(config.headers), vars, env));
    let query = sort_rows(filled_rows(listing(config.query), vars, env));
    let url = built_url(config.url, listing(config.query), vars, env);
    let flags = flag_rows(listing(config.headers), config.body, vars, env);
    let text = rendered(config, vars, env);
    let body = match config.body {
        None => None,
        Some(b) => Some(
            BodyView { content_type: b.content_type, data: filled(b.data, vars, env) },
        ),
    };
    law_sort_rows_orders(filled_rows(listing(config.query), vars, env));
    lemma_plain_literals();
    // The URL, with the query folded into it.
    if query.len() == 0 {
        assert(url == base);
        lemma_not_lifted(base);
        assert(collected(query) =~= Map::empty());
    } else {
        let p = folded(base, query)->0;
        assert(url == base + "?"@ + p.1);
        lemma_lifted(base, p.1, query);
    }
    assert(!(url.len() > 0 && url[0] == '-')) by {
        reveal_strlit("?");
        if query.len() > 0 && base.len() == 0 {
            assert(url[0] == '?');
        }
    }
    // The words.
    assert forall|i: int| 0 <= i < flags.len() implies plain_word(#[trigger] flags[i].0) by {}
    lemma_read_command(method, url, flags);
    lemma_read_parts(method, url, headers, body, flags);
    // Nothing to trim, and no prompt.
    assert(text.len() > 0 && text[0] == 'c' && text.last() == '\'') by {
        let parts = seq![command_head(method, url)] + flag_texts(flags);
        lemma_joined_prefix(parts, " \\\n  "@, 1);
        assert(parts.take(1) =~= seq![command_head(method, url)]);
        reveal_strlit("curl");
        assert(command_head(method, url)[0] == 'c');
        assert(text.take(command_head(method, url).len() as int)[0] == text[0]);
        if flags.len() == 0 {
            assert(parts =~= seq![command_head(method, url)]);
            assert(command_head(method, url).last() == '\'');
        } else {
            let last = flags.last();
            assert(parts.last() == last.0 + " "@ + quoted(last.1));
            assert(parts.last().last() == '\'');
            assert(text == joined(parts.drop_last(), " \\\n  "@) + " \\\n  "@ + parts.last());
            assert(text.last() == parts.last().last());
        }
    }
    lemma_bare_is_trimmed(text);
    assert(without_prompt(trimmed(text)) == text);
    let tokens = head_words(method).push(url) + flat(flags);
    assert(tokens[0] == "curl"@);
    let parts = words_applied(tokens, 1, no_parts())->Ok_0;
    assert(parts.url == Some(url));
    // The request the parts add up to.
    let data = joined(parts.data, "&"@);
    match body {
        None => {
            assert(parts.headers == headers);
        },
        Some(b) => {
            assert(data == b.data);
            let n = headers.len() as int;
            assert(parts.headers == headers.push(("Content-Type"@, b.content_type)));
            lemma_header_from(parts.headers, "Content-Type"@, 0);
            assert(header_from(parts.headers, "Content-Type"@, 0) == n) by {
                let at = header_from(parts.headers, "Content-Type"@, 0);
                assert(same_ignoring_case(parts.headers[n].0, "Content-Type"@));
                if at < n {
                    assert(parts.headers[at] == headers[at]);
                }
                if at > n {
                    assert(!same_ignoring_case(parts.headers[n].0, "Content-Type"@));
                }
            }
            assert(parts.headers.remove(n) =~= headers);
        },
    }
    assert(target_url(url, false, data) == url);
    assert(method_of(parts) == method);
    let back = finished(parts)->Ok_0;
    assert(back.headers == collected(headers));
    assert(back == resolved(config, vars, env));
}

/// The words that a command splits into: curl, the method where it is not GET, the
/// URL, and each flag with its value.
pub open spec fn command_words(config: RequestView, vars: TextMap, env: TextMap) -> Seq<Seq<char>> {
    head_words(uppercase(config.method)).push(
        built_url(config.url, listing(config.query), vars, env),
    ) + flat(flag_rows(listing(config.headers), config.body, vars, env))
}

/// A command splits into just the words that it was made of, whatever they hold; only
/// the method, which is not quoted, must be one word.
pub proof fn law_a_command_splits_into_its_words(config: RequestView, vars: TextMap, env: TextMap)
    requires
        plain_word(uppercase(config.method)),
    ensures
        words(rendered(config, vars, env)) == Ok::<Seq<Seq<char>>, Fault>(
            command_words(config, vars, env),
        ),
{
    let flags = flag_rows(listing(config.headers), config.body, vars, env);
    lemma_plain_literals();
    assert forall|i: int| 0 <= i < flags.len() implies plain_word(#[trigger] flags[i].0) by {}
    lemma_read_command(
        uppercase(config.method),
        built_url(config.url, listing(config.query), vars, env),
        flags,
    );
}

/// Requests that say the same give the same command, in whatever order their headers
/// and their query were filled in: a command holds the headers and the query in rising
/// order, each as often as the request does.
pub proof fn law_a_command_rests_on_the_maps(a: RequestView, b: RequestView, vars: TextMap, env: TextMap)
    requires
        a.method == b.method,
        a.url == b.url,
        a.headers == b.headers,
        a.query == b.query,
        a.body == b.body,
    ensures
        rendered(a, vars, env) == rendered(b, vars, env),
        ({
            let headers = filled_rows(listing(a.headers), vars, env);
            let query = filled_rows(listing(a.query), vars, env);
            &&& in_order(sort_rows(headers))
            &&& sort_rows(headers).to_multiset() == headers.to_multiset()
            &&& in_order(sort_rows(query))
            &&& sort_rows(query).to_multiset() == query.to_multiset()
        }),
{
    law_sort_rows_orders(filled_rows(listing(a.headers), vars, env));
    law_sort_rows_orders(filled_rows(listing(a.query), vars, env));
}

// ─── A request without placeholders ───────────────────────────────────────────

/// Rows in strict name order are in order already.
proof fn lemma_named_is_sorted(rows: Seq<Row>)
    requires
        strictly_named(rows),
    ensures
        sort_rows(rows) == rows,
    decreases rows.len(),
{
    if rows.len() > 0 {
        let front = rows.drop_last();
        assert forall|i: int, j: int| 0 <= i < j < front.len() implies text_lt(
            #[trigger] front[i].0,
            #[trigger] front[j].0,
        ) by {
            assert(text_lt(rows[i].0, rows[j].0));
        }
        lemma_named_is_sorted(front);
        assert(rows =~= front.push(rows.last()));
        if front.len() > 0 {
            assert(text_lt(rows[rows.len() - 2].0, rows[rows.len() - 1].0));
            lemma_text_lt_total(front.last().0, rows.last().0);
        } else {
            assert(insert_row(front, rows.last()) =~= rows);
        }
    }
}

/// Collecting rows in strict name order makes the map that they spell out.
proof fn lemma_named_collected(rows: Seq<Row>)
    requires
        strictly_named(rows),
    ensures
        collected(rows) == map_of(rows),
    decreases rows.len(),
{
    if rows.len() == 0 {
        assert(map_of(rows) =~= Map::empty());
    } else {
        lemma_drop_last(rows);
        lemma_named_collected(rows.drop_last());
        lemma_rows_are_the_map(rows);
        let k = rows[rows.len() - 1].0;
        assert(map_of(rows).dom().contains(k));
        assert(map_of(rows) =~= map_of(rows).remove(k).insert(k, rows.last().1));
    }
}

/// A text without an opening `{{` has nothing to fill in.
pub proof fn law_a_text_without_placeholders_stays(s: Seq<char>, vars: TextMap, env: TextMap)
    requires
        !occurs(s, "{{"@),
    ensures
        filled(s, vars, env) == s,
{
    reveal_strlit("{{");
    lemma_find_from(s, "{{"@, 0);
    let at = find_from(s, "{{"@, 0);
    if at <= s.len() {
        assert(occurs_at(s, "{{"@, at));
    }
    assert(s.skip(0) =~= s);
}

/// No placeholder opens in a name or a value.
pub open spec fn rows_plain(rows: Seq<Row>) -> bool {
    forall|i: int|
        0 <= i < rows.len() ==> !occurs((#[trigger] rows[i]).0, "{{"@) && !occurs(rows[i].1, "{{"@)
}

proof fn lemma_rows_unfilled(rows: Seq<Row>, vars: TextMap, env: TextMap)
    requires
        rows_plain(rows),
    ensures
        filled_rows(rows, vars, env) == rows,
{
    assert forall|i: int| 0 <= i < rows.len() implies filled_rows(rows, vars, env)[i] == rows[i] by {
        law_a_text_without_placeholders_stays(rows[i].0, vars, env);
        law_a_text_without_placeholders_stays(rows[i].1, vars, env);
    }
    assert(filled_rows(rows, vars, env) =~= rows);
}

/// A request without placeholders.
pub open spec fn placeholder_free(config: RequestView) -> bool {
    &&& !occurs(config.url, "{{"@)
    &&& rows_plain(listing(config.headers))
    &&& rows_plain(listing(config.query))
    &&& config.body matches Some(b) ==> !occurs(b.data, "{{"@)
}

/// The request less its name and whatever else a command cannot carry.
pub open spec fn carried(config: RequestView) -> RequestView {
    RequestView {
        name: Seq::empty(),
        description: None,
        extract: None,
        profiles: None,
        ..config
    }
}

/// A request without placeholders resolves to itself, less its name and whatever
/// else a command cannot carry.
pub proof fn law_plain_request_resolves_to_itself(
    config: RequestView,
    vars: TextMap,
    env: TextMap,
)
    requires
        has_listing(config.headers),
        has_listing(config.query),
        placeholder_free(config),
    ensures
        resolved(config, vars, env) == carried(config),
{
    law_a_text_without_placeholders_stays(config.url, vars, env);
    lemma_rows_unfilled(listing(config.headers), vars, env);
    lemma_rows_unfilled(listing(config.query), vars, env);
    lemma_named_is_sorted(listing(config.headers));
    lemma_named_is_sorted(listing(config.query));
    lemma_named_collected(listing(config.headers));
    lemma_named_collected(listing(config.query));
    match config.body {
        Some(b) => {
            law_a_text_without_placeholders_stays(b.data, vars, env);
        },
        None => {},
    }
}

// ─── Headers of a command ─────────────────────────────────────────────────────

/// No two headers go by the same name, whatever its case.
pub open spec fn names_apart(headers: Seq<Row>) -> bool {
    forall|i: int, j: int|
        0 <= i < j < headers.len() ==> !same_ignoring_case(headers[i].0, headers[j].0)
}

/// Two texts that are each the same as a third up to case are the same up to case.
pub proof fn lemma_case_joins(a: Seq<char>, b: Seq<char>, c: Seq<char>)
    requires
        same_ignoring_case(a, c),
        same_ignoring_case(b, c),
    ensures
        same_ignoring_case(a, b),
{
    assert forall|x: int| 0 <= x < a.len() implies ascii_lower(#[trigger] a[x]) == ascii_lower(
        b[x],
    ) by {
        assert(ascii_lower(a[x]) == ascii_lower(c[x]));
        assert(ascii_lower(b[x]) == ascii_lower(c[x]));
    }
}

pub proof fn lemma_header_keeps_apart(headers: Seq<Row>, name: Seq<char>, value: Seq<char>)
    requires
        names_apart(headers),
    ensures
        names_apart(with_header(headers, name, value)),
        names_apart(with_default_header(headers, name, value)),
{
    lemma_header_from(headers, name, 0);
    let at = header_from(headers, name, 0);
    let after = with_header(headers, name, value);
    if at < headers.len() {
        assert forall|i: int, j: int| 0 <= i < j < after.len() implies !same_ignoring_case(
            after[i].0,
            after[j].0,
        ) by {
            assert(after[i].0 == headers[i].0);
            assert(after[j].0 == headers[j].0);
        }
    } else {
        assert forall|i: int, j: int| 0 <= i < j < after.len() implies !same_ignoring_case(
            after[i].0,
            after[j].0,
        ) by {
            if j == headers.len() {
                assert(!same_ignoring_case(headers[i].0, name));
            }
        }
    }
}

proof fn lemma_flag_keeps_apart(
    name: Seq<char>,
    display: Seq<char>,
    inline: Option<Seq<char>>,
    tokens: Seq<Seq<char>>,
    i: int,
    parts: PartsView,
)
    requires
        names_apart(parts.headers),
    ensures
        flag_applied(name, display, inline, tokens, i, parts) matches Ok(p) ==> names_apart(
            p.1.headers,
        ),
{
    match flag_value(display, inline, tokens, i) {
        Err(f) => {},
        Ok((v, next)) => {
            match header_split(v) {
                Ok((n, w)) => {
                    lemma_header_keeps_apart(parts.headers, n, w);
                },
                Err(f) => {},
            }
            let json = "application/json"@;
            lemma_header_keeps_apart(parts.headers, "Content-Type"@, json);
            lemma_header_keeps_apart(
                with_default_header(parts.headers, "Content-Type"@, json),
                "Accept"@,
                json,
            );
            lemma_header_keeps_apart(
                parts.headers,
                "Authorization"@,
                "Basic "@ + base64(encode_utf8(v)),
            );
            lemma_header_keeps_apart(parts.headers, "Cookie"@, v);
            lemma_header_keeps_apart(parts.headers, "User-Agent"@, v);
            lemma_header_keeps_apart(parts.headers, "Referer"@, v);
        },
    }
}

proof fn lemma_bundle_keeps_apart(
    bundle: Seq<char>,
    pos: int,
    tokens: Seq<Seq<char>>,
    i: int,
    parts: PartsView,
)
    requires
        names_apart(parts.headers),
    ensures
        bundle_applied(bundle, pos, tokens, i, parts) matches Ok(p) ==> names_apart(p.1.headers),
    decreases bundle.len() - pos,
{
    if pos < bundle.len() {
        let display = seq!['-', bundle[pos]];
        match long_name(bundle[pos]) {
            None => {},
            Some(name) => {
                let rest = bundle.skip(pos + 1);
                lemma_flag_keeps_apart(name, display, None, tokens, i, parts);
                lemma_flag_keeps_apart(name, display, Some(rest), tokens, i, parts);
                match flag_applied(name, display, None, tokens, i, parts) {
                    Ok((next, p)) => {
                        lemma_bundle_keeps_apart(bundle, pos + 1, tokens, next, p);
                    },
                    Err(f) => {},
                }
            },
        }
    }
}

pub proof fn lemma_words_keep_apart(tokens: Seq<Seq<char>>, i: int, parts: PartsView)
    requires
        names_apart(parts.headers),
    ensures
        words_applied(tokens, i, parts) matches Ok(p) ==> names_apart(p.headers),
    decreases tokens.len() - i,
{
    if 0 <= i < tokens.len() {
        let word = tokens[i];
        let (name, inline) = long_split(word.skip(2));
        lemma_flag_keeps_apart(name, "--"@ + name, inline, tokens, i + 1, parts);
        lemma_bundle_keeps_apart(word.skip(1), 0, tokens, i + 1, parts);
        lemma_bundle_applied(word.skip(1), 0, tokens, i + 1, parts);
        match word_applied(word, tokens, i + 1, parts) {
            Ok((next, p)) => {
                lemma_words_keep_apart(tokens, next, p);
            },
            Err(f) => {},
        }
    }
}

/// A request with a body that comes out of a command has its content type with the
/// body alone: none of its headers goes by that name.
pub proof fn law_imported_content_type_is_the_bodys(input: Seq<char>)
    ensures
        imported(input) matches Ok(c) ==> (c.body is Some ==> forall|k: Seq<char>|
            c.headers.dom().contains(k) ==> !same_ignoring_case(k, "Content-Type"@)),
{
    match imported(input) {
        Err(f) => {},
        Ok(c) => {
            if c.body is Some {
                let tokens = words(without_prompt(trimmed(input)))->Ok_0;
                lemma_words_keep_apart(tokens, 1, no_parts());
                let parts = words_applied(tokens, 1, no_parts())->Ok_0;
                let name = "Content-Type"@;
                let at = header_from(parts.headers, name, 0);
                lemma_header_from(parts.headers, name, 0);
                let kept = if at < parts.headers.len() {
                    parts.headers.remove(at)
                } else {
                    parts.headers
                };
                assert(c.headers == collected(kept));
                assert forall|k: Seq<char>|
                    c.headers.dom().contains(k) implies !same_ignoring_case(k, name) by {
                    lemma_collected_names(kept, k);
                    let i = choose|i: int| 0 <= i < kept.len() && #[trigger] kept[i].0 == k;
                    let j = if i < at {
                        i
                    } else {
                        i + 1
                    };
                    if at < parts.headers.len() {
                        assert(kept[i] == parts.headers[j]);
                        if same_ignoring_case(k, name) {
                            lemma_case_joins(parts.headers[at].0, k, name);
                            lemma_case_joins(k, parts.headers[at].0, name);
                        }
                    }
                }
            }
        },
    }
}

// ─── Unknown flags ────────────────────────────────────────────────────────────

/// A long flag that means nothing here.
pub open spec fn unknown_flag(name: Seq<char>) -> bool {
    name != "get"@ && name != "head"@ && !wants_value(name) && !no_effect(name)
}

/// Reading the words from index `i` on gets as far as the word `k`, and takes it for
/// a word of its own, not for the value of a flag.
pub open spec fn reaches(tokens: Seq<Seq<char>>, i: int, parts: PartsView, k: int) -> bool
    decreases tokens.len() - i,
    via reaches_shrinks
{
    if i < 0 || i >= tokens.len() || i > k {
        false
    } else if i == k {
        true
    } else {
        match word_applied(tokens[i], tokens, i + 1, parts) {
            Err(_) => false,
            Ok((next, p)) => reaches(tokens, next, p, k),
        }
    }
}

#[via_fn]
proof fn reaches_shrinks(tokens: Seq<Seq<char>>, i: int, parts: PartsView, k: int) {
    if 0 <= i < tokens.len() {
        lemma_bundle_applied(tokens[i].skip(1), 0, tokens, i + 1, parts);
    }
}

proof fn lemma_unknown_flag_stops(tokens: Seq<Seq<char>>, i: int, parts: PartsView, k: int)
    requires
        reaches(tokens, i, parts, k),
        tokens[k].len() >= 2,
        tokens[k][0] == '-' && tokens[k][1] == '-',
        unknown_flag(long_split(tokens[k].skip(2)).0),
    ensures
        words_applied(tokens, i, parts) == Err::<PartsView, Fault>(
            Fault::UnsupportedFlag("--"@ + long_split(tokens[k].skip(2)).0),
        ),
    decreases tokens.len() - i,
{
    if i < k {
        match word_applied(tokens[i], tokens, i + 1, parts) {
            Err(_) => {},
            Ok((next, p)) => {
                lemma_bundle_applied(tokens[i].skip(1), 0, tokens, i + 1, parts);
                lemma_unknown_flag_stops(tokens, next, p, k);
            },
        }
    }
}

/// A flag that means nothing here is refused by name, never skipped.
pub proof fn law_an_unknown_flag_is_refused_by_name(tokens: Seq<Seq<char>>, k: int)
    requires
        tokens.len() > 0,
        tokens[0] == "curl"@,
        reaches(tokens, 1, no_parts(), k),
        tokens[k].len() >= 2,
        tokens[k][0] == '-' && tokens[k][1] == '-',
        unknown_flag(long_split(tokens[k].skip(2)).0),
    ensures
        command_read(tokens) == Err::<RequestView, Fault>(
            Fault::UnsupportedFlag("--"@ + long_split(tokens[k].skip(2)).0),
        ),
{
    lemma_unknown_flag_stops(tokens, 1, no_parts(), k);
}

} // verus!
