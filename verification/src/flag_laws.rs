//! What each flag of a cURL command is for.
//!
//! Most laws here take a command that is read, put one more flag behind it, and say what
//! has changed in the request that comes out.
use vstd::prelude::*;
use vstd::utf8::encode_utf8;

use crate::curl_error::Fault;
use crate::curl_laws::{lemma_case_joins, lemma_words_keep_apart, names_apart};
use crate::curl_parse::{
    base64, bundle_applied, collected, command_read, finished, flag_applied, header_from, header_split,
    imported, lemma_bundle_applied, lemma_collected_names, lemma_header_from, lifted, long_name, long_split,
    no_effect, no_parts, target_url, urlencoded, value_applied, wants_value, with_header, without_prompt,
    word_applied, words_applied, PartsView,
};
use crate::order::Row;
use crate::request::{BodyView, RequestView, TextMap};
use crate::shell::words;
use crate::text::{char_from, joined, lemma_char_from, occurs, same_ignoring_case, trimmed, white};
use crate::unicode::uppercase;
use crate::weburl::{folded, placeholder_url, url_pairs};

verus! {

// ─── One word behind a command ────────────────────────────────────────────────

/// The request that a list of words describes.
#[verifier::opaque]
pub open spec fn reading(w: Seq<Seq<char>>) -> Result<RequestView, Fault> {
    command_read(w)
}

/// A list of words that is read as a request.
pub open spec fn reads_as(w: Seq<Seq<char>>, c: RequestView) -> bool {
    reading(w) == Ok::<RequestView, Fault>(c)
}

/// What parts come to.
#[verifier::opaque]
spec fn ending(q: PartsView) -> Result<RequestView, Fault> {
    finished(q)
}

proof fn lemma_flag_goes_on(
    name: Seq<char>,
    display: Seq<char>,
    inline: Option<Seq<char>>,
    w: Seq<Seq<char>>,
    more: Seq<Seq<char>>,
    i: int,
    parts: PartsView,
)
    requires
        0 <= i <= w.len(),
        flag_applied(name, display, inline, w, i, parts) is Ok,
    ensures
        flag_applied(name, display, inline, w + more, i, parts) == flag_applied(
            name,
            display,
            inline,
            w,
            i,
            parts,
        ),
        i <= flag_applied(name, display, inline, w, i, parts)->Ok_0.0 <= w.len(),
{
}

proof fn lemma_bundle_goes_on(
    bundle: Seq<char>,
    pos: int,
    w: Seq<Seq<char>>,
    more: Seq<Seq<char>>,
    i: int,
    parts: PartsView,
)
    requires
        0 <= i <= w.len(),
        bundle_applied(bundle, pos, w, i, parts) is Ok,
    ensures
        bundle_applied(bundle, pos, w + more, i, parts) == bundle_applied(bundle, pos, w, i, parts),
    decreases bundle.len() - pos,
{
    if pos < bundle.len() {
        let display = seq!['-', bundle[pos]];
        match long_name(bundle[pos]) {
            None => {},
            Some(name) => {
                if wants_value(name) {
                    let rest = bundle.skip(pos + 1);
                    let inline = if rest.len() == 0 {
                        None
                    } else {
                        Some(rest)
                    };
                    lemma_flag_goes_on(name, display, inline, w, more, i, parts);
                } else {
                    lemma_flag_goes_on(name, display, None, w, more, i, parts);
                    let (next, p) = flag_applied(name, display, None, w, i, parts)->Ok_0;
                    lemma_bundle_goes_on(bundle, pos + 1, w, more, next, p);
                }
            },
        }
    }
}

proof fn lemma_words_go_on(w: Seq<Seq<char>>, more: Seq<Seq<char>>, i: int, parts: PartsView)
    requires
        0 <= i <= w.len(),
        words_applied(w, i, parts) is Ok,
    ensures
        words_applied(w + more, i, parts) == words_applied(
            w + more,
            w.len() as int,
            words_applied(w, i, parts)->Ok_0,
        ),
    decreases w.len() - i,
{
    if i < w.len() {
        let word = w[i];
        assert((w + more)[i] == word);
        if word.len() >= 2 && word[0] == '-' && word[1] == '-' {
            let (name, inline) = long_split(word.skip(2));
            lemma_flag_goes_on(name, "--"@ + name, inline, w, more, i + 1, parts);
        } else if word.len() >= 2 && word[0] == '-' {
            lemma_bundle_goes_on(word.skip(1), 0, w, more, i + 1, parts);
            lemma_bundle_applied(word.skip(1), 0, w, i + 1, parts);
        }
        let (next, p) = word_applied(word, w, i + 1, parts)->Ok_0;
        lemma_words_go_on(w, more, next, p);
    }
}

/// The parts that a command has added up to.
#[verifier::opaque]
spec fn reached(w: Seq<Seq<char>>) -> PartsView {
    words_applied(w, 1, no_parts())->Ok_0
}

proof fn lemma_reached(w: Seq<Seq<char>>, c: RequestView)
    requires
        reads_as(w, c),
    ensures
        w.len() > 0,
        ending(reached(w)) == Ok::<RequestView, Fault>(c),
        names_apart(reached(w).headers),
{
    reveal(reading);
    reveal(reached);
    reveal(ending);
    lemma_words_keep_apart(w, 1, no_parts());
}

/// One more word at the end, with its value or without.
proof fn lemma_one_more(w: Seq<Seq<char>>, c: RequestView, more: Seq<Seq<char>>)
    requires
        reads_as(w, c),
        1 <= more.len() <= 2,
    ensures
        match word_applied(more[0], w + more, w.len() as int + 1, reached(w)) {
            Err(f) => reading(w + more) == Err::<RequestView, Fault>(f),
            Ok((next, q)) => next == (w + more).len() ==> reading(w + more) == ending(q),
        },
{
    reveal(reading);
    reveal(reached);
    reveal(ending);
    lemma_words_go_on(w, more, 1, no_parts());
    let all = w + more;
    assert(all[0] == w[0]);
    assert(all[w.len() as int] == more[0]);
    match word_applied(more[0], all, w.len() as int + 1, reached(w)) {
        Err(f) => {},
        Ok((next, q)) => {
            assert(next == all.len() ==> words_applied(all, next, q) == Ok::<PartsView, Fault>(q));
        },
    }
}

proof fn lemma_names()
    ensures
        "get"@.len() == 3 && "get"@[0] == 'g',
        "head"@.len() == 4 && "head"@[0] == 'h',
        "url"@.len() == 3 && "url"@[0] == 'u',
        "request"@.len() == 7 && "request"@[0] == 'r' && "request"@[2] == 'q',
        "header"@.len() == 6 && "header"@[0] == 'h',
        "data"@.len() == 4 && "data"@[0] == 'd',
        "data-ascii"@.len() == 10 && "data-ascii"@[0] == 'd',
        "data-binary"@.len() == 11 && "data-binary"@[0] == 'd',
        "data-raw"@.len() == 8 && "data-raw"@[0] == 'd',
        "data-urlencode"@.len() == 14 && "data-urlencode"@[0] == 'd',
        "json"@.len() == 4 && "json"@[0] == 'j',
        "user"@.len() == 4 && "user"@[0] == 'u',
        "cookie"@.len() == 6 && "cookie"@[0] == 'c',
        "user-agent"@.len() == 10 && "user-agent"@[0] == 'u',
        "referer"@.len() == 7 && "referer"@[0] == 'r' && "referer"@[2] == 'f',
        "output"@.len() == 6 && "output"@[0] == 'o',
        "max-time"@.len() == 8 && "max-time"@[0] == 'm',
        "connect-timeout"@.len() == 15,
        "write-out"@.len() == 9 && "write-out"@[0] == 'w',
        "retry"@.len() == 5 && "retry"@[0] == 'r',
        "limit-rate"@.len() == 10 && "limit-rate"@[0] == 'l',
        "silent"@.len() == 6 && "silent"@[0] == 's',
        "show-error"@.len() == 10 && "show-error"@[0] == 's',
        "verbose"@.len() == 7 && "verbose"@[0] == 'v',
        "include"@.len() == 7 && "include"@[0] == 'i',
        "insecure"@.len() == 8 && "insecure"@[0] == 'i',
        "location"@.len() == 8 && "location"@[0] == 'l',
        "compressed"@.len() == 10 && "compressed"@[0] == 'c',
        "fail"@.len() == 4 && "fail"@[0] == 'f',
        "--"@ == seq!['-', '-'],
        "curl"@.len() == 4,
{
    reveal_strlit("get");
    reveal_strlit("head");
    reveal_strlit("url");
    reveal_strlit("request");
    reveal_strlit("header");
    reveal_strlit("data");
    reveal_strlit("data-ascii");
    reveal_strlit("data-binary");
    reveal_strlit("data-raw");
    reveal_strlit("data-urlencode");
    reveal_strlit("json");
    reveal_strlit("user");
    reveal_strlit("cookie");
    reveal_strlit("user-agent");
    reveal_strlit("referer");
    reveal_strlit("output");
    reveal_strlit("max-time");
    reveal_strlit("connect-timeout");
    reveal_strlit("write-out");
    reveal_strlit("retry");
    reveal_strlit("limit-rate");
    reveal_strlit("silent");
    reveal_strlit("show-error");
    reveal_strlit("verbose");
    reveal_strlit("include");
    reveal_strlit("insecure");
    reveal_strlit("location");
    reveal_strlit("compressed");
    reveal_strlit("fail");
    reveal_strlit("--");
    reveal_strlit("curl");
    assert("--"@ =~= seq!['-', '-']);
}

proof fn lemma_spelled_cookie()
    ensures
        "--cookie"@ == "--"@ + "cookie"@,
        !"cookie"@.contains('='),
        "-b"@ == seq!['-', 'b'],
        long_name('b') == Some("cookie"@),
{
    reveal_strlit("--");
    reveal_strlit("cookie");
    reveal_strlit("--cookie");
    assert("--cookie"@ =~= "--"@ + "cookie"@);
    reveal_strlit("-b");
    assert("-b"@ =~= seq!['-', 'b']);
}

proof fn lemma_spelled_user_agent()
    ensures
        "--user-agent"@ == "--"@ + "user-agent"@,
        !"user-agent"@.contains('='),
        "-A"@ == seq!['-', 'A'],
        long_name('A') == Some("user-agent"@),
{
    reveal_strlit("--");
    reveal_strlit("user-agent");
    reveal_strlit("--user-agent");
    assert("--user-agent"@ =~= "--"@ + "user-agent"@);
    reveal_strlit("-A");
    assert("-A"@ =~= seq!['-', 'A']);
}

proof fn lemma_spelled_referer()
    ensures
        "--referer"@ == "--"@ + "referer"@,
        !"referer"@.contains('='),
        "-e"@ == seq!['-', 'e'],
        long_name('e') == Some("referer"@),
{
    reveal_strlit("--");
    reveal_strlit("referer");
    reveal_strlit("--referer");
    assert("--referer"@ =~= "--"@ + "referer"@);
    reveal_strlit("-e");
    assert("-e"@ =~= seq!['-', 'e']);
}

proof fn lemma_spelled_user()
    ensures
        "--user"@ == "--"@ + "user"@,
        !"user"@.contains('='),
        "-u"@ == seq!['-', 'u'],
        long_name('u') == Some("user"@),
{
    reveal_strlit("--");
    reveal_strlit("user");
    reveal_strlit("--user");
    assert("--user"@ =~= "--"@ + "user"@);
    reveal_strlit("-u");
    assert("-u"@ =~= seq!['-', 'u']);
}

proof fn lemma_spelled_header()
    ensures
        "--header"@ == "--"@ + "header"@,
        !"header"@.contains('='),
        "-H"@ == seq!['-', 'H'],
        long_name('H') == Some("header"@),
{
    reveal_strlit("--");
    reveal_strlit("header");
    reveal_strlit("--header");
    assert("--header"@ =~= "--"@ + "header"@);
    reveal_strlit("-H");
    assert("-H"@ =~= seq!['-', 'H']);
}

proof fn lemma_spelled_request()
    ensures
        "--request"@ == "--"@ + "request"@,
        !"request"@.contains('='),
        "-X"@ == seq!['-', 'X'],
        long_name('X') == Some("request"@),
{
    reveal_strlit("--");
    reveal_strlit("request");
    reveal_strlit("--request");
    assert("--request"@ =~= "--"@ + "request"@);
    reveal_strlit("-X");
    assert("-X"@ =~= seq!['-', 'X']);
}

proof fn lemma_spelled_data()
    ensures
        "--data"@ == "--"@ + "data"@,
        !"data"@.contains('='),
        "-d"@ == seq!['-', 'd'],
        long_name('d') == Some("data"@),
{
    reveal_strlit("--");
    reveal_strlit("data");
    reveal_strlit("--data");
    assert("--data"@ =~= "--"@ + "data"@);
    reveal_strlit("-d");
    assert("-d"@ =~= seq!['-', 'd']);
}

proof fn lemma_spelled_output()
    ensures
        "--output"@ == "--"@ + "output"@,
        !"output"@.contains('='),
        "-o"@ == seq!['-', 'o'],
        long_name('o') == Some("output"@),
{
    reveal_strlit("--");
    reveal_strlit("output");
    reveal_strlit("--output");
    assert("--output"@ =~= "--"@ + "output"@);
    reveal_strlit("-o");
    assert("-o"@ =~= seq!['-', 'o']);
}

proof fn lemma_spelled_write_out()
    ensures
        "--write-out"@ == "--"@ + "write-out"@,
        !"write-out"@.contains('='),
        "-w"@ == seq!['-', 'w'],
        long_name('w') == Some("write-out"@),
{
    reveal_strlit("--");
    reveal_strlit("write-out");
    reveal_strlit("--write-out");
    assert("--write-out"@ =~= "--"@ + "write-out"@);
    reveal_strlit("-w");
    assert("-w"@ =~= seq!['-', 'w']);
}

proof fn lemma_spelled_max_time()
    ensures
        "--max-time"@ == "--"@ + "max-time"@,
        !"max-time"@.contains('='),
        "-m"@ == seq!['-', 'm'],
        long_name('m') == Some("max-time"@),
{
    reveal_strlit("--");
    reveal_strlit("max-time");
    reveal_strlit("--max-time");
    assert("--max-time"@ =~= "--"@ + "max-time"@);
    reveal_strlit("-m");
    assert("-m"@ =~= seq!['-', 'm']);
}

proof fn lemma_spelled_data_ascii()
    ensures
        "--data-ascii"@ == "--"@ + "data-ascii"@,
        !"data-ascii"@.contains('='),
{
    reveal_strlit("--");
    reveal_strlit("data-ascii");
    reveal_strlit("--data-ascii");
    assert("--data-ascii"@ =~= "--"@ + "data-ascii"@);
}

proof fn lemma_spelled_data_binary()
    ensures
        "--data-binary"@ == "--"@ + "data-binary"@,
        !"data-binary"@.contains('='),
{
    reveal_strlit("--");
    reveal_strlit("data-binary");
    reveal_strlit("--data-binary");
    assert("--data-binary"@ =~= "--"@ + "data-binary"@);
}

proof fn lemma_spelled_data_raw()
    ensures
        "--data-raw"@ == "--"@ + "data-raw"@,
        !"data-raw"@.contains('='),
{
    reveal_strlit("--");
    reveal_strlit("data-raw");
    reveal_strlit("--data-raw");
    assert("--data-raw"@ =~= "--"@ + "data-raw"@);
}

proof fn lemma_spelled_data_urlencode()
    ensures
        "--data-urlencode"@ == "--"@ + "data-urlencode"@,
        !"data-urlencode"@.contains('='),
{
    reveal_strlit("--");
    reveal_strlit("data-urlencode");
    reveal_strlit("--data-urlencode");
    assert("--data-urlencode"@ =~= "--"@ + "data-urlencode"@);
}

proof fn lemma_spelled_json()
    ensures
        "--json"@ == "--"@ + "json"@,
        !"json"@.contains('='),
{
    reveal_strlit("--");
    reveal_strlit("json");
    reveal_strlit("--json");
    assert("--json"@ =~= "--"@ + "json"@);
}

proof fn lemma_spelled_connect_timeout()
    ensures
        "--connect-timeout"@ == "--"@ + "connect-timeout"@,
        !"connect-timeout"@.contains('='),
{
    reveal_strlit("--");
    reveal_strlit("connect-timeout");
    reveal_strlit("--connect-timeout");
    assert("--connect-timeout"@ =~= "--"@ + "connect-timeout"@);
}

proof fn lemma_spelled_retry()
    ensures
        "--retry"@ == "--"@ + "retry"@,
        !"retry"@.contains('='),
{
    reveal_strlit("--");
    reveal_strlit("retry");
    reveal_strlit("--retry");
    assert("--retry"@ =~= "--"@ + "retry"@);
}

proof fn lemma_spelled_limit_rate()
    ensures
        "--limit-rate"@ == "--"@ + "limit-rate"@,
        !"limit-rate"@.contains('='),
{
    reveal_strlit("--");
    reveal_strlit("limit-rate");
    reveal_strlit("--limit-rate");
    assert("--limit-rate"@ =~= "--"@ + "limit-rate"@);
}

proof fn lemma_spelled_silent()
    ensures
        "--silent"@ == "--"@ + "silent"@,
        !"silent"@.contains('='),
        "-s"@ == seq!['-', 's'],
        long_name('s') == Some("silent"@),
{
    reveal_strlit("--");
    reveal_strlit("silent");
    reveal_strlit("--silent");
    assert("--silent"@ =~= "--"@ + "silent"@);
    reveal_strlit("-s");
    assert("-s"@ =~= seq!['-', 's']);
}

proof fn lemma_spelled_show_error()
    ensures
        "--show-error"@ == "--"@ + "show-error"@,
        !"show-error"@.contains('='),
        "-S"@ == seq!['-', 'S'],
        long_name('S') == Some("show-error"@),
{
    reveal_strlit("--");
    reveal_strlit("show-error");
    reveal_strlit("--show-error");
    assert("--show-error"@ =~= "--"@ + "show-error"@);
    reveal_strlit("-S");
    assert("-S"@ =~= seq!['-', 'S']);
}

proof fn lemma_spelled_verbose()
    ensures
        "--verbose"@ == "--"@ + "verbose"@,
        !"verbose"@.contains('='),
        "-v"@ == seq!['-', 'v'],
        long_name('v') == Some("verbose"@),
{
    reveal_strlit("--");
    reveal_strlit("verbose");
    reveal_strlit("--verbose");
    assert("--verbose"@ =~= "--"@ + "verbose"@);
    reveal_strlit("-v");
    assert("-v"@ =~= seq!['-', 'v']);
}

proof fn lemma_spelled_include()
    ensures
        "--include"@ == "--"@ + "include"@,
        !"include"@.contains('='),
        "-i"@ == seq!['-', 'i'],
        long_name('i') == Some("include"@),
{
    reveal_strlit("--");
    reveal_strlit("include");
    reveal_strlit("--include");
    assert("--include"@ =~= "--"@ + "include"@);
    reveal_strlit("-i");
    assert("-i"@ =~= seq!['-', 'i']);
}

proof fn lemma_spelled_insecure()
    ensures
        "--insecure"@ == "--"@ + "insecure"@,
        !"insecure"@.contains('='),
        "-k"@ == seq!['-', 'k'],
        long_name('k') == Some("insecure"@),
{
    reveal_strlit("--");
    reveal_strlit("insecure");
    reveal_strlit("--insecure");
    assert("--insecure"@ =~= "--"@ + "insecure"@);
    reveal_strlit("-k");
    assert("-k"@ =~= seq!['-', 'k']);
}

proof fn lemma_spelled_location()
    ensures
        "--location"@ == "--"@ + "location"@,
        !"location"@.contains('='),
        "-L"@ == seq!['-', 'L'],
        long_name('L') == Some("location"@),
{
    reveal_strlit("--");
    reveal_strlit("location");
    reveal_strlit("--location");
    assert("--location"@ =~= "--"@ + "location"@);
    reveal_strlit("-L");
    assert("-L"@ =~= seq!['-', 'L']);
}

proof fn lemma_spelled_fail()
    ensures
        "--fail"@ == "--"@ + "fail"@,
        !"fail"@.contains('='),
        "-f"@ == seq!['-', 'f'],
        long_name('f') == Some("fail"@),
{
    reveal_strlit("--");
    reveal_strlit("fail");
    reveal_strlit("--fail");
    assert("--fail"@ =~= "--"@ + "fail"@);
    reveal_strlit("-f");
    assert("-f"@ =~= seq!['-', 'f']);
}

proof fn lemma_spelled_compressed()
    ensures
        "--compressed"@ == "--"@ + "compressed"@,
        !"compressed"@.contains('='),
{
    reveal_strlit("--");
    reveal_strlit("compressed");
    reveal_strlit("--compressed");
    assert("--compressed"@ =~= "--"@ + "compressed"@);
}

proof fn lemma_spelled_get()
    ensures
        "--get"@ == "--"@ + "get"@,
        !"get"@.contains('='),
        "-G"@ == seq!['-', 'G'],
        long_name('G') == Some("get"@),
{
    reveal_strlit("--");
    reveal_strlit("get");
    reveal_strlit("--get");
    assert("--get"@ =~= "--"@ + "get"@);
    reveal_strlit("-G");
    assert("-G"@ =~= seq!['-', 'G']);
}

proof fn lemma_spelled_head()
    ensures
        "--head"@ == "--"@ + "head"@,
        !"head"@.contains('='),
        "-I"@ == seq!['-', 'I'],
        long_name('I') == Some("head"@),
{
    reveal_strlit("--");
    reveal_strlit("head");
    reveal_strlit("--head");
    assert("--head"@ =~= "--"@ + "head"@);
    reveal_strlit("-I");
    assert("-I"@ =~= seq!['-', 'I']);
}

/// A word that is one short flag.
proof fn lemma_short(tokens: Seq<Seq<char>>, i: int, ch: char, name: Seq<char>, parts: PartsView)
    requires
        0 <= i < tokens.len(),
        tokens[i] == seq!['-', ch],
        ch != '-',
        long_name(ch) == Some(name),
    ensures
        wants_value(name) && i + 1 < tokens.len() ==> word_applied(tokens[i], tokens, i + 1, parts)
            == match value_applied(name, seq!['-', ch], tokens[i + 1], parts) {
            Ok(p) => Ok((i + 2, p)),
            Err(f) => Err(f),
        },
        !wants_value(name) ==> word_applied(tokens[i], tokens, i + 1, parts) == flag_applied(
            name,
            seq!['-', ch],
            None,
            tokens,
            i + 1,
            parts,
        ),
{
    lemma_names();
    let b = tokens[i].skip(1);
    assert(b =~= seq![ch]);
    assert(b.skip(1).len() == 0);
    assert(b[0] == ch);
    reveal_with_fuel(bundle_applied, 2);
    if !wants_value(name) {
        match flag_applied(name, seq!['-', ch], None, tokens, i + 1, parts) {
            Ok((next, p)) => {
                assert(bundle_applied(b, 1, tokens, next, p) == Ok::<(int, PartsView), Fault>(
                    (next, p),
                ));
            },
            Err(f) => {},
        }
    }
}

proof fn lemma_no_equals(name: Seq<char>)
    requires
        !name.contains('='),
    ensures
        long_split(name) == (name, None::<Seq<char>>),
{
    lemma_char_from(name, '=', 0);
    let at = char_from(name, '=', 0);
    if at < name.len() {
        assert(name.contains(name[at]));
    }
}

/// A word that is one long flag.
proof fn lemma_long(tokens: Seq<Seq<char>>, i: int, name: Seq<char>, parts: PartsView)
    requires
        0 <= i < tokens.len(),
        tokens[i] == "--"@ + name,
        !name.contains('='),
    ensures
        wants_value(name) && i + 1 < tokens.len() ==> word_applied(tokens[i], tokens, i + 1, parts)
            == match value_applied(name, "--"@ + name, tokens[i + 1], parts) {
            Ok(p) => Ok((i + 2, p)),
            Err(f) => Err(f),
        },
        !wants_value(name) ==> word_applied(tokens[i], tokens, i + 1, parts) == flag_applied(
            name,
            "--"@ + name,
            None,
            tokens,
            i + 1,
            parts,
        ),
{
    lemma_names();
    lemma_no_equals(name);
    assert(tokens[i].skip(2) =~= name);
}

// ─── Headers ──────────────────────────────────────────────────────────────────

/// `d` is `c` with one more header. Where a header of the name is there already, whatever
/// its case, the value is put behind the one it has.
pub open spec fn header_added(
    c: RequestView,
    d: RequestView,
    name: Seq<char>,
    value: Seq<char>,
) -> bool {
    &&& d == RequestView { headers: d.headers, ..c }
    &&& (forall|k: Seq<char>| #[trigger]
        c.headers.dom().contains(k) ==> !same_ignoring_case(k, name)) ==> d.headers
        == c.headers.insert(name, value)
    &&& forall|k: Seq<char>| #[trigger]
        c.headers.dom().contains(k) && same_ignoring_case(k, name) ==> d.headers
            == c.headers.insert(k, c.headers[k] + ", "@ + value)
}

proof fn lemma_collected_push(rows: Seq<Row>, row: Row)
    ensures
        collected(rows.push(row)) == collected(rows).insert(row.0, row.1),
{
    assert(rows.push(row).drop_last() =~= rows);
}

proof fn lemma_collected_update(rows: Seq<Row>, i: int, value: Seq<char>)
    requires
        0 <= i < rows.len(),
        forall|a: int, b: int| 0 <= a < b < rows.len() ==> rows[a].0 != rows[b].0,
    ensures
        collected(rows.update(i, (rows[i].0, value))) == collected(rows).insert(rows[i].0, value),
        collected(rows)[rows[i].0] == rows[i].1,
        collected(rows).dom().contains(rows[i].0),
    decreases rows.len(),
{
    let front = rows.drop_last();
    let after = rows.update(i, (rows[i].0, value));
    if i == rows.len() - 1 {
        assert(after.drop_last() =~= front);
        assert(collected(after) =~= collected(rows).insert(rows[i].0, value));
    } else {
        assert(after.drop_last() =~= front.update(i, (front[i].0, value)));
        lemma_collected_update(front, i, value);
        assert(rows[i].0 != rows[rows.len() - 1].0);
        assert(collected(after) =~= collected(rows).insert(rows[i].0, value));
    }
}

proof fn lemma_header_finished(q: PartsView, c: RequestView, name: Seq<char>, value: Seq<char>)
    requires
        ending(q) == Ok::<RequestView, Fault>(c),
        names_apart(q.headers),
        !same_ignoring_case(name, "Content-Type"@),
    ensures
        ending(PartsView { headers: with_header(q.headers, name, value), ..q }) matches Ok(d)
            && header_added(c, d, name, value),
{
    reveal(ending);
    let h = q.headers;
    let g = with_header(h, name, value);
    let after = PartsView { headers: g, ..q };
    let ct = "Content-Type"@;
    lemma_header_from(h, name, 0);
    lemma_header_from(h, ct, 0);
    lemma_header_from(g, ct, 0);
    let i = header_from(h, name, 0);
    let at = header_from(h, ct, 0);
    let at2 = header_from(g, ct, 0);
    let has_body = !q.get && q.data.len() > 0;
    let typed = has_body && at < h.len();
    let rows = if typed {
        h.remove(at)
    } else {
        h
    };
    let d = finished(after)->Ok_0;
    if i < h.len() && at < h.len() && i == at {
        lemma_case_joins(name, name, name);
        lemma_same_flips(h[i].0, name);
        lemma_same_flips(h[i].0, ct);
        lemma_case_joins(name, ct, h[i].0);
    }
    assert(at2 == if at < h.len() {
        at
    } else {
        g.len() as int
    }) by {
        if at < h.len() {
            assert(g[at].0 == h[at].0);
            if at2 < at {
                assert(g[at2].0 == h[at2].0);
            }
        } else if at2 < g.len() {
            if at2 < h.len() {
                assert(g[at2].0 == h[at2].0);
                assert(!same_ignoring_case(h[at2].0, ct));
            }
        }
    }
    let rows2 = if typed {
        g.remove(at)
    } else {
        g
    };
    assert(d.headers == collected(rows2));
    assert(c.headers == collected(rows));
    assert forall|a: int, b: int| 0 <= a < b < rows.len() implies !same_ignoring_case(
        rows[a].0,
        rows[b].0,
    ) by {
        if typed {
            let x = if a < at {
                a
            } else {
                a + 1
            };
            let y = if b < at {
                b
            } else {
                b + 1
            };
            assert(rows[a] == h[x] && rows[b] == h[y]);
            assert(!same_ignoring_case(h[x].0, h[y].0));
        }
    }
    if i < h.len() {
        let combined = h[i].1 + ", "@ + value;
        let j = if typed && i > at {
            i - 1
        } else {
            i
        };
        assert(rows[j] == h[i]);
        assert(rows2 =~= rows.update(j, (rows[j].0, combined)));
        assert forall|a: int, b: int| 0 <= a < b < rows.len() implies rows[a].0 != rows[b].0 by {
            lemma_same_self(rows[a].0);
        }
        lemma_collected_update(rows, j, combined);
        assert forall|k: Seq<char>| #[trigger]
            c.headers.dom().contains(k) && same_ignoring_case(k, name) implies k == h[i].0 by {
            lemma_collected_names(rows, k);
            let x = choose|x: int| 0 <= x < rows.len() && #[trigger] rows[x].0 == k;
            lemma_case_joins(k, h[i].0, name);
            if x < j {
                assert(!same_ignoring_case(rows[x].0, rows[j].0));
            } else if x > j {
                lemma_same_flips(k, h[i].0);
                assert(!same_ignoring_case(rows[j].0, rows[x].0));
            }
        }
        assert(c.headers.dom().contains(h[i].0));
    } else {
        assert(rows2 =~= rows.push((name, value)));
        lemma_collected_push(rows, (name, value));
        assert forall|k: Seq<char>| #[trigger] c.headers.dom().contains(k) implies !same_ignoring_case(
            k,
            name,
        ) by {
            lemma_collected_names(rows, k);
            let x = choose|x: int| 0 <= x < rows.len() && #[trigger] rows[x].0 == k;
            let y = if typed && x >= at {
                x + 1
            } else {
                x
            };
            assert(rows[x] == h[y]);
            assert(!same_ignoring_case(h[y].0, name));
        }
    }
}

proof fn lemma_same_self(a: Seq<char>)
    ensures
        same_ignoring_case(a, a),
{
}

proof fn lemma_same_flips(a: Seq<char>, b: Seq<char>)
    ensures
        same_ignoring_case(a, b) == same_ignoring_case(b, a),
{
    crate::text_laws::law_case_is_all_that_is_ignored(a, b);
}

/// `-b` adds the whole of its value as a `Cookie` header, character for character, and so
/// does its long spelling. Everything else of the request stays as it was. A value without
/// `=` or `;` would name a file and is refused.
pub proof fn law_a_cookie_is_kept(w: Seq<Seq<char>>, c: RequestView, v: Seq<char>)
    requires
        reads_as(w, c),
    ensures
        v.contains('=') || v.contains(';') ==> (reading(w + seq!["-b"@, v]) matches Ok(d)
            && header_added(c, d, "Cookie"@, v)),
        v.contains('=') || v.contains(';') ==> reading(w + seq!["--cookie"@, v]) == reading(
            w + seq!["-b"@, v],
        ),
        !(v.contains('=') || v.contains(';')) ==> reading(w + seq!["-b"@, v]) == Err::<
            RequestView,
            Fault,
        >(Fault::CookieFile("-b"@, v)),
{
    lemma_spelled_cookie();
    lemma_header_names();
    lemma_wants();
    let q = reached(w);
    lemma_reached(w, c);
    lemma_header_finished(q, c, "Cookie"@, v);
    lemma_flag_at_the_end(w, c, "-b"@, 'b', "cookie"@, v);
    lemma_long_at_the_end(w, c, "--cookie"@, "cookie"@, v);
    lemma_values(q, "-b"@, v);
    lemma_values(q, "--cookie"@, v);
}

/// `-A` adds the whole of its value as a `User-Agent` header, `-e` as a `Referer`, and so
/// do their long spellings. Everything else of the request stays as it was.
pub proof fn law_agent_and_referer_are_kept(w: Seq<Seq<char>>, c: RequestView, v: Seq<char>)
    requires
        reads_as(w, c),
    ensures
        reading(w + seq!["-A"@, v]) matches Ok(d) && header_added(c, d, "User-Agent"@, v),
        reading(w + seq!["--user-agent"@, v]) == reading(w + seq!["-A"@, v]),
        reading(w + seq!["-e"@, v]) matches Ok(d) && header_added(c, d, "Referer"@, v),
        reading(w + seq!["--referer"@, v]) == reading(w + seq!["-e"@, v]),
{
    lemma_spelled_user_agent();
    lemma_spelled_referer();
    lemma_header_names();
    lemma_wants();
    let q = reached(w);
    lemma_reached(w, c);
    lemma_header_finished(q, c, "User-Agent"@, v);
    lemma_header_finished(q, c, "Referer"@, v);
    lemma_flag_at_the_end(w, c, "-A"@, 'A', "user-agent"@, v);
    lemma_flag_at_the_end(w, c, "-e"@, 'e', "referer"@, v);
    lemma_long_at_the_end(w, c, "--user-agent"@, "user-agent"@, v);
    lemma_long_at_the_end(w, c, "--referer"@, "referer"@, v);
    lemma_values(q, "-A"@, v);
    lemma_values(q, "-e"@, v);
    lemma_values(q, "--user-agent"@, v);
    lemma_values(q, "--referer"@, v);
}

/// A command of a URL and a cookie comes to a request with that one header, the value whole;
/// so with an agent and with a referer.
pub proof fn law_one_header_comes_out_whole(u: Seq<char>, v: Seq<char>)
    requires
        !(u.len() > 0 && u[0] == '-'),
        !u.contains('?'),
    ensures
        v.contains('=') || v.contains(';') ==> (reading(seq!["curl"@, u, "-b"@, v]) matches Ok(d)
            && d.headers == Map::<Seq<char>, Seq<char>>::empty().insert("Cookie"@, v) && d.url == u),
        reading(seq!["curl"@, u, "-A"@, v]) matches Ok(d) && d.headers == Map::<
            Seq<char>,
            Seq<char>,
        >::empty().insert("User-Agent"@, v) && d.url == u,
        reading(seq!["curl"@, u, "-e"@, v]) matches Ok(d) && d.headers == Map::<
            Seq<char>,
            Seq<char>,
        >::empty().insert("Referer"@, v) && d.url == u,
{
    law_a_bare_url_is_a_get(u);
    let w = seq!["curl"@, u];
    let c = reading(w)->Ok_0;
    law_a_cookie_is_kept(w, c, v);
    law_agent_and_referer_are_kept(w, c, v);
    assert(w + seq!["-b"@, v] =~= seq!["curl"@, u, "-b"@, v]);
    assert(w + seq!["-A"@, v] =~= seq!["curl"@, u, "-A"@, v]);
    assert(w + seq!["-e"@, v] =~= seq!["curl"@, u, "-e"@, v]);
}

proof fn lemma_header_names()
    ensures
        "Content-Type"@.len() == 12,
        "Cookie"@.len() == 6,
        "User-Agent"@.len() == 10,
        "Referer"@.len() == 7,
        "Authorization"@.len() == 13,
        "Accept"@.len() == 6,
{
    reveal_strlit("Content-Type");
    reveal_strlit("Cookie");
    reveal_strlit("User-Agent");
    reveal_strlit("Referer");
    reveal_strlit("Authorization");
    reveal_strlit("Accept");
}

/// What one more flag with a value comes to.
#[verifier::opaque]
spec fn with_value(q: PartsView, name: Seq<char>, display: Seq<char>, v: Seq<char>) -> Result<
    RequestView,
    Fault,
> {
    match value_applied(name, display, v, q) {
        Err(f) => Err(f),
        Ok(p) => ending(p),
    }
}

proof fn lemma_flag_at_the_end(
    w: Seq<Seq<char>>,
    c: RequestView,
    word: Seq<char>,
    ch: char,
    name: Seq<char>,
    v: Seq<char>,
)
    requires
        reads_as(w, c),
        word =~= seq!['-', ch],
        ch != '-',
        long_name(ch) == Some(name),
        wants_value(name),
    ensures
        reading(w + seq![word, v]) == with_value(reached(w), name, word, v),
{
    reveal(with_value);
    let all = w + seq![word, v];
    let n = w.len() as int;
    lemma_one_more(w, c, seq![word, v]);
    assert(all[n] == word && all[n + 1] == v);
    lemma_short(all, n, ch, name, reached(w));
}

proof fn lemma_long_at_the_end(
    w: Seq<Seq<char>>,
    c: RequestView,
    word: Seq<char>,
    name: Seq<char>,
    v: Seq<char>,
)
    requires
        reads_as(w, c),
        word =~= "--"@ + name,
        !name.contains('='),
        wants_value(name),
    ensures
        reading(w + seq![word, v]) == with_value(reached(w), name, word, v),
{
    reveal(with_value);
    let all = w + seq![word, v];
    let n = w.len() as int;
    lemma_one_more(w, c, seq![word, v]);
    assert(all[n] == word && all[n + 1] == v);
    lemma_long(all, n, name, reached(w));
}

/// The parts that one more flag with a value leads to.
proof fn lemma_reached_value(
    w: Seq<Seq<char>>,
    c: RequestView,
    word: Seq<char>,
    v: Seq<char>,
    p: PartsView,
)
    requires
        reads_as(w, c),
        word_applied(word, w + seq![word, v], w.len() as int + 1, reached(w)) == Ok::<
            (int, PartsView),
            Fault,
        >((w.len() as int + 2, p)),
    ensures
        reached(w + seq![word, v]) == p,
{
    reveal(reading);
    reveal(reached);
    let all = w + seq![word, v];
    lemma_words_go_on(w, seq![word, v], 1, no_parts());
    let n = w.len() as int;
    assert(all[n] == word);
    assert(words_applied(all, n + 2, p) == Ok::<PartsView, Fault>(p));
    assert(words_applied(all, n, reached(w)) == words_applied(all, n + 2, p));
}

proof fn lemma_values(q: PartsView, display: Seq<char>, v: Seq<char>)
    ensures
        v.contains('=') || v.contains(';') ==> with_value(q, "cookie"@, display, v) == ending(
            PartsView { headers: with_header(q.headers, "Cookie"@, v), ..q },
        ),
        !(v.contains('=') || v.contains(';')) ==> with_value(q, "cookie"@, display, v) == Err::<
            RequestView,
            Fault,
        >(Fault::CookieFile(display, v)),
        with_value(q, "user-agent"@, display, v) == ending(
            PartsView { headers: with_header(q.headers, "User-Agent"@, v), ..q },
        ),
        with_value(q, "referer"@, display, v) == ending(
            PartsView { headers: with_header(q.headers, "Referer"@, v), ..q },
        ),
        v.contains(':') ==> with_value(q, "user"@, display, v) == ending(
            PartsView {
                headers: with_header(
                    q.headers,
                    "Authorization"@,
                    "Basic "@ + base64(encode_utf8(v)),
                ),
                ..q
            },
        ),
        !v.contains(':') ==> with_value(q, "user"@, display, v) == Err::<RequestView, Fault>(
            Fault::MissingPassword(display),
        ),
{
    reveal(with_value);
    lemma_names();
}

proof fn lemma_plain_values(q: PartsView, display: Seq<char>, v: Seq<char>)
    ensures
        with_value(q, "request"@, display, v) == ending(PartsView { method: Some(v), ..q }),
        with_value(q, "data-raw"@, display, v) == ending(PartsView { data: q.data.push(v), ..q }),
        with_value(q, "output"@, display, v) == ending(q),
        with_value(q, "write-out"@, display, v) == ending(q),
        with_value(q, "max-time"@, display, v) == ending(q),
        with_value(q, "connect-timeout"@, display, v) == ending(q),
        with_value(q, "retry"@, display, v) == ending(q),
        with_value(q, "limit-rate"@, display, v) == ending(q),
        header_split(v) matches Ok(h) ==> with_value(q, "header"@, display, v) == ending(
            PartsView { headers: with_header(q.headers, h.0, h.1), ..q },
        ),
        header_split(v) matches Err(f) ==> with_value(q, "header"@, display, v) == Err::<
            RequestView,
            Fault,
        >(f),
        urlencoded(v, display) matches Ok(e) ==> with_value(q, "data-urlencode"@, display, v)
            == ending(PartsView { data: q.data.push(e), ..q }),
{
    reveal(with_value);
    lemma_names();
}

proof fn lemma_data_values(q: PartsView, display: Seq<char>, v: Seq<char>)
    ensures
        !(v.len() > 0 && v[0] == '@') ==> {
            let plain = ending(PartsView { data: q.data.push(v), ..q });
            &&& with_value(q, "data"@, display, v) == plain
            &&& with_value(q, "data-ascii"@, display, v) == plain
            &&& with_value(q, "data-binary"@, display, v) == plain
        },
        v.len() > 0 && v[0] == '@' ==> {
            let refused = Err::<RequestView, Fault>(Fault::FileData(display, v.drop_first()));
            &&& with_value(q, "data"@, display, v) == refused
            &&& with_value(q, "data-ascii"@, display, v) == refused
            &&& with_value(q, "data-binary"@, display, v) == refused
            &&& with_value(q, "json"@, display, v) == refused
        },
{
    reveal(with_value);
    lemma_names();
}

proof fn lemma_wants()
    ensures
        wants_value("request"@) && wants_value("header"@) && wants_value("data"@) && wants_value(
            "data-raw"@,
        ) && wants_value("data-ascii"@) && wants_value("data-binary"@) && wants_value(
            "data-urlencode"@,
        ) && wants_value("json"@) && wants_value("user"@) && wants_value("cookie"@)
            && wants_value("user-agent"@) && wants_value("referer"@) && wants_value("output"@)
            && wants_value("write-out"@) && wants_value("max-time"@) && wants_value(
            "connect-timeout"@,
        ) && wants_value("retry"@) && wants_value("limit-rate"@) && wants_value("url"@),
{
}

/// `-u` adds the credentials as they are given, in base64, as an `Authorization` header.
/// Without a password they are refused.
pub proof fn law_credentials_are_kept(w: Seq<Seq<char>>, c: RequestView, v: Seq<char>)
    requires
        reads_as(w, c),
    ensures
        v.contains(':') ==> {
            &&& reading(w + seq!["-u"@, v]) matches Ok(d) && header_added(
                c,
                d,
                "Authorization"@,
                "Basic "@ + base64(encode_utf8(v)),
            )
            &&& reading(w + seq!["--user"@, v]) == reading(w + seq!["-u"@, v])
        },
        !v.contains(':') ==> reading(w + seq!["-u"@, v]) == Err::<RequestView, Fault>(
            Fault::MissingPassword("-u"@),
        ),
{
    lemma_spelled_user();
    lemma_header_names();
    lemma_wants();
    let q = reached(w);
    lemma_reached(w, c);
    lemma_header_finished(q, c, "Authorization"@, "Basic "@ + base64(encode_utf8(v)));
    lemma_flag_at_the_end(w, c, "-u"@, 'u', "user"@, v);
    lemma_long_at_the_end(w, c, "--user"@, "user"@, v);
    lemma_values(q, "-u"@, v);
    lemma_values(q, "--user"@, v);
}

proof fn lemma_header_texts(name: Seq<char>, value: Seq<char>)
    requires
        !name.contains(':'),
    ensures
        header_split(name + ":"@ + value) == Ok::<Row, Fault>((trimmed(name), trimmed(value))),
        header_split(name + ";"@) == Ok::<Row, Fault>((trimmed(name), Seq::empty())),
        !(name.len() > 0 && name.last() == ';') ==> header_split(name) == Err::<Row, Fault>(
            Fault::MalformedHeader(name),
        ),
{
    reveal_strlit(":");
    reveal_strlit(";");
    let raw = name + ":"@ + value;
    let n = name.len() as int;
    lemma_char_from(raw, ':', 0);
    assert(raw[n] == ':');
    assert(char_from(raw, ':', 0) == n) by {
        let at = char_from(raw, ':', 0);
        if at < n {
            assert(name[at] == raw[at]);
            assert(name.contains(name[at]));
        }
    }
    assert(raw.take(n) =~= name);
    assert(raw.skip(n + 1) =~= value);
    let bare = name + ";"@;
    lemma_char_from(bare, ':', 0);
    assert(char_from(bare, ':', 0) == bare.len()) by {
        let at = char_from(bare, ':', 0);
        if at < n {
            assert(name[at] == bare[at]);
            assert(name.contains(name[at]));
        }
    }
    assert(bare.drop_last() =~= name);
    lemma_char_from(name, ':', 0);
    assert(char_from(name, ':', 0) == n) by {
        let at = char_from(name, ':', 0);
        if at < n {
            assert(name.contains(name[at]));
        }
    }
}

/// `-H` adds the header it is given: the name is what stands before the first colon, the
/// value is all that stands behind it, each without the white space around it. `Name;`
/// is a header that is sent empty, and anything else is refused.
pub proof fn law_a_header_is_kept(
    w: Seq<Seq<char>>,
    c: RequestView,
    name: Seq<char>,
    value: Seq<char>,
)
    requires
        reads_as(w, c),
        !name.contains(':'),
        !same_ignoring_case(trimmed(name), "Content-Type"@),
    ensures
        reading(w + seq!["-H"@, name + ":"@ + value]) matches Ok(d) && header_added(
            c,
            d,
            trimmed(name),
            trimmed(value),
        ),
        reading(w + seq!["--header"@, name + ":"@ + value]) == reading(
            w + seq!["-H"@, name + ":"@ + value],
        ),
        reading(w + seq!["-H"@, name + ";"@]) matches Ok(d) && header_added(
            c,
            d,
            trimmed(name),
            Seq::empty(),
        ),
        !(name.len() > 0 && name.last() == ';') ==> reading(w + seq!["-H"@, name]) == Err::<
            RequestView,
            Fault,
        >(Fault::MalformedHeader(name)),
{
    lemma_header_texts(name, value);
    lemma_spelled_header();
    lemma_wants();
    let raw = name + ":"@ + value;
    let bare = name + ";"@;
    let q = reached(w);
    lemma_reached(w, c);
    lemma_header_finished(q, c, trimmed(name), trimmed(value));
    lemma_header_finished(q, c, trimmed(name), Seq::empty());
    lemma_flag_at_the_end(w, c, "-H"@, 'H', "header"@, raw);
    lemma_flag_at_the_end(w, c, "-H"@, 'H', "header"@, bare);
    lemma_flag_at_the_end(w, c, "-H"@, 'H', "header"@, name);
    lemma_long_at_the_end(w, c, "--header"@, "header"@, raw);
    lemma_plain_values(q, "-H"@, raw);
    lemma_plain_values(q, "-H"@, bare);
    lemma_plain_values(q, "-H"@, name);
    lemma_plain_values(q, "--header"@, raw);
}

// ─── Method, URL and flags without effect ─────────────────────────────────────

/// `-X` sets the method, in capitals, and nothing else.
pub proof fn law_the_method_is_the_one_given(w: Seq<Seq<char>>, c: RequestView, m: Seq<char>)
    requires
        reads_as(w, c),
    ensures
        reading(w + seq!["-X"@, m]) == Ok::<RequestView, Fault>(
            RequestView { method: uppercase(m), ..c },
        ),
        reading(w + seq!["--request"@, m]) == reading(w + seq!["-X"@, m]),
{
    lemma_spelled_request();
    lemma_wants();
    let q = reached(w);
    lemma_reached(w, c);
    lemma_flag_at_the_end(w, c, "-X"@, 'X', "request"@, m);
    lemma_long_at_the_end(w, c, "--request"@, "request"@, m);
    lemma_plain_values(q, "-X"@, m);
    lemma_plain_values(q, "--request"@, m);
    assert(ending(PartsView { method: Some(m), ..q }) == Ok::<RequestView, Fault>(
        RequestView { method: uppercase(m), ..c },
    )) by {
        reveal(ending);
    }
}

proof fn lemma_quiet(w: Seq<Seq<char>>, c: RequestView, word: Seq<char>, ch: char, name: Seq<char>)
    requires
        reads_as(w, c),
        (word =~= seq!['-', ch] && ch != '-' && long_name(ch) == Some(name)) || (word =~= "--"@
            + name && !name.contains('=')),
        !wants_value(name),
        no_effect(name),
        name != "get"@,
        name != "head"@,
    ensures
        reads_as(w + seq![word], c),
{
    let all = w + seq![word];
    let n = w.len() as int;
    lemma_reached(w, c);
    lemma_one_more(w, c, seq![word]);
    assert(all[n] == word);
    if word =~= seq!['-', ch] && ch != '-' && long_name(ch) == Some(name) {
        lemma_short(all, n, ch, name, reached(w));
    } else {
        lemma_long(all, n, name, reached(w));
    }
}

proof fn lemma_quiet_names()
    ensures
        !wants_value("silent"@) && !wants_value("show-error"@) && !wants_value("verbose"@)
            && !wants_value("include"@) && !wants_value("insecure"@) && !wants_value("location"@)
            && !wants_value("fail"@) && !wants_value("compressed"@),
        no_effect("silent"@) && no_effect("show-error"@) && no_effect("verbose"@) && no_effect(
            "include"@,
        ) && no_effect("insecure"@) && no_effect("location"@) && no_effect("fail"@) && no_effect(
            "compressed"@,
        ),
        "silent"@ != "get"@ && "show-error"@ != "get"@ && "verbose"@ != "get"@ && "include"@
            != "get"@ && "insecure"@ != "get"@ && "location"@ != "get"@ && "fail"@ != "get"@
            && "compressed"@ != "get"@,
        "silent"@ != "head"@ && "show-error"@ != "head"@ && "verbose"@ != "head"@ && "include"@
            != "head"@ && "insecure"@ != "head"@ && "location"@ != "head"@ && "fail"@ != "head"@
            && "compressed"@ != "head"@,
{
    lemma_names();
}

/// Flags that say how curl behaves and not what it sends change nothing.
pub proof fn law_flags_about_curl_change_nothing(w: Seq<Seq<char>>, c: RequestView)
    requires
        reads_as(w, c),
    ensures
        reads_as(w + seq!["-s"@], c),
        reads_as(w + seq!["-S"@], c),
        reads_as(w + seq!["-v"@], c),
        reads_as(w + seq!["-i"@], c),
        reads_as(w + seq!["-k"@], c),
        reads_as(w + seq!["-L"@], c),
        reads_as(w + seq!["-f"@], c),
        reads_as(w + seq!["--compressed"@], c),
        reads_as(w + seq!["--silent"@], c),
        reads_as(w + seq!["--location"@], c),
        reads_as(w + seq!["--insecure"@], c),
{
    lemma_quiet_names();
    lemma_spelled_compressed();
    lemma_spelled_fail();
    lemma_spelled_include();
    lemma_spelled_insecure();
    lemma_spelled_location();
    lemma_spelled_show_error();
    lemma_spelled_silent();
    lemma_spelled_verbose();
    lemma_quiet(w, c, "-s"@, 's', "silent"@);
    lemma_quiet(w, c, "-S"@, 'S', "show-error"@);
    lemma_quiet(w, c, "-v"@, 'v', "verbose"@);
    lemma_quiet(w, c, "-i"@, 'i', "include"@);
    lemma_quiet(w, c, "-k"@, 'k', "insecure"@);
    lemma_quiet(w, c, "-L"@, 'L', "location"@);
    lemma_quiet(w, c, "-f"@, 'f', "fail"@);
    lemma_quiet(w, c, "--compressed"@, '-', "compressed"@);
    lemma_quiet(w, c, "--silent"@, '-', "silent"@);
    lemma_quiet(w, c, "--location"@, '-', "location"@);
    lemma_quiet(w, c, "--insecure"@, '-', "insecure"@);
}

/// Such flags take their value with them, and it changes nothing either.
pub proof fn law_values_about_curl_change_nothing(w: Seq<Seq<char>>, c: RequestView, v: Seq<char>)
    requires
        reads_as(w, c),
    ensures
        reads_as(w + seq!["-o"@, v], c),
        reads_as(w + seq!["-w"@, v], c),
        reads_as(w + seq!["-m"@, v], c),
        reads_as(w + seq!["--max-time"@, v], c),
        reads_as(w + seq!["--connect-timeout"@, v], c),
        reads_as(w + seq!["--retry"@, v], c),
        reads_as(w + seq!["--limit-rate"@, v], c),
{
    lemma_wants();
    lemma_reached(w, c);
    let q = reached(w);
    lemma_spelled_connect_timeout();
    lemma_spelled_limit_rate();
    lemma_spelled_max_time();
    lemma_spelled_output();
    lemma_spelled_retry();
    lemma_spelled_write_out();
    lemma_flag_at_the_end(w, c, "-o"@, 'o', "output"@, v);
    lemma_plain_values(q, "-o"@, v);
    lemma_flag_at_the_end(w, c, "-w"@, 'w', "write-out"@, v);
    lemma_plain_values(q, "-w"@, v);
    lemma_flag_at_the_end(w, c, "-m"@, 'm', "max-time"@, v);
    lemma_plain_values(q, "-m"@, v);
    lemma_long_at_the_end(w, c, "--max-time"@, "max-time"@, v);
    lemma_plain_values(q, "--max-time"@, v);
    lemma_long_at_the_end(w, c, "--connect-timeout"@, "connect-timeout"@, v);
    lemma_plain_values(q, "--connect-timeout"@, v);
    lemma_long_at_the_end(w, c, "--retry"@, "retry"@, v);
    lemma_plain_values(q, "--retry"@, v);
    lemma_long_at_the_end(w, c, "--limit-rate"@, "limit-rate"@, v);
    lemma_plain_values(q, "--limit-rate"@, v);
}

/// A command of a URL alone is a GET of that URL, with no headers and no body. `--url`
/// says the same as the bare word.
pub proof fn law_a_bare_url_is_a_get(u: Seq<char>)
    requires
        !(u.len() > 0 && u[0] == '-'),
        !u.contains('?'),
    ensures
        reads_as(
            seq!["curl"@, u],
            RequestView {
                name: Seq::empty(),
                method: "GET"@,
                url: u,
                description: None,
                headers: Map::empty(),
                query: Map::empty(),
                body: None,
                extract: None,
                profiles: None,
            },
        ),
        reading(seq!["curl"@, "--url"@, u]) == reading(seq!["curl"@, u]),
{
    lemma_url_read(u);
    lemma_url_flag(u);
    lemma_char_from(u, '?', 0);
    let at = char_from(u, '?', 0);
    if at < u.len() {
        assert(u.contains(u[at]));
    }
    assert(lifted(u) == (u, Map::<Seq<char>, Seq<char>>::empty()));
}

/// A GET of a URL with a query, and nothing else.
spec fn plain_get(url: Seq<char>, query: TextMap) -> RequestView {
    RequestView {
        name: Seq::empty(),
        method: "GET"@,
        url,
        description: None,
        headers: Map::empty(),
        query,
        body: None,
        extract: None,
        profiles: None,
    }
}

/// The parts of a command of a URL alone.
spec fn url_alone(u: Seq<char>) -> PartsView {
    PartsView { url: Some(u), ..no_parts() }
}

proof fn lemma_url_alone(u: Seq<char>)
    ensures
        ending(url_alone(u)) == Ok::<RequestView, Fault>(plain_get(lifted(u).0, lifted(u).1)),
{
    reveal(ending);
    assert(joined(url_alone(u).data, "&"@) =~= Seq::empty());
    assert(collected(url_alone(u).headers) =~= Map::empty());
}

proof fn lemma_url_read(u: Seq<char>)
    requires
        !(u.len() > 0 && u[0] == '-'),
    ensures
        reads_as(seq!["curl"@, u], plain_get(lifted(u).0, lifted(u).1)),
        reached(seq!["curl"@, u]) == url_alone(u),
{
    reveal(reading);
    reveal(reached);
    lemma_url_alone(u);
    let w = seq!["curl"@, u];
    assert(w[0] == "curl"@ && w[1] == u);
    assert(word_applied(u, w, 2, no_parts()) == Ok::<(int, PartsView), Fault>((2, url_alone(u))));
    assert(words_applied(w, 2, url_alone(u)) == Ok::<PartsView, Fault>(url_alone(u)));
    assert(words_applied(w, 1, no_parts()) == Ok::<PartsView, Fault>(url_alone(u)));
    assert(finished(url_alone(u)) == ending(url_alone(u))) by {
        reveal(ending);
    }
}

#[verifier::rlimit(60)]
proof fn lemma_url_flag(u: Seq<char>)
    requires
        !(u.len() > 0 && u[0] == '-'),
    ensures
        reading(seq!["curl"@, "--url"@, u]) == reading(seq!["curl"@, u]),
{
    lemma_url_read(u);
    lemma_url_alone(u);
    let l = seq!["curl"@, "--url"@, u];
    assert(l[0] == "curl"@ && l[1] == "--url"@ && l[2] == u);
    assert("--url"@ == "--"@ + "url"@ && !"url"@.contains('=')) by {
        reveal_strlit("--url");
        reveal_strlit("url");
        reveal_strlit("--");
        assert("--url"@ =~= "--"@ + "url"@);
    }
    lemma_long(l, 1, "url"@, no_parts());
    assert(value_applied("url"@, "--url"@, u, no_parts()) == Ok::<PartsView, Fault>(url_alone(u)));
    lemma_wants();
    assert(word_applied(l[1], l, 2, no_parts()) == Ok::<(int, PartsView), Fault>(
        (3, url_alone(u)),
    ));
    assert(words_applied(l, 3, url_alone(u)) == Ok::<PartsView, Fault>(url_alone(u)));
    assert(words_applied(l, 1, no_parts()) == Ok::<PartsView, Fault>(url_alone(u)));
    assert(finished(url_alone(u)) == ending(url_alone(u))) by {
        reveal(ending);
    }
    assert(command_read(l) == ending(url_alone(u)));
    reveal(reading);
}

/// A query is taken off the URL into the request's query, pair by pair, where no name
/// repeats; a repeated name keeps it on the URL. Nothing else of the URL changes.
pub proof fn law_a_query_is_taken_off_its_url(base: Seq<char>, query: Seq<char>, rows: Seq<Row>)
    requires
        !(base.len() > 0 && base[0] == '-'),
        !base.contains('?') && !base.contains('#') && !query.contains('#'),
        query.len() > 0,
        !occurs(base + "?"@ + query, "{{"@),
        url_pairs(placeholder_url() + "?"@ + query) == Some(rows),
    ensures
        reading(seq!["curl"@, base + "?"@ + query]) matches Ok(c) && {
            &&& c.method == "GET"@ && c.body is None && c.headers == Map::<
                Seq<char>,
                Seq<char>,
            >::empty()
            &&& (forall|i: int, j: int| 0 <= i < j < rows.len() ==> rows[i].0 != rows[j].0) ==> {
                &&& c.url == base
                &&& forall|i: int|
                    0 <= i < rows.len() ==> c.query.dom().contains((#[trigger] rows[i]).0)
                        && c.query[rows[i].0] == rows[i].1
                &&& forall|k: Seq<char>| #[trigger]
                    c.query.dom().contains(k) ==> exists|i: int|
                        0 <= i < rows.len() && #[trigger] rows[i].0 == k
            }
            &&& (exists|i: int, j: int| 0 <= i < j < rows.len() && rows[i].0 == rows[j].0) ==> c.url
                == base + "?"@ + query && c.query == Map::<Seq<char>, Seq<char>>::empty()
        },
{
    reveal_strlit("?");
    let u = base + "?"@ + query;
    let n = base.len() as int;
    if base.len() == 0 {
        assert(u[0] == '?');
    } else {
        assert(u[0] == base[0]);
    }
    lemma_url_read(u);
    lemma_char_from(u, '?', 0);
    assert(u[n] == '?');
    assert(char_from(u, '?', 0) == n) by {
        let at = char_from(u, '?', 0);
        if at < n {
            assert(base[at] == u[at]);
            assert(base.contains(base[at]));
        }
    }
    assert(u.skip(n + 1) =~= query);
    assert(u.take(n) =~= base);
    assert(!u.contains('#')) by {
        if u.contains('#') {
            let k = choose|k: int| 0 <= k < u.len() && u[k] == '#';
            if k < n {
                assert(base[k] == '#');
            } else {
                assert(query[k - n - 1] == '#');
            }
        }
    }
    if forall|i: int, j: int| 0 <= i < j < rows.len() ==> rows[i].0 != rows[j].0 {
        assert forall|i: int| 0 <= i < rows.len() implies collected(rows).dom().contains(
            (#[trigger] rows[i]).0,
        ) && collected(rows)[rows[i].0] == rows[i].1 by {
            lemma_collected_update(rows, i, rows[i].1);
        }
        assert forall|k: Seq<char>| #[trigger] collected(rows).dom().contains(k) implies exists|i: int|
            0 <= i < rows.len() && #[trigger] rows[i].0 == k by {
            lemma_collected_names(rows, k);
        }
    }
}

/// A URL with a placeholder or a fragment is kept whole.
pub proof fn law_some_urls_are_kept_whole(u: Seq<char>)
    requires
        !(u.len() > 0 && u[0] == '-'),
        occurs(u, "{{"@) || u.contains('#'),
    ensures
        reading(seq!["curl"@, u]) matches Ok(c) && c.url == u && c.query == Map::<
            Seq<char>,
            Seq<char>,
        >::empty(),
{
    lemma_url_read(u);
}

/// A second URL is refused, by both.
pub proof fn law_a_second_url_is_refused(u: Seq<char>, again: Seq<char>)
    requires
        !(u.len() > 0 && u[0] == '-'),
        !(again.len() > 0 && again[0] == '-'),
    ensures
        reading(seq!["curl"@, u, again]) == Err::<RequestView, Fault>(Fault::TwoUrls(u, again)),
        reading(seq!["curl"@]) == Err::<RequestView, Fault>(Fault::NoUrl),
{
    lemma_url_read(u);
    let w = seq!["curl"@, u];
    lemma_one_more(w, plain_get(lifted(u).0, lifted(u).1), seq![again]);
    assert(w + seq![again] =~= seq!["curl"@, u, again]);
    assert(seq![again][0] == again);
    assert(reading(seq!["curl"@]) == Err::<RequestView, Fault>(Fault::NoUrl)) by {
        reveal(reading);
        assert(seq!["curl"@][0] == "curl"@);
        assert(words_applied(seq!["curl"@], 1, no_parts()) == Ok::<PartsView, Fault>(no_parts()));
    }
}

// ─── Attached values and bundles ──────────────────────────────────────────────

proof fn lemma_attached_short(
    w: Seq<Seq<char>>,
    c: RequestView,
    ch: char,
    name: Seq<char>,
    v: Seq<char>,
)
    requires
        reads_as(w, c),
        wants_value(name),
        v.len() > 0,
        long_name(ch) == Some(name),
        ch != '-',
    ensures
        reading(w + seq![seq!['-', ch] + v]) == with_value(reached(w), name, seq!['-', ch], v),
{
    reveal(with_value);
    let n = w.len() as int;
    let q = reached(w);
    let one = seq!['-', ch] + v;
    let all = w + seq![one];
    lemma_one_more(w, c, seq![one]);
    assert(seq![one][0] == one);
    let b = one.skip(1);
    assert(b =~= seq![ch] + v);
    assert(b.skip(1) =~= v);
    assert(one[0] == '-' && one[1] == ch);
    assert(b[0] == ch);
    lemma_not_get_or_head(name);
    assert(flag_applied(name, seq!['-', ch], Some(v), all, n + 1, q) == match value_applied(
        name,
        seq!['-', ch],
        v,
        q,
    ) {
        Err(f) => Err(f),
        Ok(p) => Ok((n + 1, p)),
    });
    assert(bundle_applied(b, 0, all, n + 1, q) == flag_applied(
        name,
        seq!['-', ch],
        Some(v),
        all,
        n + 1,
        q,
    ));
    assert(word_applied(one, all, n + 1, q) == bundle_applied(b, 0, all, n + 1, q));
}

proof fn lemma_not_get_or_head(name: Seq<char>)
    requires
        wants_value(name),
    ensures
        name != "get"@,
        name != "head"@,
{
    lemma_names();
}

proof fn lemma_attached_long(w: Seq<Seq<char>>, c: RequestView, name: Seq<char>, v: Seq<char>)
    requires
        reads_as(w, c),
        wants_value(name),
        !name.contains('='),
    ensures
        reading(w + seq!["--"@ + name + "="@ + v]) == with_value(
            reached(w),
            name,
            "--"@ + name,
            v,
        ),
{
    reveal(with_value);
    reveal_strlit("=");
    reveal_strlit("--");
    let n = w.len() as int;
    let q = reached(w);
    let joint = "--"@ + name + "="@ + v;
    let all = w + seq![joint];
    lemma_one_more(w, c, seq![joint]);
    assert(seq![joint][0] == joint);
    let body = joint.skip(2);
    assert(body =~= name + "="@ + v);
    let k = name.len() as int;
    lemma_char_from(body, '=', 0);
    assert(body[k] == '=');
    assert(char_from(body, '=', 0) == k) by {
        let at = char_from(body, '=', 0);
        if at < k {
            assert(name[at] == body[at]);
            assert(name.contains(name[at]));
        }
    }
    assert(body.take(k) =~= name);
    assert(body.skip(k + 1) =~= v);
    assert(joint[0] == '-' && joint[1] == '-');
    lemma_not_get_or_head(name);
    assert(long_split(body) == (name, Some(v)));
    assert(flag_applied(name, "--"@ + name, Some(v), all, n + 1, q) == match value_applied(
        name,
        "--"@ + name,
        v,
        q,
    ) {
        Err(f) => Err(f),
        Ok(p) => Ok((n + 1, p)),
    });
    assert(word_applied(joint, all, n + 1, q) == flag_applied(
        name,
        "--"@ + name,
        Some(v),
        all,
        n + 1,
        q,
    ));
}

/// A value may be attached to its flag: `-XPOST` is `-X POST`, and `--request=POST` is
/// `--request POST`. So for every flag that takes a value.
pub proof fn law_a_value_may_be_attached(
    w: Seq<Seq<char>>,
    c: RequestView,
    ch: char,
    name: Seq<char>,
    v: Seq<char>,
)
    requires
        reads_as(w, c),
        wants_value(name),
        !name.contains('='),
    ensures
        v.len() > 0 && long_name(ch) == Some(name) && ch != '-' ==> reading(
            w + seq![seq!['-', ch] + v],
        ) == reading(w + seq![seq!['-', ch], v]),
        reading(w + seq!["--"@ + name + "="@ + v]) == reading(w + seq!["--"@ + name, v]),
{
    if v.len() > 0 && long_name(ch) == Some(name) && ch != '-' {
        lemma_flag_at_the_end(w, c, seq!['-', ch], ch, name, v);
        lemma_attached_short(w, c, ch, name, v);
    }
    lemma_long_at_the_end(w, c, "--"@ + name, name, v);
    lemma_attached_long(w, c, name, v);
}

proof fn lemma_quiet_letters(ch: char)
    requires
        ch == 's' || ch == 'S' || ch == 'v' || ch == 'i' || ch == 'k' || ch == 'L' || ch == 'f' || ch
            == 'I' || ch == 'G',
    ensures
        long_name(ch) is Some,
        !wants_value(long_name(ch)->0),
        ch == 'G' ==> long_name(ch)->0 == "get"@,
        ch == 'I' ==> long_name(ch)->0 == "head"@ && long_name(ch)->0 != "get"@,
        ch != 'G' && ch != 'I' ==> no_effect(long_name(ch)->0) && long_name(ch)->0 != "get"@
            && long_name(ch)->0 != "head"@,
{
    lemma_names();
}

/// Two more words at the end, the first of them a flag that takes no value.
proof fn lemma_two_more(
    w: Seq<Seq<char>>,
    c: RequestView,
    flag: Seq<char>,
    word: Seq<char>,
    p: PartsView,
)
    requires
        reads_as(w, c),
        exists|ch: char| #[trigger]
            seq!['-', ch] == flag && (ch == 's' || ch == 'S' || ch == 'v' || ch == 'i' || ch == 'k'
                || ch == 'L' || ch == 'f' || ch == 'I' || ch == 'G') && p == if ch == 'G' {
                PartsView { get: true, ..reached(w) }
            } else if ch == 'I' {
                PartsView { head: true, ..reached(w) }
            } else {
                reached(w)
            },
    ensures
        match word_applied(word, w + seq![flag, word], w.len() as int + 2, p) {
            Err(f) => reading(w + seq![flag, word]) == Err::<RequestView, Fault>(f),
            Ok((next, q)) => next == w.len() + 2 ==> reading(w + seq![flag, word]) == ending(q),
        },
{
    let ch = choose|ch: char| #[trigger]
        seq!['-', ch] == flag && (ch == 's' || ch == 'S' || ch == 'v' || ch == 'i' || ch == 'k' || ch
            == 'L' || ch == 'f' || ch == 'I' || ch == 'G') && p == if ch == 'G' {
            PartsView { get: true, ..reached(w) }
        } else if ch == 'I' {
            PartsView { head: true, ..reached(w) }
        } else {
            reached(w)
        };
    lemma_quiet_letters(ch);
    let more = seq![flag, word];
    let all = w + more;
    let n = w.len() as int;
    assert(all[n] == flag && all[n + 1] == word);
    lemma_short(all, n, ch, long_name(ch)->0, reached(w));
    assert(word_applied(flag, all, n + 1, reached(w)) == Ok::<(int, PartsView), Fault>((n + 1, p)));
    assert(words_applied(all, n, reached(w)) == words_applied(all, n + 1, p));
    lemma_all_words(w, c, more);
    match word_applied(word, all, n + 2, p) {
        Err(f) => {
            assert(words_applied(all, n + 1, p) == Err::<PartsView, Fault>(f));
        },
        Ok((next, q)) => {
            assert(words_applied(all, n + 1, p) == words_applied(all, next, q));
            if next == n + 2 {
                assert(words_applied(all, next, q) == Ok::<PartsView, Fault>(q));
            }
        },
    }
    reveal(ending);
}

proof fn lemma_all_words(w: Seq<Seq<char>>, c: RequestView, more: Seq<Seq<char>>)
    requires
        reads_as(w, c),
    ensures
        reading(w + more) == match words_applied(w + more, w.len() as int, reached(w)) {
            Err(f) => Err(f),
            Ok(q) => finished(q),
        },
{
    reveal(reading);
    reveal(reached);
    lemma_words_go_on(w, more, 1, no_parts());
    assert((w + more)[0] == w[0]);
}

proof fn lemma_run_word(word: Seq<char>, tokens: Seq<Seq<char>>, next: int, p: PartsView)
    requires
        word.len() >= 2,
        word[0] == '-',
        word[1] != '-',
    ensures
        word_applied(word, tokens, next, p) == bundle_applied(word.skip(1), 0, tokens, next, p),
{
}

proof fn lemma_first_letter(
    word: Seq<char>,
    tokens: Seq<Seq<char>>,
    next: int,
    q: PartsView,
    p: PartsView,
    ch: char,
)
    requires
        word.len() >= 2,
        word[0] == '-',
        word[1] == ch,
        ch == 's' || ch == 'S' || ch == 'v' || ch == 'i' || ch == 'k' || ch == 'L' || ch == 'f' || ch
            == 'I' || ch == 'G',
        p == if ch == 'G' {
            PartsView { get: true, ..q }
        } else if ch == 'I' {
            PartsView { head: true, ..q }
        } else {
            q
        },
    ensures
        word_applied(word, tokens, next, q) == bundle_applied(word.skip(1), 1, tokens, next, p),
{
    lemma_quiet_letters(ch);
    lemma_run_word(word, tokens, next, q);
    let b = word.skip(1);
    assert(b[0] == ch);
    let name = long_name(ch)->0;
    assert(flag_applied(name, seq!['-', ch], None, tokens, next, q) == Ok::<(int, PartsView), Fault>(
        (next, p),
    ));
}

/// Short flags may be run together: `-sL` is `-s -L`.
pub proof fn law_short_flags_may_be_run_together(
    w: Seq<Seq<char>>,
    c: RequestView,
    ch: char,
    rest: Seq<char>,
)
    requires
        reads_as(w, c),
        ch == 's' || ch == 'S' || ch == 'v' || ch == 'i' || ch == 'k' || ch == 'L' || ch == 'f' || ch
            == 'I' || ch == 'G',
        rest.len() > 0,
        rest[0] != '-',
    ensures
        reading(w + seq![seq!['-', ch] + rest]) == reading(
            w + seq![seq!['-', ch], seq!['-'] + rest],
        ),
{
    lemma_quiet_letters(ch);
    let n = w.len() as int;
    let q = reached(w);
    let p = if ch == 'G' {
        PartsView { get: true, ..q }
    } else if ch == 'I' {
        PartsView { head: true, ..q }
    } else {
        q
    };
    let one = seq!['-', ch] + rest;
    let all = w + seq![one];
    lemma_one_more(w, c, seq![one]);
    assert(seq![one][0] == one);
    let b = one.skip(1);
    lemma_first_letter(one, all, n + 1, q, p, ch);
    let word = seq!['-'] + rest;
    let two = w + seq![seq!['-', ch], word];
    lemma_two_more(w, c, seq!['-', ch], word, p);
    lemma_run_word(word, two, n + 2, p);
    assert(word.skip(1) =~= rest);
    assert(b.skip(1) =~= rest);
    assert(rest.skip(0) =~= rest);
    lemma_bundle_moves(b, 1, rest, 0, all, n + 1, two, n + 2, p);
}

/// A run of short flags at the end of its command does the same wherever that end is.
proof fn lemma_bundle_moves(
    a: Seq<char>,
    i: int,
    b: Seq<char>,
    j: int,
    all: Seq<Seq<char>>,
    n: int,
    two: Seq<Seq<char>>,
    m: int,
    p: PartsView,
)
    requires
        0 <= i <= a.len(),
        0 <= j <= b.len(),
        a.skip(i) == b.skip(j),
        n == all.len(),
        m == two.len(),
    ensures
        match bundle_applied(a, i, all, n, p) {
            Ok((next, q)) => next == n && bundle_applied(b, j, two, m, p) == Ok::<
                (int, PartsView),
                Fault,
            >((m, q)),
            Err(f) => bundle_applied(b, j, two, m, p) == Err::<(int, PartsView), Fault>(f),
        },
    decreases a.len() - i,
{
    assert(a.len() - i == b.len() - j) by {
        assert(a.skip(i).len() == b.skip(j).len());
    }
    if i < a.len() {
        assert(a[i] == a.skip(i)[0]);
        assert(b[j] == b.skip(j)[0]);
        assert(a.skip(i + 1) =~= a.skip(i).skip(1));
        assert(b.skip(j + 1) =~= b.skip(j).skip(1));
        match long_name(a[i]) {
            None => {},
            Some(name) => {
                if !wants_value(name) {
                    let display = seq!['-', a[i]];
                    match flag_applied(name, display, None, all, n, p) {
                        Ok((next, q)) => {
                            lemma_bundle_moves(a, i + 1, b, j + 1, all, n, two, m, q);
                        },
                        Err(f) => {},
                    }
                }
            },
        }
    }
}

proof fn lemma_missing_short(w: Seq<Seq<char>>, c: RequestView, ch: char, name: Seq<char>)
    requires
        reads_as(w, c),
        wants_value(name),
        long_name(ch) == Some(name),
        ch != '-',
    ensures
        reading(w + seq![seq!['-', ch]]) == Err::<RequestView, Fault>(
            Fault::MissingValue(seq!['-', ch]),
        ),
{
    lemma_not_get_or_head(name);
    let n = w.len() as int;
    let q = reached(w);
    let short = seq!['-', ch];
    let all = w + seq![short];
    lemma_one_more(w, c, seq![short]);
    assert(seq![short][0] == short);
    let b = short.skip(1);
    assert(b =~= seq![ch]);
    assert(b.skip(1).len() == 0);
    assert(b[0] == ch);
    let refused = Err::<(int, PartsView), Fault>(Fault::MissingValue(short));
    assert(flag_applied(name, short, None, all, n + 1, q) == refused);
    assert(bundle_applied(b, 0, all, n + 1, q) == refused);
    assert(word_applied(short, all, n + 1, q) == refused);
}

proof fn lemma_flag_missing(
    name: Seq<char>,
    display: Seq<char>,
    tokens: Seq<Seq<char>>,
    q: PartsView,
)
    requires
        wants_value(name),
    ensures
        flag_applied(name, display, None, tokens, tokens.len() as int, q) == Err::<
            (int, PartsView),
            Fault,
        >(Fault::MissingValue(display)),
{
    lemma_not_get_or_head(name);
}

proof fn lemma_long_word(name: Seq<char>, tokens: Seq<Seq<char>>, next: int, q: PartsView)
    requires
        !name.contains('='),
    ensures
        word_applied("--"@ + name, tokens, next, q) == flag_applied(
            name,
            "--"@ + name,
            None,
            tokens,
            next,
            q,
        ),
{
    lemma_no_equals(name);
    reveal_strlit("--");
    let long = "--"@ + name;
    assert(long[0] == '-' && long[1] == '-');
    assert(long.skip(2) =~= name);
}

proof fn lemma_missing_long(w: Seq<Seq<char>>, c: RequestView, name: Seq<char>)
    requires
        reads_as(w, c),
        wants_value(name),
        !name.contains('='),
    ensures
        reading(w + seq!["--"@ + name]) == Err::<RequestView, Fault>(
            Fault::MissingValue("--"@ + name),
        ),
{
    let long = "--"@ + name;
    let all = w + seq![long];
    lemma_one_more(w, c, seq![long]);
    assert(seq![long][0] == long);
    lemma_long_word(name, all, all.len() as int, reached(w));
    lemma_flag_missing(name, long, all, reached(w));
}

/// A flag at the end of a command that wants a value has none, and is refused by name.
pub proof fn law_a_missing_value_is_refused(
    w: Seq<Seq<char>>,
    c: RequestView,
    ch: char,
    name: Seq<char>,
)
    requires
        reads_as(w, c),
        wants_value(name),
        !name.contains('='),
    ensures
        long_name(ch) == Some(name) && ch != '-' ==> reading(w + seq![seq!['-', ch]]) == Err::<
            RequestView,
            Fault,
        >(Fault::MissingValue(seq!['-', ch])),
        reading(w + seq!["--"@ + name]) == Err::<RequestView, Fault>(
            Fault::MissingValue("--"@ + name),
        ),
{
    if long_name(ch) == Some(name) && ch != '-' {
        lemma_missing_short(w, c, ch, name);
    }
    lemma_missing_long(w, c, name);
}

// ─── Data ─────────────────────────────────────────────────────────────────────

/// Data behind data is joined with `&`, all of it, and nothing else changes.
pub proof fn law_more_data_joins_the_body(
    w: Seq<Seq<char>>,
    c: RequestView,
    b: BodyView,
    v: Seq<char>,
)
    requires
        reads_as(w, c),
        c.body == Some(b),
    ensures
        reads_as(
            w + seq!["--data-raw"@, v],
            RequestView {
                body: Some(BodyView { data: b.data + "&"@ + v, ..b }),
                ..c
            },
        ),
        !(v.len() > 0 && v[0] == '@') ==> reading(w + seq!["-d"@, v]) == reading(
            w + seq!["--data-raw"@, v],
        ),
{
    law_data_flags_agree(w, c, v);
    lemma_spelled_data_raw();
    lemma_wants();
    lemma_reached(w, c);
    let q = reached(w);
    lemma_long_at_the_end(w, c, "--data-raw"@, "data-raw"@, v);
    lemma_plain_values(q, "--data-raw"@, v);
    let data = q.data.push(v);
    assert(data.drop_last() =~= q.data);
    reveal(ending);
    assert(q.data.len() > 0);
    assert(joined(data, "&"@) == joined(q.data, "&"@) + "&"@ + v);
}

/// The flags for data say the same, whatever their spelling; all but `--data-raw` take a
/// leading `@` for the name of a file and are refused there.
pub proof fn law_data_flags_agree(w: Seq<Seq<char>>, c: RequestView, v: Seq<char>)
    requires
        reads_as(w, c),
    ensures
        !(v.len() > 0 && v[0] == '@') ==> {
            &&& reading(w + seq!["-d"@, v]) == reading(w + seq!["--data-raw"@, v])
            &&& reading(w + seq!["--data"@, v]) == reading(w + seq!["--data-raw"@, v])
            &&& reading(w + seq!["--data-ascii"@, v]) == reading(
                w + seq!["--data-raw"@, v],
            )
            &&& reading(w + seq!["--data-binary"@, v]) == reading(
                w + seq!["--data-raw"@, v],
            )
        },
        v.len() > 0 && v[0] == '@' ==> {
            &&& reading(w + seq!["-d"@, v]) == Err::<RequestView, Fault>(
                Fault::FileData("-d"@, v.skip(1)),
            )
            &&& reading(w + seq!["--data-binary"@, v]) == Err::<RequestView, Fault>(
                Fault::FileData("--data-binary"@, v.skip(1)),
            )
            &&& reading(w + seq!["--json"@, v]) == Err::<RequestView, Fault>(
                Fault::FileData("--json"@, v.skip(1)),
            )
        },
{
    lemma_spelled_data();
    lemma_spelled_data_ascii();
    lemma_spelled_data_binary();
    lemma_spelled_data_raw();
    lemma_spelled_json();
    lemma_wants();
    let q = reached(w);
    lemma_flag_at_the_end(w, c, "-d"@, 'd', "data"@, v);
    lemma_long_at_the_end(w, c, "--data"@, "data"@, v);
    lemma_long_at_the_end(w, c, "--data-ascii"@, "data-ascii"@, v);
    lemma_long_at_the_end(w, c, "--data-binary"@, "data-binary"@, v);
    lemma_long_at_the_end(w, c, "--data-raw"@, "data-raw"@, v);
    lemma_long_at_the_end(w, c, "--json"@, "json"@, v);
    lemma_data_values(q, "-d"@, v);
    lemma_data_values(q, "--data"@, v);
    lemma_data_values(q, "--data-ascii"@, v);
    lemma_data_values(q, "--data-binary"@, v);
    lemma_data_values(q, "--json"@, v);
    lemma_plain_values(q, "--data-raw"@, v);
    if v.len() > 0 {
        assert(v.drop_first() =~= v.skip(1));
    }
}

/// The parts of a command of a URL and data.
spec fn url_and_data(u: Seq<char>, v: Seq<char>) -> PartsView {
    PartsView { url: Some(u), data: seq![v], ..no_parts() }
}

proof fn lemma_url_and_data(u: Seq<char>, v: Seq<char>)
    ensures
        ending(url_and_data(u, v)) == Ok::<RequestView, Fault>(
            RequestView {
                method: "POST"@,
                body: Some(
                    BodyView { content_type: "application/x-www-form-urlencoded"@, data: v },
                ),
                ..plain_get(lifted(u).0, lifted(u).1)
            },
        ),
        ending(PartsView { get: true, ..url_and_data(u, v) }) == Ok::<RequestView, Fault>(
            plain_get(lifted(target_url(u, true, v)).0, lifted(target_url(u, true, v)).1),
        ),
{
    reveal(ending);
    let p = url_and_data(u, v);
    assert(header_from(p.headers, "Content-Type"@, 0) == 0);
    assert(joined(p.data, "&"@) == v);
    assert(collected(p.headers) =~= Map::empty());
}

proof fn lemma_raw_value(q: PartsView, display: Seq<char>, v: Seq<char>)
    ensures
        value_applied("data-raw"@, display, v, q) == Ok::<PartsView, Fault>(
            PartsView { data: q.data.push(v), ..q },
        ),
        header_split(v) matches Ok(h) ==> value_applied("header"@, display, v, q) == Ok::<
            PartsView,
            Fault,
        >(PartsView { headers: with_header(q.headers, h.0, h.1), ..q }),
{
    lemma_names();
}

proof fn lemma_data_read(u: Seq<char>, v: Seq<char>)
    requires
        !(u.len() > 0 && u[0] == '-'),
    ensures
        reading(seq!["curl"@, u, "--data-raw"@, v]) == ending(url_and_data(u, v)),
        reached(seq!["curl"@, u, "--data-raw"@, v]) == url_and_data(u, v),
{
    lemma_url_read(u);
    lemma_spelled_data_raw();
    lemma_wants();
    let w = seq!["curl"@, u];
    let c = plain_get(lifted(u).0, lifted(u).1);
    lemma_long_at_the_end(w, c, "--data-raw"@, "data-raw"@, v);
    lemma_plain_values(url_alone(u), "--data-raw"@, v);
    let two = seq!["curl"@, u, "--data-raw"@, v];
    assert(w + seq!["--data-raw"@, v] =~= two);
    assert(no_parts().data.push(v) =~= seq![v]);
    let p = url_and_data(u, v);
    assert(two[2] == "--data-raw"@ && two[3] == v);
    lemma_long(two, 2, "data-raw"@, url_alone(u));
    lemma_raw_value(url_alone(u), "--"@ + "data-raw"@, v);
    lemma_reached_value(w, c, "--data-raw"@, v, p);
}

/// Data makes a command a POST of that data, form-encoded unless it says otherwise, to the
/// URL it names.
pub proof fn law_data_makes_a_post(u: Seq<char>, v: Seq<char>)
    requires
        !(u.len() > 0 && u[0] == '-'),
    ensures
        reading(seq!["curl"@, u]) matches Ok(bare) && reads_as(
            seq!["curl"@, u, "--data-raw"@, v],
            RequestView {
                method: "POST"@,
                body: Some(
                    BodyView { content_type: "application/x-www-form-urlencoded"@, data: v },
                ),
                ..bare
            },
        ),
{
    lemma_url_read(u);
    lemma_data_read(u, v);
    lemma_url_and_data(u, v);
}

/// With `-G` the data goes onto the URL's query instead, behind a `?`, or behind what is
/// there and a `&`; the command is then a GET of that URL.
pub proof fn law_get_moves_data_to_the_query(u: Seq<char>, v: Seq<char>)
    requires
        !(u.len() > 0 && u[0] == '-'),
    ensures
        v.len() > 0 && !u.contains('?') ==> reading(seq!["curl"@, u, "--data-raw"@, v, "-G"@])
            == reading(seq!["curl"@, u + "?"@ + v]),
        v.len() > 0 && u.contains('?') ==> reading(seq!["curl"@, u, "--data-raw"@, v, "-G"@])
            == reading(seq!["curl"@, u + "&"@ + v]),
        v.len() == 0 ==> reading(seq!["curl"@, u, "--data-raw"@, v, "-G"@]) == reading(
            seq!["curl"@, u],
        ),
        reading(seq!["curl"@, u, "--data-raw"@, v, "--get"@]) == reading(
            seq!["curl"@, u, "--data-raw"@, v, "-G"@],
        ),
{
    lemma_url_read(u);
    lemma_data_read(u, v);
    lemma_url_and_data(u, v);
    lemma_spelled_get();
    reveal_strlit("?");
    reveal_strlit("&");
    let two = seq!["curl"@, u, "--data-raw"@, v];
    let d = ending(url_and_data(u, v))->Ok_0;
    let p = url_and_data(u, v);
    let g = PartsView { get: true, ..p };
    let three = seq!["curl"@, u, "--data-raw"@, v, "-G"@];
    let spelled = seq!["curl"@, u, "--data-raw"@, v, "--get"@];
    assert(two + seq!["-G"@] =~= three);
    assert(two + seq!["--get"@] =~= spelled);
    lemma_one_more(two, d, seq!["-G"@]);
    lemma_one_more(two, d, seq!["--get"@]);
    assert(three[4] == "-G"@ && spelled[4] == "--get"@);
    lemma_quiet_letters('G');
    lemma_short(three, 4, 'G', "get"@, p);
    lemma_long(spelled, 4, "get"@, p);
    assert(flag_applied("get"@, "-G"@, None, three, 5, p) == Ok::<(int, PartsView), Fault>((5, g)));
    assert(flag_applied("get"@, "--get"@, None, spelled, 5, p) == Ok::<(int, PartsView), Fault>(
        (5, g),
    ));
    assert(reading(three) == ending(g));
    assert(reading(spelled) == ending(g));
    if v.len() > 0 {
        let sep = if u.contains('?') {
            "&"@
        } else {
            "?"@
        };
        let onto = u + sep + v;
        if u.len() == 0 {
            assert(onto[0] == '?');
        } else {
            assert(onto[0] == u[0]);
        }
        lemma_url_read(onto);
        assert(target_url(u, true, v) == onto);
    }
}

proof fn lemma_json_value(u: Seq<char>, v: Seq<char>)
    requires
        !(v.len() > 0 && v[0] == '@'),
    ensures
        with_value(url_alone(u), "json"@, "--json"@, v) == Ok::<RequestView, Fault>(
            RequestView {
                method: "POST"@,
                headers: Map::empty().insert("Accept"@, "application/json"@),
                body: Some(BodyView { content_type: "application/json"@, data: v }),
                ..plain_get(lifted(u).0, lifted(u).1)
            },
        ),
{
    reveal(with_value);
    reveal(ending);
    lemma_header_names();
    let json = "application/json"@;
    let one = seq![("Content-Type"@, json)];
    assert(no_parts().headers.push(("Content-Type"@, json)) =~= one);
    assert(header_from(no_parts().headers, "Content-Type"@, 0) == 0);
    lemma_header_from(one, "Accept"@, 0);
    assert(header_from(one, "Accept"@, 0) == 1) by {
        if header_from(one, "Accept"@, 0) == 0 {
            assert(same_ignoring_case(one[0].0, "Accept"@));
        }
    }
    let both = seq![("Content-Type"@, json), ("Accept"@, json)];
    assert(one.push(("Accept"@, json)) =~= both);
    assert(no_parts().data.push(v) =~= seq![v]);
    let p = PartsView { headers: both, data: seq![v], ..url_alone(u) };
    assert(value_applied("json"@, "--json"@, v, url_alone(u)) == Ok::<PartsView, Fault>(p)) by {
        lemma_names();
    }
    lemma_same_self("Content-Type"@);
    assert(both[0].0 == "Content-Type"@);
    assert(header_from(both, "Content-Type"@, 0) == 0);
    assert(both.remove(0) =~= seq![("Accept"@, json)]);
    assert(seq![("Accept"@, json)].drop_last() =~= Seq::empty());
    assert(collected(seq![("Accept"@, json)].drop_last()) =~= Map::empty());
    assert(joined(p.data, "&"@) == v);
}

proof fn lemma_head_read(u: Seq<char>)
    requires
        !(u.len() > 0 && u[0] == '-'),
    ensures
        reading(seq!["curl"@, u, "-I"@]) == ending(PartsView { head: true, ..url_alone(u) }),
        reading(seq!["curl"@, u, "--head"@]) == ending(PartsView { head: true, ..url_alone(u) }),
{
    lemma_url_read(u);
    lemma_spelled_head();
    let w = seq!["curl"@, u];
    let c = plain_get(lifted(u).0, lifted(u).1);
    let q = url_alone(u);
    let h = PartsView { head: true, ..q };
    let short = seq!["curl"@, u, "-I"@];
    let long = seq!["curl"@, u, "--head"@];
    assert(w + seq!["-I"@] =~= short);
    assert(w + seq!["--head"@] =~= long);
    lemma_one_more(w, c, seq!["-I"@]);
    lemma_one_more(w, c, seq!["--head"@]);
    assert(seq!["-I"@][0] == "-I"@ && seq!["--head"@][0] == "--head"@);
    lemma_first_letter("-I"@, short, 3, q, h, 'I');
    assert("-I"@.skip(1).len() == 1);
    lemma_long_word("head"@, long, 3, q);
    lemma_head_flag(long, 3, q);
}

proof fn lemma_head_flag(tokens: Seq<Seq<char>>, i: int, q: PartsView)
    ensures
        flag_applied("head"@, "--"@ + "head"@, None, tokens, i, q) == Ok::<(int, PartsView), Fault>(
            (i, PartsView { head: true, ..q }),
        ),
{
    lemma_names();
}

proof fn lemma_head_ends(u: Seq<char>)
    ensures
        ending(PartsView { head: true, ..url_alone(u) }) == Ok::<RequestView, Fault>(
            RequestView { method: "HEAD"@, ..plain_get(lifted(u).0, lifted(u).1) },
        ),
{
    reveal(ending);
    assert(joined(url_alone(u).data, "&"@) =~= Seq::empty());
    assert(collected(url_alone(u).headers) =~= Map::empty());
}

/// `-I` asks for the head alone.
pub proof fn law_head_asks_for_the_head(u: Seq<char>)
    requires
        !(u.len() > 0 && u[0] == '-'),
    ensures
        reading(seq!["curl"@, u]) matches Ok(bare) && reads_as(
            seq!["curl"@, u, "-I"@],
            RequestView { method: "HEAD"@, ..bare },
        ),
        reading(seq!["curl"@, u, "--head"@]) == reading(seq!["curl"@, u, "-I"@]),
{
    lemma_url_read(u);
    lemma_head_read(u);
    lemma_head_ends(u);
}

/// `--json` is data, with the two headers that say that it is JSON.
pub proof fn law_json_is_data_with_its_headers(u: Seq<char>, v: Seq<char>)
    requires
        !(u.len() > 0 && u[0] == '-'),
        !(v.len() > 0 && v[0] == '@'),
    ensures
        reading(seq!["curl"@, u]) matches Ok(bare) && reads_as(
            seq!["curl"@, u, "--json"@, v],
            RequestView {
                method: "POST"@,
                headers: Map::empty().insert("Accept"@, "application/json"@),
                body: Some(BodyView { content_type: "application/json"@, data: v }),
                ..bare
            },
        ),
{
    lemma_url_read(u);
    lemma_spelled_json();
    lemma_wants();
    let w = seq!["curl"@, u];
    let c = plain_get(lifted(u).0, lifted(u).1);
    lemma_long_at_the_end(w, c, "--json"@, "json"@, v);
    assert(w + seq!["--json"@, v] =~= seq!["curl"@, u, "--json"@, v]);
    lemma_json_value(u, v);
}

proof fn lemma_typed_parts(u: Seq<char>, t: Seq<char>, v: Seq<char>)
    ensures
        ({
            let q = PartsView {
                url: Some(u),
                headers: seq![("Content-Type"@, t)],
                ..no_parts()
            };
            let c = plain_get(lifted(u).0, lifted(u).1);
            &&& ending(q) == Ok::<RequestView, Fault>(
                RequestView { headers: Map::empty().insert("Content-Type"@, t), ..c },
            )
            &&& ending(PartsView { data: seq![v], ..q }) == Ok::<RequestView, Fault>(
                RequestView {
                    method: "POST"@,
                    body: Some(BodyView { content_type: t, data: v }),
                    ..c
                },
            )
        }),
{
    reveal(ending);
    let rows = seq![("Content-Type"@, t)];
    assert(rows.drop_last() =~= Seq::empty());
    assert(collected(rows.drop_last()) =~= Map::empty());
    assert(joined(no_parts().data, "&"@) =~= Seq::empty());
    assert(joined(seq![v], "&"@) == v);
    lemma_same_self("Content-Type"@);
    assert(rows[0].0 == "Content-Type"@);
    assert(header_from(rows, "Content-Type"@, 0) == 0);
    assert(rows.remove(0) =~= Seq::empty());
    assert(collected(Seq::<Row>::empty()) =~= Map::empty());
}

/// A content type given behind `-H` is the body's where there is a body, and a header
/// where there is none.
pub proof fn law_a_content_type_goes_with_the_data(u: Seq<char>, t: Seq<char>, v: Seq<char>)
    requires
        !(u.len() > 0 && u[0] == '-'),
        trimmed(t) == t,
    ensures
        ({
            let bare = reading(seq!["curl"@, u])->Ok_0;
            let typed = "Content-Type:"@ + t;
            &&& reads_as(
                seq!["curl"@, u, "-H"@, typed],
                RequestView { headers: Map::empty().insert("Content-Type"@, t), ..bare },
            )
            &&& reads_as(
                seq!["curl"@, u, "-H"@, typed, "--data-raw"@, v],
                RequestView {
                    method: "POST"@,
                    body: Some(BodyView { content_type: t, data: v }),
                    ..bare
                },
            )
        }),
{
    lemma_url_read(u);
    lemma_spelled_header();
    lemma_spelled_data_raw();
    lemma_wants();
    let typed = "Content-Type:"@ + t;
    assert(header_split(typed) == Ok::<Row, Fault>(("Content-Type"@, t))) by {
        reveal_strlit("Content-Type:");
        reveal_strlit("Content-Type");
        reveal_strlit(":");
        assert("Content-Type:"@ + t =~= "Content-Type"@ + ":"@ + t);
        assert(!"Content-Type"@.contains(':'));
        lemma_header_texts("Content-Type"@, t);
        crate::text_laws::law_trimming_takes_the_white_ends("Content-Type"@);
    }
    let w = seq!["curl"@, u];
    let c = plain_get(lifted(u).0, lifted(u).1);
    lemma_flag_at_the_end(w, c, "-H"@, 'H', "header"@, typed);
    lemma_plain_values(url_alone(u), "-H"@, typed);
    let one = seq!["curl"@, u, "-H"@, typed];
    assert(w + seq!["-H"@, typed] =~= one);
    let rows = seq![("Content-Type"@, t)];
    assert(no_parts().headers.push(("Content-Type"@, t)) =~= rows);
    assert(header_from(no_parts().headers, "Content-Type"@, 0) == 0);
    let q = PartsView { url: Some(u), headers: rows, ..no_parts() };
    assert(reading(one) == ending(q));
    lemma_typed_parts(u, t, v);
    let d = RequestView { headers: Map::empty().insert("Content-Type"@, t), ..c };
    assert(one[2] == "-H"@ && one[3] == typed);
    lemma_short(one, 2, 'H', "header"@, url_alone(u));
    lemma_raw_value(url_alone(u), seq!['-', 'H'], typed);
    lemma_reached_value(w, c, "-H"@, typed, q);
    lemma_long_at_the_end(one, d, "--data-raw"@, "data-raw"@, v);
    lemma_plain_values(q, "--data-raw"@, v);
    assert(one + seq!["--data-raw"@, v] =~= seq!["curl"@, u, "-H"@, typed, "--data-raw"@, v]);
    assert(no_parts().data.push(v) =~= seq![v]);
}

/// `--data-urlencode` sends a pair as the URL's own encoder writes it: the name is what
/// stands before the first `=`, the content all that stands behind it.
pub proof fn law_a_pair_is_encoded_whole(
    w: Seq<Seq<char>>,
    c: RequestView,
    name: Seq<char>,
    content: Seq<char>,
    p: (Seq<char>, Seq<char>),
)
    requires
        reads_as(w, c),
        name.len() > 0,
        !name.contains('=') && !name.contains('@'),
        folded(placeholder_url(), seq![(name, content)]) == Some(p),
    ensures
        reading(w + seq!["--data-urlencode"@, name + "="@ + content]) == reading(
            w + seq!["--data-raw"@, p.1],
        ),
{
    lemma_spelled_data_urlencode();
    lemma_spelled_data_raw();
    lemma_wants();
    reveal_strlit("=");
    let raw = name + "="@ + content;
    let n = name.len() as int;
    lemma_char_from(raw, '=', 0);
    lemma_char_from(raw, '@', 0);
    assert(raw[n] == '=');
    assert(char_from(raw, '=', 0) == n) by {
        let at = char_from(raw, '=', 0);
        if at < n {
            assert(name[at] == raw[at]);
            assert(name.contains(name[at]));
        }
    }
    let at = char_from(raw, '@', 0);
    if at < raw.len() {
        if at < n {
            assert(name[at] == raw[at]);
            assert(name.contains(name[at]));
        }
        assert(at != n);
        assert(raw.take(at)[n] == '=');
        assert(raw.take(at).contains('='));
    }
    assert(raw.take(n) =~= name);
    assert(raw.skip(n + 1) =~= content);
    lemma_long_at_the_end(w, c, "--data-urlencode"@, "data-urlencode"@, raw);
    lemma_long_at_the_end(w, c, "--data-raw"@, "data-raw"@, p.1);
    assert(urlencoded(raw, "--data-urlencode"@) == Ok::<Seq<char>, Fault>(p.1));
    lemma_plain_values(reached(w), "--data-urlencode"@, raw);
    lemma_plain_values(reached(w), "--data-raw"@, p.1);
}

// ─── Around the command ───────────────────────────────────────────────────────

proof fn lemma_bare(s: Seq<char>)
    requires
        s.len() > 0,
        !white(s[0]) && !white(s.last()),
    ensures
        trimmed(s) == s,
{
    crate::text_laws::law_trimming_takes_the_white_ends(s);
}

proof fn lemma_prompts(s: Seq<char>)
    requires
        s.len() > 0,
        !white(s[0]) && !white(s.last()),
        s[0] != '$' && s[0] != '%',
    ensures
        without_prompt(trimmed("$ "@ + s)) == s,
        without_prompt(trimmed("% "@ + s)) == s,
        without_prompt(trimmed(s)) == s,
{
    reveal_strlit("$ ");
    reveal_strlit("% ");
    let a = "$ "@ + s;
    let b = "% "@ + s;
    assert(a[0] == '$' && b[0] == '%');
    assert(a[1] == ' ' && b[1] == ' ');
    assert(a.last() == s.last());
    assert(b.last() == s.last());
    lemma_bare(s);
    lemma_bare(a);
    lemma_bare(b);
    assert(a.skip(2) =~= s);
    assert(b.skip(2) =~= s);
}

/// White space around a text is trimmed away, whatever stands before and behind it.
proof fn lemma_white_around(front: Seq<char>, s: Seq<char>, back: Seq<char>)
    requires
        s.len() > 0,
        !white(s[0]) && !white(s.last()),
        forall|i: int| 0 <= i < front.len() ==> white(#[trigger] front[i]),
        forall|i: int| 0 <= i < back.len() ==> white(#[trigger] back[i]),
    ensures
        trimmed(front + s + back) == s,
{
    let d = front + s + back;
    crate::text_laws::law_trimming_takes_the_white_ends(d);
    let (i, j) = choose|i: int, j: int|
        #![trigger d.subrange(i, j)]
        0 <= i <= j <= d.len() && trimmed(d) == d.subrange(i, j) && (forall|k: int|
            0 <= k < i || j <= k < d.len() ==> white(#[trigger] d[k])) && (i < j ==> !white(d[i])
            && !white(d[j - 1]));
    let f = front.len() as int;
    let n = s.len() as int;
    assert(d[f] == s[0]);
    assert(d[f + n - 1] == s.last());
    if i > f {
        assert(white(d[f]));
    }
    if j < f + n {
        assert(white(d[f + n - 1]));
    }
    if i < f {
        assert(d[i] == front[i]);
    }
    if j > f + n {
        assert(d[j - 1] == back[j - 1 - f - n]);
    }
    assert(d.subrange(f, f + n) =~= s);
}

/// A prompt before a command changes nothing.
pub proof fn law_a_prompt_is_passed_over(s: Seq<char>)
    requires
        s.len() > 0,
        !white(s[0]) && !white(s.last()),
        s[0] != '$' && s[0] != '%',
    ensures
        imported("$ "@ + s) == imported(s),
        imported("% "@ + s) == imported(s),
{
    lemma_prompts(s);
}

/// White space around a command changes nothing.
pub proof fn law_white_space_around_is_passed_over(front: Seq<char>, s: Seq<char>, back: Seq<char>)
    requires
        s.len() > 0,
        !white(s[0]) && !white(s.last()),
        forall|i: int| 0 <= i < front.len() ==> white(#[trigger] front[i]),
        forall|i: int| 0 <= i < back.len() ==> white(#[trigger] back[i]),
    ensures
        imported(front + s + back) == imported(s),
{
    lemma_white_around(front, s, back);
    lemma_bare(s);
}

} // verus!
