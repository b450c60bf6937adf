//! Writing a request as a cURL command.
use vstd::prelude::*;
use vstd::string::*;

use crate::curl_error::Fault;
use crate::curl_laws::{
    carried, law_a_command_reads_back_as_its_request, law_plain_request_resolves_to_itself, placeholder_free,
};
use crate::curl_parse::{collected, imported};
use crate::order::{rows_of, sort_pairs, sort_rows, Row};
use crate::request::{BodyView, RequestConfig, RequestView, TextMap};
use crate::shell::{quoted, shell_quote};
use crate::strmap::{listing, StrMap};
use crate::text::{
    concat2, concat3, contains, contains_char, join, joined, occurs, same_ignoring_case, str_eq, texts,
    trimmed, white,
};
use crate::unicode::{to_uppercase, uppercase};
use crate::vars::{filled, interpolate};
use crate::weburl::{can_fold, fold_pairs, foldable, folded, normal_url, placeholder_url, reads_back};

verus! {

/// Rows with the placeholders in their names and values filled in.
pub open spec fn filled_rows(rows: Seq<Row>, vars: TextMap, env: TextMap) -> Seq<Row> {
    rows.map_values(|r: Row| (filled(r.0, vars, env), filled(r.1, vars, env)))
}

/// A map's pairs with their placeholders filled in.
pub fn interpolate_pairs(map: &StrMap, vars: &StrMap, env: &StrMap) -> (r: Vec<(String, String)>)
    ensures
        rows_of(r@) == filled_rows(listing(map@), vars@, env@),
{
    let mut r: Vec<(String, String)> = Vec::new();
    let n: usize = map.len();
    let mut i: usize = 0;
    let ghost all = filled_rows(map.rows(), vars@, env@);
    while i < n
        invariant
            n == map.rows().len(),
            i <= n,
            all == filled_rows(map.rows(), vars@, env@),
            rows_of(r@) == all.take(i as int),
        decreases n - i,
    {
        let row = map.row(i);
        let ghost before = r@;
        let name = interpolate(row.0, vars, env);
        let value = interpolate(row.1, vars, env);
        r.push((name, value));
        proof {
            assert(rows_of(r@) =~= rows_of(before).push((name@, value@)));
            assert(all.take(i + 1) =~= all.take(i as int).push(all[i as int]));
        }
        i = i + 1;
    }
    proof {
        assert(all.take(n as int) =~= all);
    }
    r
}

/// A URL with query rows folded into it, given what folding them into the URL as
/// parsed comes to. A URL that still carries placeholders, or that does not parse,
/// is kept as written and gets the encoded rows behind it.
pub open spec fn url_with_rows(
    base: Seq<char>,
    parsed: Option<(Seq<char>, Seq<char>)>,
    encoded: Seq<char>,
) -> Seq<char> {
    match parsed {
        Some(p) if !occurs(base, "{{"@) => p.0,
        _ => base + (if base.contains('?') {
            "&"@
        } else {
            "?"@
        }) + encoded,
    }
}

/// The query of a folded URL, or nothing.
pub open spec fn query_or_none(p: Option<(Seq<char>, Seq<char>)>) -> Seq<char> {
    match p {
        Some(q) => q.1,
        None => Seq::empty(),
    }
}

/// The URL of a request with its placeholders filled in and its query folded into
/// it, in order.
pub open spec fn built_url(url: Seq<char>, query: Seq<Row>, vars: TextMap, env: TextMap) -> Seq<
    char,
> {
    let base = filled(url, vars, env);
    if query.len() == 0 {
        base
    } else {
        let rows = sort_rows(filled_rows(query, vars, env));
        url_with_rows(base, folded(base, rows), query_or_none(folded(placeholder_url(), rows)))
    }
}

/// The flags of a command, each with its value: the headers in order, then what the
/// body adds.
pub open spec fn flag_rows(
    headers: Seq<Row>,
    body: Option<BodyView>,
    vars: TextMap,
    env: TextMap,
) -> Seq<Row> {
    let sorted = sort_rows(filled_rows(headers, vars, env));
    let given = sorted.map_values(|r: Row| ("-H"@, r.0 + ": "@ + r.1));
    match body {
        None => given,
        Some(b) => given.push(("-H"@, "Content-Type: "@ + b.content_type)).push(
            ("--data-raw"@, filled(b.data, vars, env)),
        ),
    }
}

/// The flags as written, each value quoted.
pub open spec fn flag_texts(flags: Seq<Row>) -> Seq<Seq<char>> {
    flags.map_values(|r: Row| r.0 + " "@ + quoted(r.1))
}

/// The first line of a command. GET is curl's own default and is not spelled out.
pub open spec fn command_head(method: Seq<char>, url: Seq<char>) -> Seq<char> {
    "curl"@ + (if method == "GET"@ {
        Seq::empty()
    } else {
        " -X "@ + method
    }) + " "@ + quoted(url)
}

/// The command, its flags on lines of their own.
pub open spec fn command_text(method: Seq<char>, url: Seq<char>, flags: Seq<Row>) -> Seq<char> {
    joined(seq![command_head(method, url)] + flag_texts(flags), " \\\n  "@)
}

/// A request as a command.
pub open spec fn rendered(config: RequestView, vars: TextMap, env: TextMap) -> Seq<char> {
    command_text(
        uppercase(config.method),
        built_url(config.url, listing(config.query), vars, env),
        flag_rows(listing(config.headers), config.body, vars, env),
    )
}

/// The query of the request can be appended to its URL where that is to be parsed.
pub open spec fn url_countable(config: RequestView, vars: TextMap, env: TextMap) -> bool {
    let base = filled(config.url, vars, env);
    listing(config.query).len() > 0 && !occurs(base, "{{"@) ==> foldable(
        base,
        sort_rows(filled_rows(listing(config.query), vars, env)),
    )
}

/// Interpolates the URL and folds the query into it, as sending does.
pub fn build_url(config: &RequestConfig, vars: &StrMap, env: &StrMap) -> (r: String)
    requires
        url_countable(config@, vars@, env@),
    ensures
        r@ == built_url(config.url@, listing(config@.query), vars@, env@),
        listing(config@.query).len() > 0 && url_keeps(
            filled(config.url@, vars@, env@),
            sort_rows(filled_rows(listing(config@.query), vars@, env@)),
        ) ==> query_follows(config@, vars@, env@),
{
    let base = interpolate(config.url.as_str(), vars, env);
    if config.query.len() == 0 {
        return base;
    }
    let pairs = sort_pairs(interpolate_pairs(&config.query, vars, env));
    proof {
        crate::order::law_sort_rows_orders(filled_rows(listing(config@.query), vars@, env@));
        assert(rows_of(pairs@).len() == pairs@.len());
    }
    let held = contains(base.as_str(), "{{");
    if !held {
        match fold_pairs(base.as_str(), &pairs) {
            Some(p) => {
                return p.0;
            },
            None => {},
        }
    }
    let encoded = match fold_pairs("http://placeholder.invalid/", &pairs) {
        Some(p) => p.1,
        None => String::new(),
    };
    let separator = if contains_char(base.as_str(), '?') {
        "&"
    } else {
        "?"
    };
    concat3(base.as_str(), separator, encoded.as_str())
}

/// The URL takes the query behind a question mark, and the query reads back.
pub open spec fn query_follows(config: RequestView, vars: TextMap, env: TextMap) -> bool {
    let base = filled(config.url, vars, env);
    let rows = sort_rows(filled_rows(listing(config.query), vars, env));
    folded(base, rows) matches Some(p) && p.0 == base + "?"@ + p.1 && reads_back(p.1, rows)
}

fn flag_line(flag: &str, value: &str) -> (r: String)
    ensures
        r@ == flag@ + " "@ + quoted(value@),
{
    let q = shell_quote(value);
    concat3(flag, " ", q.as_str())
}

proof fn lemma_flag_texts_push(flags: Seq<Row>, row: Row)
    ensures
        flag_texts(flags.push(row)) == flag_texts(flags).push(row.0 + " "@ + quoted(row.1)),
{
    assert(flag_texts(flags.push(row)) =~= flag_texts(flags).push(row.0 + " "@ + quoted(row.1)));
}

proof fn lemma_texts_push(v: Seq<String>, s: String)
    ensures
        texts(v.push(s)) == texts(v).push(s@),
{
    assert(texts(v.push(s)) =~= texts(v).push(s@));
}

/// Writes the command of a request under a method, for a URL that has the query in
/// it: the headers by name, then the body.
pub fn write_command(
    method: &str,
    url: &str,
    config: &RequestConfig,
    vars: &StrMap,
    env: &StrMap,
) -> (r: String)
    ensures
        r@ == command_text(
            method@,
            url@,
            flag_rows(listing(config@.headers), config@.body, vars@, env@),
        ),
{
    let mut head = "curl".to_owned();
    if !str_eq(method, "GET") {
        head.append(" -X ");
        head.append(method);
    }
    head.append(" ");
    head.append(shell_quote(url).as_str());
    proof {
        assert(head@ =~= command_head(method@, url@));
    }
    let mut parts: Vec<String> = Vec::new();
    parts.push(head);
    let ghost flags = Seq::<Row>::empty();
    proof {
        assert(texts(parts@) =~= seq![head@] + flag_texts(flags));
    }
    let headers = sort_pairs(interpolate_pairs(&config.headers, vars, env));
    let ghost sorted = rows_of(headers@);
    let ghost given = sorted.map_values(|r: Row| ("-H"@, r.0 + ": "@ + r.1));
    proof {
        assert(given.take(0) =~= flags);
    }
    let mut i: usize = 0;
    while i < headers.len()
        invariant
            i <= headers.len(),
            sorted == rows_of(headers@),
            given == sorted.map_values(|r: Row| ("-H"@, r.0 + ": "@ + r.1)),
            flags == given.take(i as int),
            texts(parts@) == seq![head@] + flag_texts(flags),
        decreases headers.len() - i,
    {
        let text = concat3(headers[i].0.as_str(), ": ", headers[i].1.as_str());
        let line = flag_line("-H", text.as_str());
        proof {
            lemma_flag_texts_push(flags, given[i as int]);
            lemma_texts_push(parts@, line);
            assert(given.take(i + 1) =~= flags.push(given[i as int]));
            assert(texts(parts@.push(line)) =~= seq![head@] + flag_texts(given.take(i + 1)));
            flags = given.take(i + 1);
        }
        parts.push(line);
        i = i + 1;
    }
    proof {
        assert(given.take(headers@.len() as int) =~= given);
    }
    match &config.body {
        None => {},
        Some(body) => {
            let typed = concat2("Content-Type: ", body.content_type.as_str());
            let first = flag_line("-H", typed.as_str());
            proof {
                lemma_flag_texts_push(flags, ("-H"@, typed@));
                lemma_texts_push(parts@, first);
                assert(texts(parts@.push(first)) =~= seq![head@] + flag_texts(
                    flags.push(("-H"@, typed@)),
                ));
                flags = flags.push(("-H"@, typed@));
            }
            parts.push(first);
            let data = interpolate(body.data.as_str(), vars, env);
            let second = flag_line("--data-raw", data.as_str());
            proof {
                lemma_flag_texts_push(flags, ("--data-raw"@, data@));
                lemma_texts_push(parts@, second);
                assert(texts(parts@.push(second)) =~= seq![head@] + flag_texts(
                    flags.push(("--data-raw"@, data@)),
                ));
                flags = flags.push(("--data-raw"@, data@));
            }
            parts.push(second);
        },
    }
    join(&parts, " \\\n  ")
}

/// Builds a multi-line cURL command equivalent to the request that would be sent
/// for this config and these variables. Where nothing is lost on the way, reading
/// the command gives the request back: with its placeholders filled in, and as it is
/// where it has none.
pub fn to_curl(config: &RequestConfig, vars: &StrMap, env: &StrMap) -> (r: String)
    requires
        url_countable(config@, vars@, env@),
    ensures
        r@ == rendered(config@, vars@, env@),
        expressible(config@, vars@, env@) ==> imported(r@) == Ok::<RequestView, Fault>(
            resolved(config@, vars@, env@),
        ),
        expressible(config@, vars@, env@) && placeholder_free(config@) ==> imported(r@) == Ok::<
            RequestView,
            Fault,
        >(carried(config@)),
{
    // Maps that are held list in name order.
    config.headers.len();
    config.query.len();
    let method = to_uppercase(config.method.as_str());
    let url = build_url(config, vars, env);
    let r = write_command(method.as_str(), url.as_str(), config, vars, env);
    proof {
        if expressible(config@, vars@, env@) {
            law_a_command_reads_back_as_its_request(config@, vars@, env@);
        }
        if placeholder_free(config@) {
            law_plain_request_resolves_to_itself(config@, vars@, env@);
        }
    }
    r
}

/// The command of a request, or nothing where its URL with the query is longer than the
/// URL's parser can count.
pub fn curl_command(config: &RequestConfig, vars: &StrMap, env: &StrMap) -> (r: Option<String>)
    ensures
        r is Some <==> url_countable(config@, vars@, env@),
        r matches Some(command) ==> {
            &&& command@ == rendered(config@, vars@, env@)
            &&& expressible(config@, vars@, env@) ==> imported(command@) == Ok::<
                RequestView,
                Fault,
            >(resolved(config@, vars@, env@))
        },
{
    if config.query.len() > 0 {
        let base = interpolate(config.url.as_str(), vars, env);
        let pairs = sort_pairs(interpolate_pairs(&config.query, vars, env));
        if !contains(base.as_str(), "{{") && !can_fold(base.as_str(), &pairs) {
            return None;
        }
    }
    Some(to_curl(config, vars, env))
}

// ─── What reading gives back ──────────────────────────────────────────────────

/// The request with every placeholder filled in and without what a command cannot
/// carry.
pub open spec fn resolved(config: RequestView, vars: TextMap, env: TextMap) -> RequestView {
    RequestView {
        name: Seq::empty(),
        method: config.method,
        url: filled(config.url, vars, env),
        description: None,
        headers: collected(sort_rows(filled_rows(listing(config.headers), vars, env))),
        query: collected(sort_rows(filled_rows(listing(config.query), vars, env))),
        body: match config.body {
            None => None,
            Some(b) => Some(
                BodyView { content_type: b.content_type, data: filled(b.data, vars, env) },
            ),
        },
        extract: None,
        profiles: None,
    }
}

/// A word that needs no quotes.
pub open spec fn plain_word(s: Seq<char>) -> bool {
    &&& s.len() > 0
    &&& forall|i: int| 0 <= i < s.len() ==> plain_char(#[trigger] s[i])
}

/// A character that a shell takes for itself wherever it stands.
pub open spec fn plain_char(c: char) -> bool {
    !white(c) && c != '\\' && c != '\'' && c != '"' && c != '$'
}

/// A header that survives being written as `name: value`.
pub open spec fn header_keeps(row: Row) -> bool {
    trimmed(row.0) == row.0 && trimmed(row.1) == row.1 && !row.0.contains(':')
}

/// The URL survives: it is no flag, it has no query of its own, and where a query
/// is folded into it, parsing leaves it as it is.
pub open spec fn url_keeps(base: Seq<char>, query: Seq<Row>) -> bool {
    &&& !(base.len() > 0 && base[0] == '-')
    &&& !base.contains('?')
    &&& !occurs(base, "{{"@)
    &&& !base.contains('#')
    &&& query.len() > 0 ==> normal_url(base) == Some(base)
    &&& forall|i: int, j: int| 0 <= i < j < query.len() ==> query[i].0 != query[j].0
}

/// Nothing of the request is lost in its command: the method is in capitals and
/// needs no quotes, and is not a GET where there is a body (curl reads that as a
/// POST); the URL survives; no two headers share a name, and the content type is
/// with the body alone.
pub open spec fn expressible(config: RequestView, vars: TextMap, env: TextMap) -> bool {
    let headers = sort_rows(filled_rows(listing(config.headers), vars, env));
    let query = sort_rows(filled_rows(listing(config.query), vars, env));
    let base = filled(config.url, vars, env);
    &&& plain_word(config.method)
    &&& uppercase(config.method) == config.method
    &&& config.method == "GET"@ ==> config.body is None
    &&& url_keeps(base, query)
    &&& forall|i: int| 0 <= i < headers.len() ==> header_keeps(#[trigger] headers[i])
    &&& forall|i: int, j: int|
        0 <= i < j < headers.len() ==> !same_ignoring_case(headers[i].0, headers[j].0)
    &&& config.body matches Some(b) ==> {
        &&& trimmed(b.content_type) == b.content_type
        &&& forall|i: int|
            0 <= i < headers.len() ==> !same_ignoring_case(
                #[trigger] headers[i].0,
                "Content-Type"@,
            )
    }
}

} // verus!
