//! What goes on the wire, and how what comes back is written down.
use vstd::prelude::*;
use vstd::string::*;
use vstd::utf8::*;

use crate::curl_error::Fault;
use crate::curl_laws::law_a_command_reads_back_as_its_request;
use crate::curl_parse::{collected, imported};
use crate::curl_render::{expressible, filled_rows, query_follows, interpolate_pairs, rendered};
use crate::order::{rows_of, sort_rows, str_lt, text_lt, Row};
use crate::request::{body_opt, Body, BodyView, RequestConfig, RequestView, TextMap};
use crate::strmap::{listing, StrMap};
use crate::text::{concat2, concat3, join, joined, str_eq, texts};
use crate::unicode::{to_uppercase, uppercase};
use crate::vars::filled;

pub use crate::vars::interpolate;

verus! {

// ─── Sending ──────────────────────────────────────────────────────────────────

/// The methods that can be sent.
pub open spec fn supported(method: Seq<char>) -> bool {
    ||| method == "GET"@
    ||| method == "POST"@
    ||| method == "PUT"@
    ||| method == "PATCH"@
    ||| method == "DELETE"@
    ||| method == "HEAD"@
    ||| method == "OPTIONS"@
}

/// A request as it goes on the wire.
#[derive(Debug, PartialEq, Eq)]
pub struct Outgoing {
    pub method: String,
    pub url: String,
    pub headers: Vec<(String, String)>,
    pub query: Vec<(String, String)>,
    /// Its content type is sent as a header of its own.
    pub body: Option<Body>,
}

/// The same, as text.
pub ghost struct Sent {
    pub method: Seq<char>,
    pub url: Seq<char>,
    pub headers: Seq<Row>,
    pub query: Seq<Row>,
    pub body: Option<BodyView>,
}

impl View for Outgoing {
    type V = Sent;

    open spec fn view(&self) -> Sent {
        Sent {
            method: self.method@,
            url: self.url@,
            headers: rows_of(self.headers@),
            query: rows_of(self.query@),
            body: body_opt(self.body),
        }
    }
}

/// What is sent for a request under a method: every placeholder of the URL, the
/// headers, the query and the body's text filled in.
pub open spec fn sent_as(method: Seq<char>, config: RequestView, vars: TextMap, env: TextMap) -> Sent {
    Sent {
        method,
        url: filled(config.url, vars, env),
        headers: filled_rows(listing(config.headers), vars, env),
        query: filled_rows(listing(config.query), vars, env),
        body: match config.body {
            None => None,
            Some(b) => Some(
                BodyView { content_type: b.content_type, data: filled(b.data, vars, env) },
            ),
        },
    }
}

/// What is sent for a request: the method is in capitals.
pub open spec fn sent(config: RequestView, vars: TextMap, env: TextMap) -> Sent {
    sent_as(uppercase(config.method), config, vars, env)
}

fn is_supported(method: &str) -> (r: bool)
    ensures
        r == supported(method@),
{
    str_eq(method, "GET") || str_eq(method, "POST") || str_eq(method, "PUT") || str_eq(
        method,
        "PATCH",
    ) || str_eq(method, "DELETE") || str_eq(method, "HEAD") || str_eq(method, "OPTIONS")
}

/// What is to be sent for a request under a method. One that cannot be sent is
/// refused.
pub fn outgoing_as(method: String, config: &RequestConfig, vars: &StrMap, env: &StrMap) -> (r: Result<
    Outgoing,
    String,
>)
    ensures
        supported(method@) ==> (r matches Ok(o) && o@ == sent_as(method@, config@, vars@, env@)),
        !supported(method@) ==> (r matches Err(e) && e@ == "Unsupported HTTP method: "@ + method@),
{
    if !is_supported(method.as_str()) {
        return Err(concat2("Unsupported HTTP method: ", method.as_str()));
    }
    let body = match &config.body {
        None => None,
        Some(b) => Some(
            Body {
                content_type: b.content_type.clone(),
                data: interpolate(b.data.as_str(), vars, env),
            },
        ),
    };
    let url = interpolate(config.url.as_str(), vars, env);
    let headers = interpolate_pairs(&config.headers, vars, env);
    let query = interpolate_pairs(&config.query, vars, env);
    Ok(Outgoing { method, url, headers, query, body })
}

/// What is to be sent for a request. A method that cannot be sent is refused.
pub fn outgoing(config: &RequestConfig, vars: &StrMap, env: &StrMap) -> (r: Result<
    Outgoing,
    String,
>)
    ensures
        supported(uppercase(config.method@)) ==> (r matches Ok(o) && o@ == sent(
            config@,
            vars@,
            env@,
        )),
        !supported(uppercase(config.method@)) ==> (r matches Err(e) && e@
            == "Unsupported HTTP method: "@ + uppercase(config.method@)),
{
    outgoing_as(to_uppercase(config.method.as_str()), config, vars, env)
}

/// A copied command stands for the request that a run sends: where nothing is lost
/// on the way, reading it gives the method, the URL, the headers, the query and the
/// body that go on the wire.
pub proof fn law_a_copied_command_is_the_request_that_is_sent(
    config: RequestView,
    vars: TextMap,
    env: TextMap,
)
    requires
        expressible(config, vars, env),
        listing(config.query).len() > 0 ==> query_follows(config, vars, env),
    ensures
        ({
            let wire = sent(config, vars, env);
            imported(rendered(config, vars, env)) == Ok::<RequestView, Fault>(
                RequestView {
                    name: Seq::empty(),
                    method: wire.method,
                    url: wire.url,
                    description: None,
                    headers: collected(sort_rows(wire.headers)),
                    query: collected(sort_rows(wire.query)),
                    body: wire.body,
                    extract: None,
                    profiles: None,
                },
            )
        }),
{
    law_a_command_reads_back_as_its_request(config, vars, env);
}

// ─── Response headers ─────────────────────────────────────────────────────────

/// What `String::from_utf8_lossy` makes of bytes.
pub uninterp spec fn lossy(bytes: Seq<u8>) -> Seq<char>;

/// `String::from_utf8_lossy`: a text for any bytes, the same for the same bytes;
/// where they are the UTF-8 form of a text, that text. What stands for the other
/// bytes is left open.
#[verifier::external_body]
fn lossy_text(bytes: &Vec<u8>) -> (r: String)
    ensures
        r@ == lossy(bytes@),
        valid_utf8(bytes@) ==> encode_utf8(r@) == bytes@,
{
    String::from_utf8_lossy(bytes).into_owned()
}

/// A header put in behind those whose name does not come after its own.
pub open spec fn put_by_name(rows: Seq<Row>, row: Row) -> Seq<Row>
    decreases rows.len(),
{
    if rows.len() > 0 && text_lt(row.0, rows.last().0) {
        put_by_name(rows.drop_last(), row).push(rows.last())
    } else {
        rows.push(row)
    }
}

/// The rows by name; those of one name in the order they came.
pub open spec fn by_name(rows: Seq<Row>) -> Seq<Row>
    decreases rows.len(),
{
    if rows.len() == 0 {
        rows
    } else {
        put_by_name(by_name(rows.drop_last()), rows.last())
    }
}

/// The headers with their values as text.
pub open spec fn read_headers(headers: Seq<(String, Vec<u8>)>) -> Seq<Row> {
    headers.map_values(|h: (String, Vec<u8>)| (h.0@, lossy(h.1@)))
}

/// One line for each row.
pub open spec fn header_lines(rows: Seq<Row>) -> Seq<Seq<char>> {
    rows.map_values(|r: Row| r.0 + ": "@ + r.1)
}

fn put_header(rows: &mut Vec<(String, String)>, row: (String, String))
    ensures
        rows_of(final(rows)@) == put_by_name(rows_of(old(rows)@), (row.0@, row.1@)),
{
    let ghost before = rows_of(rows@);
    let ghost put = (row.0@, row.1@);
    let mut i: usize = rows.len();
    proof {
        assert(before.take(i as int) =~= before);
        assert(before.skip(i as int) =~= Seq::empty());
        assert(put_by_name(before, put) =~= put_by_name(before.take(i as int), put) + before.skip(
            i as int,
        ));
    }
    while i > 0 && str_lt(row.0.as_str(), rows[i - 1].0.as_str())
        invariant
            i <= rows.len(),
            before == rows_of(rows@),
            put == (row.0@, row.1@),
            put_by_name(before, put) == put_by_name(before.take(i as int), put) + before.skip(
                i as int,
            ),
        decreases i,
    {
        proof {
            assert(before[i - 1] == (rows@[i - 1].0@, rows@[i - 1].1@));
            assert(before.take(i as int).last() == before[i - 1]);
            assert(before.take(i as int).drop_last() =~= before.take(i - 1));
            assert(before.skip(i - 1) =~= seq![before[i - 1]] + before.skip(i as int));
            assert(put_by_name(before.take(i - 1), put).push(before[i - 1]) + before.skip(i as int)
                =~= put_by_name(before.take(i - 1), put) + before.skip(i - 1));
        }
        i = i - 1;
    }
    proof {
        if i > 0 {
            assert(before[i - 1] == (rows@[i - 1].0@, rows@[i - 1].1@));
            assert(before.take(i as int).last() == before[i - 1]);
        }
    }
    rows.insert(i, row);
    proof {
        assert(rows_of(rows@) =~= before.take(i as int).push(put) + before.skip(i as int));
    }
}

/// Writes headers as one `name: value` line each, by name. Headers of one name stay
/// in their order.
pub fn write_headers(headers: Vec<(String, String)>) -> (r: String)
    ensures
        r@ == joined(header_lines(by_name(rows_of(headers@))), "\n"@),
{
    let mut rows: Vec<(String, String)> = Vec::new();
    let ghost all = rows_of(headers@);
    let mut i: usize = 0;
    proof {
        assert(all.take(0) =~= Seq::empty());
        assert(rows_of(rows@) =~= by_name(all.take(0)));
    }
    while i < headers.len()
        invariant
            i <= headers.len(),
            all == rows_of(headers@),
            rows_of(rows@) == by_name(all.take(i as int)),
        decreases headers.len() - i,
    {
        put_header(&mut rows, (headers[i].0.clone(), headers[i].1.clone()));
        proof {
            assert(all.take(i + 1).drop_last() =~= all.take(i as int));
            assert(all.take(i + 1).last() == all[i as int]);
        }
        i = i + 1;
    }
    proof {
        assert(all.take(headers@.len() as int) =~= all);
    }
    let ghost sorted = rows_of(rows@);
    let mut lines: Vec<String> = Vec::new();
    let mut k: usize = 0;
    proof {
        assert(texts(lines@) =~= header_lines(sorted).take(0));
    }
    while k < rows.len()
        invariant
            k <= rows.len(),
            sorted == rows_of(rows@),
            texts(lines@) == header_lines(sorted).take(k as int),
        decreases rows.len() - k,
    {
        let ghost before = lines@;
        let line = concat3(rows[k].0.as_str(), ": ", rows[k].1.as_str());
        lines.push(line);
        proof {
            assert(header_lines(sorted)[k as int] == line@);
            assert(texts(lines@) =~= texts(before).push(line@));
            assert(header_lines(sorted).take(k + 1) =~= header_lines(sorted).take(k as int).push(
                line@,
            ));
        }
        k = k + 1;
    }
    proof {
        assert(header_lines(sorted).take(rows@.len() as int) =~= header_lines(sorted));
    }
    join(&lines, "\n")
}

/// Writes a response's headers as one `name: value` line each, by name. Headers of
/// one name stay in the order they arrived.
pub fn format_response_headers(headers: &Vec<(String, Vec<u8>)>) -> (r: String)
    ensures
        r@ == joined(header_lines(by_name(read_headers(headers@))), "\n"@),
{
    let mut rows: Vec<(String, String)> = Vec::new();
    let ghost goal = read_headers(headers@);
    let mut i: usize = 0;
    proof {
        assert(rows_of(rows@) =~= goal.take(0));
    }
    while i < headers.len()
        invariant
            i <= headers.len(),
            goal == read_headers(headers@),
            rows_of(rows@) == goal.take(i as int),
        decreases headers.len() - i,
    {
        let ghost before = rows@;
        let text = lossy_text(&headers[i].1);
        rows.push((headers[i].0.clone(), text));
        proof {
            assert(goal[i as int] == (headers@[i as int].0@, text@));
            assert(rows_of(rows@) =~= rows_of(before).push(goal[i as int]));
            assert(goal.take(i + 1) =~= goal.take(i as int).push(goal[i as int]));
        }
        i = i + 1;
    }
    proof {
        assert(goal.take(goal.len() as int) =~= goal);
    }
    write_headers(rows)
}

proof fn lemma_put_by_name(rows: Seq<Row>, row: Row)
    requires
        forall|i: int, j: int|
            0 <= i < j < rows.len() ==> !text_lt((#[trigger] rows[j]).0, (#[trigger] rows[i]).0),
    ensures
        put_by_name(rows, row).len() == rows.len() + 1,
        put_by_name(rows, row).to_multiset() == rows.to_multiset().insert(row),
        forall|i: int, j: int|
            0 <= i < j < put_by_name(rows, row).len() ==> !text_lt(
                (#[trigger] put_by_name(rows, row)[j]).0,
                (#[trigger] put_by_name(rows, row)[i]).0,
            ),
        forall|i: int|
            0 <= i < put_by_name(rows, row).len() ==> (#[trigger] put_by_name(rows, row)[i] == row
                || exists|k: int| 0 <= k < rows.len() && rows[k] == put_by_name(rows, row)[i]),
    decreases rows.len(),
{
    broadcast use vstd::seq_lib::group_to_multiset_ensures;

    let r = put_by_name(rows, row);
    if rows.len() > 0 && text_lt(row.0, rows.last().0) {
        let front = rows.drop_last();
        lemma_put_by_name(front, row);
        let s = put_by_name(front, row);
        assert(rows =~= front.push(rows.last()));
        assert(r.to_multiset() =~= rows.to_multiset().insert(row));
        assert forall|i: int, j: int| 0 <= i < j < r.len() implies !text_lt(
            (#[trigger] r[j]).0,
            (#[trigger] r[i]).0,
        ) by {
            if j < s.len() {
                assert(r[i] == s[i] && r[j] == s[j]);
            } else {
                assert(r[i] == s[i]);
                crate::order::lemma_text_lt_total(row.0, rows.last().0);
                if s[i] != row {
                    let k = choose|k: int| 0 <= k < front.len() && front[k] == s[i];
                    assert(rows[k] == front[k]);
                    assert(rows[rows.len() - 1] == rows.last());
                }
            }
        }
        assert forall|i: int| 0 <= i < r.len() implies (#[trigger] r[i] == row || exists|k: int|
            0 <= k < rows.len() && rows[k] == r[i]) by {
            if i < s.len() {
                if s[i] != row {
                    let k = choose|k: int| 0 <= k < front.len() && front[k] == s[i];
                    assert(rows[k] == r[i]);
                }
            } else {
                assert(rows[rows.len() - 1] == r[i]);
            }
        }
    } else {
        assert(r == rows.push(row));
        assert forall|i: int, j: int| 0 <= i < j < r.len() implies !text_lt(
            (#[trigger] r[j]).0,
            (#[trigger] r[i]).0,
        ) by {
            if j == rows.len() {
                let last = rows.last();
                crate::order::lemma_text_lt_total(rows[i].0, last.0);
                crate::order::lemma_text_lt_total(row.0, last.0);
                if i < rows.len() - 1 {
                    assert(rows[rows.len() - 1] == last);
                    assert(!text_lt(last.0, rows[i].0));
                }
                if text_lt(row.0, rows[i].0) {
                    if rows[i].0 != last.0 && text_lt(rows[i].0, last.0) {
                        crate::order::lemma_text_lt_trans(row.0, rows[i].0, last.0);
                    }
                }
            } else {
                assert(r[i] == rows[i] && r[j] == rows[j]);
            }
        }
        assert forall|i: int| 0 <= i < r.len() implies (#[trigger] r[i] == row || exists|k: int|
            0 <= k < rows.len() && rows[k] == r[i]) by {
            if i < rows.len() {
                assert(rows[i] == r[i]);
            }
        }
    }
}

/// Written down, the headers are the ones that arrived, no more and no fewer, in the
/// order of their names.
pub proof fn law_headers_are_all_there_in_order(rows: Seq<Row>)
    ensures
        by_name(rows).to_multiset() == rows.to_multiset(),
        by_name(rows).len() == rows.len(),
        forall|i: int, j: int|
            0 <= i < j < by_name(rows).len() ==> !text_lt(
                (#[trigger] by_name(rows)[j]).0,
                (#[trigger] by_name(rows)[i]).0,
            ),
    decreases rows.len(),
{
    broadcast use vstd::seq_lib::group_to_multiset_ensures;

    if rows.len() > 0 {
        law_headers_are_all_there_in_order(rows.drop_last());
        lemma_put_by_name(by_name(rows.drop_last()), rows.last());
        assert(rows =~= rows.drop_last().push(rows.last()));
        assert(by_name(rows).to_multiset() =~= rows.to_multiset());
    }
}

/// The values of one name, in order.
pub open spec fn values_named(rows: Seq<Row>, name: Seq<char>) -> Seq<Seq<char>>
    decreases rows.len(),
{
    if rows.len() == 0 {
        Seq::empty()
    } else if rows.last().0 == name {
        values_named(rows.drop_last(), name).push(rows.last().1)
    } else {
        values_named(rows.drop_last(), name)
    }
}

proof fn lemma_put_keeps_values(rows: Seq<Row>, row: Row, name: Seq<char>)
    requires
        forall|i: int, j: int|
            0 <= i < j < rows.len() ==> !text_lt((#[trigger] rows[j]).0, (#[trigger] rows[i]).0),
    ensures
        values_named(put_by_name(rows, row), name) == if row.0 == name {
            values_named(rows, name).push(row.1)
        } else {
            values_named(rows, name)
        },
    decreases rows.len(),
{
    if rows.len() > 0 && text_lt(row.0, rows.last().0) {
        let front = rows.drop_last();
        lemma_put_keeps_values(front, row, name);
        crate::order::lemma_text_lt_total(row.0, rows.last().0);
        let s = put_by_name(front, row);
        assert(s.push(rows.last()).drop_last() =~= s);
    } else {
        assert(rows.push(row).drop_last() =~= rows);
    }
}

/// A header that was sent more than once keeps its values in the order they arrived.
pub proof fn law_repeated_headers_keep_their_order(rows: Seq<Row>, name: Seq<char>)
    ensures
        values_named(by_name(rows), name) == values_named(rows, name),
    decreases rows.len(),
{
    if rows.len() > 0 {
        law_repeated_headers_keep_their_order(rows.drop_last(), name);
        law_headers_are_all_there_in_order(rows.drop_last());
        lemma_put_keeps_values(by_name(rows.drop_last()), rows.last(), name);
    }
}

} // verus!
