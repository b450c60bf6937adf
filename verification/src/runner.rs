//! Taking values out of a response.
use vstd::prelude::*;
use vstd::string::*;

use crate::order::Row;
use crate::request::TextMap;
use crate::strmap::StrMap;
use crate::text::{
    chars_of, concat3, decimal, decimal_string, joined, parse_word, slice_string, split_at_char, split_string,
    str_eq, texts, word_number,
};
use crate::text_laws::law_splitting_undoes_joining;

verus! {

// ─── JSON ─────────────────────────────────────────────────────────────────────

/// A JSON value: its compact text, and what is inside it.
#[derive(Debug, PartialEq, Eq)]
pub struct Json {
    pub text: String,
    pub shape: Shape,
}

/// What is inside a JSON value.
#[derive(Debug, PartialEq, Eq)]
pub enum Shape {
    Text(String),
    List(Vec<Json>),
    Members(Vec<(String, Json)>),
    /// A number, a truth value or null.
    Plain,
}

/// A JSON value, as text.
pub ghost struct JsonView {
    pub text: Seq<char>,
    pub shape: ShapeView,
}

/// What is inside a JSON value, as text.
pub ghost enum ShapeView {
    Text(Seq<char>),
    List(Seq<JsonView>),
    Members(Seq<(Seq<char>, JsonView)>),
    Plain,
}

/// The values of a list, as text.
pub open spec fn list_view(v: Seq<Json>) -> Seq<JsonView>
    decreases v,
{
    Seq::new(
        v.len(),
        |i: int|
            if 0 <= i < v.len() {
                json_view(v[i])
            } else {
                arbitrary()
            },
    )
}

/// A JSON value, as text.
pub open spec fn json_view(j: Json) -> JsonView
    decreases j,
{
    JsonView {
        text: j.text@,
        shape: match j.shape {
            Shape::Text(s) => ShapeView::Text(s@),
            Shape::List(v) => ShapeView::List(list_view(v@)),
            Shape::Members(v) => ShapeView::Members(
                Seq::new(
                    v@.len(),
                    |i: int|
                        if 0 <= i < v@.len() {
                            (v@[i].0@, json_view(v@[i].1))
                        } else {
                            arbitrary()
                        },
                ),
            ),
            Shape::Plain => ShapeView::Plain,
        },
    }
}

// ─── Outside calls ────────────────────────────────────────────────────────────

/// What `serde_json` reads a text as, or the words it refuses it with.
pub uninterp spec fn json_read(text: Seq<char>) -> Result<JsonView, Seq<char>>;

/// What `serde_json` writes a text as when it writes it over several lines.
pub uninterp spec fn json_pretty(text: Seq<char>) -> Option<Seq<char>>;

/// A JSON value as `serde_json` holds it.
#[verifier::external_type_specification]
#[verifier::external_body]
pub struct ExJsonValue(serde_json::Value);

/// A `serde_json::Value` in this library's terms, value for value, each with the
/// compact text that `serde_json` writes for it.
#[verifier::external_body]
fn json_from(value: serde_json::Value) -> (r: Json) {
    let text = value.to_string();
    let shape = match value {
        serde_json::Value::String(s) => Shape::Text(s),
        serde_json::Value::Array(items) => Shape::List(items.into_iter().map(json_from).collect()),
        serde_json::Value::Object(map) => {
            Shape::Members(map.into_iter().map(|(k, v)| (k, json_from(v))).collect())
        },
        _ => Shape::Plain,
    };
    Json { text, shape }
}

/// What came of reading JSON, as text.
pub open spec fn read_view(r: Result<Json, String>) -> Result<JsonView, Seq<char>> {
    match r {
        Ok(j) => Ok(json_view(j)),
        Err(e) => Err(e@),
    }
}

/// `serde_json::from_str` into a `Value`, or the words of its error.
#[verifier::external_body]
fn parse_json(text: &str) -> (r: Result<Json, String>)
    ensures
        json_read(text@) == read_view(r),
{
    serde_json::from_str::<serde_json::Value>(text).map(json_from).map_err(|e| e.to_string())
}

/// `serde_json::from_str` into a `Value`, then `to_string_pretty`.
#[verifier::external_body]
fn pretty_json(text: &str) -> (r: Option<String>)
    ensures
        r is Some <==> json_pretty(text@) is Some,
        r matches Some(s) ==> json_pretty(text@) == Some(s@),
{
    let value = serde_json::from_str::<serde_json::Value>(text).ok()?;
    serde_json::to_string_pretty(&value).ok()
}

/// A body for reading: spread over lines where it is JSON, as it came where not.
pub fn readable_body(text: String) -> (r: String)
    ensures
        r@ == match json_pretty(text@) {
            Some(s) => s,
            None => text@,
        },
{
    match pretty_json(text.as_str()) {
        Some(s) => s,
        None => text,
    }
}

// ─── Paths ────────────────────────────────────────────────────────────────────

/// Why a value could not be taken out of a response.
#[derive(Debug, PartialEq, Eq)]
pub enum ExtractError {
    /// The response does not claim to be JSON.
    NotJson,
    /// It does and is not.
    BadJson(String),
    OutOfBounds(usize),
    NotFound(String),
}

/// The same, over text.
pub ghost enum ExtractFault {
    NotJson,
    BadJson(Seq<char>),
    OutOfBounds(nat),
    NotFound(Seq<char>),
}

impl View for ExtractError {
    type V = ExtractFault;

    open spec fn view(&self) -> ExtractFault {
        match self {
            ExtractError::NotJson => ExtractFault::NotJson,
            ExtractError::BadJson(words) => ExtractFault::BadJson(words@),
            ExtractError::OutOfBounds(n) => ExtractFault::OutOfBounds(*n as nat),
            ExtractError::NotFound(name) => ExtractFault::NotFound(name@),
        }
    }
}

impl ExtractError {
    /// The sentence that reports this error.
    pub fn message(&self) -> (r: String)
        ensures
            r@ == match self@ {
                ExtractFault::NotJson => "Cannot extract values: response is not JSON"@,
                ExtractFault::BadJson(words) => words,
                ExtractFault::OutOfBounds(n) => "Index "@ + decimal(n)
                    + " out of bounds in response"@,
                ExtractFault::NotFound(name) => "Path '"@ + name + "' not found in response"@,
            },
    {
        match self {
            ExtractError::NotJson => "Cannot extract values: response is not JSON".to_owned(),
            ExtractError::BadJson(words) => words.clone(),
            ExtractError::OutOfBounds(n) => {
                let i = decimal_string(*n as u128);
                concat3("Index ", i.as_str(), " out of bounds in response")
            },
            ExtractError::NotFound(name) => concat3(
                "Path '",
                name.as_str(),
                "' not found in response",
            ),
        }
    }
}

/// The first member at or after `i` of that name, or the number of members.
pub open spec fn member_from(members: Seq<(Seq<char>, JsonView)>, name: Seq<char>, i: int) -> int
    decreases members.len() - i,
{
    if i >= members.len() {
        members.len() as int
    } else if members[i].0 == name {
        i
    } else {
        member_from(members, name, i + 1)
    }
}

/// One step into a value: a number is an index into a list, anything else the name
/// of a member.
pub open spec fn stepped(j: JsonView, segment: Seq<char>) -> Result<JsonView, ExtractFault> {
    match word_number(segment) {
        Some(n) => match j.shape {
            ShapeView::List(items) if n < items.len() => Ok(items[n as int]),
            _ => Err(ExtractFault::OutOfBounds(n)),
        },
        None => match j.shape {
            ShapeView::Members(members) if 0 <= member_from(members, segment, 0)
                < members.len() => Ok(members[member_from(members, segment, 0)].1),
            _ => Err(ExtractFault::NotFound(segment)),
        },
    }
}

/// The steps from index `k` on, one after another.
pub open spec fn walked(j: JsonView, segments: Seq<Seq<char>>, k: int) -> Result<
    JsonView,
    ExtractFault,
>
    decreases segments.len() - k,
{
    if k >= segments.len() {
        Ok(j)
    } else {
        match stepped(j, segments[k]) {
            Ok(next) => walked(next, segments, k + 1),
            Err(f) => Err(f),
        }
    }
}

/// A path without the `$.` it may begin with.
pub open spec fn bare_path(path: Seq<char>) -> Seq<char> {
    if path.len() >= 2 && path[0] == '$' && path[1] == '.' {
        path.skip(2)
    } else {
        path
    }
}

/// A value as it is substituted: a string's own text, any other value's JSON.
pub open spec fn substitute(j: JsonView) -> Seq<char> {
    match j.shape {
        ShapeView::Text(s) => s,
        _ => j.text,
    }
}

/// What a path finds in a value.
pub open spec fn found_at(j: JsonView, path: Seq<char>) -> Result<Seq<char>, ExtractFault> {
    match walked(j, split_at_char(bare_path(path), '.'), 0) {
        Ok(v) => Ok(substitute(v)),
        Err(f) => Err(f),
    }
}

/// What the first `n` rows of variable names and paths take out of a value.
pub open spec fn found_rows(j: JsonView, rows: Seq<Row>, n: int) -> Result<TextMap, ExtractFault>
    decreases n,
{
    if n <= 0 {
        Ok(Map::empty())
    } else {
        match found_rows(j, rows, n - 1) {
            Err(f) => Err(f),
            Ok(m) => match found_at(j, rows[n - 1].1) {
                Err(f) => Err(f),
                Ok(v) => Ok(m.insert(rows[n - 1].0, v)),
            },
        }
    }
}

fn step<'a>(j: &'a Json, segment: &str) -> (r: Result<&'a Json, ExtractError>)
    ensures
        stepped(json_view(*j), segment@) matches Ok(v) ==> (r matches Ok(k) && json_view(*k) == v),
        stepped(json_view(*j), segment@) matches Err(f) ==> (r matches Err(e) && e@ == f),
{
    match parse_word(segment) {
        Some(n) => {
            match &j.shape {
                Shape::List(items) => {
                    let ghost shown = list_view(items@);
                    proof {
                        assert(json_view(*j).shape == ShapeView::List(shown));
                        assert(shown.len() == items@.len());
                        if n < items@.len() {
                            assert(shown[n as int] == json_view(items@[n as int]));
                        }
                    }
                    if n < items.len() {
                        Ok(&items[n])
                    } else {
                        Err(ExtractError::OutOfBounds(n))
                    }
                },
                _ => Err(ExtractError::OutOfBounds(n)),
            }
        },
        None => {
            match &j.shape {
                Shape::Members(members) => {
                    let ghost shown = json_view(*j).shape->Members_0;
                    let mut i: usize = 0;
                    while i < members.len()
                        invariant
                            i <= members.len(),
                            j.shape is Members && j.shape->Members_0 == *members,
                            shown == json_view(*j).shape->Members_0,
                            shown.len() == members.len(),
                            word_number(segment@) is None,
                            member_from(shown, segment@, 0) == member_from(
                                shown,
                                segment@,
                                i as int,
                            ),
                        decreases members.len() - i,
                    {
                        proof {
                            assert(shown[i as int] == (
                                members@[i as int].0@,
                                json_view(members@[i as int].1),
                            ));
                        }
                        if str_eq(members[i].0.as_str(), segment) {
                            return Ok(&members[i].1);
                        }
                        i = i + 1;
                    }
                    proof {
                        assert(member_from(shown, segment@, i as int) == shown.len());
                        assert(json_view(*j).shape == ShapeView::Members(shown));
                    }
                    Err(ExtractError::NotFound(segment.to_owned()))
                },
                _ => Err(ExtractError::NotFound(segment.to_owned())),
            }
        },
    }
}

fn strip_root(path: &str) -> (r: String)
    ensures
        r@ == bare_path(path@),
{
    let v = chars_of(path);
    if v.len() >= 2 && v[0] == '$' && v[1] == '.' {
        proof {
            assert(v@.subrange(2, v@.len() as int) =~= v@.skip(2));
        }
        slice_string(&v, 2, v.len())
    } else {
        path.to_owned()
    }
}

/// Follows a path into a JSON value.
pub fn follow_path(json: &Json, path: &str) -> (r: Result<String, ExtractError>)
    ensures
        found_at(json_view(*json), path@) matches Ok(s) ==> (r matches Ok(t) && t@ == s),
        found_at(json_view(*json), path@) matches Err(f) ==> (r matches Err(e) && e@ == f),
{
    let bare = strip_root(path);
    let segments = split_string(bare.as_str(), '.');
    let ghost all = texts(segments@);
    let mut current: &Json = json;
    let mut k: usize = 0;
    while k < segments.len()
        invariant
            k <= segments.len(),
            all == texts(segments@),
            all == split_at_char(bare_path(path@), '.'),
            walked(json_view(*json), all, 0) == walked(json_view(*current), all, k as int),
        decreases segments.len() - k,
    {
        proof {
            assert(all[k as int] == segments@[k as int]@);
        }
        match step(current, segments[k].as_str()) {
            Ok(next) => {
                current = next;
            },
            Err(e) => {
                return Err(e);
            },
        }
        k = k + 1;
    }
    match &current.shape {
        Shape::Text(s) => Ok(s.clone()),
        _ => Ok(current.text.clone()),
    }
}

/// What there is to extract from a response that was read as `json`.
pub fn extract_from(rows: &StrMap, json: &Json) -> (r: Result<StrMap, ExtractError>)
    ensures
        found_rows(json_view(*json), rows.rows(), rows.rows().len() as int) matches Ok(m) ==> (
        r matches Ok(n) && n@ == m),
        found_rows(json_view(*json), rows.rows(), rows.rows().len() as int) matches Err(f) ==> (
        r matches Err(e) && e@ == f),
{
    let mut extracted = StrMap::new();
    let n: usize = rows.len();
    let mut i: usize = 0;
    while i < n
        invariant
            n == rows.rows().len(),
            i <= n,
            found_rows(json_view(*json), rows.rows(), i as int) == Ok::<TextMap, ExtractFault>(
                extracted@,
            ),
        decreases n - i,
    {
        let row = rows.row(i);
        match follow_path(json, row.1) {
            Ok(value) => {
                extracted.insert(row.0.to_owned(), value);
            },
            Err(e) => {
                proof {
                    lemma_found_rows_fail(json_view(*json), rows.rows(), i + 1, n as int);
                }
                return Err(e);
            },
        }
        i = i + 1;
    }
    Ok(extracted)
}

proof fn lemma_found_rows_fail(j: JsonView, rows: Seq<Row>, k: int, n: int)
    requires
        0 <= k <= n,
        found_rows(j, rows, k) is Err,
    ensures
        found_rows(j, rows, n) == found_rows(j, rows, k),
    decreases n - k,
{
    if k < n {
        lemma_found_rows_fail(j, rows, k, n - 1);
    }
}

/// What is extracted from a response: nothing where nothing is asked for, and else
/// what every path finds, the first failure in name order being the error.
pub open spec fn extracted(extract: Option<Seq<Row>>, body: Seq<char>, is_json: bool) -> Result<
    TextMap,
    ExtractFault,
> {
    match extract {
        None => Ok(Map::empty()),
        Some(rows) => if !is_json {
            Err(ExtractFault::NotJson)
        } else {
            match json_read(body) {
                Err(words) => Err(ExtractFault::BadJson(words)),
                Ok(j) => found_rows(j, rows, rows.len() as int),
            }
        },
    }
}

/// Takes the values a request asks for out of its response.
pub fn extract_values(extract: &Option<StrMap>, body_text: &str, is_json: bool) -> (r: Result<
    StrMap,
    ExtractError,
>)
    ensures
        ({
            let asked = match extract {
                Some(m) => Some(m.rows()),
                None => None,
            };
            match extracted(asked, body_text@, is_json) {
                Ok(m) => r matches Ok(n) && n@ == m,
                Err(f) => r matches Err(e) && e@ == f,
            }
        }),
{
    match extract {
        None => Ok(StrMap::new()),
        Some(rows) => {
            if !is_json {
                return Err(ExtractError::NotJson);
            }
            match parse_json(body_text) {
                Err(words) => Err(ExtractError::BadJson(words)),
                Ok(json) => extract_from(rows, &json),
            }
        },
    }
}

// ─── Laws ─────────────────────────────────────────────────────────────────────

/// `child` is what stands in `parent` under a segment of a path: a number counts the
/// items of a list from zero, any other segment names a member of an object.
pub open spec fn is_under(parent: JsonView, segment: Seq<char>, child: JsonView) -> bool {
    match word_number(segment) {
        Some(n) => parent.shape matches ShapeView::List(items) && n < items.len() && child
            == items[n as int],
        None => parent.shape matches ShapeView::Members(members) && exists|k: int|
            0 <= k < members.len() && #[trigger] members[k] == (segment, child) && forall|i: int|
                0 <= i < k ==> (#[trigger] members[i]).0 != segment,
    }
}

/// A trail of values, each standing in the one before it under the next segment.
pub open spec fn is_trail(trail: Seq<JsonView>, segments: Seq<Seq<char>>) -> bool {
    &&& trail.len() > 0
    &&& trail.len() <= segments.len() + 1
    &&& forall|k: int|
        0 <= k < trail.len() - 1 ==> is_under(#[trigger] trail[k], segments[k], trail[k + 1])
}

proof fn lemma_member_from(members: Seq<(Seq<char>, JsonView)>, name: Seq<char>, i: int)
    requires
        0 <= i <= members.len(),
    ensures
        i <= member_from(members, name, i) <= members.len(),
        member_from(members, name, i) < members.len() ==> members[member_from(
            members,
            name,
            i,
        )].0 == name,
        forall|k: int|
            i <= k < member_from(members, name, i) ==> (#[trigger] members[k]).0 != name,
    decreases members.len() - i,
{
    if i < members.len() && members[i].0 != name {
        lemma_member_from(members, name, i + 1);
    }
}

proof fn lemma_under_steps(parent: JsonView, segment: Seq<char>, child: JsonView)
    requires
        is_under(parent, segment, child),
    ensures
        stepped(parent, segment) == Ok::<JsonView, ExtractFault>(child),
{
    match parent.shape {
        ShapeView::Members(members) if word_number(segment) is None => {
            lemma_member_from(members, segment, 0);
            let k = choose|k: int|
                0 <= k < members.len() && #[trigger] members[k] == (segment, child) && forall|
                    i: int,
                |
                    0 <= i < k ==> (#[trigger] members[i]).0 != segment;
            let m = member_from(members, segment, 0);
            if m < k {
                assert(members[m].0 != segment);
            }
            if m > k {
                assert(members[k].0 != segment);
            }
        },
        _ => {},
    }
}

proof fn lemma_trail_walks(trail: Seq<JsonView>, segments: Seq<Seq<char>>, k: int)
    requires
        is_trail(trail, segments),
        0 <= k < trail.len(),
    ensures
        walked(trail[k], segments, k) == walked(trail.last(), segments, trail.len() - 1),
    decreases trail.len() - k,
{
    if k < trail.len() - 1 {
        assert(is_under(trail[k], segments[k], trail[k + 1]));
        lemma_under_steps(trail[k], segments[k], trail[k + 1]);
        lemma_trail_walks(trail, segments, k + 1);
    }
}

/// The path that segments are written as, behind `$.`.
pub open spec fn path_to(segments: Seq<Seq<char>>) -> Seq<char> {
    "$."@ + joined(segments, "."@)
}

proof fn lemma_path_segments(segments: Seq<Seq<char>>)
    requires
        segments.len() > 0,
        forall|i: int| 0 <= i < segments.len() ==> !(#[trigger] segments[i]).contains('.'),
    ensures
        split_at_char(bare_path(path_to(segments)), '.') == segments,
        bare_path(joined(segments, "."@)) == joined(segments, "."@) ==> split_at_char(
            bare_path(joined(segments, "."@)),
            '.',
        ) == segments,
{
    reveal_strlit("$.");
    reveal_strlit(".");
    assert("."@ =~= seq!['.']);
    law_splitting_undoes_joining(segments, '.');
    assert(path_to(segments).skip(2) =~= joined(segments, "."@));
}

/// A path, however long, finds what its segments lead to one by one from the root. A
/// string that it leads to is taken as its own text, without quotes; any other value as
/// its JSON. The path may leave out the `$.` before it.
pub proof fn law_a_path_finds_what_its_segments_lead_to(
    segments: Seq<Seq<char>>,
    trail: Seq<JsonView>,
)
    requires
        segments.len() > 0,
        forall|i: int| 0 <= i < segments.len() ==> !(#[trigger] segments[i]).contains('.'),
        is_trail(trail, segments),
        trail.len() == segments.len() + 1,
    ensures
        trail.last().shape matches ShapeView::Text(s) ==> found_at(trail[0], path_to(segments))
            == Ok::<Seq<char>, ExtractFault>(s),
        !(trail.last().shape is Text) ==> found_at(trail[0], path_to(segments)) == Ok::<
            Seq<char>,
            ExtractFault,
        >(trail.last().text),
        segments[0] != "$"@ ==> found_at(trail[0], joined(segments, "."@)) == found_at(
            trail[0],
            path_to(segments),
        ),
{
    lemma_path_segments(segments);
    lemma_trail_walks(trail, segments, 0);
    let bare = joined(segments, "."@);
    if segments[0] != "$"@ {
        reveal_strlit("$");
        reveal_strlit(".");
        lemma_joined_begins(segments, "."@);
        if bare.len() >= 2 && bare[0] == '$' && bare[1] == '.' {
            let first = segments[0];
            if first.len() == 0 {
                assert(bare[0] == '.');
            } else if first.len() == 1 {
                assert(first[0] == bare[0]);
                assert(first =~= "$"@);
            } else {
                assert(first[1] == bare[1]);
                assert(first.contains('.'));
            }
        }
    }
}

proof fn lemma_joined_begins(parts: Seq<Seq<char>>, sep: Seq<char>)
    requires
        parts.len() > 0,
    ensures
        parts.len() == 1 ==> joined(parts, sep) == parts[0],
        parts.len() > 1 ==> (parts[0] + sep).is_prefix_of(joined(parts, sep)),
        forall|k: int|
            0 <= k < parts[0].len() ==> k < joined(parts, sep).len() && joined(parts, sep)[k]
                == #[trigger] parts[0][k],
        parts.len() > 1 && sep.len() > 0 ==> parts[0].len() < joined(parts, sep).len()
            && joined(parts, sep)[parts[0].len() as int] == sep[0],
    decreases parts.len(),
{
    if parts.len() > 1 {
        let front = parts.drop_last();
        lemma_joined_begins(front, sep);
        assert(front[0] == parts[0]);
    }
}

/// A path that leads nowhere is refused by the segment that finds nothing: an index by
/// its number, a name by itself.
pub proof fn law_a_path_fails_where_it_leads_nowhere(
    segments: Seq<Seq<char>>,
    trail: Seq<JsonView>,
)
    requires
        segments.len() > 0,
        forall|i: int| 0 <= i < segments.len() ==> !(#[trigger] segments[i]).contains('.'),
        is_trail(trail, segments),
        trail.len() <= segments.len(),
        forall|child: JsonView|
            !#[trigger] is_under(trail[trail.len() - 1], segments[trail.len() - 1], child),
    ensures
        found_at(trail[0], path_to(segments)) == Err::<Seq<char>, ExtractFault>(
            match word_number(segments[trail.len() - 1]) {
                Some(n) => ExtractFault::OutOfBounds(n),
                None => ExtractFault::NotFound(segments[trail.len() - 1]),
            },
        ),
{
    lemma_path_segments(segments);
    lemma_trail_walks(trail, segments, 0);
    let last = trail[trail.len() - 1];
    let segment = segments[trail.len() - 1];
    match word_number(segment) {
        Some(n) => {
            match last.shape {
                ShapeView::List(items) => {
                    if n < items.len() {
                        assert(is_under(last, segment, items[n as int]));
                    }
                },
                _ => {},
            }
        },
        None => {
            match last.shape {
                ShapeView::Members(members) => {
                    lemma_member_from(members, segment, 0);
                    let m = member_from(members, segment, 0);
                    if m < members.len() {
                        assert(members[m] == (segment, members[m].1));
                        assert(is_under(last, segment, members[m].1));
                    }
                },
                _ => {},
            }
        },
    }
}

proof fn lemma_found_rows(j: JsonView, rows: Seq<Row>, n: int)
    requires
        0 <= n <= rows.len(),
        forall|a: int, b: int| 0 <= a < b < rows.len() ==> rows[a].0 != rows[b].0,
    ensures
        found_rows(j, rows, n) is Ok <==> forall|i: int|
            0 <= i < n ==> found_at(j, (#[trigger] rows[i]).1) is Ok,
        found_rows(j, rows, n) matches Ok(m) ==> {
            &&& forall|i: int|
                0 <= i < n ==> m.dom().contains((#[trigger] rows[i]).0) && found_at(j, rows[i].1)
                    == Ok::<Seq<char>, ExtractFault>(m[rows[i].0])
            &&& forall|name: Seq<char>| #[trigger]
                m.dom().contains(name) ==> exists|i: int| 0 <= i < n && rows[i].0 == name
        },
        found_rows(j, rows, n) matches Err(f) ==> exists|i: int|
            0 <= i < n && found_at(j, (#[trigger] rows[i]).1) == Err::<Seq<char>, ExtractFault>(f)
                && forall|k: int| 0 <= k < i ==> found_at(j, (#[trigger] rows[k]).1) is Ok,
    decreases n,
{
    if n > 0 {
        lemma_found_rows(j, rows, n - 1);
        assert(rows[n - 1] == rows[n - 1]);
        match found_rows(j, rows, n - 1) {
            Ok(m) => {
                match found_at(j, rows[n - 1].1) {
                    Ok(v) => {
                        let after = m.insert(rows[n - 1].0, v);
                        assert forall|i: int| 0 <= i < n implies after.dom().contains(
                            (#[trigger] rows[i]).0,
                        ) && found_at(j, rows[i].1) == Ok::<Seq<char>, ExtractFault>(
                            after[rows[i].0],
                        ) by {
                            if i < n - 1 {
                                assert(rows[i].0 != rows[n - 1].0);
                            }
                        }
                        assert forall|name: Seq<char>| #[trigger]
                            after.dom().contains(name) implies exists|i: int|
                            0 <= i < n && rows[i].0 == name by {
                            if name == rows[n - 1].0 {
                                assert(rows[n - 1].0 == name);
                            } else {
                                assert(m.dom().contains(name));
                            }
                        }
                    },
                    Err(f) => {},
                }
            },
            Err(f) => {},
        }
    }
}

/// Every name that is asked for is given what its own path finds, and no other name is
/// given anything. Where a path finds nothing, the first such path says why.
pub proof fn law_each_name_is_given_what_its_path_finds(body: Seq<char>, j: JsonView, rows: Seq<Row>)
    requires
        json_read(body) == Ok::<JsonView, Seq<char>>(j),
        forall|a: int, b: int| 0 <= a < b < rows.len() ==> rows[a].0 != rows[b].0,
    ensures
        match extracted(Some(rows), body, true) {
            Ok(taken) => {
                &&& forall|i: int|
                    0 <= i < rows.len() ==> taken.dom().contains((#[trigger] rows[i]).0)
                        && found_at(j, rows[i].1) == Ok::<Seq<char>, ExtractFault>(
                        taken[rows[i].0],
                    )
                &&& forall|name: Seq<char>| #[trigger]
                    taken.dom().contains(name) ==> exists|i: int|
                        0 <= i < rows.len() && rows[i].0 == name
            },
            Err(f) => exists|i: int|
                0 <= i < rows.len() && found_at(j, (#[trigger] rows[i]).1) == Err::<
                    Seq<char>,
                    ExtractFault,
                >(f) && forall|k: int| 0 <= k < i ==> found_at(j, (#[trigger] rows[k]).1) is Ok,
        },
        extracted(Some(rows), body, true) is Ok <==> forall|i: int|
            0 <= i < rows.len() ==> found_at(j, (#[trigger] rows[i]).1) is Ok,
{
    lemma_found_rows(j, rows, rows.len() as int);
}

/// Values are taken from nothing but a body that claims to be JSON and is, and none are
/// taken where none are asked for.
pub proof fn law_values_are_taken_from_json_alone(body: Seq<char>, is_json: bool, rows: Seq<Row>)
    ensures
        extracted(None, body, is_json) == Ok::<TextMap, ExtractFault>(Map::empty()),
        !is_json ==> extracted(Some(rows), body, is_json) == Err::<TextMap, ExtractFault>(
            ExtractFault::NotJson,
        ),
        is_json ==> (json_read(body) matches Err(words) ==> extracted(Some(rows), body, is_json)
            == Err::<TextMap, ExtractFault>(ExtractFault::BadJson(words))),
{
}

} // verus!
