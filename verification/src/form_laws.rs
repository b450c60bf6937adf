//! What a form keeps of what is typed into it, and what is sent for it.
use vstd::prelude::*;

use crate::commands::{assigned, assignment, malformed, template};
use crate::config::{path_joined, request_name};
use crate::curl_parse::{collected, header_from, lemma_collected_names, lemma_header_from};
use crate::curl_render::filled_rows;
use crate::form::{
    bad_name, body_applied, clash_text, clashes, draft_of, kept_params, kept_rows, law_kept_rows_do_not_clash,
    opening_data, opening_type, pane_rows, placed, planned, profile_of, request_of, rows_applied, same_name,
    scope_path, DraftView, PairKind, SavePlan,
};
use crate::order::{text_lt, Row};
use crate::request::{text_opt, BodyView, ProfileView, RequestView, TextMap};
use crate::strmap::{has_listing, lemma_rows_are_the_map, listing};
use crate::text::{occurs, same_ignoring_case, trimmed};
use crate::unicode::uppercase;
use crate::utils::sent;
use crate::vars::filled;

verus! {

// ─── Saving ───────────────────────────────────────────────────────────────────

/// A form saves what it shows: the four fields, each without the white space around it,
/// the method in capitals, and the headers, the query, the body, the profiles and what is
/// to be extracted, all as they are.
pub proof fn law_a_form_saves_what_it_shows(
    d: DraftView,
    name: Seq<char>,
    method: Seq<char>,
    url: Seq<char>,
    description: Seq<char>,
)
    requires
        d.fields.len() == 4,
        d.fields[0].1 == name && d.fields[1].1 == method,
        d.fields[2].1 == url && d.fields[3].1 == description,
        trimmed(name).len() > 0 && !bad_name(trimmed(name)),
        uppercase(trimmed(method)).len() > 0,
        trimmed(url).len() > 0,
    ensures
        request_of(d) matches Ok(c) && {
            &&& c.name == trimmed(name)
            &&& c.method == uppercase(trimmed(method))
            &&& c.url == trimmed(url)
            &&& c.description == if trimmed(description).len() == 0 {
                None
            } else {
                Some(trimmed(description))
            }
            &&& c.headers == d.headers
            &&& c.query == d.query
            &&& c.body == d.body
            &&& c.extract == d.extract
            &&& c.profiles == if d.profiles.len() == 0 {
                None
            } else {
                Some(d.profiles)
            }
        },
{
}

/// A form without a name, a method or a URL is not saved, nor one whose name would lead
/// out of the request directory: one with a dot or a backslash in it, with a slash at
/// either end, or with two in a row. It says which.
pub proof fn law_a_form_says_what_it_lacks(
    d: DraftView,
    name: Seq<char>,
    method: Seq<char>,
    url: Seq<char>,
)
    requires
        d.fields.len() == 4,
        d.fields[0].1 == name && d.fields[1].1 == method && d.fields[2].1 == url,
    ensures
        trimmed(name).len() == 0 ==> request_of(d) == Err::<RequestView, Seq<char>>(
            "Name is required"@,
        ),
        trimmed(name).len() > 0 && (trimmed(name).contains('.') || trimmed(name).contains('\\')
            || trimmed(name)[0] == '/' || trimmed(name).last() == '/' || occurs(
            trimmed(name),
            "//"@,
        )) ==> request_of(d) == Err::<RequestView, Seq<char>>(
            "Invalid name (use folder/name for subfolders)"@,
        ),
        trimmed(name).len() > 0 && !(trimmed(name).contains('.') || trimmed(name).contains('\\')
            || trimmed(name)[0] == '/' || trimmed(name).last() == '/' || occurs(
            trimmed(name),
            "//"@,
        )) ==> {
            &&& uppercase(trimmed(method)).len() == 0 ==> request_of(d) == Err::<
                RequestView,
                Seq<char>,
            >("Method is required"@)
            &&& uppercase(trimmed(method)).len() > 0 && trimmed(url).len() == 0 ==> request_of(d)
                == Err::<RequestView, Seq<char>>("URL is required"@)
            &&& uppercase(trimmed(method)).len() > 0 && trimmed(url).len() > 0 ==> request_of(
                d,
            ) is Ok
        },
{
}

/// The form of a request shows the request: its method, its URL and its description in
/// their fields, under the name that it is edited under, and carries the rest of it.
pub proof fn law_a_form_shows_its_request(
    c: RequestView,
    original: Option<Seq<char>>,
    global: bool,
)
    ensures
        ({
            let d = draft_of(c, original, global);
            &&& d.fields.len() == 4
            &&& original matches Some(n) ==> d.fields[0].1 == n
            &&& original is None ==> d.fields[0].1 == Seq::<char>::empty()
            &&& d.fields[1].1 == c.method
            &&& d.fields[2].1 == c.url
            &&& c.description matches Some(t) ==> d.fields[3].1 == t
            &&& c.description is None ==> d.fields[3].1 == Seq::<char>::empty()
            &&& d.headers == c.headers && d.query == c.query && d.body == c.body
            &&& d.extract == c.extract && d.global == global && d.original_name == original
            &&& c.profiles matches Some(p) ==> d.profiles == p
            &&& c.profiles is None ==> d.profiles.len() == 0
            &&& d.focused == 0
        }),
{
}

/// A request is saved under its own name in the directory of its scope: `.ichigo` for a
/// project, `.config/ichigo` in the home directory for a user. A new name must not be
/// taken, and a rename leaves the file of the old name behind; saving under the same name
/// does neither.
pub proof fn law_a_request_is_saved_under_its_name(
    d: DraftView,
    c: RequestView,
    home: Seq<char>,
    plan: SavePlan,
)
    requires
        planned(d, c, Some(home), plan),
        c.name.len() > 0,
        c.name[0] != '/',
        home.len() > 0,
        home.last() != '/',
    ensures
        plan.config@ == c,
        !d.global ==> plan.path@ == ".ichigo/"@ + c.name + ".yaml"@,
        d.global ==> plan.path@ == home + "/.config/ichigo/"@ + c.name + ".yaml"@,
        d.original_name == Some(c.name) ==> !plan.must_be_new && plan.old_path is None,
        d.original_name is None ==> plan.must_be_new && plan.old_path is None,
        d.original_name matches Some(old) ==> old != c.name && old.len() > 0 && old[0] != '/' ==> {
            &&& plan.must_be_new
            &&& !d.global ==> text_opt(plan.old_path) == Some(".ichigo/"@ + old + ".yaml"@)
            &&& d.global ==> text_opt(plan.old_path) == Some(
                home + "/.config/ichigo/"@ + old + ".yaml"@,
            )
        },
{
    lemma_paths(c.name, home);
    match d.original_name {
        Some(old) if old.len() > 0 && old[0] != '/' => {
            lemma_paths(old, home);
        },
        _ => {},
    }
}

proof fn lemma_paths(name: Seq<char>, home: Seq<char>)
    requires
        name.len() > 0,
        name[0] != '/',
        home.len() > 0,
        home.last() != '/',
    ensures
        scope_path(name, false, Some(home)) == ".ichigo/"@ + name + ".yaml"@,
        scope_path(name, true, Some(home)) == home + "/.config/ichigo/"@ + name + ".yaml"@,
{
    reveal_strlit("/");
    reveal_strlit(".ichigo");
    reveal_strlit(".ichigo/");
    reveal_strlit(".yaml");
    reveal_strlit(".config");
    reveal_strlit("ichigo");
    reveal_strlit("/.config/ichigo/");
    let file = name + ".yaml"@;
    assert(file[0] == name[0]);
    assert(".ichigo"@ + "/"@ + file =~= ".ichigo/"@ + name + ".yaml"@);
    let config = home + "/"@ + ".config"@;
    assert(path_joined(home, ".config"@) == config);
    let dir = config + "/"@ + "ichigo"@;
    assert(config.last() == 'g');
    assert(path_joined(config, "ichigo"@) == dir);
    assert(dir.last() == 'o');
    assert(dir + "/"@ + file =~= home + "/.config/ichigo/"@ + name + ".yaml"@);
}

/// The name of a stored request is its file's path without the extension, and a file of
/// any other extension is no request.
pub proof fn law_a_file_is_named_by_its_request(name: Seq<char>, other: Seq<char>)
    requires
        name.len() > 0,
        name.last() != '/',
    ensures
        request_name(name + ".yaml"@) == Some(name),
        other.len() >= 5 && other.skip(other.len() - 5) != ".yaml"@ ==> request_name(other) is None,
        request_name(".yaml"@) is None,
{
    reveal_strlit(".yaml");
    let path = name + ".yaml"@;
    let n = path.len();
    assert(path.skip(n - 5) =~= ".yaml"@);
    assert(path.take(n - 5) =~= name);
    assert(path[n - 6] == name.last());
}

// ─── Headers and query ────────────────────────────────────────────────────────

proof fn lemma_kept(rows: Seq<Row>, n: int, kind: PairKind)
    requires
        0 <= n <= rows.len(),
    ensures
        kept_rows(rows, n, kind) matches Ok(kept) ==> {
            &&& forall|i: int|
                0 <= i < n && trimmed((#[trigger] rows[i]).0).len() > 0 ==> kept.contains(
                    (trimmed(rows[i].0), trimmed(rows[i].1)),
                )
            &&& forall|row: Row| #[trigger]
                kept.contains(row) ==> exists|i: int|
                    0 <= i < n && (trimmed(rows[i].0), trimmed(rows[i].1)) == row
        },
    decreases n,
{
    if n > 0 {
        lemma_kept(rows, n - 1, kind);
        match kept_rows(rows, n - 1, kind) {
            Err(_) => {},
            Ok(kept) => {
                let name = trimmed(rows[n - 1].0);
                if name.len() > 0 && !clashes(kept, name, kind) {
                    let row = (name, trimmed(rows[n - 1].1));
                    let after = kept.push(row);
                    assert(after[kept.len() as int] == row);
                    assert forall|i: int|
                        0 <= i < n && trimmed((#[trigger] rows[i]).0).len() > 0 implies after.contains(
                        (trimmed(rows[i].0), trimmed(rows[i].1)),
                    ) by {
                        if i < n - 1 {
                            let r = (trimmed(rows[i].0), trimmed(rows[i].1));
                            let k = choose|k: int| 0 <= k < kept.len() && kept[k] == r;
                            assert(after[k] == r);
                        }
                    }
                    assert forall|r: Row| #[trigger] after.contains(r) implies exists|i: int|
                        0 <= i < n && (trimmed(rows[i].0), trimmed(rows[i].1)) == r by {
                        let k = choose|k: int| 0 <= k < after.len() && after[k] == r;
                        if k < kept.len() {
                            assert(kept.contains(kept[k]));
                        } else {
                            assert((trimmed(rows[n - 1].0), trimmed(rows[n - 1].1)) == r);
                        }
                    }
                }
            },
        }
    }
}

proof fn lemma_collected_holds(rows: Seq<Row>, i: int)
    requires
        0 <= i < rows.len(),
        forall|a: int, b: int| 0 <= a < b < rows.len() ==> rows[a].0 != rows[b].0,
    ensures
        collected(rows).dom().contains(rows[i].0),
        collected(rows)[rows[i].0] == rows[i].1,
    decreases rows.len(),
{
    if i < rows.len() - 1 {
        let front = rows.drop_last();
        assert forall|a: int, b: int| 0 <= a < b < front.len() implies front[a].0 != front[b].0 by {
            assert(rows[a].0 != rows[b].0);
        }
        lemma_collected_holds(front, i);
        assert(rows[i].0 != rows[rows.len() - 1].0);
    }
}

/// Every query parameter that is typed is kept, with its name and its value, each without
/// the white space around it; a row without a name is dropped, and nothing is added.
pub proof fn law_every_query_row_is_kept(d: DraftView, rows: Seq<Row>)
    ensures
        rows_applied(d, rows, PairKind::Query) matches Ok(e) ==> {
            &&& forall|i: int|
                0 <= i < rows.len() && trimmed((#[trigger] rows[i]).0).len() > 0
                    ==> e.query.dom().contains(trimmed(rows[i].0)) && e.query[trimmed(rows[i].0)]
                    == trimmed(rows[i].1)
            &&& forall|k: Seq<char>| #[trigger]
                e.query.dom().contains(k) ==> exists|i: int|
                    0 <= i < rows.len() && trimmed((#[trigger] rows[i]).0) == k
        },
{
    let kind = PairKind::Query;
    let n = rows.len() as int;
    lemma_kept(rows, n, kind);
    law_kept_rows_do_not_clash(rows, n, kind);
    match kept_rows(rows, n, kind) {
        Err(_) => {},
        Ok(kept) => {
            assert forall|i: int|
                0 <= i < rows.len() && trimmed((#[trigger] rows[i]).0).len() > 0 implies collected(
                kept,
            ).dom().contains(trimmed(rows[i].0)) && collected(kept)[trimmed(rows[i].0)] == trimmed(
                rows[i].1,
            ) by {
                let r = (trimmed(rows[i].0), trimmed(rows[i].1));
                assert(kept.contains(r));
                let k = choose|k: int| 0 <= k < kept.len() && kept[k] == r;
                lemma_apart(kept, kind);
                lemma_collected_holds(kept, k);
            }
            assert forall|k: Seq<char>| #[trigger]
                collected(kept).dom().contains(k) implies exists|i: int|
                0 <= i < rows.len() && trimmed((#[trigger] rows[i]).0) == k by {
                lemma_collected_names(kept, k);
                let x = choose|x: int| 0 <= x < kept.len() && #[trigger] kept[x].0 == k;
                assert(kept.contains(kept[x]));
                let i = choose|i: int|
                    0 <= i < n && (trimmed(rows[i].0), trimmed(rows[i].1)) == kept[x];
                assert(trimmed(rows[i].0) == k);
            }
        },
    }
}

proof fn lemma_apart(kept: Seq<Row>, kind: PairKind)
    requires
        forall|i: int, j: int|
            0 <= i < j < kept.len() ==> !same_name(
                (#[trigger] kept[i]).0,
                (#[trigger] kept[j]).0,
                kind,
            ),
    ensures
        forall|i: int, j: int| 0 <= i < j < kept.len() ==> kept[i].0 != kept[j].0,
{
    assert forall|i: int, j: int| 0 <= i < j < kept.len() implies kept[i].0 != kept[j].0 by {
        assert(!same_name(kept[i].0, kept[j].0, kind));
        crate::text_laws::law_case_is_all_that_is_ignored(kept[i].0, kept[i].0);
    }
}

/// Every header that is typed is kept, with its name and its value, each without the
/// white space around it; a row without a name is dropped, and nothing is added. In a
/// request with a body the content type goes to the body instead, unless it is empty.
pub proof fn law_every_header_row_is_kept(d: DraftView, rows: Seq<Row>)
    ensures
        rows_applied(d, rows, PairKind::Headers) matches Ok(e) ==> {
            &&& forall|i: int|
                0 <= i < rows.len() && trimmed((#[trigger] rows[i]).0).len() > 0 && (
                d.body is None || !same_ignoring_case(trimmed(rows[i].0), "content-type"@))
                    ==> e.headers.dom().contains(trimmed(rows[i].0)) && e.headers[trimmed(
                    rows[i].0,
                )] == trimmed(rows[i].1)
            &&& forall|k: Seq<char>| #[trigger]
                e.headers.dom().contains(k) ==> exists|i: int|
                    0 <= i < rows.len() && trimmed((#[trigger] rows[i]).0) == k
            &&& d.body is None ==> e.body is None
            &&& d.body matches Some(b) ==> e.body matches Some(a) && a.data == b.data && forall|
                i: int,
            |
                0 <= i < rows.len() && same_ignoring_case(
                    trimmed((#[trigger] rows[i]).0),
                    "content-type"@,
                ) && trimmed(rows[i].0).len() > 0 ==> a.content_type == if trimmed(
                    rows[i].1,
                ).len() == 0 {
                    b.content_type
                } else {
                    trimmed(rows[i].1)
                }
        },
{
    let kind = PairKind::Headers;
    let n = rows.len() as int;
    lemma_kept(rows, n, kind);
    law_kept_rows_do_not_clash(rows, n, kind);
    match kept_rows(rows, n, kind) {
        Err(_) => {},
        Ok(kept) => {
            let ct = "content-type"@;
            lemma_header_from(kept, ct, 0);
            let at = header_from(kept, ct, 0);
            let e = rows_applied(d, rows, kind)->Ok_0;
            let moved = d.body is Some && at < kept.len();
            let left = if moved {
                kept.remove(at)
            } else {
                kept
            };
            assert(e.headers == collected(left));
            lemma_apart(kept, kind);
            assert forall|i: int, j: int| 0 <= i < j < left.len() implies left[i].0 != left[j].0 by {
                if moved {
                    let x = if i < at {
                        i
                    } else {
                        i + 1
                    };
                    let y = if j < at {
                        j
                    } else {
                        j + 1
                    };
                    assert(left[i] == kept[x] && left[j] == kept[y]);
                    assert(kept[x].0 != kept[y].0);
                }
            }
            assert forall|i: int|
                0 <= i < rows.len() && trimmed((#[trigger] rows[i]).0).len() > 0 && (d.body is None
                    || !same_ignoring_case(trimmed(rows[i].0), ct)) implies e.headers.dom().contains(
                trimmed(rows[i].0),
            ) && e.headers[trimmed(rows[i].0)] == trimmed(rows[i].1) by {
                let r = (trimmed(rows[i].0), trimmed(rows[i].1));
                assert(kept.contains(r));
                let k = choose|k: int| 0 <= k < kept.len() && kept[k] == r;
                let j = if moved && k > at {
                    k - 1
                } else {
                    k
                };
                assert(left[j] == r);
                lemma_collected_holds(left, j);
            }
            assert forall|k: Seq<char>| #[trigger] e.headers.dom().contains(k) implies exists|i: int|
                0 <= i < rows.len() && trimmed((#[trigger] rows[i]).0) == k by {
                lemma_collected_names(left, k);
                let x = choose|x: int| 0 <= x < left.len() && #[trigger] left[x].0 == k;
                let y = if moved && x >= at {
                    x + 1
                } else {
                    x
                };
                assert(left[x] == kept[y]);
                assert(kept.contains(kept[y]));
                let i = choose|i: int|
                    0 <= i < n && (trimmed(rows[i].0), trimmed(rows[i].1)) == kept[y];
                assert(trimmed(rows[i].0) == k);
            }
            if d.body is Some {
                assert forall|i: int|
                    0 <= i < rows.len() && same_ignoring_case(
                        trimmed((#[trigger] rows[i]).0),
                        ct,
                    ) && trimmed(rows[i].0).len() > 0 implies moved && kept[at] == (
                    trimmed(rows[i].0),
                    trimmed(rows[i].1),
                ) by {
                    let r = (trimmed(rows[i].0), trimmed(rows[i].1));
                    assert(kept.contains(r));
                    let k = choose|k: int| 0 <= k < kept.len() && kept[k] == r;
                    if k < at {
                        assert(!same_ignoring_case(kept[k].0, ct));
                    } else if k > at {
                        crate::curl_laws::lemma_case_joins(kept[at].0, kept[k].0, ct);
                        assert(!same_name(kept[at].0, kept[k].0, kind));
                    }
                }
            }
        },
    }
}

/// Rows are refused only where a name occurs twice, whatever its case for headers, and
/// the name is said.
pub proof fn law_rows_are_refused_for_a_name_twice(d: DraftView, rows: Seq<Row>, kind: PairKind)
    ensures
        rows_applied(d, rows, kind) is Err <==> exists|i: int, j: int|
            0 <= i < j < rows.len() && #[trigger] names_meet(rows, i, j, kind),
        rows_applied(d, rows, kind) matches Err(t) ==> exists|j: int|
            0 <= j < rows.len() && t == clash_text(trimmed((#[trigger] rows[j]).0), kind),
{
    lemma_refused(rows, rows.len() as int, kind);
}

/// Two rows are named, and go by one name.
pub open spec fn names_meet(rows: Seq<Row>, i: int, j: int, kind: PairKind) -> bool {
    &&& trimmed(rows[i].0).len() > 0
    &&& match kind {
        PairKind::Headers => same_ignoring_case(trimmed(rows[i].0), trimmed(rows[j].0)),
        PairKind::Query => trimmed(rows[i].0) == trimmed(rows[j].0),
    }
}

proof fn lemma_refused(rows: Seq<Row>, n: int, kind: PairKind)
    requires
        0 <= n <= rows.len(),
    ensures
        kept_rows(rows, n, kind) is Err <==> exists|i: int, j: int|
            0 <= i < j < n && #[trigger] names_meet(rows, i, j, kind),
        kept_rows(rows, n, kind) matches Err(t) ==> exists|j: int|
            0 <= j < n && t == trimmed((#[trigger] rows[j]).0),
    decreases n,
{
    if n > 0 {
        lemma_refused(rows, n - 1, kind);
        lemma_kept(rows, n - 1, kind);
        let name = trimmed(rows[n - 1].0);
        match kept_rows(rows, n - 1, kind) {
            Err(t) => {
                let (i, j) = choose|i: int, j: int|
                    0 <= i < j < n - 1 && #[trigger] names_meet(rows, i, j, kind);
                assert(names_meet(rows, i, j, kind));
            },
            Ok(kept) => {
                if name.len() > 0 && clashes(kept, name, kind) {
                    let k = choose|k: int|
                        0 <= k < kept.len() && same_name((#[trigger] kept[k]).0, name, kind);
                    assert(kept.contains(kept[k]));
                    let i = choose|i: int|
                        0 <= i < n - 1 && (trimmed(rows[i].0), trimmed(rows[i].1)) == kept[k];
                    law_kept_rows_do_not_clash(rows, n - 1, kind);
                    assert(names_meet(rows, i, n - 1, kind));
                } else {
                    assert forall|i: int, j: int| 0 <= i < j < n implies !#[trigger] names_meet(
                        rows,
                        i,
                        j,
                        kind,
                    ) by {
                        if j == n - 1 && names_meet(rows, i, j, kind) {
                            let r = (trimmed(rows[i].0), trimmed(rows[i].1));
                            assert(kept.contains(r));
                            let k = choose|k: int| 0 <= k < kept.len() && kept[k] == r;
                            assert(same_name(kept[k].0, name, kind));
                            assert(trimmed(rows[i].0).len() == name.len());
                        }
                    }
                }
            },
        }
    }
}

/// A pane opens on every pair there is, in name order.
pub proof fn law_a_pane_opens_on_every_pair(d: DraftView, kind: PairKind)
    requires
        has_listing(d.headers),
        has_listing(d.query),
    ensures
        ({
            let map = match kind {
                PairKind::Headers => d.headers,
                PairKind::Query => d.query,
            };
            let rows = pane_rows(d, kind);
            &&& forall|i: int|
                0 <= i < rows.len() ==> map.dom().contains((#[trigger] rows[i]).0)
                    && map[rows[i].0] == rows[i].1
            &&& forall|k: Seq<char>| #[trigger]
                map.dom().contains(k) ==> exists|i: int| 0 <= i < rows.len() && #[trigger] rows[i].0 == k
            &&& forall|i: int, j: int| 0 <= i < j < rows.len() ==> text_lt(rows[i].0, rows[j].0)
        }),
{
    let map = match kind {
        PairKind::Headers => d.headers,
        PairKind::Query => d.query,
    };
    let rows = pane_rows(d, kind);
    assert(rows == listing(map));
    lemma_rows_are_the_map(rows);
    assert forall|i: int| 0 <= i < rows.len() implies map.dom().contains((#[trigger] rows[i]).0)
        && map[rows[i].0] == rows[i].1 by {
        assert(crate::strmap::map_of(rows).dom().contains(rows[i].0));
    }
    assert forall|k: Seq<char>| #[trigger] map.dom().contains(k) implies exists|i: int|
        0 <= i < rows.len() && #[trigger] rows[i].0 == k by {
        assert(crate::strmap::has_name(rows, k));
    }
    assert forall|i: int, j: int| 0 <= i < j < rows.len() implies text_lt(rows[i].0, rows[j].0) by {
        assert(rows[i].0 == rows[i].0 && rows[j].0 == rows[j].0);
    }
}

// ─── The body ─────────────────────────────────────────────────────────────────

/// A body is kept as it is typed, under its content type without the white space around
/// it. An empty one is none, and one without a content type is refused. A content type
/// among the headers goes, and the other headers stay, as does all the rest.
pub proof fn law_a_body_is_kept_as_typed(d: DraftView, kind: Seq<char>, data: Seq<char>)
    requires
        has_listing(d.headers),
    ensures
        data.len() == 0 ==> body_applied(d, kind, data) == Ok::<DraftView, Seq<char>>(
            DraftView { body: None, ..d },
        ),
        data.len() > 0 && trimmed(kind).len() == 0 ==> body_applied(d, kind, data) == Err::<
            DraftView,
            Seq<char>,
        >("Content type is required"@),
        data.len() > 0 && trimmed(kind).len() > 0 ==> (body_applied(d, kind, data) matches Ok(e)
            && e == DraftView {
            body: Some(BodyView { content_type: trimmed(kind), data }),
            headers: e.headers,
            ..d
        } && forall|k: Seq<char>|
            !same_ignoring_case(k, "content-type"@) ==> (#[trigger] e.headers.dom().contains(k)
                == d.headers.dom().contains(k) && (d.headers.dom().contains(k) ==> e.headers[k]
                == d.headers[k]))),
{
    if data.len() > 0 && trimmed(kind).len() > 0 {
        let rows = listing(d.headers);
        let ct = "content-type"@;
        lemma_rows_are_the_map(rows);
        lemma_header_from(rows, ct, 0);
        let at = header_from(rows, ct, 0);
        if at < rows.len() {
            let left = rows.remove(at);
            let e = body_applied(d, kind, data)->Ok_0;
            assert forall|i: int, j: int| 0 <= i < j < left.len() implies left[i].0 != left[j].0 by {
                let x = if i < at {
                    i
                } else {
                    i + 1
                };
                let y = if j < at {
                    j
                } else {
                    j + 1
                };
                assert(left[i] == rows[x] && left[j] == rows[y]);
                assert(text_lt(rows[x].0, rows[y].0));
                crate::order::lemma_text_lt_total(rows[x].0, rows[x].0);
            }
            assert forall|k: Seq<char>| !same_ignoring_case(k, ct) implies (
            #[trigger] e.headers.dom().contains(k) == d.headers.dom().contains(k) && (
            d.headers.dom().contains(k) ==> e.headers[k] == d.headers[k])) by {
                lemma_collected_names(left, k);
                if d.headers.dom().contains(k) {
                    let x = choose|x: int| 0 <= x < rows.len() && #[trigger] rows[x].0 == k;
                    assert(x != at);
                    let y = if x < at {
                        x
                    } else {
                        x - 1
                    };
                    assert(left[y] == rows[x]);
                    assert(left[y].0 == k);
                    lemma_collected_holds(left, y);
                }
                if e.headers.dom().contains(k) {
                    let y = choose|y: int| 0 <= y < left.len() && #[trigger] left[y].0 == k;
                    let x = if y < at {
                        y
                    } else {
                        y + 1
                    };
                    assert(left[y] == rows[x]);
                    assert(rows[x].0 == k);
                }
            }
        }
    }
}

/// The body pane opens on the body: its data as they are, and its content type, unless a
/// header says another. Without a body it opens empty, on JSON.
pub proof fn law_the_body_pane_opens_on_the_body(d: DraftView)
    requires
        has_listing(d.headers),
        forall|k: Seq<char>| #[trigger]
            d.headers.dom().contains(k) ==> !same_ignoring_case(k, "content-type"@),
    ensures
        d.body matches Some(b) ==> opening_data(d) == b.data && opening_type(d) == b.content_type,
        d.body is None ==> opening_data(d).len() == 0 && opening_type(d) == "application/json"@,
{
    let rows = listing(d.headers);
    lemma_rows_are_the_map(rows);
    lemma_header_from(rows, "content-type"@, 0);
    let at = header_from(rows, "content-type"@, 0);
    if at < rows.len() {
        assert(d.headers.dom().contains(rows[at].0));
    }
}

// ─── Profiles ─────────────────────────────────────────────────────────────────

/// A profile that is saved stands where it was edited, or behind the others; no other
/// profile changes or moves. A name that another profile has is refused.
pub proof fn law_a_saved_profile_leaves_the_others(
    profiles: Seq<ProfileView>,
    profile: ProfileView,
    editing: Option<int>,
)
    requires
        editing matches Some(i) ==> 0 <= i < profiles.len(),
    ensures
        placed(profiles, profile, editing) matches Ok((after, at)) ==> {
            &&& after[at] == profile
            &&& editing matches Some(i) ==> at == i && after.len() == profiles.len()
            &&& editing is None ==> at == profiles.len() && after.len() == profiles.len() + 1
            &&& forall|k: int| 0 <= k < profiles.len() && k != at ==> #[trigger] after[k] == profiles[k]
        },
        placed(profiles, profile, editing) is Err <==> exists|k: int|
            0 <= k < profiles.len() && (#[trigger] profiles[k]).name == profile.name && Some(k)
                != editing,
{
}

proof fn lemma_params(rows: Seq<Row>, n: int, k: int)
    requires
        0 <= k < n <= rows.len(),
        trimmed(rows[k].0).len() > 0,
        forall|j: int| k < j < n ==> trimmed((#[trigger] rows[j]).0) != trimmed(rows[k].0),
    ensures
        ({
            let m = collected(kept_params(rows, n));
            m.dom().contains(trimmed(rows[k].0)) && m[trimmed(rows[k].0)] == trimmed(rows[k].1)
        }),
    decreases n,
{
    let before = kept_params(rows, n - 1);
    let name = trimmed(rows[n - 1].0);
    if name.len() > 0 {
        assert(before.push((name, trimmed(rows[n - 1].1))).drop_last() =~= before);
    }
    if k < n - 1 {
        lemma_params(rows, n - 1, k);
        assert(trimmed(rows[n - 1].0) != trimmed(rows[k].0));
    }
}

/// A profile keeps every parameter that is typed and named, the last where a name occurs
/// twice, with names and values without the white space around them. One without a name
/// of its own is refused.
pub proof fn law_a_profile_keeps_its_parameters(name: Seq<char>, rows: Seq<Row>, k: int)
    requires
        0 <= k < rows.len(),
        trimmed(rows[k].0).len() > 0,
        forall|j: int| k < j < rows.len() ==> trimmed((#[trigger] rows[j]).0) != trimmed(rows[k].0),
    ensures
        trimmed(name).len() == 0 ==> profile_of(name, rows) == Err::<ProfileView, Seq<char>>(
            "Profile name is required"@,
        ),
        trimmed(name).len() > 0 ==> (profile_of(name, rows) matches Ok(p) && p.name == trimmed(name)
            && p.params.dom().contains(trimmed(rows[k].0)) && p.params[trimmed(rows[k].0)]
            == trimmed(rows[k].1)),
{
    lemma_params(rows, rows.len() as int, k);
}

// ─── Sending ──────────────────────────────────────────────────────────────────

/// What goes on the wire is the request with its placeholders filled in: its URL, every
/// header and every query parameter in its name and in its value, and its body. The method
/// is in capitals, and the content type as it is.
pub proof fn law_what_goes_on_the_wire(c: RequestView, vars: TextMap, env: TextMap)
    requires
        has_listing(c.headers),
        has_listing(c.query),
    ensures
        ({
            let wire = sent(c, vars, env);
            &&& wire.method == uppercase(c.method)
            &&& wire.url == filled(c.url, vars, env)
            &&& forall|k: Seq<char>| #[trigger]
                c.headers.dom().contains(k) ==> wire.headers.contains(
                    (filled(k, vars, env), filled(c.headers[k], vars, env)),
                )
            &&& forall|k: Seq<char>| #[trigger]
                c.query.dom().contains(k) ==> wire.query.contains(
                    (filled(k, vars, env), filled(c.query[k], vars, env)),
                )
            &&& wire.headers.len() == listing(c.headers).len()
            &&& wire.query.len() == listing(c.query).len()
            &&& c.body is None ==> wire.body is None
            &&& c.body matches Some(b) ==> wire.body == Some(
                BodyView { content_type: b.content_type, data: filled(b.data, vars, env) },
            )
        }),
{
    lemma_rows_sent(c.headers, vars, env);
    lemma_rows_sent(c.query, vars, env);
}

pub proof fn lemma_rows_sent(m: TextMap, vars: TextMap, env: TextMap)
    requires
        has_listing(m),
    ensures
        forall|k: Seq<char>| #[trigger]
            m.dom().contains(k) ==> filled_rows(listing(m), vars, env).contains(
                (filled(k, vars, env), filled(m[k], vars, env)),
            ),
{
    let rows = listing(m);
    let out = filled_rows(rows, vars, env);
    lemma_rows_are_the_map(rows);
    assert forall|k: Seq<char>| #[trigger] m.dom().contains(k) implies out.contains(
        (filled(k, vars, env), filled(m[k], vars, env)),
    ) by {
        let i = choose|i: int| 0 <= i < rows.len() && #[trigger] rows[i].0 == k;
        assert(out[i] == (filled(rows[i].0, vars, env), filled(rows[i].1, vars, env)));
    }
}

// ─── The command line ─────────────────────────────────────────────────────────

/// `--var NAME=VALUE` gives the name that value, all that stands behind the first equals
/// sign; of two the later counts. A word without one gives nothing, and is reported.
pub proof fn law_variables_are_what_the_words_assign(
    words: Seq<Seq<char>>,
    k: int,
    name: Seq<char>,
    value: Seq<char>,
)
    requires
        0 <= k < words.len(),
        !name.contains('='),
        words[k] == name + "="@ + value,
        forall|j: int|
            k < j < words.len() ==> (assignment(#[trigger] words[j]) matches Some(r) ==> r.0
                != name),
    ensures
        assigned(words).dom().contains(name),
        assigned(words)[name] == value,
    decreases words.len(),
{
    if k == words.len() - 1 {
        lemma_assigns(name, value);
    } else {
        let front = words.drop_last();
        assert forall|j: int| k < j < front.len() implies (assignment(
            #[trigger] front[j],
        ) matches Some(r) ==> r.0 != name) by {
            assert(words[j] == front[j]);
        }
        law_variables_are_what_the_words_assign(front, k, name, value);
        assert(words[words.len() - 1] == words.last());
    }
}

proof fn lemma_assigns(name: Seq<char>, value: Seq<char>)
    requires
        !name.contains('='),
    ensures
        assignment(name + "="@ + value) == Some((name, value)),
{
    reveal_strlit("=");
    let word = name + "="@ + value;
    let n = name.len() as int;
    crate::text::lemma_char_from(word, '=', 0);
    assert(word[n] == '=');
    let at = crate::text::char_from(word, '=', 0);
    if at < n {
        assert(name[at] == word[at]);
        assert(name.contains(name[at]));
    }
    assert(word.take(n) =~= name);
    assert(word.skip(n + 1) =~= value);
}

/// Nothing is assigned but what a word assigns, and the words that are reported are those
/// without an equals sign.
pub proof fn law_other_words_are_reported(words: Seq<Seq<char>>, x: Seq<char>)
    ensures
        assigned(words).dom().contains(x) ==> exists|i: int|
            0 <= i < words.len() && (assignment(#[trigger] words[i]) matches Some(r) && r.0 == x),
        malformed(words).contains(x) <==> words.contains(x) && !x.contains('='),
    decreases words.len(),
{
    if words.len() > 0 {
        let front = words.drop_last();
        let last = words.last();
        law_other_words_are_reported(front, x);
        crate::commands::law_an_assignment_splits_at_the_first_equals_sign(last);
        crate::commands::law_an_assignment_splits_at_the_first_equals_sign(x);
        assert(words[words.len() - 1] == last);
        if assigned(words).dom().contains(x) {
            if assignment(last) matches Some(r) && r.0 == x {
                assert(assignment(words[words.len() - 1]) is Some);
            } else {
                let i = choose|i: int|
                    0 <= i < front.len() && (assignment(#[trigger] front[i]) matches Some(r) && r.0
                        == x);
                assert(words[i] == front[i]);
            }
        }
        if words.contains(x) {
            let i = choose|i: int| 0 <= i < words.len() && words[i] == x;
            if i < front.len() {
                assert(front[i] == x);
            }
        }
        if front.contains(x) {
            let i = choose|i: int| 0 <= i < front.len() && front[i] == x;
            assert(words[i] == x);
        }
        let before = malformed(front);
        if assignment(last) is None {
            let after = before.push(last);
            if before.contains(x) {
                let i = choose|i: int| 0 <= i < before.len() && before[i] == x;
                assert(after[i] == x);
            }
            if x == last {
                assert(after[before.len() as int] == x);
            }
            if after.contains(x) {
                let i = choose|i: int| 0 <= i < after.len() && after[i] == x;
                if i < before.len() {
                    assert(before[i] == x);
                }
            }
        }
    }
}

/// A new request file says its name, its method and its URL first, each on a line of its
/// own.
pub proof fn law_a_template_says_what_was_asked_for(
    name: Seq<char>,
    method: Seq<char>,
    url: Seq<char>,
)
    ensures
        ("name: "@ + name + "\nmethod: "@ + method + "\nurl: "@ + url + "\n"@).is_prefix_of(
            template(name, method, url),
        ),
{
    reveal_strlit("\n");
    let tail =
        "\ndescription: \"\"\n\n# Use {{VAR}} anywhere in url, headers, query, or body.\n# Values are filled from --var KEY=VALUE flags or environment variables.\n\nheaders:\n#   Accept: application/json\n#   Authorization: \"Bearer {{TOKEN}}\"\n\nquery:\n#   page: \"1\"\n\n"@;
    reveal_strlit(
        "\ndescription: \"\"\n\n# Use {{VAR}} anywhere in url, headers, query, or body.\n# Values are filled from --var KEY=VALUE flags or environment variables.\n\nheaders:\n#   Accept: application/json\n#   Authorization: \"Bearer {{TOKEN}}\"\n\nquery:\n#   page: \"1\"\n\n",
    );
    assert(tail[0] == '\n');
    let head = "name: "@ + name + "\nmethod: "@ + method + "\nurl: "@ + url;
    let whole = template(name, method, url);
    assert((head + "\n"@) =~= whole.take(head.len() as int + 1));
}

} // verus!
