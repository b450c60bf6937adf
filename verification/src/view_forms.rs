//! The forms of the terminal interface.
use vstd::prelude::*;
use vstd::string::*;

use crate::config::str_opt;
use crate::edit::{Edit, EditView};
use crate::form::PairKind;
use crate::order::{rows_of, Row};
use crate::request::{profile_views, Body, BodyView, Profile, ProfileView, TextMap};
use crate::strmap::{listing, StrMap};
use crate::text::{concat2, concat3, decimal, decimal_string, texts};
use crate::theme::Color;
use crate::view::{
    add_line, add_lines, bare, bold, bold_badge, ink, inked, inks, just, line_of, no_lines, no_spans, one,
    put_text, two, Inked, Line, Style,
};
use crate::view_field::{inside, interior, Rect};
use crate::view_panes::{
    field, field_lines, frame, framed, fresh, gap, map_lines, map_rows, map_summary, note, plain_title, put,
    put_error, row, summarize_map, with_error, Canvas, Drawn, Pane,
};
use crate::view_text::{action_inks, action_row, body_preview, pane_title, previewed, titled};

verus! {

// ─── The request form ─────────────────────────────────────────────────────────

/// The first `k` text fields of the request form; the first three must be filled in.
pub open spec fn fields_drawn(
    fields: Seq<Row>,
    focused: int,
    edit: EditView,
    width: u16,
    k: int,
) -> Drawn
    decreases k,
{
    if k <= 0 {
        fresh()
    } else {
        let i = k - 1;
        gap(
            row(
                fields_drawn(fields, focused, edit, width, i),
                field_lines(
                    "  "@ + fields[i].0,
                    i < 3,
                    fields[i].1,
                    i == focused,
                    edit,
                    Color::Green,
                    width,
                ),
                i == focused,
            ),
        )
    }
}

/// A row that opens a pane, and what is in it.
pub open spec fn opener(label: Seq<char>, shown: Seq<Inked>, is_focused: bool) -> Seq<Inked> {
    seq![action_inks(label, Color::DarkGray, "Enter to edit"@, is_focused)] + shown
}

/// A body as the request form shows it.
pub open spec fn body_summary(body: Option<BodyView>) -> Seq<Inked> {
    match body {
        None => seq![note("    none"@)],
        Some(b) => seq![
            two(("    content type: "@, ink(Color::Cyan)), (b.content_type, ink(Color::White))),
        ] + indented(previewed(b.data)),
    }
}

/// Lines behind an indent.
pub open spec fn indented(lines: Seq<Seq<char>>) -> Seq<Inked> {
    lines.map_values(|l: Seq<char>| one("    "@ + l, ink(Color::White)))
}

/// The first `n` profiles as the request form shows them.
pub open spec fn profile_lines(profiles: Seq<ProfileView>, n: int) -> Seq<Inked>
    decreases n,
{
    if n <= 0 {
        Seq::empty()
    } else {
        let p = profiles[n - 1];
        profile_lines(profiles, n - 1).push(
            two(("    "@, bare()), (p.name, bold(Color::Magenta))),
        ) + map_lines(p.params, "      "@, Color::DarkGray, Color::White)
    }
}

/// Profiles as the request form shows them, or that there are none.
pub open spec fn profiles_summary(profiles: Seq<ProfileView>) -> Seq<Inked> {
    if profiles.len() == 0 {
        seq![note("    none"@)]
    } else {
        profile_lines(profiles, profiles.len() as int)
    }
}

/// The row that says in which scope the request is saved.
pub open spec fn global_row(global: bool, is_focused: bool) -> Inked {
    action_inks(
        if global {
            "[x] global"@
        } else {
            "[ ] global"@
        },
        if global {
            Color::Cyan
        } else {
            Color::DarkGray
        },
        "Enter to toggle"@,
        is_focused,
    )
}

/// The request form: the fields, then a row each for the scope, the headers, the
/// query, the body and the profiles.
pub open spec fn request_drawn(
    fields: Seq<Row>,
    focused: int,
    edit: EditView,
    profiles: Seq<ProfileView>,
    headers: TextMap,
    query: TextMap,
    body: Option<BodyView>,
    global: bool,
    error: Option<Seq<char>>,
    width: u16,
) -> Drawn {
    let n = fields.len() as int;
    let d = fields_drawn(fields, focused, edit, width, n);
    let d = gap(row(d, seq![global_row(global, focused == n)], focused == n));
    let on = focused == n + 1;
    let d = gap(row(d, opener("headers"@, map_summary(headers), on), on));
    let on = focused == n + 2;
    let d = gap(row(d, opener("query params"@, map_summary(query), on), on));
    let on = focused == n + 3;
    let d = gap(row(d, opener("body"@, body_summary(body), on), on));
    let on = focused == n + 4;
    let d = gap(row(d, opener("profiles"@, profiles_summary(profiles), on), on));
    with_error(d, error)
}

fn put_fields(fields: &Vec<(String, String)>, focused: usize, edit: &Edit, width: u16) -> (r: Canvas)
    ensures
        r@ == fields_drawn(rows_of(fields@), focused as int, edit@, width, fields.len() as int),
{
    let mut canvas = Canvas::fresh();
    let ghost rows = rows_of(fields@);
    let mut i: usize = 0;
    while i < fields.len()
        invariant
            i <= fields.len(),
            rows == rows_of(fields@),
            canvas@ == fields_drawn(rows, focused as int, edit@, width, i as int),
        decreases fields.len() - i,
    {
        let label = concat2("  ", fields[i].0.as_str());
        proof {
            assert(rows[i as int] == (fields@[i as int].0@, fields@[i as int].1@));
        }
        let lines = field(
            label.as_str(),
            i < 3,
            fields[i].1.as_str(),
            i == focused,
            edit,
            Color::Green,
            width,
        );
        canvas.row(lines, i == focused);
        canvas.gap();
        i = i + 1;
    }
    canvas
}

fn open_row(label: &str, shown: Vec<Line>, is_focused: bool) -> (r: Vec<Line>)
    ensures
        inked(r@) == opener(label@, inked(shown@), is_focused),
{
    let mut lines = just(action_row(label, Color::DarkGray, "Enter to edit", is_focused));
    add_lines(&mut lines, shown);
    lines
}

fn summarize_body(body: Option<&Body>) -> (r: Vec<Line>)
    ensures
        inked(r@) == body_summary(
            match body {
                Some(b) => Some(b@),
                None => None,
            },
        ),
{
    match body {
        None => just(Line::one("    none", Style::ink(Color::DarkGray))),
        Some(b) => {
            let mut lines = just(
                Line::two(
                    "    content type: ",
                    Style::ink(Color::Cyan),
                    b.content_type.as_str(),
                    Style::ink(Color::White),
                ),
            );
            let shown = body_preview(b.data.as_str());
            let ghost head = inked(lines@);
            let ghost goal = indented(texts(shown@));
            let mut i: usize = 0;
            proof {
                assert(inked(lines@) =~= head + goal.take(0));
            }
            while i < shown.len()
                invariant
                    i <= shown.len(),
                    goal == indented(texts(shown@)),
                    inked(lines@) == head + goal.take(i as int),
                decreases shown.len() - i,
            {
                let text = concat2("    ", shown[i].as_str());
                add_line(&mut lines, Line::one(text.as_str(), Style::ink(Color::White)));
                proof {
                    assert(texts(shown@)[i as int] == shown@[i as int]@);
                    assert(goal[i as int] == one(text@, ink(Color::White)));
                    assert(head + goal.take(i + 1) =~= (head + goal.take(i as int)).push(
                        goal[i as int],
                    ));
                }
                i = i + 1;
            }
            proof {
                assert(goal.take(goal.len() as int) =~= goal);
            }
            lines
        },
    }
}

fn summarize_profiles(profiles: &Vec<Profile>) -> (r: Vec<Line>)
    ensures
        inked(r@) == profiles_summary(profile_views(profiles@)),
{
    let ghost all = profile_views(profiles@);
    proof {
        assert(all.len() == profiles@.len());
    }
    if profiles.len() == 0 {
        return just(Line::one("    none", Style::ink(Color::DarkGray)));
    }
    let mut lines = no_lines();
    let mut i: usize = 0;
    while i < profiles.len()
        invariant
            i <= profiles.len(),
            all == profile_views(profiles@),
            inked(lines@) == profile_lines(all, i as int),
        decreases profiles.len() - i,
    {
        proof {
            assert(all[i as int] == profiles@[i as int]@);
        }
        add_line(
            &mut lines,
            Line::two(
                "    ",
                Style::bare(),
                profiles[i].name.as_str(),
                Style::bold(Color::Magenta),
            ),
        );
        add_lines(
            &mut lines,
            map_rows(&profiles[i].params, "      ", Color::DarkGray, Color::White),
        );
        i = i + 1;
    }
    lines
}

/// The request form as a pane. `focused` counts the fields, then the five rows below
/// them.
pub fn draw_new_request(
    area: Rect,
    fields: &Vec<(String, String)>,
    focused: usize,
    edit: &Edit,
    profiles: &Vec<Profile>,
    headers: &StrMap,
    query: &StrMap,
    body: Option<&Body>,
    is_edit: bool,
    global: bool,
    dirty: bool,
    error: Option<&str>,
) -> (r: Pane)
    ensures
        r@ == framed(
            titled(
                if is_edit {
                    " Edit Request "@
                } else {
                    " New Request "@
                },
                dirty,
            ),
            Color::Green,
            request_drawn(
                rows_of(fields@),
                focused as int,
                edit@,
                profile_views(profiles@),
                headers@,
                query@,
                match body {
                    Some(b) => Some(b@),
                    None => None,
                },
                global,
                str_opt(error),
                inside(area.width),
            ),
            area,
        ),
{
    proof {
        assert(rows_of(fields@).len() == fields@.len());
    }
    let n: usize = fields.len();
    let below: usize = if focused >= n {
        focused - n
    } else {
        5
    };
    let mut canvas = put_fields(fields, focused, edit, interior(area));
    let on = below == 0;
    let scope = if global {
        action_row("[x] global", Color::Cyan, "Enter to toggle", on)
    } else {
        action_row("[ ] global", Color::DarkGray, "Enter to toggle", on)
    };
    canvas.row(just(scope), on);
    canvas.gap();
    let on = below == 1;
    canvas.row(open_row("headers", summarize_map(headers), on), on);
    canvas.gap();
    let on = below == 2;
    canvas.row(open_row("query params", summarize_map(query), on), on);
    canvas.gap();
    let on = below == 3;
    canvas.row(open_row("body", summarize_body(body), on), on);
    canvas.gap();
    let on = below == 4;
    canvas.row(open_row("profiles", summarize_profiles(profiles), on), on);
    canvas.gap();
    put_error(&mut canvas, error);
    let title = pane_title(
        if is_edit {
            " Edit Request "
        } else {
            " New Request "
        },
        dirty,
    );
    frame(title, Color::Green, canvas, area)
}

// ─── Pairs ────────────────────────────────────────────────────────────────────

/// The label of a field of a pair, which counts from one.
pub open spec fn pair_label(noun: Seq<char>, i: int, part: Seq<char>) -> Seq<char> {
    "  "@ + noun + " "@ + decimal((i + 1) as nat) + part
}

/// The first `k` pairs, two fields each; `2i` and `2i + 1` are the fields of pair `i`.
pub open spec fn pairs_drawn(
    d: Drawn,
    pairs: Seq<Row>,
    noun: Seq<char>,
    first: Seq<char>,
    focused: int,
    edit: EditView,
    width: u16,
    k: int,
) -> Drawn
    decreases k,
{
    if k <= 0 {
        d
    } else {
        let i = k - 1;
        let before = pairs_drawn(d, pairs, noun, first, focused, edit, width, i);
        let named = row(
            before,
            field_lines(
                pair_label(noun, i, first),
                false,
                pairs[i].0,
                focused == 2 * i,
                edit,
                Color::Green,
                width,
            ),
            focused == 2 * i,
        );
        gap(
            row(
                named,
                field_lines(
                    pair_label(noun, i, " value"@),
                    false,
                    pairs[i].1,
                    focused == 2 * i + 1,
                    edit,
                    Color::Green,
                    width,
                ),
                focused == 2 * i + 1,
            ),
        )
    }
}

/// The focus as a number; -1 for none.
pub open spec fn focus_on(focused: Option<usize>) -> int {
    match focused {
        Some(n) => n as int,
        None => -1,
    }
}

fn label_of(noun: &str, i: usize, part: &str) -> (r: String)
    requires
        i < usize::MAX,
    ensures
        r@ == pair_label(noun@, i as int, part@),
{
    let mut r = "  ".to_owned();
    r.append(noun);
    r.append(" ");
    r.append(decimal_string(i as u128 + 1).as_str());
    r.append(part);
    r
}

fn put_pairs(
    canvas: &mut Canvas,
    pairs: &Vec<(String, String)>,
    noun: &str,
    first: &str,
    focused: Option<usize>,
    edit: &Edit,
    width: u16,
)
    ensures
        final(canvas)@ == pairs_drawn(
            old(canvas)@,
            rows_of(pairs@),
            noun@,
            first@,
            focus_on(focused),
            edit@,
            width,
            pairs.len() as int,
        ),
{
    let ghost d = canvas@;
    let ghost rows = rows_of(pairs@);
    let mut i: usize = 0;
    while i < pairs.len()
        invariant
            i <= pairs.len(),
            rows == rows_of(pairs@),
            canvas@ == pairs_drawn(
                d,
                rows,
                noun@,
                first@,
                focus_on(focused),
                edit@,
                width,
                i as int,
            ),
        decreases pairs.len() - i,
    {
        proof {
            assert(rows[i as int] == (pairs@[i as int].0@, pairs@[i as int].1@));
        }
        let (on_name, on_value) = match focused {
            Some(n) => (n / 2 == i && n % 2 == 0, n / 2 == i && n % 2 == 1),
            None => (false, false),
        };
        let label = label_of(noun, i, first);
        let lines = field(
            label.as_str(),
            false,
            pairs[i].0.as_str(),
            on_name,
            edit,
            Color::Green,
            width,
        );
        canvas.row(lines, on_name);
        let label = label_of(noun, i, " value");
        let lines = field(
            label.as_str(),
            false,
            pairs[i].1.as_str(),
            on_value,
            edit,
            Color::Green,
            width,
        );
        canvas.row(lines, on_value);
        canvas.gap();
        i = i + 1;
    }
}

/// The pane of headers or of query parameters.
pub open spec fn edit_pairs_drawn(
    kind: PairKind,
    pairs: Seq<Row>,
    focused: int,
    edit: EditView,
    error: Option<Seq<char>>,
    width: u16,
) -> Drawn {
    let d = pairs_drawn(
        fresh(),
        pairs,
        kind.row_noun(),
        " name"@,
        focused,
        edit,
        width,
        pairs.len() as int,
    );
    let d = if pairs.len() == 0 {
        gap(put(d, seq![note(kind.pane_hint())]))
    } else {
        d
    };
    with_error(d, error)
}

/// The pane of headers or of query parameters.
pub fn draw_edit_pairs(
    area: Rect,
    kind: PairKind,
    pairs: &Vec<(String, String)>,
    focused: usize,
    edit: &Edit,
    unsaved: bool,
    error: Option<&str>,
) -> (r: Pane)
    ensures
        r@ == framed(
            titled(kind.pane_name(), unsaved),
            Color::Cyan,
            edit_pairs_drawn(
                kind,
                rows_of(pairs@),
                focused as int,
                edit@,
                str_opt(error),
                inside(area.width),
            ),
            area,
        ),
{
    proof {
        assert(rows_of(pairs@).len() == pairs@.len());
    }
    let mut canvas = Canvas::fresh();
    put_pairs(&mut canvas, pairs, kind.noun(), " name", Some(focused), edit, interior(area));
    if pairs.len() == 0 {
        canvas.put_line(Line::one(kind.empty_hint(), Style::ink(Color::DarkGray)));
        canvas.gap();
    }
    put_error(&mut canvas, error);
    frame(pane_title(kind.title(), unsaved), Color::Cyan, canvas, area)
}

/// The form of one profile.
pub open spec fn profile_drawn(
    name: Seq<char>,
    params: Seq<Row>,
    focused: int,
    edit: EditView,
    error: Option<Seq<char>>,
    width: u16,
) -> Drawn {
    let d = gap(
        row(
            fresh(),
            field_lines("  profile name"@, true, name, focused == 0, edit, Color::Green, width),
            focused == 0,
        ),
    );
    with_error(
        pairs_drawn(
            d,
            params,
            "param"@,
            " key"@,
            focused - 1,
            edit,
            width,
            params.len() as int,
        ),
        error,
    )
}

/// The form of one profile.
pub fn draw_new_profile(
    area: Rect,
    name: &str,
    params: &Vec<(String, String)>,
    focused: usize,
    edit: &Edit,
    unsaved: bool,
    error: Option<&str>,
    is_edit: bool,
) -> (r: Pane)
    ensures
        r@ == framed(
            titled(
                if is_edit {
                    " Edit Profile "@
                } else {
                    " New Profile "@
                },
                unsaved,
            ),
            Color::Magenta,
            profile_drawn(
                name@,
                rows_of(params@),
                focused as int,
                edit@,
                str_opt(error),
                inside(area.width),
            ),
            area,
        ),
{
    proof {
        assert(rows_of(params@).len() == params@.len());
    }
    let width: u16 = interior(area);
    let mut canvas = Canvas::fresh();
    let lines = field("  profile name", true, name, focused == 0, edit, Color::Green, width);
    canvas.row(lines, focused == 0);
    canvas.gap();
    let below = if focused == 0 {
        None
    } else {
        Some(focused - 1)
    };
    put_pairs(&mut canvas, params, "param", " key", below, edit, width);
    put_error(&mut canvas, error);
    let title = pane_title(
        if is_edit {
            " Edit Profile "
        } else {
            " New Profile "
        },
        unsaved,
    );
    frame(title, Color::Magenta, canvas, area)
}

// ─── Variables ────────────────────────────────────────────────────────────────

/// The first `k` variables, one field each.
pub open spec fn vars_drawn(vars: Seq<Row>, focused: int, edit: EditView, width: u16, k: int) -> Drawn
    decreases k,
{
    if k <= 0 {
        fresh()
    } else {
        let i = k - 1;
        gap(
            row(
                vars_drawn(vars, focused, edit, width, i),
                field_lines(
                    "  "@ + vars[i].0,
                    false,
                    vars[i].1,
                    i == focused,
                    edit,
                    Color::Yellow,
                    width,
                ),
                i == focused,
            ),
        )
    }
}

fn put_vars(vars: &Vec<(String, String)>, focused: usize, edit: &Edit, width: u16) -> (r: Canvas)
    ensures
        r@ == vars_drawn(rows_of(vars@), focused as int, edit@, width, vars.len() as int),
{
    let mut canvas = Canvas::fresh();
    let ghost rows = rows_of(vars@);
    let mut i: usize = 0;
    while i < vars.len()
        invariant
            i <= vars.len(),
            rows == rows_of(vars@),
            canvas@ == vars_drawn(rows, focused as int, edit@, width, i as int),
        decreases vars.len() - i,
    {
        let label = concat2("  ", vars[i].0.as_str());
        proof {
            assert(rows[i as int] == (vars@[i as int].0@, vars@[i as int].1@));
        }
        let lines = field(
            label.as_str(),
            false,
            vars[i].1.as_str(),
            i == focused,
            edit,
            Color::Yellow,
            width,
        );
        canvas.row(lines, i == focused);
        canvas.gap();
        i = i + 1;
    }
    canvas
}

/// The form of variables.
pub fn draw_var_input(
    area: Rect,
    vars: &Vec<(String, String)>,
    focused: usize,
    edit: &Edit,
    entry_name: &str,
) -> (r: Pane)
    ensures
        r@ == framed(
            plain_title(" Variables — "@ + entry_name@ + " "@),
            Color::Yellow,
            vars_drawn(
                rows_of(vars@),
                focused as int,
                edit@,
                inside(area.width),
                vars.len() as int,
            ),
            area,
        ),
{
    let title = concat3(" Variables — ", entry_name, " ");
    let canvas = put_vars(vars, focused, edit, interior(area));
    frame(Line::one(title.as_str(), Style::bare()), Color::Yellow, canvas, area)
}

/// The form of a load test: the variables, and how often.
pub open spec fn test_drawn(
    vars: Seq<Row>,
    iterations: Seq<char>,
    focused: int,
    edit: EditView,
    width: u16,
) -> Drawn {
    let n = vars.len() as int;
    row(
        vars_drawn(vars, focused, edit, width, n),
        field_lines(
            "  iterations"@,
            false,
            iterations,
            focused == n,
            edit,
            Color::Yellow,
            width,
        ),
        focused == n,
    )
}

/// The form of a load test.
pub fn draw_test_input(
    area: Rect,
    vars: &Vec<(String, String)>,
    iterations: &str,
    focused: usize,
    edit: &Edit,
    entry_name: &str,
) -> (r: Pane)
    ensures
        r@ == framed(
            plain_title(" Test — "@ + entry_name@ + " "@),
            Color::Cyan,
            test_drawn(
                rows_of(vars@),
                iterations@,
                focused as int,
                edit@,
                inside(area.width),
            ),
            area,
        ),
{
    proof {
        assert(rows_of(vars@).len() == vars@.len());
    }
    let width: u16 = interior(area);
    let title = concat3(" Test — ", entry_name, " ");
    let mut canvas = put_vars(vars, focused, edit, width);
    let on = focused == vars.len();
    canvas.row(field("  iterations", false, iterations, on, edit, Color::Yellow, width), on);
    frame(Line::one(title.as_str(), Style::bare()), Color::Cyan, canvas, area)
}

// ─── Profiles ─────────────────────────────────────────────────────────────────

/// How many variables a profile has, in words.
pub open spec fn var_count(params: TextMap) -> Seq<char> {
    let n = listing(params).len();
    "   "@ + decimal(n) + " var"@ + (if n == 1 {
        Seq::empty()
    } else {
        "s"@
    })
}

/// The mark of a selected row.
pub open spec fn marker(selected: bool) -> Seq<char> {
    if selected {
        "  ▶ "@
    } else {
        "    "@
    }
}

/// One profile of the list; its variables are shown while it is selected.
pub open spec fn listed_profile(p: ProfileView, selected: bool) -> Seq<Inked> {
    let head = line_of(
        seq![
            (marker(selected), ink(Color::Magenta)),
            (
                p.name,
                bold(
                    if selected {
                        Color::White
                    } else {
                        Color::Magenta
                    },
                ),
            ),
            (var_count(p.params), ink(Color::DarkGray)),
        ],
    );
    if selected {
        seq![head] + map_lines(p.params, "      "@, Color::DarkGray, Color::White)
    } else {
        seq![head]
    }
}

/// The first `k` profiles of the list.
pub open spec fn profiles_listed(profiles: Seq<ProfileView>, selected: int, k: int) -> Drawn
    decreases k,
{
    if k <= 0 {
        fresh()
    } else {
        let i = k - 1;
        gap(
            row(
                profiles_listed(profiles, selected, i),
                listed_profile(profiles[i], i == selected),
                i == selected,
            ),
        )
    }
}

/// The list of profiles, with a row for a new one behind it.
pub open spec fn profile_list_drawn(profiles: Seq<ProfileView>, selected: int) -> Drawn {
    let n = profiles.len() as int;
    let fresh_selected = selected >= n;
    let d = row(
        profiles_listed(profiles, selected, n),
        seq![
            two(
                (marker(fresh_selected), ink(Color::Green)),
                (
                    "+ new profile"@,
                    bold(
                        if fresh_selected {
                            Color::White
                        } else {
                            Color::Green
                        },
                    ),
                ),
            ),
        ],
        fresh_selected,
    );
    if n == 0 {
        put(
            gap(d),
            seq![
                note("  No profiles yet. A profile bundles {{VAR}} values under a name,"@),
                note("  so you can switch environments without retyping them."@),
            ],
        )
    } else {
        d
    }
}

fn list_profile(p: &Profile, selected: bool) -> (r: Vec<Line>)
    ensures
        inked(r@) == listed_profile(p@, selected),
{
    let n: usize = p.params.len();
    let mut count = "   ".to_owned();
    count.append(decimal_string(n as u128).as_str());
    count.append(" var");
    if n != 1 {
        count.append("s");
    } else {
        proof {
            assert(count@ + Seq::<char>::empty() =~= count@);
        }
    }
    let mut spans = no_spans();
    put_text(
        &mut spans,
        if selected {
            "  ▶ "
        } else {
            "    "
        },
        Style::ink(Color::Magenta),
    );
    put_text(
        &mut spans,
        p.name.as_str(),
        Style::bold(
            if selected {
                Color::White
            } else {
                Color::Magenta
            },
        ),
    );
    put_text(&mut spans, count.as_str(), Style::ink(Color::DarkGray));
    proof {
        assert(inks(spans@) =~= listed_profile(p@, selected)[0].spans);
    }
    let mut lines = just(Line::of(spans));
    if selected {
        add_lines(&mut lines, map_rows(&p.params, "      ", Color::DarkGray, Color::White));
    }
    lines
}

/// The list of profiles of a request.
pub fn draw_profile_list(
    area: Rect,
    profiles: &Vec<Profile>,
    selected: usize,
    request_name: &str,
    unsaved: bool,
) -> (r: Pane)
    ensures
        r@ == framed(
            titled(" Profiles — "@ + request_name@ + " "@, unsaved),
            Color::Magenta,
            profile_list_drawn(profile_views(profiles@), selected as int),
            area,
        ),
{
    let ghost all = profile_views(profiles@);
    proof {
        assert(all.len() == profiles@.len());
    }
    let mut canvas = Canvas::fresh();
    let mut i: usize = 0;
    while i < profiles.len()
        invariant
            i <= profiles.len(),
            all == profile_views(profiles@),
            canvas@ == profiles_listed(all, selected as int, i as int),
        decreases profiles.len() - i,
    {
        proof {
            assert(all[i as int] == profiles@[i as int]@);
        }
        canvas.row(list_profile(&profiles[i], i == selected), i == selected);
        canvas.gap();
        i = i + 1;
    }
    let last = selected >= profiles.len();
    let line = if last {
        Line::two("  ▶ ", Style::ink(Color::Green), "+ new profile", Style::bold(Color::White))
    } else {
        Line::two("    ", Style::ink(Color::Green), "+ new profile", Style::bold(Color::Green))
    };
    canvas.row(just(line), last);
    if profiles.len() == 0 {
        canvas.gap();
        let mut hint = just(
            Line::one(
                "  No profiles yet. A profile bundles {{VAR}} values under a name,",
                Style::ink(Color::DarkGray),
            ),
        );
        add_line(
            &mut hint,
            Line::one(
                "  so you can switch environments without retyping them.",
                Style::ink(Color::DarkGray),
            ),
        );
        proof {
            assert(inked(hint@) =~= seq![
                note("  No profiles yet. A profile bundles {{VAR}} values under a name,"@),
                note("  so you can switch environments without retyping them."@),
            ]);
        }
        canvas.put(hint);
    }
    let title = concat3(" Profiles — ", request_name, " ");
    frame(pane_title(title.as_str(), unsaved), Color::Magenta, canvas, area)
}

/// The style of a row of the picker.
pub open spec fn pick_ink(selected: bool, at_rest: Color) -> Style {
    if selected {
        bold_badge(Color::White, Color::Blue)
    } else {
        ink(at_rest)
    }
}

fn pick_style(selected: bool, at_rest: Color) -> (r: Style)
    ensures
        r == pick_ink(selected, at_rest),
{
    if selected {
        Style::bold_badge(Color::White, Color::Blue)
    } else {
        Style::ink(at_rest)
    }
}

/// The first `k` profiles of the picker, below the row for none.
pub open spec fn picks_drawn(profiles: Seq<ProfileView>, selected: int, k: int) -> Drawn
    decreases k,
{
    if k <= 0 {
        gap(
            row(
                fresh(),
                seq![one("  (no profile)"@, pick_ink(selected == 0, Color::DarkGray))],
                selected == 0,
            ),
        )
    } else {
        let p = profiles[k - 1];
        gap(
            row(
                picks_drawn(profiles, selected, k - 1),
                seq![one("  "@ + p.name, pick_ink(selected == k, Color::White))] + map_lines(
                    p.params,
                    "    "@,
                    Color::DarkGray,
                    Color::DarkGray,
                ),
                selected == k,
            ),
        )
    }
}

/// The profile picker.
pub fn draw_profile_select(area: Rect, profiles: &Vec<Profile>, selected: usize, entry_name: &str) -> (r:
    Pane)
    ensures
        r@ == framed(
            plain_title(" Profile — "@ + entry_name@ + " "@),
            Color::Magenta,
            picks_drawn(profile_views(profiles@), selected as int, profiles.len() as int),
            area,
        ),
{
    let ghost all = profile_views(profiles@);
    let mut canvas = Canvas::fresh();
    canvas.row(
        just(Line::one("  (no profile)", pick_style(selected == 0, Color::DarkGray))),
        selected == 0,
    );
    canvas.gap();
    let mut i: usize = 0;
    while i < profiles.len()
        invariant
            i <= profiles.len(),
            all == profile_views(profiles@),
            canvas@ == picks_drawn(all, selected as int, i as int),
        decreases profiles.len() - i,
    {
        proof {
            assert(all[i as int] == profiles@[i as int]@);
        }
        let on = selected > 0 && selected - 1 == i;
        let name = concat2("  ", profiles[i].name.as_str());
        let mut lines = just(Line::one(name.as_str(), pick_style(on, Color::White)));
        add_lines(
            &mut lines,
            map_rows(&profiles[i].params, "    ", Color::DarkGray, Color::DarkGray),
        );
        canvas.row(lines, on);
        canvas.gap();
        i = i + 1;
    }
    let title = concat3(" Profile — ", entry_name, " ");
    frame(Line::one(title.as_str(), Style::bare()), Color::Magenta, canvas, area)
}

} // verus!
