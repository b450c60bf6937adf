//! Small pieces of panes: titles, rows, colours, and text taken apart into spans.
use vstd::prelude::*;
use vstd::string::*;

use crate::tester::{repeat, repeated};
use crate::text::{
    chars_of, concat2, decimal, decimal_string, find_at, find_from, lemma_find_from, lines_of, occurs_at,
    slice_string, str_eq, text_lines, texts, trim_start, trim_start_index, white,
};
use crate::theme::Color;
use crate::view::{
    add_spans, bare, bold, ink, inks, line_of, line_text, no_spans, put_text, Ink, Inked, Line, Span, Style,
};
use crate::vars::placeholders_from;
use crate::view_field::Rect;

verus! {

// ─── Colours ──────────────────────────────────────────────────────────────────

/// The colour of a status.
pub open spec fn color_of_status(status: u16) -> Color {
    if status < 300 {
        Color::Green
    } else if status < 400 {
        Color::Cyan
    } else if status < 500 {
        Color::Yellow
    } else {
        Color::Red
    }
}

/// The colour of a status.
pub fn status_color(status: u16) -> (r: Color)
    ensures
        r == color_of_status(status),
{
    if status < 300 {
        Color::Green
    } else if status < 400 {
        Color::Cyan
    } else if status < 500 {
        Color::Yellow
    } else {
        Color::Red
    }
}

/// The colour of a method.
pub open spec fn color_of_method(method: Seq<char>) -> Color {
    if method == "GET"@ {
        Color::Cyan
    } else if method == "POST"@ {
        Color::Green
    } else if method == "PUT"@ || method == "PATCH"@ {
        Color::Yellow
    } else if method == "DELETE"@ {
        Color::Red
    } else {
        Color::White
    }
}

/// The colour of a method.
pub fn method_color(method: &str) -> (r: Color)
    ensures
        r == color_of_method(method@),
{
    if str_eq(method, "GET") {
        Color::Cyan
    } else if str_eq(method, "POST") {
        Color::Green
    } else if str_eq(method, "PUT") || str_eq(method, "PATCH") {
        Color::Yellow
    } else if str_eq(method, "DELETE") {
        Color::Red
    } else {
        Color::White
    }
}

// ─── Titles and rows ──────────────────────────────────────────────────────────

/// A pane's title, with a mark where the request has changes that are not written.
pub open spec fn titled(title: Seq<char>, unsaved: bool) -> Inked {
    line_of(
        if unsaved {
            seq![(title, bare()), ("● unsaved "@, bold(Color::Yellow))]
        } else {
            seq![(title, bare())]
        },
    )
}

/// A pane's title.
pub fn pane_title(title: &str, unsaved: bool) -> (r: Line)
    ensures
        r@ == titled(title@, unsaved),
{
    let mut spans = no_spans();
    put_text(&mut spans, title, Style::bare());
    if unsaved {
        put_text(&mut spans, "● unsaved ", Style::bold(Color::Yellow));
    }
    proof {
        assert(inks(spans@) =~= titled(title@, unsaved).spans);
    }
    Line::of(spans)
}

/// A row without text to edit: marked and in green while it has the focus, with what
/// Enter does there.
pub open spec fn action_inks(label: Seq<char>, color: Color, hint: Seq<char>, is_focused: bool) -> Inked {
    line_of(
        if is_focused {
            seq![
                ("▸ "@, bold(Color::Green)),
                (label, bold(Color::Green)),
                ("  "@ + hint, ink(Color::DarkGray)),
            ]
        } else {
            seq![("  "@, bold(Color::Green)), (label, bold(color))]
        },
    )
}

/// A row without text to edit.
pub fn action_row(label: &str, color: Color, hint: &str, is_focused: bool) -> (r: Line)
    ensures
        r@ == action_inks(label@, color, hint@, is_focused),
{
    let mut spans = no_spans();
    if is_focused {
        put_text(&mut spans, "▸ ", Style::bold(Color::Green));
        put_text(&mut spans, label, Style::bold(Color::Green));
        put_text(&mut spans, concat2("  ", hint).as_str(), Style::ink(Color::DarkGray));
    } else {
        put_text(&mut spans, "  ", Style::bold(Color::Green));
        put_text(&mut spans, label, Style::bold(color));
    }
    proof {
        assert(inks(spans@) =~= action_inks(label@, color, hint@, is_focused).spans);
    }
    Line::of(spans)
}

/// How many lines of a body the request form shows.
pub const BODY_PREVIEW_LINES: usize = 6;

/// A body as the request form shows it: its first lines, then how many are left.
pub open spec fn previewed(data: Seq<char>) -> Seq<Seq<char>> {
    let lines = text_lines(data);
    if lines.len() <= BODY_PREVIEW_LINES {
        lines
    } else {
        let hidden = (lines.len() - BODY_PREVIEW_LINES) as nat;
        lines.take(BODY_PREVIEW_LINES as int).push(
            "… "@ + decimal(hidden) + " more line"@ + (if hidden == 1 {
                Seq::empty()
            } else {
                "s"@
            }),
        )
    }
}

/// A body as the request form shows it.
pub fn body_preview(data: &str) -> (r: Vec<String>)
    ensures
        texts(r@) == previewed(data@),
{
    let mut lines = lines_of(data);
    let ghost all = texts(lines@);
    proof {
        assert(all.len() == lines@.len());
    }
    if lines.len() <= BODY_PREVIEW_LINES {
        return lines;
    }
    let hidden: usize = lines.len() - BODY_PREVIEW_LINES;
    lines.truncate(BODY_PREVIEW_LINES);
    proof {
        assert(texts(lines@) =~= all.take(BODY_PREVIEW_LINES as int));
    }
    let mut note = "… ".to_owned();
    note.append(decimal_string(hidden as u128).as_str());
    note.append(" more line");
    if hidden != 1 {
        note.append("s");
    } else {
        proof {
            assert(note@ + Seq::<char>::empty() =~= note@);
        }
    }
    let ghost before = lines@;
    lines.push(note);
    proof {
        assert(texts(lines@) =~= texts(before).push(note@));
    }
    lines
}

// ─── Placeholders ─────────────────────────────────────────────────────────────

/// The style of a placeholder.
pub open spec fn var_ink() -> Style {
    bold(Color::Magenta)
}

/// A text from the place `from` on: placeholders in a style of their own, the rest in
/// `base`. An opening that nothing closes is ordinary text.
pub open spec fn var_inks_from(s: Seq<char>, from: int, base: Style) -> Seq<Ink>
    decreases s.len() - from,
{
    let open = find_from(s, "{{"@, from);
    let close = find_from(s, "}}"@, open + 2);
    if from < 0 || from >= s.len() {
        Seq::empty()
    } else if open < from || open + 2 > s.len() || close < open + 2 || close + 2 > s.len() {
        seq![(s.skip(from), base)]
    } else {
        let before = if open > from {
            seq![(s.subrange(from, open), base)]
        } else {
            Seq::empty()
        };
        before + seq![(s.subrange(open, close + 2), var_ink())] + var_inks_from(s, close + 2, base)
    }
}

/// A text with its placeholders in a style of their own.
pub open spec fn var_inks(s: Seq<char>, base: Style) -> Seq<Ink> {
    var_inks_from(s, 0, base)
}

/// Splits a text so that its placeholders stand out.
pub fn var_spans(text: &str, base: Style) -> (r: Vec<Span>)
    ensures
        inks(r@) == var_inks(text@, base),
{
    let v = chars_of(text);
    let open_mark = chars_of("{{");
    let close_mark = chars_of("}}");
    proof {
        reveal_strlit("{{");
        reveal_strlit("}}");
    }
    let mut spans = no_spans();
    let mut from: usize = 0;
    let ghost all = var_inks(text@, base);
    proof {
        assert(inks(spans@) + all =~= all);
    }
    while from < v.len()
        invariant
            from <= v.len(),
            v@ == text@,
            open_mark@ == "{{"@,
            close_mark@ == "}}"@,
            open_mark@.len() == 2,
            close_mark@.len() == 2,
            all == var_inks(text@, base),
            all == inks(spans@) + var_inks_from(v@, from as int, base),
        decreases v.len() - from,
    {
        let ghost before = inks(spans@);
        let open = find_at(&v, &open_mark, from);
        let close = match open {
            Some(i) => find_at(&v, &close_mark, i + 2),
            None => None,
        };
        match (open, close) {
            (Some(i), Some(k)) => {
                if i > from {
                    let head = slice_string(&v, from, i);
                    put_text(&mut spans, head.as_str(), base);
                }
                let name = slice_string(&v, i, k + 2);
                put_text(&mut spans, name.as_str(), Style::bold(Color::Magenta));
                proof {
                    assert(inks(spans@) + var_inks_from(v@, k + 2, base) =~= before + var_inks_from(
                        v@,
                        from as int,
                        base,
                    ));
                }
                from = k + 2;
            },
            _ => {
                let rest = slice_string(&v, from, v.len());
                proof {
                    assert(rest@ =~= v@.skip(from as int));
                }
                put_text(&mut spans, rest.as_str(), base);
                proof {
                    assert(inks(spans@) =~= all);
                }
                return spans;
            },
        }
    }
    proof {
        assert(inks(spans@) =~= all);
    }
    spans
}

/// The texts of the spans in the style of placeholders.
pub open spec fn marked(spans: Seq<Ink>) -> Seq<Seq<char>>
    decreases spans.len(),
{
    if spans.len() == 0 {
        Seq::empty()
    } else if spans[0].1 == var_ink() {
        seq![spans[0].0] + marked(spans.drop_first())
    } else {
        marked(spans.drop_first())
    }
}

/// Placeholder names in their braces.
pub open spec fn braced(names: Seq<Seq<char>>) -> Seq<Seq<char>> {
    names.map_values(|n: Seq<char>| "{{"@ + n + "}}"@)
}

proof fn lemma_nothing_closes(s: Seq<char>, from: int, open: int)
    requires
        0 <= from <= open,
        find_from(s, "}}"@, from) > s.len(),
    ensures
        placeholders_from(s, open) == Seq::<Seq<char>>::empty(),
    decreases s.len() - open,
{
    reveal_strlit("}}");
    reveal_strlit("{{");
    let at = find_from(s, "{{"@, open);
    lemma_find_from(s, "{{"@, open);
    if !(at < open || at + 2 > s.len()) {
        let close = find_from(s, "}}"@, at + 2);
        lemma_find_from(s, "}}"@, at + 2);
        lemma_find_from(s, "}}"@, from);
        if close <= s.len() {
            assert(occurs_at(s, "}}"@, close));
        }
        lemma_nothing_closes(s, from, at + 2);
    }
}

proof fn lemma_marked(s: Seq<char>, from: int, base: Style)
    requires
        0 <= from,
        base != var_ink(),
    ensures
        marked(var_inks_from(s, from, base)) == braced(placeholders_from(s, from)),
        from <= s.len() ==> line_text(var_inks_from(s, from, base)) == s.skip(from),
    decreases s.len() - from,
{
    reveal_strlit("}}");
    reveal_strlit("{{");
    let open = find_from(s, "{{"@, from);
    let close = find_from(s, "}}"@, open + 2);
    lemma_find_from(s, "{{"@, from);
    let spans = var_inks_from(s, from, base);
    if from >= s.len() {
        assert(placeholders_from(s, from) =~= Seq::empty());
        assert(braced(placeholders_from(s, from)) =~= Seq::empty());
        if from == s.len() {
            assert(s.skip(from) =~= Seq::empty());
        }
    } else if open < from || open + 2 > s.len() || close < open + 2 || close + 2 > s.len() {
        if !(open < from || open + 2 > s.len()) {
            lemma_find_from(s, "}}"@, open + 2);
            if close <= s.len() {
                assert(occurs_at(s, "}}"@, close));
            }
            lemma_nothing_closes(s, open + 2, open + 2);
        }
        assert(braced(placeholders_from(s, from)) =~= Seq::empty());
        assert(spans.drop_first() =~= Seq::empty());
        assert(spans.drop_last() =~= Seq::empty());
        assert(marked(spans.drop_first()) =~= Seq::empty());
        assert(line_text(spans.drop_last()) =~= Seq::empty());
        assert(line_text(spans) =~= s.skip(from));
    } else {
        lemma_find_from(s, "}}"@, open + 2);
        lemma_marked(s, close + 2, base);
        lemma_marked_open(s, from, open, close, base);
    }
}

proof fn lemma_braces(s: Seq<char>, open: int, close: int)
    requires
        0 <= open,
        open + 2 <= close,
        close + 2 <= s.len(),
        occurs_at(s, "{{"@, open),
        occurs_at(s, "}}"@, close),
    ensures
        s.subrange(open, close + 2) == "{{"@ + s.subrange(open + 2, close) + "}}"@,
{
    reveal_strlit("}}");
    reveal_strlit("{{");
    assert(s.subrange(open, open + 2) =~= "{{"@);
    assert(s.subrange(close, close + 2) =~= "}}"@);
    assert(s.subrange(open, close + 2) =~= s.subrange(open, open + 2) + s.subrange(open + 2, close)
        + s.subrange(close, close + 2));
}

proof fn lemma_marked_open(s: Seq<char>, from: int, open: int, close: int, base: Style)
    requires
        0 <= from <= open,
        open + 2 <= close,
        close + 2 <= s.len(),
        open == find_from(s, "{{"@, from),
        close == find_from(s, "}}"@, open + 2),
        occurs_at(s, "{{"@, open),
        occurs_at(s, "}}"@, close),
        base != var_ink(),
        marked(var_inks_from(s, close + 2, base)) == braced(placeholders_from(s, close + 2)),
        line_text(var_inks_from(s, close + 2, base)) == s.skip(close + 2),
    ensures
        marked(var_inks_from(s, from, base)) == braced(placeholders_from(s, from)),
        line_text(var_inks_from(s, from, base)) == s.skip(from),
{
    let rest = var_inks_from(s, close + 2, base);
    let spans = var_inks_from(s, from, base);
    let whole = s.subrange(open, close + 2);
    lemma_braces(s, open, close);
    let first = (whole, var_ink());
    let tail = seq![first] + rest;
    assert(tail.drop_first() =~= rest);
    assert(tail[0] == first);
    assert(marked(tail) == seq![whole] + marked(rest));
    assert(braced(placeholders_from(s, from)) =~= seq![whole] + braced(
        placeholders_from(s, close + 2),
    ));
    lemma_text_cons(first, rest);
    assert(line_text(tail) =~= s.skip(open));
    if open > from {
        let head = (s.subrange(from, open), base);
        assert(spans =~= seq![head] + tail);
        assert(spans.drop_first() =~= tail);
        assert(spans[0] == head);
        lemma_text_cons(head, tail);
        assert(line_text(spans) =~= s.skip(from));
    } else {
        assert(spans =~= tail);
    }
}

proof fn lemma_text_cons(first: Ink, rest: Seq<Ink>)
    ensures
        line_text(seq![first] + rest) == first.0 + line_text(rest),
    decreases rest.len(),
{
    let all = seq![first] + rest;
    if rest.len() == 0 {
        assert(all.drop_last() =~= Seq::empty());
        assert(line_text(all.drop_last()) =~= Seq::empty());
        assert(line_text(all) =~= first.0 + line_text(rest));
    } else {
        lemma_text_cons(first, rest.drop_last());
        assert(all.drop_last() =~= seq![first] + rest.drop_last());
        assert(line_text(all) =~= first.0 + line_text(rest));
    }
}

/// What stands out in a text is exactly the placeholders that are asked for, and
/// nothing of the text is lost.
pub proof fn law_what_stands_out_is_what_is_asked_for(s: Seq<char>, base: Style)
    requires
        base != var_ink(),
    ensures
        marked(var_inks(s, base)) == braced(placeholders_from(s, 0)),
        line_text(var_inks(s, base)) == s,
{
    lemma_marked(s, 0, base);
    assert(s.skip(0) =~= s);
}

// ─── JSON ─────────────────────────────────────────────────────────────────────

/// A lone bracket, or an empty pair.
pub open spec fn is_bracket(s: Seq<char>) -> bool {
    s == "{"@ || s == "}"@ || s == "["@ || s == "]"@ || s == "{}"@ || s == "[]"@
}

/// The colour of a value as written, without a comma behind it.
pub open spec fn value_color(content: Seq<char>) -> Color {
    if content.len() > 0 && content[0] == '"' {
        Color::Green
    } else if content == "true"@ || content == "false"@ {
        Color::Magenta
    } else if content == "null"@ {
        Color::Red
    } else if is_bracket(content) {
        Color::DarkGray
    } else {
        Color::Cyan
    }
}

/// A value, and the comma behind it.
pub open spec fn value_inks(val: Seq<char>) -> Seq<Ink> {
    if val.len() > 0 && val.last() == ',' {
        seq![
            (val.drop_last(), ink(value_color(val.drop_last()))),
            (","@, ink(Color::DarkGray)),
        ]
    } else {
        seq![(val, ink(value_color(val)))]
    }
}

/// A line that is a bracket, perhaps with a comma.
pub open spec fn is_bracket_line(s: Seq<char>) -> bool {
    is_bracket(s) || s == "},"@ || s == "],"@ || s == "{},"@ || s == "[],"@
}

/// A line of JSON as text: its indent, and then a bracket, a key with its value, or a
/// value. The key ends at the first quote that a colon and a space follow.
pub open spec fn json_inks(line: Seq<char>) -> Seq<Ink> {
    let rest = trim_start(line);
    let indent = (line.take(line.len() - rest.len()), bare());
    let pos = find_from(rest, "\": "@, 0);
    if is_bracket_line(rest) {
        seq![indent, (rest, ink(Color::DarkGray))]
    } else if rest.len() > 0 && rest[0] == '"' && pos + 3 <= rest.len() {
        seq![
            indent,
            (rest.take(pos + 1), ink(Color::Yellow)),
            (": "@, ink(Color::DarkGray)),
        ] + value_inks(rest.skip(pos + 3))
    } else {
        seq![indent] + value_inks(rest)
    }
}

fn bracket(s: &str) -> (r: bool)
    ensures
        r == is_bracket(s@),
{
    str_eq(s, "{") || str_eq(s, "}") || str_eq(s, "[") || str_eq(s, "]") || str_eq(s, "{}")
        || str_eq(s, "[]")
}

fn bracket_line(s: &str) -> (r: bool)
    ensures
        r == is_bracket_line(s@),
{
    bracket(s) || str_eq(s, "},") || str_eq(s, "],") || str_eq(s, "{},") || str_eq(s, "[],")
}

/// Colours a value.
pub fn colorize_json_value(val: &str) -> (r: Vec<Span>)
    ensures
        inks(r@) == value_inks(val@),
{
    let v = chars_of(val);
    let comma = v.len() > 0 && v[v.len() - 1] == ',';
    let end: usize = if comma {
        v.len() - 1
    } else {
        v.len()
    };
    let content = slice_string(&v, 0, end);
    proof {
        if comma {
            assert(content@ =~= val@.drop_last());
        } else {
            assert(content@ =~= val@);
        }
    }
    let color = if end > 0 && v[0] == '"' {
        Color::Green
    } else if str_eq(content.as_str(), "true") || str_eq(content.as_str(), "false") {
        Color::Magenta
    } else if str_eq(content.as_str(), "null") {
        Color::Red
    } else if bracket(content.as_str()) {
        Color::DarkGray
    } else {
        Color::Cyan
    };
    let mut spans = no_spans();
    put_text(&mut spans, content.as_str(), Style::ink(color));
    if comma {
        put_text(&mut spans, ",", Style::ink(Color::DarkGray));
    }
    proof {
        assert(inks(spans@) =~= value_inks(val@));
    }
    spans
}

/// Colours a line of JSON.
pub fn colorize_json_line(line: &str) -> (r: Line)
    ensures
        r@ == line_of(json_inks(line@)),
{
    let v = chars_of(line);
    let at: usize = trim_start_index(&v);
    let indent = slice_string(&v, 0, at);
    let rest = slice_string(&v, at, v.len());
    proof {
        assert(rest@ =~= trim_start(line@));
        assert(indent@ =~= line@.take(line@.len() - rest@.len()));
    }
    let mut spans = no_spans();
    put_text(&mut spans, indent.as_str(), Style::bare());
    if bracket_line(rest.as_str()) {
        put_text(&mut spans, rest.as_str(), Style::ink(Color::DarkGray));
        proof {
            assert(inks(spans@) =~= json_inks(line@));
        }
        return Line::of(spans);
    }
    let w = chars_of(rest.as_str());
    if w.len() > 0 && w[0] == '"' {
        let mark = chars_of("\": ");
        proof {
            reveal_strlit("\": ");
        }
        match find_at(&w, &mark, 0) {
            Some(pos) => {
                let key = slice_string(&w, 0, pos + 1);
                let value = slice_string(&w, pos + 3, w.len());
                proof {
                    assert(key@ =~= rest@.take(pos + 1));
                    assert(value@ =~= rest@.skip(pos + 3));
                }
                put_text(&mut spans, key.as_str(), Style::ink(Color::Yellow));
                put_text(&mut spans, ": ", Style::ink(Color::DarkGray));
                add_spans(&mut spans, colorize_json_value(value.as_str()));
                proof {
                    assert(inks(spans@) =~= json_inks(line@));
                }
                return Line::of(spans);
            },
            None => {},
        }
    }
    add_spans(&mut spans, colorize_json_value(rest.as_str()));
    proof {
        assert(inks(spans@) =~= json_inks(line@));
    }
    Line::of(spans)
}

proof fn lemma_value_text(val: Seq<char>)
    ensures
        line_text(value_inks(val)) == val,
{
    reveal_strlit(",");
    let spans = value_inks(val);
    let none = Seq::<Ink>::empty();
    if val.len() > 0 && val.last() == ',' {
        let first = spans[0];
        let second = spans[1];
        assert(spans =~= seq![first] + (seq![second] + none));
        lemma_text_cons(first, seq![second] + none);
        lemma_text_cons(second, none);
        assert(val =~= val.drop_last() + ","@);
        assert(line_text(spans) =~= val);
    } else {
        assert(spans =~= seq![spans[0]] + none);
        lemma_text_cons(spans[0], none);
        assert(line_text(spans) =~= val);
    }
}

proof fn lemma_trim_start_is_end(s: Seq<char>)
    ensures
        trim_start(s).len() <= s.len(),
        s.skip(s.len() - trim_start(s).len()) == trim_start(s),
    decreases s.len(),
{
    if s.len() > 0 && white(s[0]) {
        let t = s.drop_first();
        lemma_trim_start_is_end(t);
        assert(s.skip(s.len() - trim_start(s).len()) =~= t.skip(t.len() - trim_start(t).len()));
    } else {
        assert(s.skip(0) =~= s);
    }
}

/// Colouring a line loses nothing of it.
pub proof fn law_colouring_keeps_the_text(line: Seq<char>)
    ensures
        line_text(json_inks(line)) == line,
{
    let spans = json_inks(line);
    let rest = trim_start(line);
    lemma_trim_start_is_end(line);
    let indent = (line.take(line.len() - rest.len()), bare());
    assert(line =~= indent.0 + rest);
    let pos = find_from(rest, "\": "@, 0);
    let none = Seq::<Ink>::empty();
    if is_bracket_line(rest) {
        let second = (rest, ink(Color::DarkGray));
        assert(spans =~= seq![indent] + (seq![second] + none));
        lemma_text_cons(indent, seq![second] + none);
        lemma_text_cons(second, none);
        assert(line_text(spans) =~= line);
    } else if rest.len() > 0 && rest[0] == '"' && pos + 3 <= rest.len() {
        reveal_strlit("\": ");
        reveal_strlit(": ");
        lemma_find_from(rest, "\": "@, 0);
        let key = (rest.take(pos + 1), ink(Color::Yellow));
        let colon = (": "@, ink(Color::DarkGray));
        let value = value_inks(rest.skip(pos + 3));
        lemma_value_text(rest.skip(pos + 3));
        assert(spans =~= seq![indent] + (seq![key] + (seq![colon] + value)));
        lemma_text_cons(indent, seq![key] + (seq![colon] + value));
        lemma_text_cons(key, seq![colon] + value);
        lemma_text_cons(colon, value);
        assert(occurs_at(rest, "\": "@, pos));
        assert(rest.subrange(pos, pos + 3) =~= "\": "@);
        assert(rest[pos + 1] == rest.subrange(pos, pos + 3)[1]);
        assert(rest[pos + 2] == rest.subrange(pos, pos + 3)[2]);
        assert(rest =~= rest.take(pos + 1) + ": "@ + rest.skip(pos + 3));
        assert(line_text(spans) =~= line);
    } else {
        lemma_value_text(rest);
        lemma_text_cons(indent, value_inks(rest));
    }
}

// ─── Names ────────────────────────────────────────────────────────────────────

/// The place of the last slash, or -1.
pub open spec fn last_slash(s: Seq<char>) -> int
    decreases s.len(),
{
    if s.len() == 0 {
        -1
    } else if s.last() == '/' {
        s.len() - 1
    } else {
        last_slash(s.drop_last())
    }
}

/// What stands behind the last slash.
pub open spec fn leaf_name(s: Seq<char>) -> Seq<char> {
    s.skip(last_slash(s) + 1)
}

fn find_last_slash(v: &Vec<char>) -> (r: Option<usize>)
    ensures
        match r {
            Some(i) => i == last_slash(v@) && i < v.len(),
            None => last_slash(v@) == -1,
        },
{
    let mut i: usize = v.len();
    proof {
        assert(v@.take(i as int) =~= v@);
    }
    while i > 0
        invariant
            i <= v.len(),
            last_slash(v@) == last_slash(v@.take(i as int)),
        decreases i,
    {
        if v[i - 1] == '/' {
            return Some(i - 1);
        }
        proof {
            assert(v@.take(i as int).drop_last() =~= v@.take(i - 1));
        }
        i = i - 1;
    }
    None
}

/// What stands behind the last slash of a path.
pub fn leaf_of(path: &str) -> (r: String)
    ensures
        r@ == leaf_name(path@),
{
    let v = chars_of(path);
    let from: usize = match find_last_slash(&v) {
        Some(i) => i + 1,
        None => 0,
    };
    let r = slice_string(&v, from, v.len());
    proof {
        assert(r@ =~= leaf_name(path@));
    }
    r
}

/// Bold, in no colour of its own.
pub open spec fn plain_bold() -> Style {
    Style { fg: None, bg: None, bold: true }
}

/// A name: its folder dim, and the rest bold.
pub open spec fn name_inks(name: Seq<char>) -> Seq<Ink> {
    let at = last_slash(name);
    if at < 0 {
        seq![(name, plain_bold())]
    } else {
        seq![
            (name.take(at) + "/ "@, ink(Color::DarkGray)),
            (name.skip(at + 1), plain_bold()),
        ]
    }
}

/// A name: its folder dim, and the rest bold.
pub fn folder_name_spans(name: &str) -> (r: Vec<Span>)
    ensures
        inks(r@) == name_inks(name@),
{
    let strong = Style { fg: None, bg: None, bold: true };
    let v = chars_of(name);
    let mut spans = no_spans();
    match find_last_slash(&v) {
        None => {
            put_text(&mut spans, name, strong);
        },
        Some(at) => {
            let folder = slice_string(&v, 0, at);
            let leaf = slice_string(&v, at + 1, v.len());
            proof {
                assert(folder@ =~= name@.take(at as int));
                assert(leaf@ =~= name@.skip(at + 1));
            }
            put_text(&mut spans, concat2(folder.as_str(), "/ ").as_str(), Style::ink(Color::DarkGray));
            put_text(&mut spans, leaf.as_str(), strong);
        },
    }
    proof {
        assert(inks(spans@) =~= name_inks(name@));
    }
    spans
}

/// A text filled up with spaces to a width.
pub open spec fn padded(s: Seq<char>, width: nat) -> Seq<char> {
    if s.len() < width {
        s + repeated(' ', (width - s.len()) as nat)
    } else {
        s
    }
}

/// Fills a text up with spaces to a width.
pub fn pad_right(s: &str, width: usize) -> (r: String)
    ensures
        r@ == padded(s@, width as nat),
{
    let n: usize = s.unicode_len();
    if n < width {
        concat2(s, repeat(' ', width - n).as_str())
    } else {
        s.to_owned()
    }
}

// ─── Areas ────────────────────────────────────────────────────────────────────

/// The lesser of two.
pub open spec fn lesser(a: u16, b: u16) -> u16 {
    if a < b {
        a
    } else {
        b
    }
}

/// Centres a box in an area, shrinking it where the area is smaller.
pub fn centered_rect(width: u16, height: u16, area: Rect) -> (r: Rect)
    requires
        area.x + area.width <= u16::MAX,
        area.y + area.height <= u16::MAX,
    ensures
        r.width == lesser(width, area.width),
        r.height == lesser(height, area.height),
        r.x == area.x + (area.width - r.width) / 2,
        r.y == area.y + (area.height - r.height) / 2,
        area.x <= r.x && r.x + r.width <= area.x + area.width,
        area.y <= r.y && r.y + r.height <= area.y + area.height,
{
    let w: u16 = if width < area.width {
        width
    } else {
        area.width
    };
    let h: u16 = if height < area.height {
        height
    } else {
        area.height
    };
    Rect {
        x: area.x + (area.width - w) / 2,
        y: area.y + (area.height - h) / 2,
        width: w,
        height: h,
    }
}

/// The part of a block that an image gets: what is left below the text and one blank
/// row; none where that has no room.
pub fn image_area(inner: Rect, text_rows: u16) -> (r: Option<Rect>)
    requires
        inner.y + inner.height <= u16::MAX,
    ensures
        inner.width > 0 && text_rows + 1 < inner.height ==> r == Some(
            Rect {
                x: inner.x,
                y: (inner.y + text_rows + 1) as u16,
                width: inner.width,
                height: (inner.height - text_rows - 1) as u16,
            },
        ),
        inner.width == 0 || text_rows + 1 >= inner.height ==> r is None,
{
    if inner.width == 0 || text_rows >= inner.height || inner.height - text_rows <= 1 {
        return None;
    }
    let down: u16 = text_rows + 1;
    Some(
        Rect {
            x: inner.x,
            y: inner.y + down,
            width: inner.width,
            height: inner.height - down,
        },
    )
}

} // verus!
