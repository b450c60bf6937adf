//! The panes of the terminal interface, as titled lines.
use vstd::prelude::*;
use vstd::string::*;

use crate::config::str_opt;
use crate::edit::{Edit, EditView};
use crate::order::Row;
use crate::request::TextMap;
use crate::strmap::{listing, StrMap};
use crate::text::{concat2, concat3};
use crate::theme::Color;
use crate::view::{
    add_line, add_lines, bare, blank, bold, ink, inked, inks, just, line_of, no_lines, no_spans, one, put_text,
    two, Inked, Line, Style,
};
use crate::view_field::{
    caret, caret_in, input_inks, input_line, inside, interior_height, scroll_of, vscroll, FocusRows, Rect,
};

verus! {

// ─── Canvases ─────────────────────────────────────────────────────────────────

/// Lines put down one after another, and which of them have the focus.
#[derive(Debug, PartialEq, Eq)]
pub struct Canvas {
    pub lines: Vec<Line>,
    pub rows: FocusRows,
}

/// The same, as text.
pub ghost struct Drawn {
    pub lines: Seq<Inked>,
    pub start: int,
    pub end: int,
}

impl View for Canvas {
    type V = Drawn;

    open spec fn view(&self) -> Drawn {
        Drawn { lines: inked(self.lines@), start: self.rows.start as int, end: self.rows.end as int }
    }
}

/// A canvas with one empty line.
pub open spec fn fresh() -> Drawn {
    Drawn { lines: seq![blank()], start: 0, end: 0 }
}

/// More lines put down.
pub open spec fn put(d: Drawn, lines: Seq<Inked>) -> Drawn {
    Drawn { lines: d.lines + lines, ..d }
}

/// More lines put down as a row of their own, which may have the focus.
pub open spec fn row(d: Drawn, lines: Seq<Inked>, focused: bool) -> Drawn {
    if focused {
        Drawn {
            lines: d.lines + lines,
            start: d.lines.len() as int,
            end: (d.lines.len() + lines.len()) as int,
        }
    } else {
        put(d, lines)
    }
}

/// An empty line put down.
pub open spec fn gap(d: Drawn) -> Drawn {
    put(d, seq![blank()])
}

impl Canvas {
    /// A canvas with one empty line.
    pub fn fresh() -> (r: Canvas)
        ensures
            r@ == fresh(),
    {
        Canvas { lines: just(Line::blank()), rows: FocusRows::none() }
    }

    /// Puts down lines.
    pub fn put(&mut self, lines: Vec<Line>)
        ensures
            final(self)@ == put(old(self)@, inked(lines@)),
    {
        add_lines(&mut self.lines, lines);
    }

    /// Puts down one line.
    pub fn put_line(&mut self, line: Line)
        ensures
            final(self)@ == put(old(self)@, seq![line@]),
    {
        add_lines(&mut self.lines, just(line));
    }

    /// Puts down a row, which may have the focus.
    pub fn row(&mut self, lines: Vec<Line>, focused: bool)
        ensures
            final(self)@ == row(old(self)@, inked(lines@), focused),
    {
        let start: usize = self.lines.len();
        proof {
            assert(inked(self.lines@).len() == self.lines@.len());
            assert(inked(lines@).len() == lines@.len());
        }
        add_lines(&mut self.lines, lines);
        proof {
            assert(inked(self.lines@).len() == self.lines@.len());
        }
        let end: usize = self.lines.len();
        self.rows.mark(focused, start, end);
    }

    /// Puts down an empty line.
    pub fn gap(&mut self)
        ensures
            final(self)@ == gap(old(self)@),
    {
        self.put_line(Line::blank());
    }
}

/// A pane as it is drawn: a title on a border, and lines inside it, scrolled.
#[derive(Debug, PartialEq, Eq)]
pub struct Pane {
    pub title: Line,
    pub border: Color,
    pub lines: Vec<Line>,
    pub scroll: u16,
    /// Whether long lines go on in the next row.
    pub wrap: bool,
}

/// The same, as text.
pub ghost struct PaneView {
    pub title: Inked,
    pub border: Color,
    pub lines: Seq<Inked>,
    pub scroll: u16,
    pub wrap: bool,
}

impl View for Pane {
    type V = PaneView;

    open spec fn view(&self) -> PaneView {
        PaneView {
            title: self.title@,
            border: self.border,
            lines: inked(self.lines@),
            scroll: self.scroll,
            wrap: self.wrap,
        }
    }
}

/// The pane on a canvas, scrolled so that its focused row is on screen.
pub open spec fn framed(title: Inked, border: Color, d: Drawn, area: Rect) -> PaneView {
    PaneView {
        title,
        border,
        lines: d.lines,
        scroll: scroll_of(
            d.lines.len() as int,
            FocusRows { start: d.start as usize, end: d.end as usize },
            inside(area.height) as int,
        ),
        wrap: false,
    }
}

/// Puts a canvas in a frame, scrolled to its focused row.
pub fn frame(title: Line, border: Color, canvas: Canvas, area: Rect) -> (r: Pane)
    ensures
        r@ == framed(title@, border, canvas@, area),
{
    proof {
        assert(inked(canvas.lines@).len() == canvas.lines@.len());
    }
    let scroll: u16 = vscroll(canvas.lines.len(), canvas.rows, interior_height(area) as usize);
    Pane { title, border, lines: canvas.lines, scroll, wrap: false }
}

/// A title without a mark.
pub open spec fn plain_title(text: Seq<char>) -> Inked {
    one(text, bare())
}

// ─── Rows ─────────────────────────────────────────────────────────────────────

/// The label of a field: in a colour while it has the focus, dim else.
pub open spec fn label_ink(is_focused: bool, color: Color) -> Style {
    bold(
        if is_focused {
            color
        } else {
            Color::DarkGray
        },
    )
}

/// The style of a label.
pub fn label_style(is_focused: bool, color: Color) -> (r: Style)
    ensures
        r == label_ink(is_focused, color),
{
    Style::bold(
        if is_focused {
            color
        } else {
            Color::DarkGray
        },
    )
}

/// A field: its label, marked where a value is required, and its input row.
pub open spec fn field_lines(
    label: Seq<char>,
    required: bool,
    value: Seq<char>,
    is_focused: bool,
    edit: EditView,
    color: Color,
    width: u16,
) -> Seq<Inked> {
    let name = (label, label_ink(is_focused, color));
    seq![
        line_of(
            if required {
                seq![name, (" *"@, ink(Color::Red))]
            } else {
                seq![name]
            },
        ),
        line_of(input_inks(value, caret_in(is_focused, edit), width)),
    ]
}

/// A field: its label and its input row.
pub fn field(
    label: &str,
    required: bool,
    value: &str,
    is_focused: bool,
    edit: &Edit,
    color: Color,
    width: u16,
) -> (r: Vec<Line>)
    ensures
        inked(r@) == field_lines(label@, required, value@, is_focused, edit@, color, width),
{
    let mut spans = no_spans();
    put_text(&mut spans, label, label_style(is_focused, color));
    if required {
        put_text(&mut spans, " *", Style::ink(Color::Red));
    }
    let ghost name = (label@, label_ink(is_focused, color));
    proof {
        if required {
            assert(inks(spans@) =~= seq![name, (" *"@, ink(Color::Red))]);
        } else {
            assert(inks(spans@) =~= seq![name]);
        }
    }
    let mut lines = just(Line::of(spans));
    add_line(&mut lines, input_line(value, caret(is_focused, edit), width));
    proof {
        assert(inked(lines@) =~= field_lines(
            label@,
            required,
            value@,
            is_focused,
            edit@,
            color,
            width,
        ));
    }
    lines
}

/// One dim line.
pub open spec fn note(text: Seq<char>) -> Inked {
    one(text, ink(Color::DarkGray))
}

/// The line that reports an error.
pub open spec fn error_line(words: Seq<char>) -> Inked {
    one("  error: "@ + words, ink(Color::Red))
}

/// The line that reports an error.
pub fn report(words: &str) -> (r: Line)
    ensures
        r@ == error_line(words@),
{
    Line::one(concat2("  error: ", words).as_str(), Style::ink(Color::Red))
}

/// An error put down, where there is one.
pub open spec fn with_error(d: Drawn, error: Option<Seq<char>>) -> Drawn {
    match error {
        Some(words) => put(d, seq![error_line(words)]),
        None => d,
    }
}

/// Puts down an error, where there is one.
pub fn put_error(canvas: &mut Canvas, error: Option<&str>)
    ensures
        final(canvas)@ == with_error(old(canvas)@, str_opt(error)),
{
    match error {
        Some(words) => {
            canvas.put_line(report(words));
        },
        None => {},
    }
}

/// One line for each of the first `n` pairs: the name with a colon behind an indent,
/// and the value.
pub open spec fn pair_lines(rows: Seq<Row>, indent: Seq<char>, name: Color, value: Color, n: int) -> Seq<
    Inked,
>
    decreases n,
{
    if n <= 0 {
        Seq::empty()
    } else {
        pair_lines(rows, indent, name, value, n - 1).push(
            two((indent + rows[n - 1].0 + ": "@, ink(name)), (rows[n - 1].1, ink(value))),
        )
    }
}

/// The pairs of a map, one line each, by name.
pub open spec fn map_lines(map: TextMap, indent: Seq<char>, name: Color, value: Color) -> Seq<Inked> {
    pair_lines(listing(map), indent, name, value, listing(map).len() as int)
}

/// The pairs of a map, one line each, by name.
pub fn map_rows(map: &StrMap, indent: &str, name: Color, value: Color) -> (r: Vec<Line>)
    ensures
        inked(r@) == map_lines(map@, indent@, name, value),
{
    let n: usize = map.len();
    let ghost rows = listing(map@);
    let mut lines = no_lines();
    let mut i: usize = 0;
    while i < n
        invariant
            i <= n,
            n == rows.len(),
            rows == map.rows(),
            inked(lines@) == pair_lines(rows, indent@, name, value, i as int),
        decreases n - i,
    {
        let (k, v) = map.row(i);
        let head = concat3(indent, k, ": ");
        add_line(&mut lines, Line::two(head.as_str(), Style::ink(name), v, Style::ink(value)));
        i = i + 1;
    }
    lines
}

/// The pairs of a map as the request form shows them, or that there are none.
pub open spec fn map_summary(map: TextMap) -> Seq<Inked> {
    if listing(map).len() == 0 {
        seq![note("    none"@)]
    } else {
        map_lines(map, "    "@, Color::Cyan, Color::White)
    }
}

/// The pairs of a map, or that there are none.
pub fn summarize_map(map: &StrMap) -> (r: Vec<Line>)
    ensures
        inked(r@) == map_summary(map@),
{
    if map.len() == 0 {
        just(Line::one("    none", Style::ink(Color::DarkGray)))
    } else {
        map_rows(map, "    ", Color::Cyan, Color::White)
    }
}

} // verus!
