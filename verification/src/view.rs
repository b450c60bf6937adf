//! Styled text: the spans and lines that panes are drawn with.
use vstd::prelude::*;
use vstd::string::*;

use crate::tester::{repeat, repeated};
use crate::theme::Color;

verus! {

// ─── Styles ───────────────────────────────────────────────────────────────────

/// How a text is drawn.
#[derive(Debug, Clone, Copy, PartialEq, Eq, Structural)]
pub struct Style {
    pub fg: Option<Color>,
    pub bg: Option<Color>,
    pub bold: bool,
}

/// No style of its own.
pub open spec fn bare() -> Style {
    Style { fg: None, bg: None, bold: false }
}

/// In a colour.
pub open spec fn ink(fg: Color) -> Style {
    Style { fg: Some(fg), bg: None, bold: false }
}

/// In a colour, and bold.
pub open spec fn bold(fg: Color) -> Style {
    Style { fg: Some(fg), bg: None, bold: true }
}

/// In a colour on another.
pub open spec fn badge(fg: Color, bg: Color) -> Style {
    Style { fg: Some(fg), bg: Some(bg), bold: false }
}

/// In a colour on another, and bold.
pub open spec fn bold_badge(fg: Color, bg: Color) -> Style {
    Style { fg: Some(fg), bg: Some(bg), bold: true }
}

impl Style {
    /// No style of its own.
    pub fn bare() -> (r: Style)
        ensures
            r == bare(),
    {
        Style { fg: None, bg: None, bold: false }
    }

    /// In a colour.
    pub fn ink(fg: Color) -> (r: Style)
        ensures
            r == ink(fg),
    {
        Style { fg: Some(fg), bg: None, bold: false }
    }

    /// In a colour, and bold.
    pub fn bold(fg: Color) -> (r: Style)
        ensures
            r == bold(fg),
    {
        Style { fg: Some(fg), bg: None, bold: true }
    }

    /// In a colour on another.
    pub fn badge(fg: Color, bg: Color) -> (r: Style)
        ensures
            r == badge(fg, bg),
    {
        Style { fg: Some(fg), bg: Some(bg), bold: false }
    }

    /// In a colour on another, and bold.
    pub fn bold_badge(fg: Color, bg: Color) -> (r: Style)
        ensures
            r == bold_badge(fg, bg),
    {
        Style { fg: Some(fg), bg: Some(bg), bold: true }
    }
}

// ─── Spans ────────────────────────────────────────────────────────────────────

/// A text in one style.
#[derive(Debug, PartialEq, Eq)]
pub struct Span {
    pub text: String,
    pub style: Style,
}

/// A text in one style.
pub type Ink = (Seq<char>, Style);

impl View for Span {
    type V = Ink;

    open spec fn view(&self) -> Ink {
        (self.text@, self.style)
    }
}

/// The spans of a vector, as text.
pub open spec fn inks(v: Seq<Span>) -> Seq<Ink> {
    v.map_values(|s: Span| s@)
}

impl Span {
    /// A text in a style.
    pub fn styled(text: &str, style: Style) -> (r: Span)
        ensures
            r@ == (text@, style),
    {
        Span { text: text.to_owned(), style }
    }

    /// A text without a style of its own.
    pub fn raw(text: &str) -> (r: Span)
        ensures
            r@ == (text@, bare()),
    {
        Span { text: text.to_owned(), style: Style::bare() }
    }
}

/// Adds a span.
pub fn add_span(spans: &mut Vec<Span>, span: Span)
    ensures
        inks(final(spans)@) == inks(old(spans)@).push(span@),
{
    let ghost before = spans@;
    let ghost added = span@;
    spans.push(span);
    proof {
        assert(inks(spans@) =~= inks(before).push(added));
    }
}

/// Adds a text in a style.
pub fn put_text(spans: &mut Vec<Span>, text: &str, style: Style)
    ensures
        inks(final(spans)@) == inks(old(spans)@).push((text@, style)),
{
    add_span(spans, Span::styled(text, style));
}

/// Adds spans.
pub fn add_spans(spans: &mut Vec<Span>, more: Vec<Span>)
    ensures
        inks(final(spans)@) == inks(old(spans)@) + inks(more@),
{
    let ghost before = spans@;
    let ghost added = more@;
    let mut more = more;
    spans.append(&mut more);
    proof {
        assert(inks(spans@) =~= inks(before) + inks(added));
    }
}

/// No spans.
pub fn no_spans() -> (r: Vec<Span>)
    ensures
        inks(r@) == Seq::<Ink>::empty(),
{
    let r: Vec<Span> = Vec::new();
    proof {
        assert(inks(r@) =~= Seq::<Ink>::empty());
    }
    r
}

// ─── Lines ────────────────────────────────────────────────────────────────────

/// Spans side by side, over a style of the whole line.
#[derive(Debug, PartialEq, Eq)]
pub struct Line {
    pub spans: Vec<Span>,
    pub style: Style,
}

/// The same, as text.
pub ghost struct Inked {
    pub spans: Seq<Ink>,
    pub style: Style,
}

impl View for Line {
    type V = Inked;

    open spec fn view(&self) -> Inked {
        Inked { spans: inks(self.spans@), style: self.style }
    }
}

/// The lines of a vector, as text.
pub open spec fn inked(v: Seq<Line>) -> Seq<Inked> {
    v.map_values(|l: Line| l@)
}

/// A line of spans, without a style of its own.
pub open spec fn line_of(spans: Seq<Ink>) -> Inked {
    Inked { spans, style: bare() }
}

/// A line of one text in a style.
pub open spec fn one(text: Seq<char>, style: Style) -> Inked {
    line_of(seq![(text, style)])
}

/// A line of two texts.
pub open spec fn two(a: Ink, b: Ink) -> Inked {
    line_of(seq![a, b])
}

/// An empty line.
pub open spec fn blank() -> Inked {
    one(Seq::empty(), bare())
}

impl Line {
    /// A line of spans.
    pub fn of(spans: Vec<Span>) -> (r: Line)
        ensures
            r@ == line_of(inks(spans@)),
    {
        Line { spans, style: Style::bare() }
    }

    /// A line of one text in a style.
    pub fn one(text: &str, style: Style) -> (r: Line)
        ensures
            r@ == one(text@, style),
    {
        let mut spans = no_spans();
        put_text(&mut spans, text, style);
        proof {
            assert(inks(spans@) =~= seq![(text@, style)]);
        }
        Line::of(spans)
    }

    /// A line of two texts.
    pub fn two(a: &str, a_style: Style, b: &str, b_style: Style) -> (r: Line)
        ensures
            r@ == two((a@, a_style), (b@, b_style)),
    {
        let mut spans = no_spans();
        put_text(&mut spans, a, a_style);
        put_text(&mut spans, b, b_style);
        proof {
            assert(inks(spans@) =~= seq![(a@, a_style), (b@, b_style)]);
        }
        Line::of(spans)
    }

    /// An empty line.
    pub fn blank() -> (r: Line)
        ensures
            r@ == blank(),
    {
        let r = Line::one("", Style::bare());
        proof {
            reveal_strlit("");
            assert(""@ =~= Seq::<char>::empty());
        }
        r
    }
}

/// No lines.
pub fn no_lines() -> (r: Vec<Line>)
    ensures
        inked(r@) == Seq::<Inked>::empty(),
{
    let r: Vec<Line> = Vec::new();
    proof {
        assert(inked(r@) =~= Seq::<Inked>::empty());
    }
    r
}

/// Adds a line.
pub fn add_line(lines: &mut Vec<Line>, line: Line)
    ensures
        inked(final(lines)@) == inked(old(lines)@).push(line@),
{
    let ghost before = lines@;
    let ghost added = line@;
    lines.push(line);
    proof {
        assert(inked(lines@) =~= inked(before).push(added));
    }
}

/// Adds lines.
pub fn add_lines(lines: &mut Vec<Line>, more: Vec<Line>)
    ensures
        inked(final(lines)@) == inked(old(lines)@) + inked(more@),
{
    let ghost before = lines@;
    let ghost added = more@;
    let mut more = more;
    lines.append(&mut more);
    proof {
        assert(inked(lines@) =~= inked(before) + inked(added));
    }
}

/// One line alone.
pub fn just(line: Line) -> (r: Vec<Line>)
    ensures
        inked(r@) == seq![line@],
{
    let mut r = no_lines();
    add_line(&mut r, line);
    proof {
        assert(inked(r@) =~= seq![line@]);
    }
    r
}

/// The text of a line.
pub open spec fn line_text(spans: Seq<Ink>) -> Seq<char>
    decreases spans.len(),
{
    if spans.len() == 0 {
        Seq::empty()
    } else {
        line_text(spans.drop_last()) + spans.last().0
    }
}

impl Line {
    /// The text of the line.
    pub fn text(&self) -> (r: String)
        ensures
            r@ == line_text(self@.spans),
    {
        let mut r = String::new();
        let ghost all = self@.spans;
        let mut i: usize = 0;
        proof {
            assert(r@ =~= line_text(all.take(0)));
        }
        while i < self.spans.len()
            invariant
                i <= self.spans.len(),
                all == inks(self.spans@),
                r@ == line_text(all.take(i as int)),
            decreases self.spans.len() - i,
        {
            r.append(self.spans[i].text.as_str());
            proof {
                assert(all[i as int] == self.spans@[i as int]@);
                assert(all.take(i + 1).drop_last() =~= all.take(i as int));
            }
            i = i + 1;
        }
        proof {
            assert(all.take(all.len() as int) =~= all);
        }
        r
    }
}

// ─── Width ────────────────────────────────────────────────────────────────────

/// How many columns a terminal gives a text.
pub uninterp spec fn columns(text: Seq<char>) -> nat;

/// A text of spaces alone.
pub open spec fn only_spaces(text: Seq<char>) -> bool {
    text == repeated(' ', text.len())
}

/// ratatui's `Span::width`: the columns of a text, the same for the same text. A
/// space takes one.
#[verifier::external_body]
fn text_columns(text: &str) -> (r: usize)
    ensures
        r == columns(text@),
        only_spaces(text@) ==> r == text@.len(),
{
    ratatui::text::Span::raw(text).width()
}

/// The columns of spans side by side.
pub open spec fn spans_columns(spans: Seq<Ink>) -> nat
    decreases spans.len(),
{
    if spans.len() == 0 {
        0
    } else {
        spans_columns(spans.drop_last()) + columns(spans.last().0)
    }
}

/// A count as far as a machine word holds it.
pub open spec fn capped(n: int) -> int {
    if n > usize::MAX {
        usize::MAX as int
    } else {
        n
    }
}

fn capped_sum(a: usize, b: usize) -> (r: usize)
    ensures
        r == capped(a + b),
{
    if a > usize::MAX - b {
        usize::MAX
    } else {
        a + b
    }
}

impl Line {
    /// The columns of the line.
    pub fn width(&self) -> (r: usize)
        ensures
            r == capped(spans_columns(self@.spans) as int),
    {
        let mut n: usize = 0;
        let ghost all = self@.spans;
        let mut i: usize = 0;
        proof {
            assert(spans_columns(all.take(0)) == 0);
        }
        while i < self.spans.len()
            invariant
                i <= self.spans.len(),
                all == inks(self.spans@),
                n == capped(spans_columns(all.take(i as int)) as int),
            decreases self.spans.len() - i,
        {
            proof {
                assert(all[i as int] == self.spans@[i as int]@);
                assert(all.take(i + 1).drop_last() =~= all.take(i as int));
                assert(all.take(i + 1).last() == all[i as int]);
            }
            n = capped_sum(n, text_columns(self.spans[i].text.as_str()));
            i = i + 1;
        }
        proof {
            assert(all.take(all.len() as int) =~= all);
        }
        n
    }
}

// ─── Highlights ───────────────────────────────────────────────────────────────

/// The band under the cursor line.
pub open spec fn cursor_band() -> Color {
    Color::Indexed(237)
}

/// The band under a selection, a step lighter.
pub open spec fn selection_band() -> Color {
    Color::Indexed(240)
}

/// The band under the cursor line.
pub fn cursor_line_bg() -> (r: Color)
    ensures
        r == cursor_band(),
{
    Color::Indexed(237)
}

/// The band under a selection.
pub fn selection_bg() -> (r: Color)
    ensures
        r == selection_band(),
{
    Color::Indexed(240)
}

/// How far a band runs: to the end of the row, or of the text.
#[derive(Debug, Clone, Copy, PartialEq, Eq, Structural)]
pub enum Band {
    Row(u16),
    Text,
}

/// The bright twin of a colour; both grays go to white.
pub open spec fn brightened(color: Color) -> Color {
    match color {
        Color::DarkGray => Color::White,
        Color::Red => Color::LightRed,
        Color::Green => Color::LightGreen,
        Color::Yellow => Color::LightYellow,
        Color::Blue => Color::LightBlue,
        Color::Magenta => Color::LightMagenta,
        Color::Cyan => Color::LightCyan,
        Color::Gray => Color::White,
        other => other,
    }
}

/// The bright twin of a colour.
pub fn brighten(color: Color) -> (r: Color)
    ensures
        r == brightened(color),
{
    match color {
        Color::DarkGray => Color::White,
        Color::Red => Color::LightRed,
        Color::Green => Color::LightGreen,
        Color::Yellow => Color::LightYellow,
        Color::Blue => Color::LightBlue,
        Color::Magenta => Color::LightMagenta,
        Color::Cyan => Color::LightCyan,
        Color::Gray => Color::White,
        other => other,
    }
}

/// A span with its colour brightened, where it has one.
pub open spec fn lit(span: Ink) -> Ink {
    match span.1.fg {
        Some(fg) => (span.0, Style { fg: Some(brightened(fg)), ..span.1 }),
        None => span,
    }
}

/// The spaces that take a band to the end of its row.
pub open spec fn padding(spans: Seq<Ink>, band: Band) -> nat {
    match band {
        Band::Row(width) => if spans_columns(spans) < width {
            (width - spans_columns(spans)) as nat
        } else {
            0
        },
        Band::Text => 0,
    }
}

/// A line on a band: its spans in bright twins, bold over the band, and padded where
/// the band runs to the end of the row.
pub open spec fn highlighted(line: Inked, bg: Color, band: Band) -> Inked {
    lit_line(line, bg, padding(line.spans, band))
}

/// A line's spans in bright twins, bold over a band, with so many spaces behind them.
pub open spec fn lit_line(line: Inked, bg: Color, pad: nat) -> Inked {
    let spans = line.spans.map_values(|s: Ink| lit(s));
    Inked {
        spans: if pad > 0 {
            spans.push((repeated(' ', pad), bare()))
        } else {
            spans
        },
        style: Style { fg: None, bg: Some(bg), bold: true },
    }
}

/// So many columns of spaces; measuring them shows that each takes one.
fn spaces(n: usize) -> (r: String)
    ensures
        r@ == repeated(' ', n as nat),
        columns(r@) == n,
{
    let r = repeat(' ', n);
    let wide: usize = text_columns(r.as_str());
    proof {
        assert(only_spaces(r@));
        assert(wide == n);
    }
    r
}

proof fn lemma_lit_columns(spans: Seq<Ink>)
    ensures
        spans_columns(spans.map_values(|s: Ink| lit(s))) == spans_columns(spans),
    decreases spans.len(),
{
    let after = spans.map_values(|s: Ink| lit(s));
    if spans.len() > 0 {
        lemma_lit_columns(spans.drop_last());
        assert(after.drop_last() =~= spans.drop_last().map_values(|s: Ink| lit(s)));
        assert(after.last() == lit(spans.last()));
    }
}

/// Puts a line's spans in bright twins, bold over a band, with so many spaces behind
/// them.
pub fn light_up(line: &Line, bg: Color, pad: usize) -> (r: Line)
    ensures
        r@ == lit_line(line@, bg, pad as nat),
        spans_columns(r@.spans) == spans_columns(line@.spans) + pad,
{
    let ghost all = line@.spans;
    let ghost goal = all.map_values(|s: Ink| lit(s));
    let mut spans = no_spans();
    let mut i: usize = 0;
    proof {
        assert(inks(spans@) =~= goal.take(0));
    }
    while i < line.spans.len()
        invariant
            i <= line.spans.len(),
            all == inks(line.spans@),
            goal == all.map_values(|s: Ink| lit(s)),
            inks(spans@) == goal.take(i as int),
        decreases line.spans.len() - i,
    {
        let span = &line.spans[i];
        let style = match span.style.fg {
            Some(fg) => Style { fg: Some(brighten(fg)), bg: span.style.bg, bold: span.style.bold },
            None => span.style,
        };
        put_text(&mut spans, span.text.as_str(), style);
        proof {
            assert(all[i as int] == span@);
            assert(goal[i as int] == lit(span@));
            assert(goal.take(i + 1) =~= goal.take(i as int).push(goal[i as int]));
        }
        i = i + 1;
    }
    proof {
        assert(goal.take(goal.len() as int) =~= goal);
    }
    proof {
        lemma_lit_columns(all);
    }
    if pad > 0 {
        let fill = spaces(pad);
        put_text(&mut spans, fill.as_str(), Style::bare());
        proof {
            assert(goal.push((fill@, bare())).drop_last() =~= goal);
        }
    }
    Line { spans, style: Style { fg: None, bg: Some(bg), bold: true } }
}

/// Restyles a line for the band it is about to be drawn on. A band to the end of the
/// row fills it, and no band cuts a line short.
pub fn highlight(line: Line, bg: Color, band: Band) -> (r: Line)
    ensures
        r@ == highlighted(line@, bg, band),
        spans_columns(r@.spans) == match band {
            Band::Row(width) => if spans_columns(line@.spans) < width {
                width as nat
            } else {
                spans_columns(line@.spans)
            },
            Band::Text => spans_columns(line@.spans),
        },
{
    let pad: usize = match band {
        Band::Row(width) => {
            let n: usize = line.width();
            if n < width as usize {
                width as usize - n
            } else {
                0
            }
        },
        Band::Text => 0,
    };
    light_up(&line, bg, pad)
}

// ─── Laws ─────────────────────────────────────────────────────────────────────

/// Brightening twice comes to the same as brightening once.
pub proof fn law_brightening_is_idempotent(color: Color)
    ensures
        brightened(brightened(color)) == brightened(color),
{
}

/// No ink of a highlighted line is drawn in the colour of its band.
pub proof fn law_no_ink_is_its_own_band(line: Inked, bg: Color, band: Band, i: int)
    requires
        bg == cursor_band() || bg == selection_band(),
        forall|k: int| 0 <= k < line.spans.len() ==> !((#[trigger] line.spans[k]).1.fg == Some(bg)),
        0 <= i < highlighted(line, bg, band).spans.len(),
    ensures
        highlighted(line, bg, band).spans[i].1.fg != Some(bg),
{
    if i < line.spans.len() {
        assert(highlighted(line, bg, band).spans[i] == lit(line.spans[i]));
    }
}

/// Highlighting keeps the text of a line: what is added is spaces at its end.
pub proof fn law_highlighting_keeps_the_text(line: Inked, bg: Color, band: Band)
    ensures
        line_text(highlighted(line, bg, band).spans) == line_text(line.spans) + repeated(
            ' ',
            padding(line.spans, band),
        ),
{
    let spans = line.spans.map_values(|s: Ink| lit(s));
    lemma_lit_text(line.spans);
    let pad = padding(line.spans, band);
    if pad > 0 {
        let more = spans.push((repeated(' ', pad), bare()));
        assert(more.drop_last() =~= spans);
    } else {
        assert(line_text(line.spans) + repeated(' ', 0) =~= line_text(line.spans));
    }
}

proof fn lemma_lit_text(spans: Seq<Ink>)
    ensures
        line_text(spans.map_values(|s: Ink| lit(s))) == line_text(spans),
    decreases spans.len(),
{
    let after = spans.map_values(|s: Ink| lit(s));
    if spans.len() > 0 {
        lemma_lit_text(spans.drop_last());
        assert(after.drop_last() =~= spans.drop_last().map_values(|s: Ink| lit(s)));
        assert(after.last() == lit(spans.last()));
    }
}

} // verus!
