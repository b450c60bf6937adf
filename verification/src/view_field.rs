//! Fields as they are drawn: carets, windows, scrolling and wrapping.
use vstd::prelude::*;
use vstd::string::*;

use crate::caret::{
    byte_length, line_end, lemma_offset_grows, lemma_snap, offset, offset_of, size, snap, snap_to,
};
use crate::edit::{Edit, EditView};
use crate::text::{
    chars_of, concat2, find_char, is_white, lemma_char_from, places, slice_string, split_at_char, split_from,
    split_string, texts, white,
};
use crate::theme::Color;
use crate::view::{
    add_line, add_spans, badge, bare, capped, ink, inked, inks, line_of, line_text, no_lines, no_spans, one,
    put_text, Ink, Inked, Line, Span, Style,
};

verus! {

// ─── Carets ───────────────────────────────────────────────────────────────────

/// The caret of an edit, where there is one to draw.
pub open spec fn edit_opt(edit: Option<&Edit>) -> Option<EditView> {
    match edit {
        Some(e) => Some(e@),
        None => None,
    }
}

/// A value with its caret: a thin bar between characters while inserting, else a
/// block over the character it is on. A caret that is no place of the value is drawn
/// at the last place before it.
pub open spec fn caret_inks(value: Seq<char>, caret: Option<(nat, bool)>, color: Color) -> Seq<Ink> {
    match caret {
        None => seq![(value, ink(color))],
        Some((at, insert)) => {
            let k = snap(value, at);
            let before = (value.take(k), ink(color));
            if insert {
                seq![before, ("│"@, ink(Color::White)), (value.skip(k), ink(color))]
            } else if k == value.len() {
                seq![before, ("█"@, ink(Color::White))]
            } else {
                seq![
                    before,
                    (seq![value[k]], badge(Color::Black, Color::White)),
                    (value.skip(k + 1), ink(color)),
                ]
            }
        },
    }
}

/// A caret as text.
pub open spec fn caret_opt(caret: Option<(usize, bool)>) -> Option<(nat, bool)> {
    match caret {
        Some((at, insert)) => Some((at as nat, insert)),
        None => None,
    }
}

/// A value with its caret.
pub fn spans_with_caret(value: &str, caret: Option<(usize, bool)>, color: Color) -> (r: Vec<Span>)
    ensures
        inks(r@) == caret_inks(value@, caret_opt(caret), color),
{
    let mut spans = no_spans();
    match caret {
        None => {
            put_text(&mut spans, value, Style::ink(color));
        },
        Some((at, insert)) => {
            let v = chars_of(value);
            let _bytes: usize = byte_length(value);
            let k: usize = snap_to(&v, at);
            let before = slice_string(&v, 0, k);
            proof {
                assert(before@ =~= value@.take(k as int));
            }
            put_text(&mut spans, before.as_str(), Style::ink(color));
            if insert {
                put_text(&mut spans, "│", Style::ink(Color::White));
                let after = slice_string(&v, k, v.len());
                proof {
                    assert(after@ =~= value@.skip(k as int));
                }
                put_text(&mut spans, after.as_str(), Style::ink(color));
            } else if k == v.len() {
                put_text(&mut spans, "█", Style::ink(Color::White));
            } else {
                let under = slice_string(&v, k, k + 1);
                let after = slice_string(&v, k + 1, v.len());
                proof {
                    assert(under@ =~= seq![value@[k as int]]);
                    assert(after@ =~= value@.skip(k + 1));
                }
                put_text(&mut spans, under.as_str(), Style::badge(Color::Black, Color::White));
                put_text(&mut spans, after.as_str(), Style::ink(color));
            }
        },
    }
    proof {
        assert(inks(spans@) =~= caret_inks(value@, caret_opt(caret), color));
    }
    spans
}

/// The caret to draw in a field: only in the focused one.
pub open spec fn caret_in(is_focused: bool, edit: EditView) -> Option<EditView> {
    if is_focused {
        Some(edit)
    } else {
        None
    }
}

/// The caret to draw in a field: only in the focused one.
pub fn caret<'a>(is_focused: bool, edit: &'a Edit) -> (r: Option<&'a Edit>)
    ensures
        edit_opt(r) == caret_in(is_focused, edit@),
{
    if is_focused {
        Some(edit)
    } else {
        None
    }
}

// ─── Windows ──────────────────────────────────────────────────────────────────

/// Which characters of a value a field shows, and whether any are hidden either
/// side.
#[derive(Debug, PartialEq, Eq)]
pub struct Window {
    pub start: usize,
    pub end: usize,
    pub left: bool,
    pub right: bool,
}

/// Where the window on a long value starts: half its width before the caret, as far
/// as the value goes.
pub open spec fn window_start(len: int, caret: int, width: int) -> int {
    let budget = width - 3;
    let ideal = if caret > budget / 2 {
        caret - budget / 2
    } else {
        0
    };
    if ideal < len - budget {
        ideal
    } else {
        len - budget
    }
}

/// The window on a value of `len` characters with the caret `caret` characters into
/// it, in `width` columns. Both marks are paid for as soon as anything is hidden, so
/// the window has one width wherever it sits; and it holds the caret.
pub fn window(len: usize, caret: usize, width: usize) -> (r: Window)
    ensures
        width < 4 || len < width ==> r == (Window { start: 0, end: len, left: false, right: false }),
        width >= 4 && len >= width ==> {
            &&& r.start == window_start(len as int, caret as int, width as int)
            &&& r.end == r.start + (width - 3)
            &&& r.left == (r.start > 0)
            &&& r.right == (r.end < len)
        },
        r.start <= r.end <= len,
        caret <= len ==> r.start <= caret <= r.end,
{
    if width < 4 || len < width {
        return Window { start: 0, end: len, left: false, right: false };
    }
    let budget: usize = width - 3;
    let ideal: usize = if caret > budget / 2 {
        caret - budget / 2
    } else {
        0
    };
    let start: usize = if ideal < len - budget {
        ideal
    } else {
        len - budget
    };
    let end: usize = start + budget;
    Window { start, end, left: start > 0, right: end < len }
}

/// How many characters of a value begin before the caret.
pub open spec fn caret_column(value: Seq<char>, caret: nat) -> int {
    if caret == 0 {
        0
    } else {
        let k = snap(value, (caret - 1) as nat) + 1;
        if k > value.len() {
            value.len() as int
        } else {
            k
        }
    }
}

/// The columns in front of a value: the indent and the mark.
pub const INPUT_PREFIX: u16 = 4;

/// The first and the last place of the window that an input row shows.
pub open spec fn input_window(value: Seq<char>, caret: nat, width: u16) -> (int, int) {
    let room: int = if width > INPUT_PREFIX {
        width - INPUT_PREFIX
    } else {
        0
    };
    let len = value.len() as int;
    if room < 4 || len < room {
        (0, len)
    } else {
        let start = window_start(len, caret_column(value, caret), room);
        (start, start + room - 3)
    }
}

/// An input row: dim unless it holds the caret, and then windowed onto it.
pub open spec fn input_inks(value: Seq<char>, edit: Option<EditView>, width: u16) -> Seq<Ink> {
    let head = seq![("  > "@, ink(Color::DarkGray))];
    match edit {
        None => head + caret_inks(value, None, Color::DarkGray),
        Some(e) => {
            let (start, end) = input_window(value, e.caret, width);
            let from = offset(value, start);
            let at: nat = if e.caret > from {
                (e.caret - from) as nat
            } else {
                0
            };
            let shown = caret_inks(value.subrange(start, end), Some((at, e.insert)), Color::White);
            let opened = if start > 0 {
                head.push(("‹"@, ink(Color::DarkGray)))
            } else {
                head
            };
            if end < value.len() {
                (opened + shown).push(("›"@, ink(Color::DarkGray)))
            } else {
                opened + shown
            }
        },
    }
}

/// An input row, in a pane so many columns wide inside.
pub fn input_line(value: &str, caret: Option<&Edit>, width: u16) -> (r: Line)
    ensures
        r@ == line_of(input_inks(value@, edit_opt(caret), width)),
{
    let mut spans = no_spans();
    put_text(&mut spans, "  > ", Style::ink(Color::DarkGray));
    proof {
        assert(inks(spans@) =~= seq![("  > "@, ink(Color::DarkGray))]);
    }
    match caret {
        None => {
            let shown = spans_with_caret(value, None, Color::DarkGray);
            add_spans(&mut spans, shown);
            Line::of(spans)
        },
        Some(edit) => {
            let v = chars_of(value);
            let _bytes: usize = byte_length(value);
            let column: usize = if edit.caret == 0 {
                0
            } else {
                let k: usize = snap_to(&v, edit.caret - 1);
                if k < v.len() {
                    k + 1
                } else {
                    v.len()
                }
            };
            let room: usize = if width > INPUT_PREFIX {
                (width - INPUT_PREFIX) as usize
            } else {
                0
            };
            let win = window(v.len(), column, room);
            proof {
                lemma_snap(value@, edit@.caret);
                if edit@.caret > 0 {
                    lemma_snap(value@, (edit@.caret - 1) as nat);
                }
                assert((win.start as int, win.end as int) == input_window(
                    value@,
                    edit@.caret,
                    width,
                ));
            }
            let from: usize = offset_of(&v, win.start);
            let at: usize = if edit.caret > from {
                edit.caret - from
            } else {
                0
            };
            if win.left {
                put_text(&mut spans, "‹", Style::ink(Color::DarkGray));
            }
            let part = slice_string(&v, win.start, win.end);
            let shown = spans_with_caret(part.as_str(), Some((at, edit.insert)), Color::White);
            add_spans(&mut spans, shown);
            if win.right {
                put_text(&mut spans, "›", Style::ink(Color::DarkGray));
            }
            Line::of(spans)
        },
    }
}

// ─── Text areas ───────────────────────────────────────────────────────────────

#[via_fn]
proof fn area_from_shrinks(s: Seq<char>, from: int, edit: Option<EditView>, indent: Seq<char>) {
    if 0 <= from <= s.len() {
        lemma_char_from(s, '\n', from);
    }
}

/// The line of a text area from `from` to `to`: its indent, and the caret where that
/// is in it. A caret at a line's end belongs to that line.
pub open spec fn area_line(
    s: Seq<char>,
    from: int,
    to: int,
    edit: Option<EditView>,
    indent: Seq<char>,
) -> Inked {
    let color = if edit is Some {
        Color::White
    } else {
        Color::DarkGray
    };
    let caret = match edit {
        Some(e) if offset(s, from) <= e.caret <= offset(s, to) => Some(
            ((e.caret - offset(s, from)) as nat, e.insert),
        ),
        _ => None,
    };
    line_of(seq![(indent, bare())] + caret_inks(s.subrange(from, to), caret, color))
}

/// The lines of a text area from the place `from` on.
pub open spec fn area_from(
    s: Seq<char>,
    from: int,
    edit: Option<EditView>,
    indent: Seq<char>,
) -> Seq<Inked>
    decreases s.len() - from,
    via area_from_shrinks
{
    let to = line_end(s, from);
    if from < 0 || from > s.len() || to >= s.len() {
        seq![area_line(s, from, s.len() as int, edit, indent)]
    } else {
        seq![area_line(s, from, to, edit, indent)] + area_from(s, to + 1, edit, indent)
    }
}

proof fn lemma_offset_step(s: Seq<char>, from: int, to: int)
    requires
        0 <= from <= to <= s.len(),
    ensures
        offset(s, to) == offset(s, from) + size(s.subrange(from, to)),
        offset(s, to) <= size(s),
    decreases to - from,
{
    lemma_offset_grows(s, to, to);
    if from < to {
        lemma_offset_step(s, from, to - 1);
        assert(s.take(to).drop_last() =~= s.take(to - 1));
        assert(s.subrange(from, to).drop_last() =~= s.subrange(from, to - 1));
        assert(s.subrange(from, to).last() == s[to - 1]);
    } else {
        assert(s.subrange(from, to) =~= Seq::empty());
    }
}

proof fn lemma_break_size()
    ensures
        size(seq!['\n']) == 1,
{
    let s = seq!['\n'];
    assert(s.drop_last() =~= Seq::<char>::empty());
    assert(s.last() == '\n');
    assert(size(s.drop_last()) == 0);
}

fn one_area_line(
    v: &Vec<char>,
    from: usize,
    to: usize,
    start: usize,
    edit: Option<&Edit>,
    indent: &str,
) -> (r: Line)
    requires
        from <= to <= v.len(),
        start == offset(v@, from as int),
        size(v@) <= usize::MAX,
    ensures
        r@ == area_line(v@, from as int, to as int, edit_opt(edit), indent@),
{
    let part = slice_string(v, from, to);
    let bytes: usize = byte_length(part.as_str());
    proof {
        lemma_offset_step(v@, from as int, to as int);
    }
    let end: usize = start + bytes;
    let mut spans = no_spans();
    put_text(&mut spans, indent, Style::bare());
    let (caret, color) = match edit {
        Some(e) => {
            if start <= e.caret && e.caret <= end {
                (Some((e.caret - start, e.insert)), Color::White)
            } else {
                (None, Color::White)
            }
        },
        None => (None, Color::DarkGray),
    };
    let shown = spans_with_caret(part.as_str(), caret, color);
    add_spans(&mut spans, shown);
    proof {
        assert(inks(spans@) =~= area_line(
            v@,
            from as int,
            to as int,
            edit_opt(edit),
            indent@,
        ).spans);
    }
    Line::of(spans)
}

/// A text of several lines, one drawn line for each, with the caret on the line that
/// holds it.
pub fn text_area_lines(value: &str, edit: Option<&Edit>, indent: &str) -> (r: Vec<Line>)
    ensures
        inked(r@) == area_from(value@, 0, edit_opt(edit), indent@),
{
    let v = chars_of(value);
    let _bytes: usize = byte_length(value);
    let mut lines = no_lines();
    let mut from: usize = 0;
    let mut start: usize = 0;
    let ghost all = area_from(value@, 0, edit_opt(edit), indent@);
    proof {
        assert(v@.take(0) =~= Seq::empty());
        assert(inked(lines@) + all =~= all);
    }
    loop
        invariant
            from <= v.len(),
            v@ == value@,
            _bytes == size(v@),
            start == offset(v@, from as int),
            all == area_from(value@, 0, edit_opt(edit), indent@),
            all == inked(lines@) + area_from(v@, from as int, edit_opt(edit), indent@),
        decreases v.len() - from,
    {
        let to: usize = find_char(&v, '\n', from);
        let line = one_area_line(&v, from, to, start, edit, indent);
        proof {
            lemma_offset_step(v@, from as int, to as int);
        }
        let ghost before = inked(lines@);
        let ghost added = line@;
        add_line(&mut lines, line);
        if to == v.len() {
            proof {
                assert(inked(lines@) =~= all);
            }
            return lines;
        }
        proof {
            lemma_offset_step(v@, to as int, to + 1);
            lemma_offset_step(v@, from as int, to + 1);
            assert(v@.subrange(to as int, to + 1) =~= seq!['\n']);
            lemma_break_size();
            assert(inked(lines@) + area_from(v@, to + 1, edit_opt(edit), indent@) =~= before + (seq![
                added,
            ] + area_from(v@, to + 1, edit_opt(edit), indent@)));
        }
        let part = slice_string(&v, from, to);
        start = start + byte_length(part.as_str()) + 1;
        from = to + 1;
    }
}

#[via_fn]
proof fn line_col_from_shrinks(s: Seq<char>, from: int, line: int, caret: nat) {
    if 0 <= from <= s.len() {
        lemma_char_from(s, '\n', from);
    }
}

/// The line, counted from `line` at the place `from`, that holds a caret, and how
/// many characters into the line it is; a caret beyond the text is at its start.
pub open spec fn line_col_from(s: Seq<char>, from: int, line: int, caret: nat) -> (int, int)
    decreases s.len() - from,
    via line_col_from_shrinks
{
    let to = line_end(s, from);
    if from < 0 || from > s.len() || caret <= offset(s, to) {
        (line, snap(s.subrange(from, to), (caret - offset(s, from)) as nat))
    } else if to >= s.len() {
        (0, 0)
    } else {
        line_col_from(s, to + 1, line + 1, caret)
    }
}

/// The line of a text that holds a caret, and how many characters into it.
pub open spec fn line_col(s: Seq<char>, caret: nat) -> (int, int) {
    line_col_from(s, 0, 0, caret)
}

/// The line of a text that holds a caret, and how many characters into it.
pub fn caret_line_col(value: &str, caret: usize) -> (r: (usize, usize))
    ensures
        (r.0 as int, r.1 as int) == line_col(value@, caret as nat),
{
    let v = chars_of(value);
    let _bytes: usize = byte_length(value);
    let mut from: usize = 0;
    let mut start: usize = 0;
    let mut line: usize = 0;
    proof {
        assert(v@.take(0) =~= Seq::empty());
    }
    loop
        invariant
            line <= from <= v.len(),
            v@ == value@,
            _bytes == size(v@),
            start == offset(v@, from as int),
            start <= caret,
            line_col(v@, caret as nat) == line_col_from(v@, from as int, line as int, caret as nat),
        decreases v.len() - from,
    {
        let to: usize = find_char(&v, '\n', from);
        let part = slice_string(&v, from, to);
        proof {
            lemma_offset_step(v@, from as int, to as int);
        }
        let end: usize = start + byte_length(part.as_str());
        if caret <= end {
            let p = chars_of(part.as_str());
            let col: usize = snap_to(&p, caret - start);
            return (line, col);
        }
        if to == v.len() {
            return (0, 0);
        }
        proof {
            lemma_offset_step(v@, to as int, to + 1);
            assert(v@.subrange(to as int, to + 1) =~= seq!['\n']);
            lemma_break_size();
        }
        start = end + 1;
        from = to + 1;
        line = line + 1;
    }
}

// ─── Scrolling ────────────────────────────────────────────────────────────────

/// A part of a screen.
#[derive(Debug, Clone, Copy, PartialEq, Eq, Structural)]
pub struct Rect {
    pub x: u16,
    pub y: u16,
    pub width: u16,
    pub height: u16,
}

/// The size of an area inside its border.
pub open spec fn inside(n: u16) -> u16 {
    if n < 2 {
        0
    } else {
        (n - 2) as u16
    }
}

/// The columns inside the border.
pub fn interior(area: Rect) -> (r: u16)
    ensures
        r == inside(area.width),
{
    if area.width < 2 {
        0
    } else {
        area.width - 2
    }
}

/// The rows inside the border.
pub fn interior_height(area: Rect) -> (r: u16)
    ensures
        r == inside(area.height),
{
    if area.height < 2 {
        0
    } else {
        area.height - 2
    }
}

/// The lines of a pane that its focused row takes up.
#[derive(Debug, Clone, Copy, PartialEq, Eq, Structural)]
pub struct FocusRows {
    pub start: usize,
    pub end: usize,
}

impl FocusRows {
    /// None yet.
    pub fn none() -> (r: FocusRows)
        ensures
            r == (FocusRows { start: 0, end: 0 }),
    {
        FocusRows { start: 0, end: 0 }
    }

    /// Takes `start..end` for the focused row, if it is.
    pub fn mark(&mut self, focused: bool, start: usize, end: usize)
        ensures
            *final(self) == if focused {
                FocusRows { start, end }
            } else {
                *old(self)
            },
    {
        if focused {
            *self = FocusRows { start, end };
        }
    }

    /// One row.
    pub fn at(row: usize) -> (r: FocusRows)
        requires
            row < usize::MAX,
        ensures
            r == (FocusRows { start: row, end: (row + 1) as usize }),
    {
        FocusRows { start: row, end: row + 1 }
    }
}

/// How far a pane of `height` rows is scrolled over `total` lines: so that the
/// focused rows are in its middle, but not beyond the last line and never past the
/// first of the focused rows.
pub open spec fn scrolled(total: int, rows: FocusRows, height: int) -> int {
    if height == 0 || total <= height {
        0
    } else {
        let middle = if rows.end > rows.start {
            rows.start + (rows.end - rows.start) / 2
        } else {
            rows.start as int
        };
        let centred = if middle > height / 2 {
            middle - height / 2
        } else {
            0
        };
        let kept = if centred < total - height {
            centred
        } else {
            total - height
        };
        if kept < rows.start {
            kept
        } else {
            rows.start as int
        }
    }
}

/// The same, as far as a scroll offset counts.
pub open spec fn scroll_of(total: int, rows: FocusRows, height: int) -> u16 {
    let n = scrolled(total, rows, height);
    if n > u16::MAX {
        u16::MAX
    } else {
        n as u16
    }
}

/// How far a pane's lines are scrolled so that its focused row stays on screen.
pub fn vscroll(total: usize, rows: FocusRows, height: usize) -> (r: u16)
    ensures
        r == scroll_of(total as int, rows, height as int),
{
    if height == 0 || total <= height {
        return 0;
    }
    let middle: usize = if rows.end > rows.start {
        rows.start + (rows.end - rows.start) / 2
    } else {
        rows.start
    };
    let centred: usize = if middle > height / 2 {
        middle - height / 2
    } else {
        0
    };
    let kept: usize = if centred < total - height {
        centred
    } else {
        total - height
    };
    let n: usize = if kept < rows.start {
        kept
    } else {
        rows.start
    };
    if n > 65535 {
        65535
    } else {
        n as u16
    }
}

/// The focused row is on the screen, and nothing is scrolled past the last line.
pub proof fn law_the_focused_row_is_on_screen(total: int, row: usize, height: int)
    requires
        0 < height,
        0 <= row < total,
        row < usize::MAX,
    ensures
        ({
            let n = scrolled(total, FocusRows { start: row, end: (row + 1) as usize }, height);
            &&& 0 <= n <= row < n + height
            &&& n + height <= total || n == 0
        }),
{
}

/// A block of rows that fits is on the screen whole; of one that does not, the first
/// row is on top.
pub proof fn law_the_focused_block_is_on_screen(total: int, rows: FocusRows, height: int)
    requires
        0 < height,
        rows.start < rows.end <= total,
    ensures
        ({
            let n = scrolled(total, rows, height);
            &&& 0 <= n <= rows.start < n + height
            &&& rows.end - rows.start <= height ==> rows.end <= n + height
            &&& rows.end - rows.start > height ==> n == rows.start
        }),
{
}

// ─── Wrapping ─────────────────────────────────────────────────────────────────

/// The place behind the last white space before `j`, in the row that starts at `s`.
pub open spec fn last_break(chars: Seq<char>, s: int, j: int) -> Option<int>
    decreases j - s,
{
    if j <= s {
        None
    } else if white(chars[j - 1]) {
        Some(j)
    } else {
        last_break(chars, s, j - 1)
    }
}

/// Where the row after the one at `s` starts: behind the last white space that fits,
/// or where the row is full.
pub open spec fn next_row(chars: Seq<char>, width: int, s: int) -> int {
    match last_break(chars, s, s + width) {
        Some(j) => j,
        None => s + width,
    }
}

proof fn lemma_last_break(chars: Seq<char>, s: int, j: int)
    ensures
        last_break(chars, s, j) matches Some(k) ==> s < k <= j,
    decreases j - s,
{
    if j > s && !white(chars[j - 1]) {
        lemma_last_break(chars, s, j - 1);
    }
}

#[via_fn]
proof fn wrap_from_shrinks(chars: Seq<char>, width: int, s: int) {
    lemma_last_break(chars, s, s + width);
}

/// The places where rows start, from the one at `s` on.
pub open spec fn wrap_from(chars: Seq<char>, width: int, s: int) -> Seq<int>
    decreases chars.len() - s,
    via wrap_from_shrinks
{
    if width <= 0 || s + width >= chars.len() {
        seq![s]
    } else {
        seq![s] + wrap_from(chars, width, next_row(chars, width, s))
    }
}

/// Where each row of a line starts in a pane so many columns wide: rows break behind
/// the last white space that fits, and within a word wider than the pane.
pub fn wrap_starts(line: &str, width: usize) -> (r: Vec<usize>)
    ensures
        places(r@) == wrap_from(line@, width as int, 0),
        r.len() > 0,
{
    let v = chars_of(line);
    let mut starts: Vec<usize> = Vec::new();
    let mut s: usize = 0;
    starts.push(0);
    let ghost all = wrap_from(line@, width as int, 0);
    if width == 0 {
        proof {
            assert(places(starts@) =~= all);
        }
        return starts;
    }
    proof {
        assert(places(starts@) =~= seq![0int]);
        assert(places(starts@).drop_last() + all =~= all);
    }
    while s < v.len() && width < v.len() - s
        invariant
            v@ == line@,
            width > 0,
            s <= v.len(),
            starts.len() > 0,
            starts@.last() == s,
            all == places(starts@).drop_last() + wrap_from(line@, width as int, s as int),
        decreases v.len() - s,
    {
        let mut j: usize = s + width;
        while j > s && !is_white(v[j - 1])
            invariant
                v@ == line@,
                s <= j <= s + width < v.len(),
                last_break(line@, s as int, s + width) == last_break(line@, s as int, j as int),
            decreases j,
        {
            j = j - 1;
        }
        let next: usize = if j > s {
            j
        } else {
            s + width
        };
        let ghost before = starts@;
        starts.push(next);
        proof {
            assert(next == next_row(line@, width as int, s as int));
            assert(places(starts@).drop_last() =~= places(before));
            assert(places(before) =~= places(before).drop_last().push(s as int));
            assert(places(before).drop_last() + (seq![s as int] + wrap_from(
                line@,
                width as int,
                next as int,
            )) =~= places(before) + wrap_from(line@, width as int, next as int));
        }
        s = next;
    }
    proof {
        assert(wrap_from(line@, width as int, s as int) =~= seq![s as int]);
        assert(places(starts@) =~= places(starts@).drop_last().push(s as int));
        assert(places(starts@) =~= all);
    }
    starts
}

/// How many rows the first `n` lines take.
pub open spec fn rows_before(lines: Seq<Inked>, width: int, n: int) -> nat
    decreases n,
{
    if n <= 0 {
        0
    } else {
        rows_before(lines, width, n - 1) + wrap_from(
            line_text(lines[n - 1].spans),
            width,
            0,
        ).len()
    }
}

/// The row each line starts on in a pane that wraps, and the rows they take together.
pub fn wrapped_offsets(lines: &Vec<Line>, width: usize) -> (r: (Vec<usize>, usize))
    ensures
        r.0.len() == lines.len(),
        forall|i: int|
            0 <= i < lines.len() ==> #[trigger] r.0@[i] == capped(
                rows_before(inked(lines@), width as int, i) as int,
            ),
        r.1 == capped(rows_before(inked(lines@), width as int, lines.len() as int) as int),
{
    let mut offsets: Vec<usize> = Vec::new();
    let mut total: usize = 0;
    let ghost all = inked(lines@);
    let mut i: usize = 0;
    while i < lines.len()
        invariant
            i <= lines.len(),
            all == inked(lines@),
            offsets.len() == i,
            forall|k: int|
                0 <= k < i ==> #[trigger] offsets@[k] == capped(
                    rows_before(all, width as int, k) as int,
                ),
            total == capped(rows_before(all, width as int, i as int) as int),
        decreases lines.len() - i,
    {
        offsets.push(total);
        let text = lines[i].text();
        let rows: usize = wrap_starts(text.as_str(), width).len();
        proof {
            assert(all[i as int] == lines@[i as int]@);
            assert(wrap_from(text@, width as int, 0).len() == rows);
        }
        total =
        if total > usize::MAX - rows {
            usize::MAX
        } else {
            total + rows
        };
        i = i + 1;
    }
    (offsets, total)
}

/// How many of the places from `i` on are not beyond a column, up to the first that
/// is.
pub open spec fn reached(starts: Seq<int>, col: int, i: int) -> int
    decreases starts.len() - i,
{
    if i >= starts.len() || starts[i] > col {
        0
    } else {
        1 + reached(starts, col, i + 1)
    }
}

/// The row of a line that a column falls on.
pub open spec fn row_of(line: Seq<char>, col: int, width: int) -> int {
    let n = reached(wrap_from(line, width, 0), col, 0);
    if n > 0 {
        n - 1
    } else {
        0
    }
}

/// The row of a line that a column falls on.
pub fn wrapped_row_of(line: &str, col: usize, width: usize) -> (r: usize)
    ensures
        r == row_of(line@, col as int, width as int),
{
    let starts = wrap_starts(line, width);
    let ghost all = wrap_from(line@, width as int, 0);
    let mut n: usize = 0;
    while n < starts.len() && starts[n] <= col
        invariant
            n <= starts.len(),
            all == places(starts@),
            reached(all, col as int, 0) == n + reached(all, col as int, n as int),
        decreases starts.len() - n,
    {
        proof {
            assert(all[n as int] == starts@[n as int] as int);
        }
        n = n + 1;
    }
    proof {
        if n < starts.len() {
            assert(all[n as int] == starts@[n as int] as int);
        }
    }
    if n > 0 {
        n - 1
    } else {
        0
    }
}

/// The line of a body that holds a caret, and the row within it once the line wraps.
pub open spec fn caret_row(data: Seq<char>, caret: nat, indent: Seq<char>, width: int) -> (int, int) {
    let (line, col) = line_col(data, caret);
    let lines = split_at_char(data, '\n');
    let text = indent + if line < lines.len() {
        lines[line]
    } else {
        Seq::empty()
    };
    (line, row_of(text, indent.len() + col, width))
}

proof fn lemma_line_col(s: Seq<char>, from: int, line: int, caret: nat)
    requires
        0 <= from <= s.len(),
        0 <= line,
        offset(s, from) <= caret,
    ensures
        ({
            let (l, c) = line_col_from(s, from, line, caret);
            let rest = split_from(s, '\n', from);
            (l == 0 && c == 0) || (line <= l < line + rest.len() && 0 <= c <= rest[l - line].len())
        }),
    decreases s.len() - from,
{
    lemma_char_from(s, '\n', from);
    let to = line_end(s, from);
    if caret <= offset(s, to) {
        let part = s.subrange(from, to);
        lemma_snap(part, (caret - offset(s, from)) as nat);
        if to == s.len() {
            assert(s.skip(from) =~= part);
        }
    } else if to < s.len() {
        lemma_offset_step(s, to, to + 1);
        assert(s.subrange(to, to + 1) =~= seq!['\n']);
        lemma_break_size();
        lemma_line_col(s, to + 1, line + 1, caret);
        let rest = split_from(s, '\n', to + 1);
        assert(split_from(s, '\n', from) =~= seq![s.subrange(from, to)] + rest);
    }
}

/// The line of a body that holds its caret, and the row within it once the line
/// wraps.
pub fn body_caret_row(data: &str, caret: usize, indent: &str, width: usize) -> (r: (usize, usize))
    ensures
        (r.0 as int, r.1 as int) == caret_row(data@, caret as nat, indent@, width as int),
{
    let (line, col) = caret_line_col(data, caret);
    let lines = split_string(data, '\n');
    proof {
        assert(texts(lines@).len() == lines@.len());
        assert(data@.take(0) =~= Seq::empty());
        lemma_line_col(data@, 0, 0, caret as nat);
    }
    let text = if line < lines.len() {
        proof {
            assert(texts(lines@)[line as int] == lines@[line as int]@);
        }
        concat2(indent, lines[line].as_str())
    } else {
        proof {
            assert(indent@ + Seq::<char>::empty() =~= indent@);
        }
        indent.to_owned()
    };
    let head: usize = indent.unicode_len();
    let all: usize = text.as_str().unicode_len();
    let at: usize = if col > all - head {
        all
    } else {
        head + col
    };
    (line, wrapped_row_of(text.as_str(), at, width))
}

proof fn lemma_wrap_rows(chars: Seq<char>, width: int, s: int)
    requires
        width > 0,
        0 <= s <= chars.len(),
    ensures
        ({
            let rows = wrap_from(chars, width, s);
            &&& rows.len() > 0 && rows[0] == s
            &&& forall|i: int| 0 <= i < rows.len() ==> s <= #[trigger] rows[i] <= chars.len()
            &&& forall|i: int|
                0 <= i < rows.len() - 1 ==> rows[i] < #[trigger] rows[i + 1] <= rows[i] + width
            &&& chars.len() - rows.last() <= width
        }),
    decreases chars.len() - s,
{
    if s + width < chars.len() {
        lemma_last_break(chars, s, s + width);
        let next = next_row(chars, width, s);
        lemma_wrap_rows(chars, width, next);
        let rest = wrap_from(chars, width, next);
        let rows = wrap_from(chars, width, s);
        assert forall|i: int| 0 <= i < rows.len() implies s <= #[trigger] rows[i] <= chars.len() by {
            if i > 0 {
                assert(rows[i] == rest[i - 1]);
            }
        }
        assert forall|i: int| 0 <= i < rows.len() - 1 implies rows[i] < #[trigger] rows[i + 1]
            <= rows[i] + width by {
            if i > 0 {
                assert(rows[i] == rest[i - 1]);
                assert(rows[i + 1] == rest[i - 1 + 1]);
            } else {
                assert(rows[1] == rest[0]);
            }
        }
        assert(rows.last() == rest.last());
    }
}

/// No row is wider than the pane, each goes on where the one before it ended, and
/// together they are the line.
pub proof fn law_rows_fit_and_miss_nothing(chars: Seq<char>, width: int)
    requires
        width > 0,
    ensures
        ({
            let rows = wrap_from(chars, width, 0);
            &&& rows.len() > 0 && rows[0] == 0
            &&& forall|i: int|
                0 <= i < rows.len() - 1 ==> rows[i] < #[trigger] rows[i + 1] <= rows[i] + width
            &&& rows.last() <= chars.len() <= rows.last() + width
        }),
{
    lemma_wrap_rows(chars, width, 0);
}

proof fn lemma_no_caret_below(s: Seq<char>, from: int, e: EditView, indent: Seq<char>)
    requires
        0 <= from <= s.len(),
        e.caret < offset(s, from),
    ensures
        forall|i: int|
            0 <= i < area_from(s, from, Some(e), indent).len() ==> (#[trigger] area_from(
                s,
                from,
                Some(e),
                indent,
            )[i]).spans.len() == 2,
    decreases s.len() - from,
{
    lemma_char_from(s, '\n', from);
    let to = line_end(s, from);
    if to < s.len() {
        lemma_offset_grows(s, from, to + 1);
        lemma_no_caret_below(s, to + 1, e, indent);
        let rest = area_from(s, to + 1, Some(e), indent);
        let all = area_from(s, from, Some(e), indent);
        assert forall|i: int| 0 <= i < all.len() implies (#[trigger] all[i]).spans.len() == 2 by {
            if i > 0 {
                assert(all[i] == rest[i - 1]);
            }
        }
    }
}

proof fn lemma_caret_on_line(s: Seq<char>, from: int, line: int, e: EditView, indent: Seq<char>)
    requires
        0 <= from <= s.len(),
        offset(s, from) <= e.caret <= size(s),
    ensures
        ({
            let all = area_from(s, from, Some(e), indent);
            let l = line_col_from(s, from, line, e.caret).0;
            &&& line <= l < line + all.len()
            &&& forall|i: int|
                0 <= i < all.len() ==> ((#[trigger] all[i]).spans.len() > 2 <==> i == l - line)
        }),
    decreases s.len() - from,
{
    lemma_char_from(s, '\n', from);
    let to = line_end(s, from);
    let all = area_from(s, from, Some(e), indent);
    assert(s.take(s.len() as int) =~= s);
    if to < s.len() {
        let rest = area_from(s, to + 1, Some(e), indent);
        lemma_offset_step(s, to, to + 1);
        assert(s.subrange(to, to + 1) =~= seq!['\n']);
        lemma_break_size();
        assert(all =~= seq![area_line(s, from, to, Some(e), indent)] + rest);
        if e.caret <= offset(s, to) {
            lemma_no_caret_below(s, to + 1, e, indent);
            assert forall|i: int| 0 <= i < all.len() implies ((#[trigger] all[i]).spans.len() > 2
                <==> i == 0) by {
                if i > 0 {
                    assert(all[i] == rest[i - 1]);
                }
            }
        } else {
            lemma_caret_on_line(s, to + 1, line + 1, e, indent);
            let l = line_col_from(s, from, line, e.caret).0;
            assert forall|i: int| 0 <= i < all.len() implies ((#[trigger] all[i]).spans.len() > 2
                <==> i == l - line) by {
                if i > 0 {
                    assert(all[i] == rest[i - 1]);
                }
            }
        }
    }
}

/// The caret of a text area is drawn on one line, the one that the scrolling goes by.
pub proof fn law_the_caret_is_drawn_on_its_line(s: Seq<char>, e: EditView, indent: Seq<char>)
    requires
        e.caret <= size(s),
    ensures
        ({
            let all = area_from(s, 0, Some(e), indent);
            let line = line_col(s, e.caret).0;
            &&& 0 <= line < all.len()
            &&& forall|i: int|
                0 <= i < all.len() ==> ((#[trigger] all[i]).spans.len() > 2 <==> i == line)
        }),
{
    assert(s.take(0) =~= Seq::empty());
    lemma_caret_on_line(s, 0, 0, e, indent);
}

} // verus!
