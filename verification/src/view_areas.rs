//! The panes that hold text of several lines.
use vstd::prelude::*;
use vstd::string::*;

use crate::config::str_opt;
use crate::edit::{Edit, EditView};
use crate::text::{concat2, lines_of, text_lines, texts};
use crate::theme::Color;
use crate::view::{
    add_line, add_lines, bare, blank, capped, ink, inked, just, line_of, one, two, Inked, Line, Style,
};
use crate::view_field::{
    area_from, body_caret_row, caret, caret_in, caret_row, input_inks, input_line, inside, interior,
    interior_height, rows_before, scroll_of, text_area_lines, vscroll, wrapped_offsets, FocusRows, Rect,
};
use crate::view_panes::{error_line, label_ink, label_style, note, plain_title, report, Pane, PaneView};
use crate::view_text::{pane_title, titled};

verus! {

/// One focused row, as far as rows can be counted.
pub open spec fn one_row(n: int) -> FocusRows {
    if n < usize::MAX {
        FocusRows { start: n as usize, end: (n + 1) as usize }
    } else {
        FocusRows { start: (usize::MAX - 1) as usize, end: usize::MAX }
    }
}

fn row_at(above: usize, within: usize) -> (r: FocusRows)
    ensures
        r == one_row(above + within),
{
    if above < usize::MAX - within {
        FocusRows::at(above + within)
    } else {
        FocusRows::at(usize::MAX - 1)
    }
}

/// An error below an empty line, where there is one.
pub open spec fn error_below(error: Option<Seq<char>>) -> Seq<Inked> {
    match error {
        Some(words) => seq![blank(), error_line(words)],
        None => Seq::empty(),
    }
}

fn put_error_below(lines: &mut Vec<Line>, error: Option<&str>)
    ensures
        inked(final(lines)@) == inked(old(lines)@) + error_below(str_opt(error)),
{
    let ghost before = inked(lines@);
    match error {
        Some(words) => {
            add_line(lines, Line::blank());
            add_line(lines, report(words));
        },
        None => {},
    }
    proof {
        assert(inked(lines@) =~= before + error_below(str_opt(error)));
    }
}

// ─── The body ─────────────────────────────────────────────────────────────────

/// The rows above the text of the body pane.
pub open spec fn body_head(content_type: Seq<char>, focused: int, edit: EditView, width: u16) -> Seq<
    Inked,
> {
    seq![
        blank(),
        one("  content type"@, label_ink(focused == 0, Color::Green)),
        line_of(input_inks(content_type, caret_in(focused == 0, edit), width)),
        blank(),
        one("  body"@, label_ink(focused == 1, Color::Green)),
    ]
}

/// The body pane: the content type, and the text below it.
pub open spec fn body_lines(
    content_type: Seq<char>,
    data: Seq<char>,
    focused: int,
    edit: EditView,
    error: Option<Seq<char>>,
    width: u16,
) -> Seq<Inked> {
    body_head(content_type, focused, edit, width) + area_from(
        data,
        0,
        caret_in(focused == 1, edit),
        "  "@,
    ) + error_below(error)
}

/// The row of the body pane that has the caret, counted as the pane wraps.
pub open spec fn body_focus(
    lines: Seq<Inked>,
    data: Seq<char>,
    focused: int,
    edit: EditView,
    width: u16,
) -> FocusRows {
    if focused == 0 {
        one_row(capped(rows_before(lines, width as int, 2) as int))
    } else {
        let (line, within) = caret_row(data, edit.caret, "  "@, width as int);
        let above = if 5 + line < lines.len() {
            capped(rows_before(lines, width as int, 5 + line) as int)
        } else {
            0
        };
        one_row(above + within)
    }
}

/// The pane of a request's body. It wraps, so it is scrolled by the rows that its
/// lines take up.
pub fn draw_edit_body(
    area: Rect,
    content_type: &str,
    data: &str,
    focused: usize,
    edit: &Edit,
    unsaved: bool,
    error: Option<&str>,
) -> (r: Pane)
    ensures
        ({
            let width = inside(area.width);
            let lines = body_lines(
                content_type@,
                data@,
                focused as int,
                edit@,
                str_opt(error),
                width,
            );
            r@ == PaneView {
                title: titled(" Body "@, unsaved),
                border: Color::Green,
                lines,
                scroll: scroll_of(
                    capped(rows_before(lines, width as int, lines.len() as int) as int),
                    body_focus(lines, data@, focused as int, edit@, width),
                    inside(area.height) as int,
                ),
                wrap: true,
            }
        }),
{
    let width: u16 = interior(area);
    let mut lines = just(Line::blank());
    add_line(&mut lines, Line::one("  content type", label_style(focused == 0, Color::Green)));
    add_line(&mut lines, input_line(content_type, caret(focused == 0, edit), width));
    add_line(&mut lines, Line::blank());
    add_line(&mut lines, Line::one("  body", label_style(focused == 1, Color::Green)));
    proof {
        assert(inked(lines@) =~= body_head(content_type@, focused as int, edit@, width));
    }
    add_lines(&mut lines, text_area_lines(data, caret(focused == 1, edit), "  "));
    put_error_below(&mut lines, error);
    let ghost all = inked(lines@);
    proof {
        assert(all == body_lines(
            content_type@,
            data@,
            focused as int,
            edit@,
            str_opt(error),
            width,
        ));
        assert(all.len() == lines@.len());
    }
    let (offsets, total) = wrapped_offsets(&lines, width as usize);
    let rows = if focused == 0 {
        row_at(offsets[2], 0)
    } else {
        let (line, within) = body_caret_row(data, edit.caret, "  ", width as usize);
        let above: usize = if line < offsets.len() - 5 {
            offsets[5 + line]
        } else {
            0
        };
        row_at(above, within)
    };
    let scroll: u16 = vscroll(total, rows, interior_height(area) as usize);
    Pane { title: pane_title(" Body ", unsaved), border: Color::Green, lines, scroll, wrap: true }
}

// ─── Importing ────────────────────────────────────────────────────────────────

/// The lines of the buffer, with the cursor behind the last of the first `n`.
pub open spec fn buffer_lines(lines: Seq<Seq<char>>, n: int) -> Seq<Inked>
    decreases n,
{
    if n <= 0 {
        Seq::empty()
    } else {
        let text = if n == lines.len() {
            lines[n - 1] + "█"@
        } else {
            lines[n - 1]
        };
        buffer_lines(lines, n - 1).push(two(("  "@, bare()), (text, ink(Color::White))))
    }
}

/// The pane that takes a command.
pub open spec fn import_lines(buffer: Seq<char>, error: Option<Seq<char>>) -> Seq<Inked> {
    let head = seq![
        blank(),
        note("  Paste a cURL command, then Ctrl+s to import"@),
        blank(),
    ];
    let shown = if buffer.len() == 0 {
        seq![two(("  > "@, ink(Color::DarkGray)), ("█"@, ink(Color::White)))]
    } else {
        buffer_lines(text_lines(buffer), text_lines(buffer).len() as int)
    };
    head + shown + error_below(error)
}

fn put_buffer(lines: &mut Vec<Line>, buffer: &str)
    ensures
        inked(final(lines)@) == inked(old(lines)@) + buffer_lines(
            text_lines(buffer@),
            text_lines(buffer@).len() as int,
        ),
{
    let parts = lines_of(buffer);
    let ghost all = text_lines(buffer@);
    let ghost before = inked(lines@);
    let mut i: usize = 0;
    proof {
        assert(inked(lines@) =~= before + buffer_lines(all, 0));
    }
    while i < parts.len()
        invariant
            i <= parts.len(),
            all == texts(parts@),
            inked(lines@) == before + buffer_lines(all, i as int),
        decreases parts.len() - i,
    {
        let text = if i + 1 == parts.len() {
            concat2(parts[i].as_str(), "█")
        } else {
            parts[i].clone()
        };
        add_line(lines, Line::two("  ", Style::bare(), text.as_str(), Style::ink(Color::White)));
        proof {
            assert(all[i as int] == parts@[i as int]@);
            assert(inked(lines@) =~= before + buffer_lines(all, i + 1));
        }
        i = i + 1;
    }
}

/// The pane that takes a command. The cursor is at its end, so the last row is kept
/// on screen.
pub fn draw_import_curl(area: Rect, buffer: &str, error: Option<&str>) -> (r: Pane)
    ensures
        ({
            let width = inside(area.width) as int;
            let lines = import_lines(buffer@, str_opt(error));
            let total = capped(rows_before(lines, width, lines.len() as int) as int);
            r@ == PaneView {
                title: plain_title(" Import cURL "@),
                border: Color::Green,
                lines,
                scroll: scroll_of(
                    total,
                    one_row(
                        if total > 0 {
                            total - 1
                        } else {
                            0
                        },
                    ),
                    inside(area.height) as int,
                ),
                wrap: true,
            }
        }),
{
    let mut lines = just(Line::blank());
    add_line(
        &mut lines,
        Line::one("  Paste a cURL command, then Ctrl+s to import", Style::ink(Color::DarkGray)),
    );
    add_line(&mut lines, Line::blank());
    let ghost head = inked(lines@);
    if buffer.is_empty() {
        add_line(
            &mut lines,
            Line::two("  > ", Style::ink(Color::DarkGray), "█", Style::ink(Color::White)),
        );
        proof {
            assert(inked(lines@) =~= head + seq![
                two(("  > "@, ink(Color::DarkGray)), ("█"@, ink(Color::White))),
            ]);
        }
    } else {
        put_buffer(&mut lines, buffer);
    }
    put_error_below(&mut lines, error);
    proof {
        assert(head =~= seq![
            blank(),
            note("  Paste a cURL command, then Ctrl+s to import"@),
            blank(),
        ]);
        assert(inked(lines@) == import_lines(buffer@, str_opt(error)));
        assert(inked(lines@).len() == lines@.len());
    }
    let (_, total) = wrapped_offsets(&lines, interior(area) as usize);
    let rows = row_at(
        if total > 0 {
            total - 1
        } else {
            0
        },
        0,
    );
    let scroll: u16 = vscroll(total, rows, interior_height(area) as usize);
    Pane {
        title: Line::one(" Import cURL ", Style::bare()),
        border: Color::Green,
        lines,
        scroll,
        wrap: true,
    }
}

} // verus!
