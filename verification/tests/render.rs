use ichigo::edit::Edit;
use ichigo::form::PairKind;
use ichigo::strmap::StrMap;
use ichigo::theme::Color;
use ichigo::view::{brighten, cursor_line_bg, highlight, selection_bg, Band, Line, Style};
use ichigo::view_areas::draw_edit_body;
use ichigo::view_field::{
    body_caret_row, caret_line_col, input_line, text_area_lines, vscroll, window, wrap_starts, FocusRows, Rect, Window,
};
use ichigo::view_forms::{draw_edit_pairs, draw_new_profile, draw_new_request, draw_profile_list};
use ichigo::view_help::draw_confirm_discard;
use ichigo::view_panes::Pane;
use ichigo::view_text::{body_preview, colorize_json_line, image_area, var_spans, BODY_PREVIEW_LINES};


fn split(text: &str) -> Vec<(String, bool)> {
    var_spans(text, Style::bare())
        .into_iter()
        .map(|s| (s.text.clone(), s.style == Style::bold(Color::Magenta)))
        .collect()
}

#[test]
fn no_highlighted_foreground_is_its_own_background() {
    let line = highlight(colorize_json_line("  \"name\": \"berry\","), cursor_line_bg(), Band::Text);
    for span in &line.spans {
        assert_ne!(span.style.fg, Some(cursor_line_bg()));
        assert_ne!(span.style.fg, Some(selection_bg()));
    }
    assert!(line.spans.iter().any(|s| s.style.fg == Some(Color::White)));
}

#[test]
fn a_highlighted_line_keeps_its_syntax_colours_as_bright_twins() {
    let plain = colorize_json_line("  \"name\": \"berry\",");
    let lit = highlight(colorize_json_line("  \"name\": \"berry\","), selection_bg(), Band::Text);

    assert_eq!(plain.spans.len(), lit.spans.len());
    // The key was Yellow and the string Green; both keep their identity.
    assert_eq!(plain.spans[1].style.fg, Some(Color::Yellow));
    assert_eq!(lit.spans[1].style.fg, Some(Color::LightYellow));
    assert!(plain.spans.iter().any(|s| s.style.fg == Some(Color::Green)));
    assert!(lit.spans.iter().any(|s| s.style.fg == Some(Color::LightGreen)));
}

#[test]
fn the_band_and_the_bold_go_on_the_line_not_the_spans() {
    let line = highlight(colorize_json_line("  \"n\": 42"), cursor_line_bg(), Band::Text);
    assert_eq!(line.style.bg, Some(cursor_line_bg()));
    assert!(line.style.bold);
    // A span setting its own background would punch a hole in the band.
    assert!(line.spans.iter().all(|s| s.style.bg.is_none()));
}

#[test]
fn a_span_with_no_foreground_is_untouched() {
    let line = highlight(colorize_json_line("    \"n\": 42"), cursor_line_bg(), Band::Text);
    assert_eq!(line.spans[0].text.as_str(), "    ");
    assert_eq!(line.spans[0].style.fg, None);
}

#[test]
fn the_cursor_line_band_fills_the_row() {
    let plain = colorize_json_line("  \"n\": 42");
    let text_width = plain.width();
    let line = highlight(plain, cursor_line_bg(), Band::Row(40));
    assert_eq!(line.width(), 40);
    // The pad is the tail, and it is blank: it exists to carry the band,
    // not to add characters a copy would pick up.
    let tail = line.spans.last().unwrap();
    assert_eq!(tail.text.len(), 40 - text_width);
    assert!(tail.text.chars().all(|c| c == ' '));
}

#[test]
fn a_selection_band_stops_at_the_end_of_the_text() {
    let plain = colorize_json_line("  \"n\": 42");
    let text_width = plain.width();
    let line = highlight(plain, selection_bg(), Band::Text);
    assert_eq!(line.width(), text_width);
}

#[test]
fn a_line_wider_than_the_row_is_left_alone() {
    let long = colorize_json_line("  \"key\": \"a rather long value indeed\",");
    let width = long.width();
    let line = highlight(long, cursor_line_bg(), Band::Row(10));
    assert_eq!(line.width(), width);
}

#[test]
fn the_selection_band_is_lighter_than_the_cursor_line() {
    let grey = |c: Color| match c {
        Color::Indexed(i) => i,
        _ => panic!("bands are indexed greys"),
    };
    assert!(grey(selection_bg()) > grey(cursor_line_bg()));
}

#[test]
fn brightening_is_idempotent_and_leaves_unknown_colours_alone() {
    assert_eq!(brighten(brighten(Color::Green)), Color::LightGreen);
    assert_eq!(brighten(Color::LightCyan), Color::LightCyan);
    assert_eq!(brighten(Color::Indexed(42)), Color::Indexed(42));
}

#[test]
fn the_cursor_line_and_a_selection_are_different_bands() {
    assert_ne!(cursor_line_bg(), selection_bg());
}

#[test]
fn splits_placeholders_from_surrounding_text() {
    assert_eq!(
        split("https://{{HOST}}/v1/{{ID}}"),
        vec![
            ("https://".to_string(), false),
            ("{{HOST}}".to_string(), true),
            ("/v1/".to_string(), false),
            ("{{ID}}".to_string(), true),
        ]
    );
}

#[test]
fn plain_text_stays_one_span() {
    assert_eq!(split("Bearer token"), vec![("Bearer token".to_string(), false)]);
}

#[test]
fn placeholder_may_be_the_whole_value() {
    assert_eq!(split("{{TOKEN}}"), vec![("{{TOKEN}}".to_string(), true)]);
}

// An unterminated `{{` is not a variable to `extract_var_names`, so it must
// not look like one here either.
#[test]
fn unterminated_open_is_not_highlighted() {
    assert_eq!(split("a {{B"), vec![("a {{B".to_string(), false)]);
    assert_eq!(
        split("{{A}} then {{B"),
        vec![
            ("{{A}}".to_string(), true),
            (" then {{B".to_string(), false),
        ]
    );
}

#[test]
fn empty_value_yields_no_spans() {
    assert!(split("").is_empty());
}

// ─── image_area ───────────────────────────────────────────────────────

fn inner(width: u16, height: u16) -> Rect {
    Rect { x: 3, y: 5, width, height }
}

#[test]
fn image_gets_the_rows_below_the_text() {
    let area = image_area(inner(40, 20), 1).expect("room for an image");
    assert_eq!(area.x, 3, "must stay inside the block's left border");
    assert_eq!(area.y, 5 + 2, "one text row plus one blank separator");
    assert_eq!(area.width, 40);
    assert_eq!(area.height, 18);
}

#[test]
fn more_text_leaves_less_image() {
    let area = image_area(inner(40, 20), 3).expect("room for an image");
    assert_eq!(area.y, 5 + 4);
    assert_eq!(area.height, 16);
}

#[test]
fn no_room_below_the_text_yields_none() {
    assert_eq!(image_area(inner(40, 2), 1), None);
    assert_eq!(image_area(inner(40, 1), 1), None);
    assert_eq!(image_area(inner(40, 0), 1), None);
}

#[test]
fn no_width_yields_none() {
    assert_eq!(image_area(inner(0, 20), 1), None);
}

#[test]
fn text_taller_than_the_pane_clamps() {
    assert_eq!(image_area(inner(40, 10), 40), None);
    assert_eq!(image_area(inner(40, 10), u16::MAX), None);
}

// ─── The body ─────────────────────────────────────────────────────────────

#[test]
fn a_long_body_is_previewed_rather_than_printed() {
    let data = (1..=10).map(|i| i.to_string()).collect::<Vec<_>>().join("\n");
    let preview = body_preview(&data);

    assert_eq!(preview.len(), BODY_PREVIEW_LINES + 1);
    assert_eq!(preview[0], "1");
    assert_eq!(preview[BODY_PREVIEW_LINES], "… 4 more lines");
}

#[test]
fn a_short_body_is_shown_whole() {
    assert_eq!(body_preview("{\"a\":1}"), vec!["{\"a\":1}".to_string()]);
    assert!(body_preview("").is_empty());

    let data = (0..=BODY_PREVIEW_LINES).map(|i| i.to_string()).collect::<Vec<_>>().join("\n");
    assert_eq!(body_preview(&data).last().unwrap(), "… 1 more line");
}

#[test]
fn a_text_area_puts_the_caret_on_one_line_only() {
    // Caret at the end of "ab\n" is offset 3 — the start of the second line.
    let edit = Edit::at_end("ab\n");
    let lines = text_area_lines("ab\ncd", Some(&edit), "  ");
    assert_eq!(lines.len(), 2);

    // Caret 3 is the first byte of the second line, so the bar is drawn
    // there and the first line is plain text.
    let drawn: Vec<String> = lines
        .iter()
        .map(|l| l.text())
        .collect();
    assert_eq!(drawn[0], "  ab");
    assert_eq!(drawn[1], "  │cd");
}

#[test]
fn a_trailing_newline_keeps_its_empty_line() {
    assert_eq!(text_area_lines("a\n", None, "").len(), 2);
}

#[test]
fn a_value_that_fits_is_not_windowed() {
    // Nine characters and a caret glyph in ten columns is exactly the
    // widest a value can be and still be shown whole.
    assert_eq!(window(9, 9, 10), Window { start: 0, end: 9, left: false, right: false });
}

#[test]
fn a_caret_at_the_end_of_a_long_value_stays_visible() {
    let win = window(100, 100, 20);
    assert!(win.start <= 100 && 100 <= win.end, "caret outside {win:?}");
    assert_eq!(win.end, 100);
    assert!(win.left && !win.right);
}

#[test]
fn a_caret_at_the_start_of_a_long_value_stays_visible() {
    let win = window(100, 0, 20);
    assert_eq!(win.start, 0);
    assert!(!win.left && win.right);
}

#[test]
fn the_caret_is_inside_the_window_at_every_position() {
    for width in [4, 5, 12, 40, 80] {
        for len in [0, 1, 7, 40, 200] {
            for caret in 0..=len {
                let win = window(len, caret, width);
                assert!(
                    win.start <= caret && caret <= win.end,
                    "len {len} caret {caret} width {width} gave {win:?}",
                );
                assert!(win.end <= len);
            }
        }
    }
}

#[test]
fn the_window_is_the_same_width_wherever_it_sits() {
    let widths: Vec<usize> = (0..=200).map(|c| window(200, c, 30)).map(|w| w.end - w.start).collect();
    assert!(widths.iter().all(|w| *w == widths[0]), "{widths:?}");
}

#[test]
fn a_pane_too_narrow_to_window_is_left_alone() {
    assert_eq!(window(50, 30, 3), Window { start: 0, end: 50, left: false, right: false });
}

#[test]
fn a_windowed_row_marks_the_text_it_hides() {
    let edit = Edit::at_end(&"x".repeat(60));
    let line = input_line(&"x".repeat(60), Some(&edit), 24);
    let rendered: String = line.text();
    assert!(rendered.starts_with("  > ‹"), "{rendered}");
    // The caret is at the end, so there is nothing hidden to its right.
    assert!(!rendered.contains('›'), "{rendered}");
    assert!(rendered.chars().count() <= 24, "{rendered}");
}

#[test]
fn an_unfocused_row_is_never_windowed() {
    let line = input_line(&"x".repeat(60), None, 24);
    let rendered: String = line.text();
    assert_eq!(rendered, format!("  > {}", "x".repeat(60)));
}

#[test]
fn a_multibyte_value_is_sliced_on_char_boundaries() {
    let value = "é".repeat(60);
    let edit = Edit::at_end(&value);
    let line = input_line(&value, Some(&edit), 24);
    let rendered: String = line.text();
    assert!(rendered.contains('é'));
}

// ---- vertical scrolling ----------------------------------------------

#[test]
fn a_pane_that_fits_is_never_scrolled() {
    assert_eq!(vscroll(10, FocusRows::at(9), 20), 0);
    assert_eq!(vscroll(20, FocusRows::at(19), 20), 0);
}

#[test]
fn the_focused_row_is_on_screen_at_every_position() {
    for height in [1, 2, 7, 24, 60] {
        for total in [0, 1, 9, 24, 200] {
            for row in 0..total {
                let offset = usize::from(vscroll(total, FocusRows::at(row), height));
                assert!(
                    offset <= row && row < offset + height,
                    "total {total} row {row} height {height} gave {offset}",
                );
                assert!(offset + height <= total.max(height));
            }
        }
    }
}

#[test]
fn the_last_row_stops_at_the_end_of_the_content() {
    assert_eq!(vscroll(100, FocusRows::at(99), 20), 80);
}

#[test]
fn a_block_taller_than_the_pane_shows_its_top() {
    assert_eq!(vscroll(200, FocusRows { start: 40, end: 90 }, 20), 40);
}

#[test]
fn a_pane_with_no_height_is_not_scrolled() {
    assert_eq!(vscroll(50, FocusRows::at(40), 0), 0);
}

// ---- wrapping ---------------------------------------------------------

#[test]
fn a_line_that_fits_is_one_row() {
    assert_eq!(wrap_starts("short", 20), vec![0]);
    assert_eq!(wrap_starts("", 20), vec![0]);
}

#[test]
fn a_long_line_breaks_at_a_space() {
    // "aaa bbb ccc" in 8 columns: "aaa bbb " then "ccc".
    assert_eq!(wrap_starts("aaa bbb ccc", 8), vec![0, 8]);
}

#[test]
fn a_word_wider_than_the_pane_is_broken_mid_word() {
    assert_eq!(wrap_starts(&"x".repeat(25), 10), vec![0, 10, 20]);
}

#[test]
fn a_zero_width_pane_leaves_one_row() {
    assert_eq!(wrap_starts("anything at all", 0), vec![0]);
}

// ---- the body pane's caret --------------------------------------------

#[test]
fn a_caret_at_a_lines_end_belongs_to_that_line() {
    assert_eq!(caret_line_col("ab\ncd", 2), (0, 2));
    assert_eq!(caret_line_col("ab\ncd", 3), (1, 0));
    assert_eq!(caret_line_col("ab\ncd", 5), (1, 2));
}

#[test]
fn the_caret_column_counts_characters_not_bytes() {
    let value = "ééé";
    assert_eq!(caret_line_col(value, value.len()), (0, 3));
}

#[test]
fn a_caret_deep_in_a_wrapped_line_is_rows_below_its_lines_start() {
    let data = "x".repeat(400);
    let (line, within) = body_caret_row(&data, data.len(), "  ", 40);
    assert_eq!(line, 0);
    assert_eq!(within, 10);
}

#[test]
fn a_caret_on_a_later_line_reports_that_line() {
    let data = "one\ntwo\nthree";
    let (line, within) = body_caret_row(data, data.len(), "  ", 40);
    assert_eq!((line, within), (2, 0));
}

// ---- the panes themselves ---------------------------------------------

fn paint(color: Color) -> ratatui::style::Color {
    match color {
        Color::Reset => ratatui::style::Color::Reset,
        Color::Black => ratatui::style::Color::Black,
        Color::Red => ratatui::style::Color::Red,
        Color::Green => ratatui::style::Color::Green,
        Color::Yellow => ratatui::style::Color::Yellow,
        Color::Blue => ratatui::style::Color::Blue,
        Color::Magenta => ratatui::style::Color::Magenta,
        Color::Cyan => ratatui::style::Color::Cyan,
        Color::White => ratatui::style::Color::White,
        Color::DarkGray => ratatui::style::Color::DarkGray,
        _ => ratatui::style::Color::Gray,
    }
}

fn to_line(line: &Line) -> ratatui::text::Line<'static> {
    let spans: Vec<ratatui::text::Span<'static>> = line
        .spans
        .iter()
        .map(|s| {
            let mut style = ratatui::style::Style::default();
            if let Some(fg) = s.style.fg {
                style = style.fg(paint(fg));
            }
            if let Some(bg) = s.style.bg {
                style = style.bg(paint(bg));
            }
            ratatui::text::Span::styled(s.text.clone(), style)
        })
        .collect();
    ratatui::text::Line::from(spans)
}

fn whole(width: u16, height: u16) -> Rect {
    Rect { x: 0, y: 0, width, height }
}

fn drawn(width: u16, height: u16, area: Rect, pane: &Pane) -> ratatui::buffer::Buffer {
    let mut terminal =
        ratatui::Terminal::new(ratatui::backend::TestBackend::new(width, height)).unwrap();
    let lines: Vec<ratatui::text::Line<'static>> = pane.lines.iter().map(to_line).collect();
    let block = ratatui::widgets::Block::default()
        .title(to_line(&pane.title))
        .borders(ratatui::widgets::Borders::ALL);
    let mut widget = ratatui::widgets::Paragraph::new(lines).block(block);
    if pane.wrap {
        widget = widget.wrap(ratatui::widgets::Wrap { trim: false });
    }
    let widget = widget.scroll((pane.scroll, 0));
    let place = ratatui::layout::Rect::new(area.x, area.y, area.width, area.height);
    terminal.draw(|frame| frame.render_widget(widget, place)).unwrap();
    terminal.backend().buffer().clone()
}

fn rendered(width: u16, height: u16, pane: &Pane) -> String {
    drawn(width, height, whole(width, height), pane)
        .content
        .iter()
        .map(|cell| cell.symbol())
        .collect()
}

fn form_fields() -> Vec<(String, String)> {
    ["name", "method", "url", "extract"]
        .iter()
        .map(|label| ((*label).to_string(), String::new()))
        .collect()
}

fn form(focused: usize, fields: &Vec<(String, String)>) -> String {
    let edit = Edit::default();
    let none = StrMap::new();
    let pane = draw_new_request(
        whole(40, 12), fields, focused, &edit, &Vec::new(), &none, &none, None, false, false,
        false, None,
    );
    rendered(40, 12, &pane)
}

fn titled_form(dirty: bool) -> String {
    let fields = form_fields();
    let edit = Edit::default();
    let none = StrMap::new();
    let pane = draw_new_request(
        whole(60, 12), &fields, 0, &edit, &Vec::new(), &none, &none, None, true, false, dirty,
        None,
    );
    rendered(60, 12, &pane)
}

#[test]
fn an_unsaved_form_says_so_in_its_title() {
    assert!(titled_form(true).contains("unsaved"), "{}", titled_form(true));
}

#[test]
fn a_saved_form_has_no_marker() {
    assert!(!titled_form(false).contains("unsaved"), "{}", titled_form(false));
}

#[test]
fn every_form_pane_can_show_the_marker() {
    let edit = Edit::default();
    let pairs = vec![("Accept".to_string(), "application/json".to_string())];
    let area = whole(60, 12);
    let panes: Vec<(&str, String)> = vec![
        ("headers", rendered(60, 12, &draw_edit_pairs(area, PairKind::Headers, &pairs, 0, &edit, true, None))),
        ("body", rendered(60, 12, &draw_edit_body(area, "application/json", "{}", 0, &edit, true, None))),
        ("profile list", rendered(60, 12, &draw_profile_list(area, &Vec::new(), 0, "api", true))),
        ("profile", rendered(60, 12, &draw_new_profile(area, "dev", &Vec::new(), 0, &edit, true, None, false))),
    ];
    for (name, pane) in panes {
        assert!(pane.contains("unsaved"), "{name}: {pane}");
    }
}

#[test]
fn a_clean_sub_pane_has_no_marker() {
    let edit = Edit::default();
    let drawing = draw_edit_pairs(whole(60, 12), PairKind::Headers, &Vec::new(), 0, &edit, false, None);
    let pane = rendered(60, 12, &drawing);
    assert!(!pane.contains("unsaved"), "{pane}");
}

#[test]
fn the_discard_prompt_offers_save_discard_and_cancel() {
    let choices = vec![
        ("Save".to_string(), "write the request, then leave".to_string()),
        ("Discard".to_string(), "leave without writing it".to_string()),
        ("Cancel".to_string(), "back to the form".to_string()),
    ];
    let (popup, drawing) = draw_confirm_discard(whole(60, 24), &choices, 0);
    let pane: String = drawn(60, 24, popup, &drawing).content.iter().map(|cell| cell.symbol()).collect();
    assert!(pane.contains("unsaved changes"), "{pane}");
    for (label, _) in &choices {
        assert!(pane.contains(label.as_str()), "{pane}");
    }
    // The keys that walk it, so nobody has to guess at j/k.
    assert!(pane.contains("j/k"), "{pane}");
    assert!(pane.contains("Enter"), "{pane}");
}

#[test]
fn a_focused_row_below_the_pane_is_drawn_anyway() {
    let fields = form_fields();

    // The first field is on screen either way; the last action row is
    // twenty-odd lines below the top of a twelve-row pane.
    assert!(form(0, &fields).contains("name"));
    let last = form(fields.len() + 4, &fields);
    assert!(last.contains("profiles"), "{last}");
}

#[test]
fn a_form_focused_at_the_top_is_not_scrolled() {
    let top = form(0, &form_fields());
    assert!(top.contains("name"), "{top}");
    assert!(top.contains("method"), "{top}");
}

#[test]
fn a_caret_at_the_end_of_a_long_body_is_on_screen() {
    let data = "x".repeat(600);
    let edit = Edit::landing(&data, false);
    let drawing = draw_edit_body(whole(30, 10), "application/json", &data, 1, &edit, false, None);
    let pane = drawn(30, 10, whole(30, 10), &drawing);
    // In normal mode the caret is the character it rests on, drawn in
    // reverse — nothing else in this pane has a white background.
    assert!(
        pane.content.iter().any(|cell| cell.bg == ratatui::style::Color::White),
        "no caret drawn",
    );
}

#[test]
fn a_caret_at_the_start_of_a_long_body_is_on_screen() {
    let data = "x".repeat(600);
    let edit = Edit::landing("", false);
    let drawing = draw_edit_body(whole(30, 10), "application/json", &data, 1, &edit, false, None);
    let pane = drawn(30, 10, whole(30, 10), &drawing);
    assert!(
        pane.content.iter().any(|cell| cell.bg == ratatui::style::Color::White),
        "no caret drawn",
    );
}
