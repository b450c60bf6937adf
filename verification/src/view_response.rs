//! Responses and load test results, as they are drawn and copied.
use vstd::prelude::*;
use vstd::string::*;

use crate::response::{
    pane_lines, selected_range, selection_range, KindView, ResponseKind, ResponsePane, ResponseView,
};
use crate::tester::{
    ascii_bar, bar_cells, duration_form, duration_string, graph_axis, label_width, line_graph,
    reason_or_unknown, reason_phrase, repeated, right_aligned, row_dots, row_label, status_reason, StatusCount,
    TestResults,
};
use crate::text::{concat2, concat3, decimal, decimal_string, join, joined, texts};
use crate::theme::Color;
use crate::view::{
    add_line, add_lines, badge, bare, blank, bold, bold_badge, cursor_band, cursor_line_bg, highlight,
    highlighted, ink, inked, inks, just, line_of, no_lines, no_spans, one, put_text, selection_band,
    selection_bg, two, Band, Ink, Inked, Line, Style,
};
use crate::view_browse::{filter_pane, filter_view};
use crate::view_field::{inside, Rect};
use crate::view_panes::{Pane, PaneView};
use crate::view_text::{color_of_status, colorize_json_line, image_area, json_inks, status_color};

verus! {

// ─── Responses ────────────────────────────────────────────────────────────────

/// The colour of a response: its status, or how copying a command went.
pub open spec fn kind_color(kind: KindView) -> Color {
    match kind {
        KindView::Error => Color::Red,
        KindView::Http(status) => color_of_status(status),
        KindView::Curl { failure } => if failure is None {
            Color::Green
        } else {
            Color::Red
        },
    }
}

/// The heading of a response, and the words on its badge.
pub open spec fn kind_words(kind: KindView) -> (Seq<char>, Seq<char>) {
    match kind {
        KindView::Error => (" Response "@, " Error "@),
        KindView::Http(status) => (" Response "@, " "@ + decimal(status as nat) + " "@),
        KindView::Curl { failure } => match failure {
            None => (" cURL "@, " copied "@),
            Some(words) => (" cURL "@, " copy failed: "@ + words + " "@),
        },
    }
}

/// The title of the response pane: its heading and badge; then, where they apply,
/// that lines are being selected, the key for the headers, and what the last key came
/// to.
pub open spec fn response_title(p: ResponseView) -> Seq<Ink> {
    let (heading, words) = kind_words(p.kind);
    let start = seq![(heading, bare()), (words, badge(Color::Black, kind_color(p.kind)))];
    let selecting = if p.anchor is Some {
        seq![(" VISUAL "@, bold_badge(Color::Black, Color::Blue))]
    } else {
        Seq::empty()
    };
    let headers = if p.headers.len() == 0 {
        Seq::empty()
    } else {
        seq![
            (
                " H headers "@,
                if p.show_headers {
                    bold_badge(Color::Black, Color::Cyan)
                } else {
                    ink(Color::DarkGray)
                },
            ),
        ]
    };
    let status = match p.status {
        Some(words) => seq![(" "@ + words + " "@, badge(Color::Black, Color::Green))],
        None => Seq::empty(),
    };
    start + selecting + headers + status
}

/// One line of a response: coloured as JSON, and on a band where it is selected or
/// has the cursor.
pub open spec fn response_line(p: ResponseView, line: Seq<char>, i: int, width: u16) -> Inked {
    let plain = line_of(json_inks(line));
    let (from, to) = selected_range(p.cursor, p.anchor);
    if p.anchor is Some && from <= i <= to {
        highlighted(plain, selection_band(), Band::Text)
    } else if p.anchor is None && i == p.cursor {
        highlighted(plain, cursor_band(), Band::Row(width))
    } else {
        plain
    }
}

/// The lines of a response.
pub open spec fn response_lines(p: ResponseView, width: u16) -> Seq<Inked> {
    Seq::new(pane_lines(p).len(), |i: int| response_line(p, pane_lines(p)[i], i, width))
}

/// Whether the filter's box is shown.
pub open spec fn filter_shown(filter: Seq<char>, active: bool) -> bool {
    active || filter.len() > 0
}

/// The rows that the filter's box takes of an area.
pub open spec fn filter_rows(shown: bool, area: Rect) -> u16 {
    if !shown {
        0
    } else if area.height < 3 {
        area.height
    } else {
        3
    }
}

/// An area without its first rows.
pub open spec fn below_rows(area: Rect, rows: u16) -> Rect {
    Rect {
        x: area.x,
        y: (area.y + rows) as u16,
        width: area.width,
        height: (area.height - rows) as u16,
    }
}

/// The part of an area for the filter's box, and what is left below it.
pub fn filter_split(shown: bool, area: Rect) -> (r: (Rect, Rect))
    requires
        area.y + area.height <= u16::MAX,
    ensures
        r.0 == (Rect { height: filter_rows(shown, area), ..area }),
        r.1 == below_rows(area, filter_rows(shown, area)),
{
    let rows: u16 = if !shown {
        0
    } else if area.height < 3 {
        area.height
    } else {
        3
    };
    (
        Rect { x: area.x, y: area.y, width: area.width, height: rows },
        Rect { x: area.x, y: area.y + rows, width: area.width, height: area.height - rows },
    )
}

/// A response as it is drawn: the filter's box, the pane, how many lines fit in it,
/// and where an image goes.
#[derive(Debug, PartialEq, Eq)]
pub struct ResponseDrawing {
    pub filter: Option<Pane>,
    pub filter_area: Rect,
    pub pane: Pane,
    pub area: Rect,
    pub view_height: u16,
    pub image: Option<Rect>,
}

/// Where an image goes: below the text, inside the border.
pub open spec fn image_place(area: Rect, lines: int) -> Option<Rect> {
    let rows = lines % 65536;
    if inside(area.width) > 0 && rows + 1 < inside(area.height) {
        Some(
            Rect {
                x: (area.x + 1) as u16,
                y: (area.y + 1 + rows + 1) as u16,
                width: inside(area.width),
                height: (inside(area.height) - rows - 1) as u16,
            },
        )
    } else {
        None
    }
}

fn put_title(pane: &ResponsePane) -> (r: (Line, Color))
    ensures
        r.0@ == line_of(response_title(pane@)),
        r.1 == kind_color(pane@.kind),
{
    let (heading, color, words) = match &pane.kind {
        ResponseKind::Error => (" Response ", Color::Red, " Error ".to_owned()),
        ResponseKind::Http(status) => (
            " Response ",
            status_color(*status),
            concat3(" ", decimal_string(*status as u128).as_str(), " "),
        ),
        ResponseKind::Curl { copied } => match copied {
            Ok(_) => (" cURL ", Color::Green, " copied ".to_owned()),
            Err(e) => (" cURL ", Color::Red, concat3(" copy failed: ", e.as_str(), " ")),
        },
    };
    let mut spans = no_spans();
    put_text(&mut spans, heading, Style::bare());
    put_text(&mut spans, words.as_str(), Style::badge(Color::Black, color));
    if pane.anchor.is_some() {
        put_text(&mut spans, " VISUAL ", Style::bold_badge(Color::Black, Color::Blue));
    }
    if !pane.headers.as_str().is_empty() {
        let style = if pane.show_headers {
            Style::bold_badge(Color::Black, Color::Cyan)
        } else {
            Style::ink(Color::DarkGray)
        };
        put_text(&mut spans, " H headers ", style);
    }
    match &pane.status {
        Some(status) => {
            put_text(
                &mut spans,
                concat3(" ", status.as_str(), " ").as_str(),
                Style::badge(Color::Black, Color::Green),
            );
        },
        None => {},
    }
    proof {
        assert(inks(spans@) =~= response_title(pane@));
    }
    (Line::of(spans), color)
}

fn put_lines(pane: &ResponsePane, width: u16) -> (r: Vec<Line>)
    ensures
        inked(r@) == response_lines(pane@, width),
{
    let parts = pane.lines();
    let ghost all = pane_lines(pane@);
    let ghost goal = response_lines(pane@, width);
    let (from, to) = selection_range(pane.cursor, pane.anchor);
    let mut lines = no_lines();
    let mut i: usize = 0;
    proof {
        assert(inked(lines@) =~= goal.take(0));
    }
    while i < parts.len()
        invariant
            i <= parts.len(),
            all == texts(parts@),
            all == pane_lines(pane@),
            goal == response_lines(pane@, width),
            (from as int, to as int) == selected_range(pane@.cursor, pane@.anchor),
            inked(lines@) == goal.take(i as int),
        decreases parts.len() - i,
    {
        let plain = colorize_json_line(parts[i].as_str());
        let line = if pane.anchor.is_some() {
            if from <= i && i <= to {
                highlight(plain, selection_bg(), Band::Text)
            } else {
                plain
            }
        } else if i == pane.cursor {
            highlight(plain, cursor_line_bg(), Band::Row(width))
        } else {
            plain
        };
        proof {
            assert(all[i as int] == parts@[i as int]@);
            assert(goal[i as int] == line@);
            assert(goal.take(i + 1) =~= goal.take(i as int).push(goal[i as int]));
        }
        add_line(&mut lines, line);
        i = i + 1;
    }
    proof {
        assert(goal.take(goal.len() as int) =~= goal);
    }
    lines
}

/// A response in an area.
pub fn draw_response(area: Rect, pane: &ResponsePane) -> (r: ResponseDrawing)
    requires
        area.x + area.width <= u16::MAX,
        area.y + area.height <= u16::MAX,
    ensures
        ({
            let shown = filter_shown(pane@.filter, pane@.filter_active);
            let rest = below_rows(area, filter_rows(shown, area));
            let lines = response_lines(pane@, inside(area.width));
            &&& match r.filter {
                Some(p) => shown && p@ == filter_view(pane@.filter, pane@.filter_active),
                None => !shown,
            }
            &&& r.filter_area == (Rect { height: filter_rows(shown, area), ..area })
            &&& r.area == rest
            &&& r.pane@ == (PaneView {
                title: line_of(response_title(pane@)),
                border: kind_color(pane@.kind),
                lines,
                scroll: pane@.scroll,
                wrap: false,
            })
            &&& r.view_height == inside(rest.height)
            &&& r.image == if pane@.has_image {
                image_place(rest, lines.len() as int)
            } else {
                None
            }
        }),
{
    let shown = pane.response_filter_active || !pane.response_filter.as_str().is_empty();
    let (filter_area, rest) = filter_split(shown, area);
    let filter = if shown {
        Some(filter_pane(pane.response_filter.as_str(), pane.response_filter_active))
    } else {
        None
    };
    let (title, border) = put_title(pane);
    let width: u16 = if rest.width < 2 {
        0
    } else {
        rest.width - 2
    };
    let view_height: u16 = if rest.height < 2 {
        0
    } else {
        rest.height - 2
    };
    let lines = put_lines(pane, width);
    proof {
        assert(inked(lines@).len() == lines@.len());
    }
    let rows: u16 = (lines.len() % 65536) as u16;
    let image = if pane.has_image && width > 0 && view_height > 0 {
        let inner = Rect { x: rest.x + 1, y: rest.y + 1, width, height: view_height };
        image_area(inner, rows)
    } else {
        None
    };
    ResponseDrawing {
        filter,
        filter_area,
        pane: Pane { title, border, lines, scroll: pane.scroll, wrap: false },
        area: rest,
        view_height,
        image,
    }
}

// ─── Load tests ───────────────────────────────────────────────────────────────

/// The greatest of the first `n` counts, at least one where there is none.
pub open spec fn most(statuses: Seq<StatusCount>, n: int) -> nat
    decreases n,
{
    if n <= 0 {
        1
    } else if n == 1 || statuses[n - 1].count > most(statuses, n - 1) {
        statuses[n - 1].count as nat
    } else {
        most(statuses, n - 1)
    }
}

/// Every status came back at least once.
pub open spec fn counted(statuses: Seq<StatusCount>) -> bool {
    forall|i: int| 0 <= i < statuses.len() ==> (#[trigger] statuses[i]).count > 0
}

proof fn lemma_most(statuses: Seq<StatusCount>, n: int, i: int)
    requires
        counted(statuses),
        0 <= i < n <= statuses.len(),
    ensures
        0 < statuses[i].count <= most(statuses, n) <= usize::MAX,
    decreases n,
{
    if i < n - 1 {
        lemma_most(statuses, n - 1, i);
    } else if n > 1 {
        lemma_most(statuses, n - 1, 0);
    }
}

/// The bar of one status.
pub open spec fn gauge(sc: StatusCount, max: nat) -> Inked {
    let color = color_of_status(sc.status);
    let cells = bar_cells(sc.count as nat, max);
    line_of(
        seq![
            ("  "@ + right_aligned(decimal(sc.status as nat), 3) + "  "@, bold(color)),
            (repeated('█', cells), ink(color)),
            (repeated('░', (30 - cells) as nat), ink(Color::DarkGray)),
            ("  ×"@ + decimal(sc.count as nat), ink(Color::White)),
        ],
    )
}

/// The bars of the first `n` statuses, below an empty line.
pub open spec fn gauges(statuses: Seq<StatusCount>, max: nat, n: int) -> Seq<Inked>
    decreases n,
{
    if n <= 0 {
        seq![blank()]
    } else {
        gauges(statuses, max, n - 1).push(gauge(statuses[n - 1], max))
    }
}

/// The timings of a load test on a line.
pub open spec fn timing_inks(results: TestResults) -> Seq<Ink> {
    seq![
        ("  avg "@, ink(Color::DarkGray)),
        (duration_form(results.avg), ink(Color::Yellow)),
        ("   min "@, ink(Color::DarkGray)),
        (duration_form(results.min), ink(Color::Green)),
        ("   max "@, ink(Color::DarkGray)),
        (duration_form(results.max), ink(Color::Red)),
    ]
}

fn align_right(s: &str, width: usize) -> (r: String)
    ensures
        r@ == right_aligned(s@, width as nat),
{
    let n: usize = s.unicode_len();
    if n < width {
        concat2(crate::tester::repeat(' ', width - n).as_str(), s)
    } else {
        s.to_owned()
    }
}

/// The results of a load test as they are drawn: the title, the bars and the timings.
#[derive(Debug, PartialEq, Eq)]
pub struct ResultsDrawing {
    pub title: Line,
    pub gauges: Vec<Line>,
    pub stats: Line,
}

fn draw_gauge(sc: &StatusCount, max: usize) -> (r: Line)
    requires
        0 < sc.count <= max,
    ensures
        r@ == gauge(*sc, max as nat),
{
    let color = status_color(sc.status);
    let (filled, empty) = ascii_bar(sc.count, max);
    let code = align_right(decimal_string(sc.status as u128).as_str(), 3);
    let mut spans = no_spans();
    put_text(&mut spans, concat3("  ", code.as_str(), "  ").as_str(), Style::bold(color));
    put_text(&mut spans, filled.as_str(), Style::ink(color));
    put_text(&mut spans, empty.as_str(), Style::ink(Color::DarkGray));
    put_text(
        &mut spans,
        concat2("  ×", decimal_string(sc.count as u128).as_str()).as_str(),
        Style::ink(Color::White),
    );
    proof {
        assert(inks(spans@) =~= gauge(*sc, max as nat).spans);
    }
    Line::of(spans)
}

fn most_counted(statuses: &Vec<StatusCount>) -> (r: usize)
    ensures
        r == most(statuses@, statuses.len() as int),
{
    let mut max: usize = 1;
    let mut i: usize = 0;
    while i < statuses.len()
        invariant
            i <= statuses.len(),
            max == most(statuses@, i as int),
        decreases statuses.len() - i,
    {
        if i == 0 || statuses[i].count > max {
            max = statuses[i].count;
        }
        i = i + 1;
    }
    max
}

/// The results of a load test as they are drawn.
pub fn draw_test_results(results: &TestResults) -> (r: ResultsDrawing)
    requires
        counted(results.statuses@),
    ensures
        r.title@ == line_of(
            seq![
                (" Test Results "@, bare()),
                (
                    " "@ + decimal(results.timings@.len()) + " iterations "@,
                    badge(Color::Black, Color::Cyan),
                ),
            ],
        ),
        inked(r.gauges@) == gauges(
            results.statuses@,
            most(results.statuses@, results.statuses@.len() as int),
            results.statuses@.len() as int,
        ),
        r.stats@ == line_of(timing_inks(*results)),
{
    let count = concat3(
        " ",
        decimal_string(results.timings.len() as u128).as_str(),
        " iterations ",
    );
    let title = Line::two(
        " Test Results ",
        Style::bare(),
        count.as_str(),
        Style::badge(Color::Black, Color::Cyan),
    );
    let max: usize = most_counted(&results.statuses);
    let mut bars = just(Line::blank());
    let mut i: usize = 0;
    while i < results.statuses.len()
        invariant
            i <= results.statuses.len(),
            counted(results.statuses@),
            max == most(results.statuses@, results.statuses@.len() as int),
            inked(bars@) == gauges(results.statuses@, max as nat, i as int),
        decreases results.statuses.len() - i,
    {
        proof {
            lemma_most(results.statuses@, results.statuses@.len() as int, i as int);
        }
        add_line(&mut bars, draw_gauge(&results.statuses[i], max));
        i = i + 1;
    }
    let mut stats = no_spans();
    put_text(&mut stats, "  avg ", Style::ink(Color::DarkGray));
    put_text(&mut stats, duration_string(results.avg).as_str(), Style::ink(Color::Yellow));
    put_text(&mut stats, "   min ", Style::ink(Color::DarkGray));
    put_text(&mut stats, duration_string(results.min).as_str(), Style::ink(Color::Green));
    put_text(&mut stats, "   max ", Style::ink(Color::DarkGray));
    put_text(&mut stats, duration_string(results.max).as_str(), Style::ink(Color::Red));
    proof {
        assert(inks(stats@) =~= timing_inks(*results));
    }
    ResultsDrawing { title, gauges: bars, stats: Line::of(stats) }
}

/// One status of the results as text.
pub open spec fn status_text(sc: StatusCount) -> Seq<char> {
    "  "@ + decimal(sc.status as nat) + " "@ + reason_or_unknown(reason_phrase(sc.status)) + "  x "@
        + decimal(sc.count as nat)
}

/// The first `n` statuses of the results as text.
pub open spec fn status_texts(statuses: Seq<StatusCount>, n: int) -> Seq<Seq<char>>
    decreases n,
{
    if n <= 0 {
        seq!["Results"@, ""@]
    } else {
        status_texts(statuses, n - 1).push(status_text(statuses[n - 1]))
    }
}

/// The results of a load test as text.
pub open spec fn results_text(results: TestResults) -> Seq<char> {
    joined(
        status_texts(results.statuses@, results.statuses@.len() as int) + seq![
            ""@,
            "Timings"@,
            ""@,
            "  avg:  "@ + duration_form(results.avg),
            "  min:  "@ + duration_form(results.min),
            "  max:  "@ + duration_form(results.max),
        ],
        "\n"@,
    )
}

fn push_text(lines: &mut Vec<String>, text: String)
    ensures
        texts(final(lines)@) == texts(old(lines)@).push(text@),
{
    let ghost before = lines@;
    lines.push(text);
    proof {
        assert(texts(lines@) =~= texts(before).push(text@));
    }
}

/// The results of a load test as text, to be copied.
pub fn format_test_results_text(results: &TestResults) -> (r: String)
    ensures
        r@ == results_text(*results),
{
    let mut lines: Vec<String> = Vec::new();
    push_text(&mut lines, "Results".to_owned());
    push_text(&mut lines, "".to_owned());
    proof {
        assert(texts(lines@) =~= seq!["Results"@, ""@]);
    }
    let mut i: usize = 0;
    while i < results.statuses.len()
        invariant
            i <= results.statuses.len(),
            texts(lines@) == status_texts(results.statuses@, i as int),
        decreases results.statuses.len() - i,
    {
        let sc = &results.statuses[i];
        let mut line = "  ".to_owned();
        line.append(decimal_string(sc.status as u128).as_str());
        line.append(" ");
        line.append(status_reason(sc.status).as_str());
        line.append("  x ");
        line.append(decimal_string(sc.count as u128).as_str());
        push_text(&mut lines, line);
        i = i + 1;
    }
    let ghost before = texts(lines@);
    push_text(&mut lines, "".to_owned());
    push_text(&mut lines, "Timings".to_owned());
    push_text(&mut lines, "".to_owned());
    push_text(&mut lines, concat2("  avg:  ", duration_string(results.avg).as_str()));
    push_text(&mut lines, concat2("  min:  ", duration_string(results.min).as_str()));
    push_text(&mut lines, concat2("  max:  ", duration_string(results.max).as_str()));
    proof {
        assert(texts(lines@) =~= before + seq![
            ""@,
            "Timings"@,
            ""@,
            "  avg:  "@ + duration_form(results.avg),
            "  min:  "@ + duration_form(results.min),
            "  max:  "@ + duration_form(results.max),
        ]);
    }
    join(&lines, "\n")
}

// ─── The printed report ───────────────────────────────────────────────────────

/// The colour of a status in the printed report.
pub open spec fn report_color(status: u16) -> Color {
    if status < 300 {
        Color::Green
    } else if status < 500 {
        Color::Yellow
    } else {
        Color::Red
    }
}

/// One status of the printed report: its bar, its reason and its count.
pub open spec fn report_count(sc: StatusCount, max: nat) -> Inked {
    let color = report_color(sc.status);
    let cells = bar_cells(sc.count as nat, max);
    line_of(
        seq![
            ("  "@ + right_aligned(decimal(sc.status as nat), 3) + "  "@, bold(color)),
            (repeated('█', cells), ink(color)),
            (repeated('░', (30 - cells) as nat), ink(Color::DarkGray)),
            (
                "  "@ + reason_or_unknown(reason_phrase(sc.status)) + "  ×"@ + decimal(
                    sc.count as nat,
                ),
                ink(Color::DarkGray),
            ),
        ],
    )
}

/// The first `n` statuses of the printed report, under their heading.
pub open spec fn report_counts(statuses: Seq<StatusCount>, max: nat, n: int) -> Seq<Inked>
    decreases n,
{
    if n <= 0 {
        seq![one("=== Results ==="@, bold(Color::Cyan))]
    } else {
        report_counts(statuses, max, n - 1).push(report_count(statuses[n - 1], max))
    }
}

/// One time of the printed report.
pub open spec fn report_time(label: Seq<char>, nanos: u64, color: Color) -> Inked {
    two((label, ink(Color::DarkGray)), (duration_form(nanos), ink(color)))
}

/// The times of the printed report.
pub open spec fn report_times(results: TestResults) -> Seq<Inked> {
    seq![
        blank(),
        one("=== Timings ==="@, bold(Color::Cyan)),
        report_time("  avg:  "@, results.avg, Color::Yellow),
        report_time("  min:  "@, results.min, Color::Green),
        report_time("  max:  "@, results.max, Color::Red),
        blank(),
    ]
}

/// One row of the printed graph.
pub open spec fn graph_line(label: Seq<char>, dots: Seq<char>) -> Inked {
    two(("  "@ + label + " │ "@, ink(Color::DarkGray)), (dots, ink(Color::Cyan)))
}

/// The printed graph: eight rows and an axis, or nothing where there is no time.
pub open spec fn graph_lines(timings: Seq<u64>) -> Seq<Inked> {
    if timings.len() == 0 {
        Seq::empty()
    } else {
        Seq::new(8, |r: int| graph_line(row_label(timings, r), row_dots(timings, r))).push(
            one(
                "  "@ + repeated(' ', label_width(timings)) + " └"@ + repeated('─', 61),
                ink(Color::DarkGray),
            ),
        )
    }
}

/// The printed report of a load test.
pub open spec fn report(results: TestResults) -> Seq<Inked> {
    let n = results.statuses@.len() as int;
    report_counts(results.statuses@, most(results.statuses@, n), n) + report_times(results)
        + graph_lines(results.timings@)
}

fn report_status(sc: &StatusCount, max: usize) -> (r: Line)
    requires
        0 < sc.count <= max,
    ensures
        r@ == report_count(*sc, max as nat),
{
    let color = if sc.status < 300 {
        Color::Green
    } else if sc.status < 500 {
        Color::Yellow
    } else {
        Color::Red
    };
    let (filled, empty) = ascii_bar(sc.count, max);
    let code = align_right(decimal_string(sc.status as u128).as_str(), 3);
    let mut tail = "  ".to_owned();
    tail.append(status_reason(sc.status).as_str());
    tail.append("  ×");
    tail.append(decimal_string(sc.count as u128).as_str());
    let mut spans = no_spans();
    put_text(&mut spans, concat3("  ", code.as_str(), "  ").as_str(), Style::bold(color));
    put_text(&mut spans, filled.as_str(), Style::ink(color));
    put_text(&mut spans, empty.as_str(), Style::ink(Color::DarkGray));
    put_text(&mut spans, tail.as_str(), Style::ink(Color::DarkGray));
    proof {
        assert(inks(spans@) =~= report_count(*sc, max as nat).spans);
    }
    Line::of(spans)
}

fn time_line(label: &str, nanos: u64, color: Color) -> (r: Line)
    ensures
        r@ == report_time(label@, nanos, color),
{
    Line::two(
        label,
        Style::ink(Color::DarkGray),
        duration_string(nanos).as_str(),
        Style::ink(color),
    )
}

fn put_graph(timings: &Vec<u64>) -> (r: Vec<Line>)
    ensures
        inked(r@) == graph_lines(timings@),
{
    let mut lines = no_lines();
    let rows = line_graph(timings);
    if timings.len() == 0 {
        return lines;
    }
    let ghost goal = graph_lines(timings@);
    let mut i: usize = 0;
    proof {
        assert(inked(lines@) =~= goal.take(0));
    }
    while i < rows.len()
        invariant
            i <= rows.len(),
            rows.len() == 8,
            timings@.len() > 0,
            goal == graph_lines(timings@),
            forall|k: int|
                0 <= k < 8 ==> (#[trigger] rows@[k]).label@ == row_label(timings@, k)
                    && rows@[k].dots@ == row_dots(timings@, k),
            inked(lines@) == goal.take(i as int),
        decreases rows.len() - i,
    {
        let head = concat3("  ", rows[i].label.as_str(), " │ ");
        add_line(
            &mut lines,
            Line::two(
                head.as_str(),
                Style::ink(Color::DarkGray),
                rows[i].dots.as_str(),
                Style::ink(Color::Cyan),
            ),
        );
        proof {
            assert(goal[i as int] == graph_line(
                row_label(timings@, i as int),
                row_dots(timings@, i as int),
            ));
            assert(goal.take(i + 1) =~= goal.take(i as int).push(goal[i as int]));
        }
        i = i + 1;
    }
    let (indent, axis) = graph_axis(timings);
    let mut foot = "  ".to_owned();
    foot.append(indent.as_str());
    foot.append(" ");
    foot.append(axis.as_str());
    proof {
        reveal_strlit(" ");
        reveal_strlit("└");
        reveal_strlit(" └");
        assert(" "@ + "└"@ =~= " └"@);
        assert(foot@ =~= "  "@ + repeated(' ', label_width(timings@)) + " └"@ + repeated('─', 61));
    }
    add_line(&mut lines, Line::one(foot.as_str(), Style::ink(Color::DarkGray)));
    proof {
        assert(inked(lines@) =~= goal);
    }
    lines
}

/// The report of a load test, line by line.
pub fn report_lines(results: &TestResults) -> (r: Vec<Line>)
    requires
        counted(results.statuses@),
    ensures
        inked(r@) == report(*results),
{
    let max: usize = most_counted(&results.statuses);
    let mut lines = just(Line::one("=== Results ===", Style::bold(Color::Cyan)));
    let mut i: usize = 0;
    while i < results.statuses.len()
        invariant
            i <= results.statuses.len(),
            counted(results.statuses@),
            max == most(results.statuses@, results.statuses@.len() as int),
            inked(lines@) == report_counts(results.statuses@, max as nat, i as int),
        decreases results.statuses.len() - i,
    {
        proof {
            lemma_most(results.statuses@, results.statuses@.len() as int, i as int);
        }
        add_line(&mut lines, report_status(&results.statuses[i], max));
        i = i + 1;
    }
    let ghost counts = inked(lines@);
    add_line(&mut lines, Line::blank());
    add_line(&mut lines, Line::one("=== Timings ===", Style::bold(Color::Cyan)));
    add_line(&mut lines, time_line("  avg:  ", results.avg, Color::Yellow));
    add_line(&mut lines, time_line("  min:  ", results.min, Color::Green));
    add_line(&mut lines, time_line("  max:  ", results.max, Color::Red));
    add_line(&mut lines, Line::blank());
    proof {
        assert(inked(lines@) =~= counts + report_times(*results));
    }
    add_lines(&mut lines, put_graph(&results.timings));
    lines
}

} // verus!
