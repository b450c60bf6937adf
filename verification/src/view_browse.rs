//! The list, the details beside it, responses and results.
use vstd::prelude::*;
use vstd::string::*;

use crate::app::{filtered, listed_rows, App, AppView};
use crate::order::Row;
use crate::strmap::StrMap;
use crate::text::{concat2, concat3, decimal, decimal_string, places, texts};
use crate::theme::Color;
use crate::tree::{row_views, visible_rows, Entry, EntryKind, TreeRow, VisibleRow};
use crate::view::{
    add_line, add_spans, bare, blank, bold, ink, inked, inks, just, line_of, no_lines, no_spans, one, put_text,
    two, Ink, Inked, Line, Span, Style,
};
use crate::view_panes::{plain_title, Pane, PaneView};
use crate::view_text::{
    color_of_method, folder_name_spans, leaf_name, leaf_of, method_color, name_inks, pad_right, padded,
    plain_bold, var_inks, var_spans,
};

verus! {

// ─── Items ────────────────────────────────────────────────────────────────────

/// The scope of an entry.
pub open spec fn scope_ink(global: bool) -> Ink {
    (
        if global {
            " global"@
        } else {
            " local"@
        },
        ink(Color::DarkGray),
    )
}

/// The description behind an entry, where it has one.
pub open spec fn description_inks(description: Option<String>) -> Seq<Ink> {
    match description {
        Some(d) if d@.len() > 0 => seq![(" — "@ + d@, ink(Color::DarkGray))],
        _ => Seq::empty(),
    }
}

/// What stands before the name of an entry: its method, or that it is a chain.
pub open spec fn kind_inks(kind: EntryKind) -> Seq<Ink> {
    match kind {
        EntryKind::Chain { .. } => seq![(" CHAIN "@, bold(Color::Magenta)), (" "@, bare())],
        EntryKind::Request { method, .. } => seq![
            (" "@ + padded(method@, 6), bold(color_of_method(method@))),
            (" "@, bare()),
        ],
    }
}

/// The description of an entry, where it has one; a chain has none.
pub open spec fn entry_description(kind: EntryKind) -> Seq<Ink> {
    match kind {
        EntryKind::Chain { .. } => Seq::empty(),
        EntryKind::Request { description, .. } => description_inks(description),
    }
}

/// An entry of the flat list.
pub open spec fn list_item(e: Entry) -> Inked {
    line_of(
        (kind_inks(e.kind) + name_inks(e.name@) + entry_description(e.kind)).push(
            scope_ink(e.global),
        ),
    )
}

/// A folder of the tree.
pub open spec fn folder_item(path: Seq<char>, expanded: bool, prefix: Seq<char>, icons: bool) -> Inked {
    let lead = (prefix, ink(Color::DarkGray));
    line_of(
        if icons {
            seq![
                lead,
                (
                    if expanded {
                        "\u{f07c} "@
                    } else {
                        "\u{f07b} "@
                    },
                    ink(Color::Yellow),
                ),
                (leaf_name(path), bold(Color::White)),
            ]
        } else {
            seq![lead, (leaf_name(path) + "/"@, bold(Color::White))]
        },
    )
}

/// An entry of the tree, under the last part of its name.
pub open spec fn leaf_item(e: Entry, prefix: Seq<char>) -> Inked {
    line_of(
        seq![(prefix, ink(Color::DarkGray))] + kind_inks(e.kind).push(
            (leaf_name(e.name@), plain_bold()),
        ) + entry_description(e.kind),
    )
}

fn put_kind(spans: &mut Vec<Span>, kind: &EntryKind)
    ensures
        inks(final(spans)@) == inks(old(spans)@) + kind_inks(*kind),
{
    let ghost before = inks(spans@);
    match kind {
        EntryKind::Chain { .. } => {
            put_text(spans, " CHAIN ", Style::bold(Color::Magenta));
        },
        EntryKind::Request { method, .. } => {
            let word = concat2(" ", pad_right(method.as_str(), 6).as_str());
            put_text(spans, word.as_str(), Style::bold(method_color(method.as_str())));
        },
    }
    put_text(spans, " ", Style::bare());
    proof {
        assert(inks(spans@) =~= before + kind_inks(*kind));
    }
}

fn put_description(spans: &mut Vec<Span>, kind: &EntryKind)
    ensures
        inks(final(spans)@) == inks(old(spans)@) + entry_description(*kind),
{
    let ghost before = inks(spans@);
    match kind {
        EntryKind::Chain { .. } => {},
        EntryKind::Request { description, .. } => match description {
            Some(d) => {
                if !d.as_str().is_empty() {
                    put_text(spans, concat2(" — ", d.as_str()).as_str(), Style::ink(Color::DarkGray));
                }
            },
            None => {},
        },
    }
    proof {
        assert(inks(spans@) =~= before + entry_description(*kind));
    }
}

/// An entry of the flat list.
pub fn make_list_item(entry: &Entry) -> (r: Line)
    ensures
        r@ == list_item(*entry),
{
    let mut spans = no_spans();
    put_kind(&mut spans, &entry.kind);
    add_spans(&mut spans, folder_name_spans(entry.name.as_str()));
    put_description(&mut spans, &entry.kind);
    put_text(
        &mut spans,
        if entry.global {
            " global"
        } else {
            " local"
        },
        Style::ink(Color::DarkGray),
    );
    proof {
        assert(inks(spans@) =~= list_item(*entry).spans);
    }
    Line::of(spans)
}

/// A folder of the tree.
pub fn make_tree_folder_item(path: &str, expanded: bool, prefix: &str, use_nerd_fonts: bool) -> (r:
    Line)
    ensures
        r@ == folder_item(path@, expanded, prefix@, use_nerd_fonts),
{
    let name = leaf_of(path);
    let mut spans = no_spans();
    put_text(&mut spans, prefix, Style::ink(Color::DarkGray));
    if use_nerd_fonts {
        put_text(
            &mut spans,
            if expanded {
                "\u{f07c} "
            } else {
                "\u{f07b} "
            },
            Style::ink(Color::Yellow),
        );
        put_text(&mut spans, name.as_str(), Style::bold(Color::White));
    } else {
        put_text(&mut spans, concat2(name.as_str(), "/").as_str(), Style::bold(Color::White));
    }
    proof {
        assert(inks(spans@) =~= folder_item(path@, expanded, prefix@, use_nerd_fonts).spans);
    }
    Line::of(spans)
}

/// An entry of the tree.
pub fn make_tree_leaf_item(entry: &Entry, prefix: &str) -> (r: Line)
    ensures
        r@ == leaf_item(*entry, prefix@),
{
    let mut spans = no_spans();
    put_text(&mut spans, prefix, Style::ink(Color::DarkGray));
    put_kind(&mut spans, &entry.kind);
    put_text(
        &mut spans,
        leaf_of(entry.name.as_str()).as_str(),
        Style { fg: None, bg: None, bold: true },
    );
    put_description(&mut spans, &entry.kind);
    proof {
        assert(inks(spans@) =~= leaf_item(*entry, prefix@).spans);
    }
    Line::of(spans)
}

// ─── The list ─────────────────────────────────────────────────────────────────

/// A row of the tree; one whose entry is gone is empty.
pub open spec fn tree_item(entries: Seq<Entry>, row: TreeRow, icons: bool) -> Inked {
    match row {
        TreeRow::Folder { path, expanded, prefix } => folder_item(path, expanded, prefix, icons),
        TreeRow::Leaf { entry_idx, prefix } => if entry_idx < entries.len() {
            leaf_item(entries[entry_idx as int], prefix)
        } else {
            blank()
        },
    }
}

/// The entry at a place of the flat list.
pub open spec fn flat_item(entries: Seq<Entry>, i: int) -> Inked {
    if 0 <= i < entries.len() {
        list_item(entries[i])
    } else {
        blank()
    }
}

/// The rows of the list: the tree, or the entries that a filter leaves.
pub open spec fn list_lines(a: AppView) -> Seq<Inked> {
    if a.filter.len() == 0 {
        listed_rows(a).map_values(|row: TreeRow| tree_item(a.entries, row, a.use_nerd_fonts))
    } else {
        filtered(a.entries, a.filter).map_values(|i: int| flat_item(a.entries, i))
    }
}

/// The box a filter is typed in.
pub open spec fn filter_view(filter: Seq<char>, active: bool) -> PaneView {
    PaneView {
        title: plain_title(" Filter "@),
        border: if active {
            Color::Yellow
        } else {
            Color::DarkGray
        },
        lines: seq![
            two(
                ("  "@, bare()),
                (
                    if active {
                        filter + "█"@
                    } else {
                        filter
                    },
                    ink(Color::White),
                ),
            ),
        ],
        scroll: 0,
        wrap: false,
    }
}

/// The box a filter is typed in.
pub fn filter_pane(filter: &str, active: bool) -> (r: Pane)
    ensures
        r@ == filter_view(filter@, active),
{
    let shown = if active {
        concat2(filter, "█")
    } else {
        filter.to_owned()
    };
    Pane {
        title: Line::one(" Filter ", Style::bare()),
        border: if active {
            Color::Yellow
        } else {
            Color::DarkGray
        },
        lines: just(Line::two("  ", Style::bare(), shown.as_str(), Style::ink(Color::White))),
        scroll: 0,
        wrap: false,
    }
}

fn tree_lines(entries: &Vec<Entry>, rows: &Vec<VisibleRow>, icons: bool) -> (r: Vec<Line>)
    ensures
        inked(r@) == row_views(rows@).map_values(|row: TreeRow| tree_item(entries@, row, icons)),
{
    let ghost shown = row_views(rows@);
    let ghost goal = shown.map_values(|row: TreeRow| tree_item(entries@, row, icons));
    let mut lines = no_lines();
    let mut i: usize = 0;
    proof {
        assert(inked(lines@) =~= goal.take(0));
    }
    while i < rows.len()
        invariant
            i <= rows.len(),
            shown == row_views(rows@),
            goal == shown.map_values(|row: TreeRow| tree_item(entries@, row, icons)),
            inked(lines@) == goal.take(i as int),
        decreases rows.len() - i,
    {
        let line = match &rows[i] {
            VisibleRow::Folder { path, expanded, prefix } => make_tree_folder_item(
                path.as_str(),
                *expanded,
                prefix.as_str(),
                icons,
            ),
            VisibleRow::Leaf { entry_idx, prefix } => {
                if *entry_idx < entries.len() {
                    make_tree_leaf_item(&entries[*entry_idx], prefix.as_str())
                } else {
                    Line::blank()
                }
            },
        };
        proof {
            assert(shown[i as int] == rows@[i as int]@);
            assert(goal[i as int] == line@);
            assert(goal.take(i + 1) =~= goal.take(i as int).push(goal[i as int]));
        }
        add_line(&mut lines, line);
        i = i + 1;
    }
    proof {
        assert(goal.take(goal.len() as int) =~= goal);
    }
    lines
}

fn flat_lines(entries: &Vec<Entry>, left: &Vec<usize>) -> (r: Vec<Line>)
    ensures
        inked(r@) == places(left@).map_values(|i: int| flat_item(entries@, i)),
{
    let ghost all = places(left@);
    let ghost goal = all.map_values(|i: int| flat_item(entries@, i));
    let mut lines = no_lines();
    let mut i: usize = 0;
    proof {
        assert(inked(lines@) =~= goal.take(0));
    }
    while i < left.len()
        invariant
            i <= left.len(),
            all == places(left@),
            goal == all.map_values(|i: int| flat_item(entries@, i)),
            inked(lines@) == goal.take(i as int),
        decreases left.len() - i,
    {
        let line = if left[i] < entries.len() {
            make_list_item(&entries[left[i]])
        } else {
            Line::blank()
        };
        proof {
            assert(all[i as int] == left@[i as int] as int);
            assert(goal[i as int] == line@);
            assert(goal.take(i + 1) =~= goal.take(i as int).push(goal[i as int]));
        }
        add_line(&mut lines, line);
        i = i + 1;
    }
    proof {
        assert(goal.take(goal.len() as int) =~= goal);
    }
    lines
}

/// The rows of the list.
pub fn draw_list(app: &App) -> (r: Vec<Line>)
    ensures
        inked(r@) == list_lines(app@),
{
    if app.using_tree() {
        let rows = visible_rows(&app.tree, &app.collapsed_folders);
        let lines = tree_lines(&app.entries, &rows, app.use_nerd_fonts);
        proof {
            assert(inked(lines@) =~= list_lines(app@));
        }
        lines
    } else {
        let left = app.filtered_indices();
        let lines = flat_lines(&app.entries, &left);
        proof {
            assert(inked(lines@) =~= list_lines(app@));
        }
        lines
    }
}

// ─── Details ──────────────────────────────────────────────────────────────────

/// The first `n` steps of a chain, numbered from one.
pub open spec fn step_lines(steps: Seq<Seq<char>>, n: int) -> Seq<Inked>
    decreases n,
{
    if n <= 0 {
        Seq::empty()
    } else {
        step_lines(steps, n - 1).push(
            two(
                ("  "@ + decimal(n as nat) + ". "@, ink(Color::DarkGray)),
                (steps[n - 1], bare()),
            ),
        )
    }
}

/// The first `n` pairs of a request, with the placeholders in their values marked.
pub open spec fn detail_pairs(rows: Seq<Row>, n: int) -> Seq<Inked>
    decreases n,
{
    if n <= 0 {
        Seq::empty()
    } else {
        detail_pairs(rows, n - 1).push(
            line_of(
                seq![("  "@ + rows[n - 1].0 + ": "@, ink(Color::Yellow))] + var_inks(
                    rows[n - 1].1,
                    bare(),
                ),
            ),
        )
    }
}

/// A section of pairs under a heading, where there are any.
pub open spec fn detail_section(heading: Seq<char>, rows: Seq<Row>) -> Seq<Inked> {
    if rows.len() == 0 {
        Seq::empty()
    } else {
        seq![blank(), one(heading, ink(Color::DarkGray))] + detail_pairs(rows, rows.len() as int)
    }
}

/// The line with the description, where there is one.
pub open spec fn detail_description(description: Option<String>) -> Seq<Inked> {
    match description {
        Some(d) if d@.len() > 0 => seq![two((" desc   "@, ink(Color::DarkGray)), (d@, bare()))],
        _ => Seq::empty(),
    }
}

/// What is shown beside the list of a selected entry.
pub open spec fn detail_lines(e: Entry) -> Seq<Inked> {
    match e.kind {
        EntryKind::Chain { steps } => seq![
            line_of(
                seq![(" CHAIN "@, bold(Color::Magenta)), (" "@, bare())] + name_inks(e.name@),
            ),
            blank(),
            one(" Steps"@, ink(Color::DarkGray)),
        ] + step_lines(texts(steps@), steps@.len() as int),
        EntryKind::Request { method, url, description, headers, query, .. } => seq![
            line_of(
                seq![
                    (" "@ + method@ + " "@, bold(color_of_method(method@))),
                    (" "@, bare()),
                ] + name_inks(e.name@),
            ),
            blank(),
            line_of(
                seq![(" url    "@, ink(Color::DarkGray))] + var_inks(url@, ink(Color::Cyan)),
            ),
        ] + detail_description(description) + detail_section(" Headers"@, headers.rows())
            + detail_section(" Query"@, query.rows()),
    }
}

fn put_section(lines: &mut Vec<Line>, heading: &str, map: &StrMap)
    ensures
        inked(final(lines)@) == inked(old(lines)@) + detail_section(heading@, map.rows()),
{
    let n: usize = map.len();
    let ghost rows = map.rows();
    let ghost before = inked(lines@);
    if n == 0 {
        proof {
            assert(inked(lines@) =~= before + detail_section(heading@, rows));
        }
        return;
    }
    add_line(lines, Line::blank());
    add_line(lines, Line::one(heading, Style::ink(Color::DarkGray)));
    let ghost head = inked(lines@);
    let mut i: usize = 0;
    proof {
        assert(inked(lines@) =~= head + detail_pairs(rows, 0));
    }
    while i < n
        invariant
            i <= n,
            n == rows.len(),
            rows == map.rows(),
            inked(lines@) == head + detail_pairs(rows, i as int),
        decreases n - i,
    {
        let (k, v) = map.row(i);
        let mut spans = no_spans();
        put_text(&mut spans, concat3("  ", k, ": ").as_str(), Style::ink(Color::Yellow));
        proof {
            assert(inks(spans@) =~= seq![("  "@ + rows[i as int].0 + ": "@, ink(Color::Yellow))]);
        }
        add_spans(&mut spans, var_spans(v, Style::bare()));
        add_line(lines, Line::of(spans));
        proof {
            assert(inked(lines@) =~= head + detail_pairs(rows, i + 1));
        }
        i = i + 1;
    }
    proof {
        assert(inked(lines@) =~= before + detail_section(heading@, rows));
    }
}

fn chain_details(name: &str, steps: &Vec<String>) -> (r: Vec<Line>)
    ensures
        inked(r@) == seq![
            line_of(seq![(" CHAIN "@, bold(Color::Magenta)), (" "@, bare())] + name_inks(name@)),
            blank(),
            one(" Steps"@, ink(Color::DarkGray)),
        ] + step_lines(texts(steps@), steps@.len() as int),
{
    let mut header = no_spans();
    put_text(&mut header, " CHAIN ", Style::bold(Color::Magenta));
    put_text(&mut header, " ", Style::bare());
    proof {
        assert(inks(header@) =~= seq![(" CHAIN "@, bold(Color::Magenta)), (" "@, bare())]);
    }
    add_spans(&mut header, folder_name_spans(name));
    let mut lines = just(Line::of(header));
    add_line(&mut lines, Line::blank());
    add_line(&mut lines, Line::one(" Steps", Style::ink(Color::DarkGray)));
    let ghost head = inked(lines@);
    let ghost all = texts(steps@);
    let mut i: usize = 0;
    proof {
        assert(inked(lines@) =~= head + step_lines(all, 0));
    }
    while i < steps.len()
        invariant
            i <= steps.len(),
            all == texts(steps@),
            inked(lines@) == head + step_lines(all, i as int),
        decreases steps.len() - i,
    {
        let number = concat3("  ", decimal_string(i as u128 + 1).as_str(), ". ");
        proof {
            assert(all[i as int] == steps@[i as int]@);
        }
        add_line(
            &mut lines,
            Line::two(
                number.as_str(),
                Style::ink(Color::DarkGray),
                steps[i].as_str(),
                Style::bare(),
            ),
        );
        proof {
            assert(inked(lines@) =~= head + step_lines(all, i + 1));
        }
        i = i + 1;
    }
    proof {
        assert(head =~= seq![
            line_of(seq![(" CHAIN "@, bold(Color::Magenta)), (" "@, bare())] + name_inks(name@)),
            blank(),
            one(" Steps"@, ink(Color::DarkGray)),
        ]);
    }
    lines
}

/// What is shown beside the list of a selected entry.
pub fn make_detail_lines(entry: &Entry) -> (r: Vec<Line>)
    ensures
        inked(r@) == detail_lines(*entry),
{
    match &entry.kind {
        EntryKind::Chain { steps } => chain_details(entry.name.as_str(), steps),
        EntryKind::Request { method, url, description, headers, query, .. } => {
            let mut header = no_spans();
            let word = concat3(" ", method.as_str(), " ");
            put_text(&mut header, word.as_str(), Style::bold(method_color(method.as_str())));
            put_text(&mut header, " ", Style::bare());
            proof {
                assert(inks(header@) =~= seq![
                    (" "@ + method@ + " "@, bold(color_of_method(method@))),
                    (" "@, bare()),
                ]);
            }
            add_spans(&mut header, folder_name_spans(entry.name.as_str()));
            let mut address = no_spans();
            put_text(&mut address, " url    ", Style::ink(Color::DarkGray));
            proof {
                assert(inks(address@) =~= seq![(" url    "@, ink(Color::DarkGray))]);
            }
            add_spans(&mut address, var_spans(url.as_str(), Style::ink(Color::Cyan)));
            let mut lines = just(Line::of(header));
            add_line(&mut lines, Line::blank());
            add_line(&mut lines, Line::of(address));
            let ghost head = inked(lines@);
            match description {
                Some(d) => {
                    if !d.as_str().is_empty() {
                        add_line(
                            &mut lines,
                            Line::two(
                                " desc   ",
                                Style::ink(Color::DarkGray),
                                d.as_str(),
                                Style::bare(),
                            ),
                        );
                    }
                },
                None => {},
            }
            proof {
                assert(inked(lines@) =~= head + detail_description(*description));
            }
            put_section(&mut lines, " Headers", headers);
            put_section(&mut lines, " Query", query);
            proof {
                assert(inked(lines@) =~= detail_lines(*entry));
            }
            lines
        },
    }
}

/// The pane beside the list.
pub fn draw_detail_browse(selected: Option<&Entry>) -> (r: Pane)
    ensures
        r@ == (PaneView {
            title: plain_title(" Details "@),
            border: Color::Blue,
            lines: match selected {
                Some(e) => detail_lines(*e),
                None => seq![one(" No request selected."@, bare())],
            },
            scroll: 0,
            wrap: false,
        }),
{
    let lines = match selected {
        Some(e) => make_detail_lines(e),
        None => just(Line::one(" No request selected.", Style::bare())),
    };
    Pane { title: Line::one(" Details ", Style::bare()), border: Color::Blue, lines, scroll: 0, wrap: false }
}

} // verus!
