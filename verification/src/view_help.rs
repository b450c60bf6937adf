//! The hint line, the keymap, and the prompts.
use vstd::prelude::*;
use vstd::string::*;

use crate::order::{rows_of, Row};
use crate::panes::{Mode, ModeView};
use crate::tester::{repeat, repeated};
use crate::text::{concat2, concat3};
use crate::theme::Color;
use crate::view::{
    add_line, add_lines, bare, blank, bold, bold_badge, ink, inked, inks, just, line_of, line_text, no_spans,
    one, put_text, two, Ink, Inked, Line, Style,
};
use crate::view_field::Rect;
use crate::view_panes::{note, plain_title, Pane, PaneView};
use crate::view_text::{centered_rect, lesser, pad_right, padded};

verus! {

// ─── Hints ────────────────────────────────────────────────────────────────────

/// The keys worth a hint in a mode, and what they do. While lines of a response are
/// being selected, only the keys that end that.
pub open spec fn hints(mode: ModeView) -> Seq<Row> {
    match mode {
        ModeView::Browse => seq![
            ("r"@, "run"@),
            ("t"@, "test"@),
            ("n"@, "new"@),
            ("e"@, "edit"@),
            ("f"@, "filter"@),
            ("?"@, "help"@),
            ("q"@, "quit"@),
        ],
        ModeView::ImportCurl(_) => seq![
            ("Ctrl+s"@, "import"@),
            ("Enter"@, "newline"@),
            ("Esc"@, "cancel"@),
        ],
        ModeView::ProfileSelect(_) => seq![
            ("Enter"@, "select"@),
            ("j/k"@, "navigate"@),
            ("Esc"@, "cancel"@),
        ],
        ModeView::VarInput(_) => seq![
            ("Enter"@, "run"@),
            ("Tab/S-Tab"@, "switch field"@),
            ("Esc"@, "cancel"@),
        ],
        ModeView::TestInput(_) => seq![
            ("Enter"@, "run test"@),
            ("Tab/S-Tab"@, "switch field"@),
            ("Esc"@, "cancel"@),
        ],
        ModeView::NewRequest(_) => seq![
            ("Enter"@, "save"@),
            ("Tab"@, "fields"@),
            ("^e"@, "headers"@),
            ("^q"@, "query"@),
            ("^p"@, "profiles"@),
            ("Esc"@, "cancel"@),
        ],
        ModeView::EditPairs(p) => seq![
            ("Enter"@, "apply"@),
            ("Tab"@, "fields"@),
            ("^a"@, "add "@ + p.kind.row_noun()),
            ("^d"@, "remove "@ + p.kind.row_noun()),
            ("Esc"@, "cancel"@),
        ],
        ModeView::EditBody(_) => seq![
            ("^s"@, "apply"@),
            ("Enter"@, "newline"@),
            ("Tab"@, "fields"@),
            ("Esc"@, "cancel"@),
        ],
        ModeView::ProfileList(_) => seq![
            ("Enter"@, "edit"@),
            ("j/k"@, "navigate"@),
            ("n"@, "new"@),
            ("d"@, "delete"@),
            ("Esc"@, "back to request"@),
        ],
        ModeView::NewProfile(_) => seq![
            ("Enter"@, "save profile"@),
            ("Tab"@, "fields"@),
            ("^a"@, "add param"@),
            ("^d"@, "remove param"@),
            ("Esc"@, "cancel"@),
        ],
        ModeView::ConfirmDelete { .. } => seq![
            ("y/Enter"@, "confirm delete"@),
            ("n/Esc"@, "cancel"@),
        ],
        ModeView::Response(p) => if p.anchor is Some {
            seq![
                ("j/k"@, "extend"@),
                ("y"@, "copy selection"@),
                ("V/Esc"@, "cancel"@),
            ]
        } else {
            reading_hints()
        },
        ModeView::TestResponse(_) => reading_hints(),
    }
}

/// The keys worth a hint while a response is read.
pub open spec fn reading_hints() -> Seq<Row> {
    seq![
        ("j/k"@, "move"@),
        ("V"@, "select"@),
        ("y"@, "copy line"@),
        ("f"@, "filter"@),
        ("c"@, "copy all"@),
        ("Esc"@, "back"@),
        ("q"@, "quit"@),
    ]
}

/// The first `n` hints as spans: each key between spaces, and what it does.
pub open spec fn hint_inks(hints: Seq<Row>, n: int) -> Seq<Ink>
    decreases n,
{
    if n <= 0 {
        Seq::empty()
    } else {
        let (key, what) = hints[n - 1];
        let lead = if n == 1 {
            " "@
        } else {
            "   "@
        };
        hint_inks(hints, n - 1).push((lead + key + " "@, bold(Color::Yellow))).push(
            (what, ink(Color::DarkGray)),
        )
    }
}

/// The hint line of a mode.
pub open spec fn hint_line(mode: ModeView) -> Inked {
    line_of(hint_inks(hints(mode), hints(mode).len() as int))
}

fn hint(v: &mut Vec<(String, String)>, key: &str, what: &str)
    ensures
        rows_of(final(v)@) == rows_of(old(v)@).push((key@, what@)),
{
    let ghost before = v@;
    v.push((key.to_owned(), what.to_owned()));
    proof {
        assert(rows_of(v@) =~= rows_of(before).push((key@, what@)));
    }
}

fn hints_of(mode: &Mode) -> (r: Vec<(String, String)>)
    ensures
        rows_of(r@) == hints(mode@),
{
    let mut v: Vec<(String, String)> = Vec::new();
    match mode {
        Mode::Browse => {
            hint(&mut v, "r", "run");
            hint(&mut v, "t", "test");
            hint(&mut v, "n", "new");
            hint(&mut v, "e", "edit");
            hint(&mut v, "f", "filter");
            hint(&mut v, "?", "help");
            hint(&mut v, "q", "quit");
        },
        Mode::ImportCurl(_) => {
            hint(&mut v, "Ctrl+s", "import");
            hint(&mut v, "Enter", "newline");
            hint(&mut v, "Esc", "cancel");
        },
        Mode::ProfileSelect(_) => {
            hint(&mut v, "Enter", "select");
            hint(&mut v, "j/k", "navigate");
            hint(&mut v, "Esc", "cancel");
        },
        Mode::VarInput(_) => {
            hint(&mut v, "Enter", "run");
            hint(&mut v, "Tab/S-Tab", "switch field");
            hint(&mut v, "Esc", "cancel");
        },
        Mode::TestInput(_) => {
            hint(&mut v, "Enter", "run test");
            hint(&mut v, "Tab/S-Tab", "switch field");
            hint(&mut v, "Esc", "cancel");
        },
        Mode::NewRequest(_) => {
            hint(&mut v, "Enter", "save");
            hint(&mut v, "Tab", "fields");
            hint(&mut v, "^e", "headers");
            hint(&mut v, "^q", "query");
            hint(&mut v, "^p", "profiles");
            hint(&mut v, "Esc", "cancel");
        },
        Mode::EditPairs(p) => {
            hint(&mut v, "Enter", "apply");
            hint(&mut v, "Tab", "fields");
            hint(&mut v, "^a", concat2("add ", p.kind.noun()).as_str());
            hint(&mut v, "^d", concat2("remove ", p.kind.noun()).as_str());
            hint(&mut v, "Esc", "cancel");
        },
        Mode::EditBody(_) => {
            hint(&mut v, "^s", "apply");
            hint(&mut v, "Enter", "newline");
            hint(&mut v, "Tab", "fields");
            hint(&mut v, "Esc", "cancel");
        },
        Mode::ProfileList(_) => {
            hint(&mut v, "Enter", "edit");
            hint(&mut v, "j/k", "navigate");
            hint(&mut v, "n", "new");
            hint(&mut v, "d", "delete");
            hint(&mut v, "Esc", "back to request");
        },
        Mode::NewProfile(_) => {
            hint(&mut v, "Enter", "save profile");
            hint(&mut v, "Tab", "fields");
            hint(&mut v, "^a", "add param");
            hint(&mut v, "^d", "remove param");
            hint(&mut v, "Esc", "cancel");
        },
        Mode::ConfirmDelete { .. } => {
            hint(&mut v, "y/Enter", "confirm delete");
            hint(&mut v, "n/Esc", "cancel");
        },
        Mode::Response(p) => {
            if p.anchor.is_some() {
                hint(&mut v, "j/k", "extend");
                hint(&mut v, "y", "copy selection");
                hint(&mut v, "V/Esc", "cancel");
            } else {
                hint(&mut v, "j/k", "move");
                hint(&mut v, "V", "select");
                hint(&mut v, "y", "copy line");
                hint(&mut v, "f", "filter");
                hint(&mut v, "c", "copy all");
                hint(&mut v, "Esc", "back");
                hint(&mut v, "q", "quit");
            }
        },
        Mode::TestResponse(_) => {
            hint(&mut v, "j/k", "move");
            hint(&mut v, "V", "select");
            hint(&mut v, "y", "copy line");
            hint(&mut v, "f", "filter");
            hint(&mut v, "c", "copy all");
            hint(&mut v, "Esc", "back");
            hint(&mut v, "q", "quit");
        },
    }
    proof {
        assert(rows_of(v@) =~= hints(mode@));
    }
    v
}

/// The hint line of a mode.
pub fn draw_help(mode: &Mode) -> (r: Line)
    ensures
        r@ == hint_line(mode@),
{
    let v = hints_of(mode);
    let ghost rows = rows_of(v@);
    let mut spans = no_spans();
    let mut i: usize = 0;
    while i < v.len()
        invariant
            i <= v.len(),
            rows == rows_of(v@),
            inks(spans@) == hint_inks(rows, i as int),
        decreases v.len() - i,
    {
        proof {
            assert(rows[i as int] == (v@[i as int].0@, v@[i as int].1@));
        }
        let lead = if i == 0 {
            " "
        } else {
            "   "
        };
        let key = concat3(lead, v[i].0.as_str(), " ");
        put_text(&mut spans, key.as_str(), Style::bold(Color::Yellow));
        put_text(&mut spans, v[i].1.as_str(), Style::ink(Color::DarkGray));
        i = i + 1;
    }
    Line::of(spans)
}

/// How many characters the first `n` hints take.
pub open spec fn hint_width(hints: Seq<Row>, n: int) -> int
    decreases n,
{
    if n <= 0 {
        0
    } else {
        hint_width(hints, n - 1) + hints[n - 1].0.len() + hints[n - 1].1.len() + if n == 1 {
            2int
        } else {
            4
        }
    }
}

proof fn lemma_hint_width(hints: Seq<Row>, n: int)
    requires
        0 <= n <= hints.len(),
    ensures
        line_text(hint_inks(hints, n)).len() == hint_width(hints, n),
    decreases n,
{
    reveal_strlit(" ");
    reveal_strlit("   ");
    if n > 0 {
        lemma_hint_width(hints, n - 1);
        let (key, what) = hints[n - 1];
        let lead = if n == 1 {
            " "@
        } else {
            "   "@
        };
        let front = hint_inks(hints, n - 1);
        let keyed = front.push((lead + key + " "@, bold(Color::Yellow)));
        let all = keyed.push((what, ink(Color::DarkGray)));
        assert(all.drop_last() =~= keyed);
        assert(keyed.drop_last() =~= front);
        assert(hint_inks(hints, n) == all);
        assert(line_text(keyed) == line_text(front) + (lead + key + " "@));
        assert(line_text(all) == line_text(keyed) + what);
    }
}

/// In every mode the hint line fits a terminal of eighty columns.
pub proof fn law_hints_fit_eighty_columns(mode: ModeView)
    ensures
        line_text(hint_line(mode).spans).len() <= 80,
{
    let rows = hints(mode);
    lemma_hint_width(rows, rows.len() as int);
    reveal_with_fuel(hint_width, 9);
    reveal_strlit(" ");
    reveal_strlit("   ");
    reveal_strlit("?");
    reveal_strlit("Ctrl+s");
    reveal_strlit("Enter");
    reveal_strlit("Esc");
    reveal_strlit("Tab");
    reveal_strlit("Tab/S-Tab");
    reveal_strlit("V");
    reveal_strlit("V/Esc");
    reveal_strlit("^a");
    reveal_strlit("^d");
    reveal_strlit("^e");
    reveal_strlit("^p");
    reveal_strlit("^q");
    reveal_strlit("^s");
    reveal_strlit("add ");
    reveal_strlit("add param");
    reveal_strlit("apply");
    reveal_strlit("back");
    reveal_strlit("back to request");
    reveal_strlit("c");
    reveal_strlit("cancel");
    reveal_strlit("confirm delete");
    reveal_strlit("copy all");
    reveal_strlit("copy line");
    reveal_strlit("copy selection");
    reveal_strlit("d");
    reveal_strlit("delete");
    reveal_strlit("e");
    reveal_strlit("edit");
    reveal_strlit("extend");
    reveal_strlit("f");
    reveal_strlit("fields");
    reveal_strlit("filter");
    reveal_strlit("header");
    reveal_strlit("headers");
    reveal_strlit("help");
    reveal_strlit("import");
    reveal_strlit("j/k");
    reveal_strlit("move");
    reveal_strlit("n");
    reveal_strlit("n/Esc");
    reveal_strlit("navigate");
    reveal_strlit("new");
    reveal_strlit("newline");
    reveal_strlit("param");
    reveal_strlit("profiles");
    reveal_strlit("q");
    reveal_strlit("query");
    reveal_strlit("quit");
    reveal_strlit("r");
    reveal_strlit("remove ");
    reveal_strlit("remove param");
    reveal_strlit("run");
    reveal_strlit("run test");
    reveal_strlit("save");
    reveal_strlit("save profile");
    reveal_strlit("select");
    reveal_strlit("switch field");
    reveal_strlit("t");
    reveal_strlit("test");
    reveal_strlit("y");
    reveal_strlit("y/Enter");
}

// ─── The keymap ───────────────────────────────────────────────────────────────

/// The width of a key in the keymap, of what it does, and of both.
pub const HELP_KEY_WIDTH: usize = 8;

pub const HELP_LABEL_WIDTH: usize = 13;

pub const HELP_COLUMN_WIDTH: usize = 21;

/// The width of the keymap: an indent and three columns.
pub const HELP_WIDTH: u16 = 65;

/// The column `Navigate`.
pub open spec fn navigate_keys() -> Seq<Row> {
    seq![
        ("j/k"@, "up/down"@),
        ("gg/G"@, "top/bottom"@),
        ("Space"@, "fold"@),
        ("f"@, "filter"@),
    ]
}

/// The column `Run`.
pub open spec fn run_keys() -> Seq<Row> {
    seq![
        ("r/Enter"@, "run"@),
        ("t"@, "load test"@),
        ("y"@, "copy cURL"@),
        ("i"@, "import cURL"@),
    ]
}

/// The column `Manage`.
pub open spec fn manage_keys() -> Seq<Row> {
    seq![
        ("n"@, "new"@),
        ("e"@, "edit"@),
        ("c"@, "clone"@),
        ("d"@, "delete"@),
        ("R"@, "refresh"@),
    ]
}

/// One row of a column: a key and what it does, or spaces where the column is shorter.
pub open spec fn cell(keys: Seq<Row>, r: int) -> Seq<Ink> {
    if 0 <= r < keys.len() {
        seq![
            (padded(keys[r].0, HELP_KEY_WIDTH as nat), bold(Color::Yellow)),
            (padded(keys[r].1, HELP_LABEL_WIDTH as nat), ink(Color::White)),
        ]
    } else {
        seq![(repeated(' ', HELP_COLUMN_WIDTH as nat), bare())]
    }
}

/// One row of the keymap.
pub open spec fn key_row(r: int) -> Inked {
    line_of(
        seq![("  "@, bare())] + cell(navigate_keys(), r) + cell(run_keys(), r) + cell(
            manage_keys(),
            r,
        ),
    )
}

/// The head of a column.
pub open spec fn column_head(title: Seq<char>) -> Ink {
    (padded(title, HELP_COLUMN_WIDTH as nat), bold(Color::Blue))
}

/// The lines of the keymap.
pub open spec fn keymap_lines() -> Seq<Inked> {
    seq![
        line_of(
            seq![
                ("  "@, bare()),
                column_head("Navigate"@),
                column_head("Run"@),
                column_head("Manage"@),
            ],
        ),
        blank(),
        key_row(0),
        key_row(1),
        key_row(2),
        key_row(3),
        key_row(4),
        blank(),
        line_of(
            seq![
                ("  "@, bare()),
                ("q"@, bold(Color::Yellow)),
                ("  quit          "@, ink(Color::DarkGray)),
                ("any key"@, bold(Color::Yellow)),
                ("  close this"@, ink(Color::DarkGray)),
            ],
        ),
    ]
}

fn navigate_column() -> (r: Vec<(String, String)>)
    ensures
        rows_of(r@) == navigate_keys(),
{
    let mut v: Vec<(String, String)> = Vec::new();
    hint(&mut v, "j/k", "up/down");
    hint(&mut v, "gg/G", "top/bottom");
    hint(&mut v, "Space", "fold");
    hint(&mut v, "f", "filter");
    proof {
        assert(rows_of(v@) =~= navigate_keys());
    }
    v
}

fn run_column() -> (r: Vec<(String, String)>)
    ensures
        rows_of(r@) == run_keys(),
{
    let mut v: Vec<(String, String)> = Vec::new();
    hint(&mut v, "r/Enter", "run");
    hint(&mut v, "t", "load test");
    hint(&mut v, "y", "copy cURL");
    hint(&mut v, "i", "import cURL");
    proof {
        assert(rows_of(v@) =~= run_keys());
    }
    v
}

fn manage_column() -> (r: Vec<(String, String)>)
    ensures
        rows_of(r@) == manage_keys(),
{
    let mut v: Vec<(String, String)> = Vec::new();
    hint(&mut v, "n", "new");
    hint(&mut v, "e", "edit");
    hint(&mut v, "c", "clone");
    hint(&mut v, "d", "delete");
    hint(&mut v, "R", "refresh");
    proof {
        assert(rows_of(v@) =~= manage_keys());
    }
    v
}

fn put_cell(spans: &mut Vec<crate::view::Span>, keys: &Vec<(String, String)>, r: usize)
    ensures
        inks(final(spans)@) == inks(old(spans)@) + cell(rows_of(keys@), r as int),
{
    let ghost before = inks(spans@);
    let ghost rows = rows_of(keys@);
    proof {
        assert(rows.len() == keys@.len());
    }
    if r < keys.len() {
        proof {
            assert(rows[r as int] == (keys@[r as int].0@, keys@[r as int].1@));
        }
        let key = pad_right(keys[r].0.as_str(), HELP_KEY_WIDTH);
        let what = pad_right(keys[r].1.as_str(), HELP_LABEL_WIDTH);
        put_text(spans, key.as_str(), Style::bold(Color::Yellow));
        put_text(spans, what.as_str(), Style::ink(Color::White));
    } else {
        put_text(spans, repeat(' ', HELP_COLUMN_WIDTH).as_str(), Style::bare());
    }
    proof {
        assert(inks(spans@) =~= before + cell(rows, r as int));
    }
}

fn keys_at(r: usize) -> (line: Line)
    ensures
        line@ == key_row(r as int),
{
    let mut spans = no_spans();
    put_text(&mut spans, "  ", Style::bare());
    proof {
        assert(inks(spans@) =~= seq![("  "@, bare())]);
    }
    put_cell(&mut spans, &navigate_column(), r);
    put_cell(&mut spans, &run_column(), r);
    put_cell(&mut spans, &manage_column(), r);
    Line::of(spans)
}

fn keymap() -> (r: Vec<Line>)
    ensures
        inked(r@) == keymap_lines(),
{
    let mut head = no_spans();
    put_text(&mut head, "  ", Style::bare());
    put_text(&mut head, pad_right("Navigate", HELP_COLUMN_WIDTH).as_str(), Style::bold(Color::Blue));
    put_text(&mut head, pad_right("Run", HELP_COLUMN_WIDTH).as_str(), Style::bold(Color::Blue));
    put_text(&mut head, pad_right("Manage", HELP_COLUMN_WIDTH).as_str(), Style::bold(Color::Blue));
    proof {
        assert(inks(head@) =~= keymap_lines()[0].spans);
    }
    let mut foot = no_spans();
    put_text(&mut foot, "  ", Style::bare());
    put_text(&mut foot, "q", Style::bold(Color::Yellow));
    put_text(&mut foot, "  quit          ", Style::ink(Color::DarkGray));
    put_text(&mut foot, "any key", Style::bold(Color::Yellow));
    put_text(&mut foot, "  close this", Style::ink(Color::DarkGray));
    proof {
        assert(inks(foot@) =~= keymap_lines()[8].spans);
    }
    let mut lines = just(Line::of(head));
    add_line(&mut lines, Line::blank());
    add_line(&mut lines, keys_at(0));
    add_line(&mut lines, keys_at(1));
    add_line(&mut lines, keys_at(2));
    add_line(&mut lines, keys_at(3));
    add_line(&mut lines, keys_at(4));
    add_line(&mut lines, Line::blank());
    add_line(&mut lines, Line::of(foot));
    proof {
        assert(inked(lines@) =~= keymap_lines());
    }
    lines
}

/// A box of so many lines in the middle of an area, with a border around it.
pub open spec fn popup(width: u16, lines: int, area: Rect) -> Rect {
    let w = lesser(width, area.width);
    let h = lesser((lines + 2) as u16, area.height);
    Rect {
        x: (area.x + (area.width - w) / 2) as u16,
        y: (area.y + (area.height - h) / 2) as u16,
        width: w,
        height: h,
    }
}

/// The keymap over everything: where it goes, and what it says.
pub fn draw_help_overlay(area: Rect) -> (r: (Rect, Pane))
    requires
        area.x + area.width <= u16::MAX,
        area.y + area.height <= u16::MAX,
    ensures
        r.0 == popup(HELP_WIDTH, 9, area),
        r.1@ == (PaneView {
            title: plain_title(" Keys "@),
            border: Color::Blue,
            lines: keymap_lines(),
            scroll: 0,
            wrap: false,
        }),
{
    let pane = Pane {
        title: Line::one(" Keys ", Style::bare()),
        border: Color::Blue,
        lines: keymap(),
        scroll: 0,
        wrap: false,
    };
    (centered_rect(HELP_WIDTH, 11, area), pane)
}

// ─── Prompts ──────────────────────────────────────────────────────────────────

/// The lines that ask before a deletion.
pub open spec fn delete_lines(entry_name: Seq<char>) -> Seq<Inked> {
    seq![
        blank(),
        line_of(
            seq![
                ("  Delete  "@, ink(Color::DarkGray)),
                (entry_name, bold(Color::White)),
                ("?"@, ink(Color::DarkGray)),
            ],
        ),
        blank(),
        note("  This action cannot be undone."@),
        blank(),
        two(("  y / Enter  "@, bold(Color::Red)), ("yes, delete"@, ink(Color::DarkGray))),
        two(("  n / Esc    "@, bold(Color::Green)), ("cancel"@, ink(Color::DarkGray))),
    ]
}

/// The pane that asks before a deletion.
pub fn draw_confirm_delete(entry_name: &str) -> (r: Pane)
    ensures
        r@ == (PaneView {
            title: plain_title(" Confirm Delete "@),
            border: Color::Red,
            lines: delete_lines(entry_name@),
            scroll: 0,
            wrap: false,
        }),
{
    let mut asked = no_spans();
    put_text(&mut asked, "  Delete  ", Style::ink(Color::DarkGray));
    put_text(&mut asked, entry_name, Style::bold(Color::White));
    put_text(&mut asked, "?", Style::ink(Color::DarkGray));
    proof {
        assert(inks(asked@) =~= delete_lines(entry_name@)[1].spans);
    }
    let mut lines = just(Line::blank());
    add_line(&mut lines, Line::of(asked));
    add_line(&mut lines, Line::blank());
    add_line(
        &mut lines,
        Line::one("  This action cannot be undone.", Style::ink(Color::DarkGray)),
    );
    add_line(&mut lines, Line::blank());
    add_line(
        &mut lines,
        Line::two(
            "  y / Enter  ",
            Style::bold(Color::Red),
            "yes, delete",
            Style::ink(Color::DarkGray),
        ),
    );
    add_line(
        &mut lines,
        Line::two(
            "  n / Esc    ",
            Style::bold(Color::Green),
            "cancel",
            Style::ink(Color::DarkGray),
        ),
    );
    proof {
        assert(inked(lines@) =~= delete_lines(entry_name@));
    }
    Pane {
        title: Line::one(" Confirm Delete ", Style::bare()),
        border: Color::Red,
        lines,
        scroll: 0,
        wrap: false,
    }
}

/// The width of the prompt, and of an answer in it.
pub const DISCARD_WIDTH: u16 = 46;

pub const DISCARD_LABEL_WIDTH: usize = 18;

/// One answer of the prompt, and what it leads to; the selected one is marked.
pub open spec fn answer_lines(choice: Row, is_selected: bool) -> Seq<Inked> {
    seq![
        two(
            (
                if is_selected {
                    "  ▶ "@
                } else {
                    "    "@
                },
                bare(),
            ),
            (
                padded(choice.0, DISCARD_LABEL_WIDTH as nat),
                if is_selected {
                    bold_badge(Color::White, Color::Blue)
                } else {
                    ink(Color::White)
                },
            ),
        ),
        note("      "@ + choice.1),
        blank(),
    ]
}

/// The first `n` answers.
pub open spec fn answers(choices: Seq<Row>, selected: int, n: int) -> Seq<Inked>
    decreases n,
{
    if n <= 0 {
        Seq::empty()
    } else {
        answers(choices, selected, n - 1) + answer_lines(choices[n - 1], selected == n - 1)
    }
}

/// The prompt before changes are thrown away: the answers with what each leads to,
/// and the keys that choose one.
pub open spec fn discard_lines(choices: Seq<Row>, selected: int) -> Seq<Inked> {
    seq![blank(), one("  This request has unsaved changes."@, ink(Color::White)), blank()]
        + answers(choices, selected, choices.len() as int) + seq![
        line_of(
            seq![
                ("  "@, bare()),
                ("j/k"@, bold(Color::Yellow)),
                ("  move    "@, ink(Color::DarkGray)),
                ("Enter"@, bold(Color::Yellow)),
                ("  choose"@, ink(Color::DarkGray)),
            ],
        ),
    ]
}

fn answer(label: &str, hint: &str, is_selected: bool) -> (r: Vec<Line>)
    ensures
        inked(r@) == answer_lines((label@, hint@), is_selected),
{
    let shown = pad_right(label, DISCARD_LABEL_WIDTH);
    let line = if is_selected {
        Line::two(
            "  ▶ ",
            Style::bare(),
            shown.as_str(),
            Style::bold_badge(Color::White, Color::Blue),
        )
    } else {
        Line::two("    ", Style::bare(), shown.as_str(), Style::ink(Color::White))
    };
    let mut lines = just(line);
    add_line(&mut lines, Line::one(concat2("      ", hint).as_str(), Style::ink(Color::DarkGray)));
    add_line(&mut lines, Line::blank());
    proof {
        assert(inked(lines@) =~= answer_lines((label@, hint@), is_selected));
    }
    lines
}

/// The prompt before changes are thrown away: where it goes, and what it says.
pub fn draw_confirm_discard(area: Rect, choices: &Vec<(String, String)>, selected: usize) -> (r: (
    Rect,
    Pane,
))
    requires
        area.x + area.width <= u16::MAX,
        area.y + area.height <= u16::MAX,
        discard_lines(rows_of(choices@), selected as int).len() + 2 <= u16::MAX,
    ensures
        r.0 == popup(
            DISCARD_WIDTH,
            discard_lines(rows_of(choices@), selected as int).len() as int,
            area,
        ),
        r.1@ == (PaneView {
            title: plain_title(" Unsaved changes "@),
            border: Color::Yellow,
            lines: discard_lines(rows_of(choices@), selected as int),
            scroll: 0,
            wrap: false,
        }),
{
    let ghost rows = rows_of(choices@);
    let mut lines = just(Line::blank());
    add_line(
        &mut lines,
        Line::one("  This request has unsaved changes.", Style::ink(Color::White)),
    );
    add_line(&mut lines, Line::blank());
    let ghost head = seq![
        blank(),
        one("  This request has unsaved changes."@, ink(Color::White)),
        blank(),
    ];
    proof {
        assert(inked(lines@) =~= head + answers(rows, selected as int, 0));
    }
    let mut i: usize = 0;
    while i < choices.len()
        invariant
            i <= choices.len(),
            rows == rows_of(choices@),
            inked(lines@) == head + answers(rows, selected as int, i as int),
            lines.len() == head.len() + 3 * i,
        decreases choices.len() - i,
    {
        proof {
            assert(rows[i as int] == (choices@[i as int].0@, choices@[i as int].1@));
        }
        let more = answer(choices[i].0.as_str(), choices[i].1.as_str(), i == selected);
        proof {
            assert(inked(more@).len() == more@.len());
        }
        add_lines(&mut lines, more);
        proof {
            assert(inked(lines@) =~= head + answers(rows, selected as int, i + 1));
            assert(inked(lines@).len() == lines@.len());
        }
        i = i + 1;
    }
    let mut foot = no_spans();
    put_text(&mut foot, "  ", Style::bare());
    put_text(&mut foot, "j/k", Style::bold(Color::Yellow));
    put_text(&mut foot, "  move    ", Style::ink(Color::DarkGray));
    put_text(&mut foot, "Enter", Style::bold(Color::Yellow));
    put_text(&mut foot, "  choose", Style::ink(Color::DarkGray));
    let ghost keys = inks(foot@);
    add_line(&mut lines, Line::of(foot));
    proof {
        assert(keys =~= seq![
            ("  "@, bare()),
            ("j/k"@, bold(Color::Yellow)),
            ("  move    "@, ink(Color::DarkGray)),
            ("Enter"@, bold(Color::Yellow)),
            ("  choose"@, ink(Color::DarkGray)),
        ]);
        assert(inked(lines@) =~= discard_lines(rows, selected as int));
        assert(inked(lines@).len() == lines@.len());
    }
    let height: u16 = lines.len() as u16 + 2;
    let pane = Pane {
        title: Line::one(" Unsaved changes ", Style::bare()),
        border: Color::Yellow,
        lines,
        scroll: 0,
        wrap: false,
    };
    (centered_rect(DISCARD_WIDTH, height, area), pane)
}

} // verus!
