//! What holds of what is drawn: it shows what is there.
use vstd::prelude::*;
use vstd::string::*;

use crate::app::{filtered, listed_rows, AppView};
use crate::caret::{offset, snap};
use crate::edit::EditView;
use crate::order::Row;
use crate::response::{pane_lines, ResponseView};
use crate::tester::{
    bar_cells, duration_form, reason_or_unknown, reason_phrase, repeated, right_aligned, StatusCount,
    TestResults,
};
use crate::text::{decimal, text_lines, white};
use crate::theme::Color;
use crate::tree::{Entry, EntryKind, TreeRow};
use crate::vim_laws::law_the_caret_is_where_it_was_left;
use crate::view::{badge, ink, line_of, line_text, Ink, Inked};
use crate::view_browse::{
    detail_pairs, detail_section, folder_item, leaf_item, list_item, list_lines, step_lines,
};
use crate::view_field::{
    caret_column, caret_inks, input_inks, input_window, last_break, next_row, wrap_from, INPUT_PREFIX,
};
use crate::view_forms::{fields_drawn, pairs_drawn, vars_drawn};
use crate::view_panes::Drawn;
use crate::view_response::{
    gauge, gauges, graph_lines, most, report, report_count, report_counts, report_times, response_line,
    response_lines,
};
use crate::view_text::{
    color_of_status, last_slash, leaf_name, name_inks, padded, previewed, value_color, var_inks,
    BODY_PREVIEW_LINES,
};

verus! {

proof fn lemma_text_joins(a: Seq<Ink>, b: Seq<Ink>)
    ensures
        line_text(a + b) == line_text(a) + line_text(b),
    decreases b.len(),
{
    if b.len() == 0 {
        assert(a + b =~= a);
        assert(line_text(b) =~= Seq::<char>::empty());
        assert(line_text(a) + line_text(b) =~= line_text(a));
    } else {
        lemma_text_joins(a, b.drop_last());
        assert((a + b).drop_last() =~= a + b.drop_last());
        assert((a + b).last() == b.last());
        assert(line_text(a + b) =~= line_text(a) + line_text(b));
    }
}

proof fn lemma_text_one(a: Ink)
    ensures
        line_text(seq![a]) == a.0,
{
    assert(seq![a].drop_last() =~= Seq::<Ink>::empty());
    assert(line_text(seq![a].drop_last()) =~= Seq::<char>::empty());
    assert(line_text(seq![a]) =~= a.0);
}

proof fn lemma_text_two(a: Ink, b: Ink)
    ensures
        line_text(seq![a, b]) == a.0 + b.0,
{
    lemma_text_one(a);
    lemma_text_one(b);
    lemma_text_joins(seq![a], seq![b]);
    assert(seq![a] + seq![b] =~= seq![a, b]);
}

proof fn lemma_text_three(a: Ink, b: Ink, c: Ink)
    ensures
        line_text(seq![a, b, c]) == a.0 + b.0 + c.0,
{
    lemma_text_two(a, b);
    lemma_text_one(c);
    lemma_text_joins(seq![a, b], seq![c]);
    assert(seq![a, b] + seq![c] =~= seq![a, b, c]);
}

// ─── The caret ────────────────────────────────────────────────────────────────

/// While inserting, the caret is a bar between the characters before it and those behind
/// it. In normal mode it is on its character, which is shown all the same, or behind the
/// last one. Without a caret the value is shown as it is.
pub proof fn law_the_caret_is_drawn_in_its_place(value: Seq<char>, i: int, color: Color)
    requires
        0 <= i <= value.len(),
    ensures
        line_text(caret_inks(value, None, color)) == value,
        line_text(caret_inks(value, Some((offset(value, i), true)), color)) == value.take(i) + seq!['│']
            + value.skip(i),
        i < value.len() ==> line_text(caret_inks(value, Some((offset(value, i), false)), color)) == value,
        i < value.len() ==> caret_inks(value, Some((offset(value, i), false)), color).contains(
            (seq![value[i]], badge(Color::Black, Color::White)),
        ),
        i == value.len() ==> line_text(caret_inks(value, Some((offset(value, i), false)), color)) == value
            + seq!['█'],
{
    law_the_caret_is_where_it_was_left(value, i);
    reveal_strlit("│");
    reveal_strlit("█");
    assert("│"@ =~= seq!['│']);
    assert("█"@ =~= seq!['█']);
    let before = (value.take(i), ink(color));
    lemma_text_one((value, ink(color)));
    lemma_text_three(before, ("│"@, ink(Color::White)), (value.skip(i), ink(color)));
    if i < value.len() {
        let on = (seq![value[i]], badge(Color::Black, Color::White));
        let after = (value.skip(i + 1), ink(color));
        lemma_text_three(before, on, after);
        assert(value.take(i) + seq![value[i]] + value.skip(i + 1) =~= value);
        assert(caret_inks(value, Some((offset(value, i), false)), color)[1] == on);
    } else {
        lemma_text_two(before, ("█"@, ink(Color::White)));
        assert(value.take(i) =~= value);
    }
}

/// The window on a value that is too long for its row holds the caret, and fits the row
/// with its marks; a value that fits is shown whole.
pub proof fn law_the_window_holds_the_caret(value: Seq<char>, i: int, width: u16)
    requires
        0 <= i <= value.len(),
        width >= INPUT_PREFIX + 6,
    ensures
        ({
            let (start, end) = input_window(value, offset(value, i), width);
            &&& 0 <= start <= i <= end <= value.len()
            &&& value.len() < width - INPUT_PREFIX ==> start == 0 && end == value.len()
            &&& value.len() >= width - INPUT_PREFIX ==> end - start + 3 == width - INPUT_PREFIX
        }),
{
    let caret = offset(value, i);
    if i > 0 {
        crate::caret::lemma_offset_grows(value, i - 1, i);
        crate::caret::lemma_snap(value, (caret - 1) as nat);
        let k = snap(value, (caret - 1) as nat);
        if k >= i {
            if k > i {
                crate::caret::lemma_offset_grows(value, i, k);
            }
        }
        if k < i - 1 {
            assert(offset(value, i - 1) > caret - 1);
        }
        assert(caret_column(value, caret) == i);
    } else {
        assert(value.take(0) =~= Seq::<char>::empty());
        assert(caret == 0);
    }
}

// ─── Names ────────────────────────────────────────────────────────────────────

proof fn lemma_last_slash(s: Seq<char>)
    ensures
        -1 <= last_slash(s) < s.len(),
        last_slash(s) >= 0 ==> s[last_slash(s)] == '/',
        forall|j: int| last_slash(s) < j < s.len() ==> #[trigger] s[j] != '/',
    decreases s.len(),
{
    if s.len() > 0 && s.last() != '/' {
        lemma_last_slash(s.drop_last());
        assert forall|j: int| last_slash(s) < j < s.len() implies #[trigger] s[j] != '/' by {
            if j < s.len() - 1 {
                assert(s.drop_last()[j] != '/');
            }
        }
        if last_slash(s) >= 0 {
            assert(s.drop_last()[last_slash(s)] == '/');
        }
    }
}

/// In a folder an entry goes by what stands behind the last slash of its name; the flat
/// list shows the folder too.
pub proof fn law_names_are_shown_by_their_parts(folder: Seq<char>, leaf: Seq<char>)
    requires
        !leaf.contains('/'),
    ensures
        leaf_name(folder + seq!['/'] + leaf) == leaf,
        leaf_name(leaf) == leaf,
        line_text(name_inks(leaf)) == leaf,
        line_text(name_inks(folder + seq!['/'] + leaf)) == folder + seq!['/', ' '] + leaf,
{
    let name = folder + seq!['/'] + leaf;
    let at = folder.len() as int;
    lemma_last_slash(name);
    lemma_last_slash(leaf);
    assert(name[at] == '/');
    let k = last_slash(name);
    assert(k == at) by {
        if k > at {
            assert(leaf[k - at - 1] == '/');
        }
    }
    if last_slash(leaf) >= 0 {
        assert(leaf[last_slash(leaf)] == '/');
    }
    assert(name.skip(at + 1) =~= leaf);
    assert(leaf.skip(0) =~= leaf);
    assert(name.take(at) =~= folder);
    reveal_strlit("/ ");
    assert("/ "@ =~= seq!['/', ' ']);
    lemma_text_one((leaf, crate::view_text::plain_bold()));
    lemma_text_two(
        (name.take(at) + "/ "@, ink(Color::DarkGray)),
        (name.skip(at + 1), crate::view_text::plain_bold()),
    );
    assert(folder + "/ "@ + leaf =~= folder + seq!['/', ' '] + leaf);
}

/// Padding adds spaces behind a text up to the width, and cuts nothing off.
pub proof fn law_padding_adds_spaces_behind(s: Seq<char>, width: nat)
    ensures
        padded(s, width).len() == if s.len() < width {
            width
        } else {
            s.len()
        },
        padded(s, width).take(s.len() as int) == s,
        forall|i: int| s.len() <= i < padded(s, width).len() ==> #[trigger] padded(s, width)[i] == ' ',
{
    assert(padded(s, width).take(s.len() as int) =~= s);
}

// ─── The list ─────────────────────────────────────────────────────────────────

/// What the list says of an entry's kind: its method, filled up to six columns, or that it
/// is a chain.
pub open spec fn kind_said(kind: EntryKind) -> Seq<char> {
    match kind {
        EntryKind::Chain { .. } => seq![' ', 'C', 'H', 'A', 'I', 'N', ' ', ' '],
        EntryKind::Request { method, .. } => seq![' '] + padded(method@, 6) + seq![' '],
    }
}

/// What the list says of an entry's description.
pub open spec fn description_said(kind: EntryKind) -> Seq<char> {
    match kind {
        EntryKind::Chain { .. } => Seq::empty(),
        EntryKind::Request { description, .. } => match description {
            Some(d) => if d@.len() > 0 {
                seq![' ', '—', ' '] + d@
            } else {
                Seq::empty()
            },
            None => Seq::empty(),
        },
    }
}

proof fn lemma_kind_said(kind: EntryKind)
    ensures
        line_text(crate::view_browse::kind_inks(kind)) == kind_said(kind),
        line_text(crate::view_browse::entry_description(kind)) == description_said(kind),
{
    reveal_strlit(" CHAIN ");
    reveal_strlit(" ");
    reveal_strlit(" — ");
    assert(" "@ =~= seq![' ']);
    assert(" — "@ =~= seq![' ', '—', ' ']);
    let inks = crate::view_browse::kind_inks(kind);
    lemma_text_two(inks[0], inks[1]);
    assert(inks =~= seq![inks[0], inks[1]]);
    assert(line_text(inks) =~= kind_said(kind));
    let told = crate::view_browse::entry_description(kind);
    if told.len() > 0 {
        lemma_text_one(told[0]);
        assert(told =~= seq![told[0]]);
    } else {
        assert(line_text(told) =~= Seq::<char>::empty());
    }
}

/// A row of the tree shows the branch it hangs on, the kind of its entry, the last part
/// of its name and its description.
pub proof fn law_a_row_shows_its_entry(e: Entry, prefix: Seq<char>)
    ensures
        line_text(leaf_item(e, prefix).spans) == prefix + kind_said(e.kind) + leaf_name(e.name@)
            + description_said(e.kind),
{
    lemma_kind_said(e.kind);
    let lead = seq![(prefix, ink(Color::DarkGray))];
    let kind = crate::view_browse::kind_inks(e.kind);
    let own = (leaf_name(e.name@), crate::view_text::plain_bold());
    let told = crate::view_browse::entry_description(e.kind);
    lemma_text_one(lead[0]);
    lemma_text_one(own);
    lemma_text_joins(kind, seq![own]);
    assert(kind + seq![own] =~= kind.push(own));
    lemma_text_joins(lead, kind.push(own));
    lemma_text_joins(lead + kind.push(own), told);
    assert(line_text(leaf_item(e, prefix).spans) =~= prefix + kind_said(e.kind) + leaf_name(e.name@)
        + description_said(e.kind));
}

/// A row of the flat list shows the kind of its entry, its whole name, its description
/// and where it is kept.
pub proof fn law_a_flat_row_shows_its_entry(e: Entry)
    ensures
        line_text(list_item(e).spans) == kind_said(e.kind) + line_text(name_inks(e.name@))
            + description_said(e.kind) + (if e.global {
            " global"@
        } else {
            " local"@
        }),
{
    lemma_kind_said(e.kind);
    let kind = crate::view_browse::kind_inks(e.kind);
    let own = name_inks(e.name@);
    let told = crate::view_browse::entry_description(e.kind);
    let scope = crate::view_browse::scope_ink(e.global);
    lemma_text_one(scope);
    lemma_text_joins(kind, own);
    lemma_text_joins(kind + own, told);
    lemma_text_joins(kind + own + told, seq![scope]);
    assert((kind + own + told).push(scope) =~= kind + own + told + seq![scope]);
}

/// The rows that are drawn are the rows of the list, one for one: those of the tree, or
/// the entries that the filter leaves.
pub proof fn law_the_list_is_drawn_row_by_row(a: AppView, i: int)
    requires
        0 <= i < crate::app::row_total(a),
    ensures
        list_lines(a).len() == crate::app::row_total(a),
        a.filter.len() == 0 ==> match listed_rows(a)[i] {
            TreeRow::Folder { path, expanded, prefix } => list_lines(a)[i] == folder_item(
                path,
                expanded,
                prefix,
                a.use_nerd_fonts,
            ),
            TreeRow::Leaf { entry_idx, prefix } => entry_idx < a.entries.len() ==> list_lines(a)[i]
                == leaf_item(a.entries[entry_idx as int], prefix),
        },
        a.filter.len() > 0 && 0 <= filtered(a.entries, a.filter)[i] < a.entries.len() ==> list_lines(a)[i]
            == list_item(a.entries[filtered(a.entries, a.filter)[i]]),
{
}

/// A folder is shown by the last part of its path; without icons a slash stands behind it.
pub proof fn law_a_folder_row_shows_its_name(path: Seq<char>, expanded: bool, prefix: Seq<char>)
    ensures
        line_text(folder_item(path, expanded, prefix, false).spans) == prefix + leaf_name(path) + seq!['/'],
        line_text(folder_item(path, expanded, prefix, true).spans) == prefix + seq![
            if expanded {
                '\u{f07c}'
            } else {
                '\u{f07b}'
            },
            ' ',
        ] + leaf_name(path),
{
    reveal_strlit("/");
    assert("/"@ =~= seq!['/']);
    reveal_strlit("\u{f07c} ");
    reveal_strlit("\u{f07b} ");
    assert("\u{f07c} "@ =~= seq!['\u{f07c}', ' ']);
    assert("\u{f07b} "@ =~= seq!['\u{f07b}', ' ']);
    let plain = folder_item(path, expanded, prefix, false).spans;
    lemma_text_two(plain[0], plain[1]);
    assert(plain =~= seq![plain[0], plain[1]]);
    assert(line_text(plain) =~= prefix + leaf_name(path) + seq!['/']);
    let fancy = folder_item(path, expanded, prefix, true).spans;
    lemma_text_three(fancy[0], fancy[1], fancy[2]);
    assert(fancy =~= seq![fancy[0], fancy[1], fancy[2]]);
}

// ─── Details ──────────────────────────────────────────────────────────────────

/// Every step of a chain is listed on a line of its own, in order, numbered from one.
pub proof fn law_every_step_is_listed(steps: Seq<Seq<char>>, n: int, i: int)
    requires
        0 <= i < n <= steps.len(),
    ensures
        step_lines(steps, n).len() == n,
        line_text(step_lines(steps, n)[i].spans) == seq![' ', ' '] + decimal((i + 1) as nat) + seq!['.', ' ']
            + steps[i],
    decreases n,
{
    lemma_step_count(steps, n);
    if i == n - 1 {
        reveal_strlit("  ");
        reveal_strlit(". ");
        assert("  "@ =~= seq![' ', ' ']);
        assert(". "@ =~= seq!['.', ' ']);
        lemma_step_count(steps, n - 1);
        let spans = step_lines(steps, n)[i].spans;
        lemma_text_two(spans[0], spans[1]);
        assert(spans =~= seq![spans[0], spans[1]]);
    } else {
        law_every_step_is_listed(steps, n - 1, i);
    }
}

proof fn lemma_step_count(steps: Seq<Seq<char>>, n: int)
    requires
        0 <= n,
    ensures
        step_lines(steps, n).len() == n,
    decreases n,
{
    if n > 0 {
        lemma_step_count(steps, n - 1);
    }
}

/// Every pair of a section is listed on a line of its own, in order, its name and its
/// value in full.
pub proof fn law_every_pair_is_listed(heading: Seq<char>, rows: Seq<Row>, i: int)
    requires
        0 <= i < rows.len(),
    ensures
        ({
            let lines = detail_section(heading, rows);
            &&& lines.len() == rows.len() + 2
            &&& line_text(lines[1].spans) == heading
            &&& line_text(lines[i + 2].spans) == seq![' ', ' '] + rows[i].0 + seq![':', ' '] + rows[i].1
        }),
{
    lemma_pairs_listed(rows, rows.len() as int, i);
    lemma_text_one((heading, ink(Color::DarkGray)));
    let lines = detail_section(heading, rows);
    let pairs = detail_pairs(rows, rows.len() as int);
    assert(lines[i + 2] == pairs[i]);
}

proof fn lemma_pairs_listed(rows: Seq<Row>, n: int, i: int)
    requires
        0 <= n <= rows.len(),
    ensures
        detail_pairs(rows, n).len() == n,
        0 <= i < n ==> line_text(detail_pairs(rows, n)[i].spans) == seq![' ', ' '] + rows[i].0 + seq![
            ':',
            ' ',
        ] + rows[i].1,
    decreases n,
{
    if n > 0 {
        lemma_pairs_listed(rows, n - 1, i);
        if i == n - 1 {
            reveal_strlit("  ");
            reveal_strlit(": ");
            assert("  "@ =~= seq![' ', ' ']);
            assert(": "@ =~= seq![':', ' ']);
            let head = ("  "@ + rows[i].0 + ": "@, ink(Color::Yellow));
            let value = var_inks(rows[i].1, crate::view::bare());
            crate::view_text::law_what_stands_out_is_what_is_asked_for(rows[i].1, crate::view::bare());
            lemma_text_one(head);
            lemma_text_joins(seq![head], value);
        }
    }
}

// ─── Responses ────────────────────────────────────────────────────────────────

/// Every line of the pane is drawn as it is, in order. The band is under the selected
/// lines where there is a selection, and under the cursor's line where there is none.
pub proof fn law_every_line_is_drawn(p: ResponseView, width: u16, i: int)
    requires
        0 <= i < pane_lines(p).len(),
    ensures
        ({
            let drawn = response_lines(p, width);
            let text = line_text(drawn[i].spans);
            let line = pane_lines(p)[i];
            let on = match p.anchor {
                None => i == p.cursor,
                Some(a) => a <= i <= p.cursor || p.cursor <= i <= a,
            };
            &&& drawn.len() == pane_lines(p).len()
            &&& on == (drawn[i].style.bg is Some)
            &&& line.len() <= text.len()
            &&& text.take(line.len() as int) == line
            &&& forall|j: int| line.len() <= j < text.len() ==> #[trigger] text[j] == ' '
            &&& !on ==> text == line
        }),
{
    let line = pane_lines(p)[i];
    let plain = line_of(crate::view_text::json_inks(line));
    crate::view_text::law_colouring_keeps_the_text(line);
    let drawn = response_line(p, line, i, width);
    if drawn != plain {
        if p.anchor is Some {
            lemma_lit(plain, crate::view::selection_band(), crate::view::Band::Text);
        } else {
            lemma_lit(plain, crate::view::cursor_band(), crate::view::Band::Row(width));
        }
    }
    assert(line.take(line.len() as int) =~= line);
}

proof fn lemma_lit(line: Inked, bg: Color, band: crate::view::Band)
    ensures
        ({
            let lit = crate::view::highlighted(line, bg, band);
            let text = line_text(lit.spans);
            let own = line_text(line.spans);
            &&& lit.style.bg is Some
            &&& own.len() <= text.len()
            &&& text.take(own.len() as int) == own
            &&& forall|j: int| own.len() <= j < text.len() ==> #[trigger] text[j] == ' '
        }),
{
    crate::view::law_highlighting_keeps_the_text(line, bg, band);
    let lit = crate::view::highlighted(line, bg, band);
    let own = line_text(line.spans);
    let pad = crate::view::padding(line.spans, band);
    assert(line_text(lit.spans) == own + repeated(' ', pad));
    assert(line_text(lit.spans).take(own.len() as int) =~= own);
}

/// A body is previewed by its first lines as they are; what is left out is counted.
pub proof fn law_a_preview_shows_the_first_lines(data: Seq<char>, i: int)
    requires
        0 <= i < text_lines(data).len(),
    ensures
        ({
            let all = text_lines(data);
            let shown = previewed(data);
            &&& i < BODY_PREVIEW_LINES ==> shown[i] == all[i]
            &&& all.len() <= BODY_PREVIEW_LINES ==> shown.len() == all.len()
            &&& all.len() == BODY_PREVIEW_LINES + 1 ==> shown.len() == BODY_PREVIEW_LINES + 1
                && shown.last() == "… 1 more line"@
            &&& all.len() > BODY_PREVIEW_LINES + 1 ==> shown.len() == BODY_PREVIEW_LINES + 1
                && shown.last() == "… "@ + decimal((all.len() - BODY_PREVIEW_LINES) as nat)
                + " more lines"@
        }),
{
    reveal_strlit("… ");
    reveal_strlit(" more line");
    reveal_strlit(" more lines");
    reveal_strlit("s");
    reveal_strlit("… 1 more line");
    let all = text_lines(data);
    let hidden = (all.len() - BODY_PREVIEW_LINES) as nat;
    if all.len() == BODY_PREVIEW_LINES + 1 {
        assert(decimal(1) =~= seq!['1']);
        assert(previewed(data).last() =~= "… 1 more line"@);
    } else if all.len() > BODY_PREVIEW_LINES + 1 {
        assert(previewed(data).last() =~= "… "@ + decimal(hidden) + " more lines"@);
    }
}

// ─── Results ──────────────────────────────────────────────────────────────────

/// Every status has a bar of thirty cells on a line of its own, in order, with the status
/// before it and its count behind it; the cells are shared out against the largest count.
pub proof fn law_every_status_has_its_bar(statuses: Seq<StatusCount>, max: nat, n: int, i: int)
    requires
        0 <= i < n <= statuses.len(),
        0 < max,
        statuses[i].count <= max,
    ensures
        ({
            let sc = statuses[i];
            let cells = bar_cells(sc.count as nat, max);
            &&& gauges(statuses, max, n).len() == n + 1
            &&& line_text(gauges(statuses, max, n)[i + 1].spans) == seq![' ', ' ']
                + crate::tester::right_aligned(decimal(sc.status as nat), 3) + seq![' ', ' '] + repeated(
                '█',
                cells,
            ) + repeated('░', (30 - cells) as nat) + seq![' ', ' ', '×'] + decimal(sc.count as nat)
        }),
{
    lemma_gauges(statuses, max, n, i);
    reveal_strlit("  ");
    reveal_strlit("  ×");
    assert("  "@ =~= seq![' ', ' ']);
    assert("  ×"@ =~= seq![' ', ' ', '×']);
    let s = gauge(statuses[i], max).spans;
    lemma_text_two(s[0], s[1]);
    lemma_text_two(s[2], s[3]);
    lemma_text_joins(seq![s[0], s[1]], seq![s[2], s[3]]);
    assert(s =~= seq![s[0], s[1]] + seq![s[2], s[3]]);
    let sc = statuses[i];
    let cells = bar_cells(sc.count as nat, max);
    assert(line_text(s) =~= seq![' ', ' '] + crate::tester::right_aligned(decimal(sc.status as nat), 3)
        + seq![' ', ' '] + repeated('█', cells) + repeated('░', (30 - cells) as nat) + seq![' ', ' ', '×']
        + decimal(sc.count as nat));
}

proof fn lemma_gauges(statuses: Seq<StatusCount>, max: nat, n: int, i: int)
    requires
        0 <= n <= statuses.len(),
    ensures
        gauges(statuses, max, n).len() == n + 1,
        0 <= i < n ==> gauges(statuses, max, n)[i + 1] == gauge(statuses[i], max),
    decreases n,
{
    if n > 0 {
        lemma_gauges(statuses, max, n - 1, i);
    }
}

/// The bars are measured against the largest count: no count is above it and one is it.
pub proof fn law_bars_are_measured_by_the_largest(statuses: Seq<StatusCount>, n: int, i: int)
    requires
        0 <= i < n <= statuses.len(),
    ensures
        statuses[i].count <= most(statuses, n),
        exists|k: int| 0 <= k < n && (#[trigger] statuses[k]).count == most(statuses, n),
    decreases n,
{
    if n == 1 {
        assert(statuses[0].count == most(statuses, 1));
    } else {
        if i < n - 1 {
            law_bars_are_measured_by_the_largest(statuses, n - 1, i);
        } else {
            law_bars_are_measured_by_the_largest(statuses, n - 1, 0);
        }
        let k = choose|k: int|
            0 <= k < n - 1 && (#[trigger] statuses[k]).count == most(statuses, n - 1);
        if statuses[n - 1].count > most(statuses, n - 1) {
            assert(statuses[n - 1].count == most(statuses, n));
        } else {
            assert(statuses[k].count == most(statuses, n));
        }
    }
}

// ─── Forms ────────────────────────────────────────────────────────────────────

/// An input row shows its value behind a prompt: as it is without the caret, and where the
/// row is wide enough for it, with the caret in its place.
pub proof fn law_an_input_shows_its_value(value: Seq<char>, e: EditView, i: int, width: u16)
    requires
        0 <= i <= value.len(),
        e.caret == offset(value, i),
        e.insert,
    ensures
        line_text(input_inks(value, None, width)) == seq![' ', ' ', '>', ' '] + value,
        value.len() < width - INPUT_PREFIX ==> line_text(input_inks(value, Some(e), width)) == seq![
            ' ',
            ' ',
            '>',
            ' ',
        ] + value.take(i) + seq!['│'] + value.skip(i),
{
    reveal_strlit("  > ");
    assert("  > "@ =~= seq![' ', ' ', '>', ' ']);
    let head = seq![("  > "@, ink(Color::DarkGray))];
    lemma_text_one(head[0]);
    law_the_caret_is_drawn_in_its_place(value, i, Color::DarkGray);
    lemma_text_joins(head, caret_inks(value, None, Color::DarkGray));
    if value.len() < width - INPUT_PREFIX {
        law_the_caret_is_drawn_in_its_place(value, i, Color::White);
        assert(value.take(0) =~= Seq::<char>::empty());
        assert(value.subrange(0, value.len() as int) =~= value);
        let shown = caret_inks(value, Some((offset(value, i), true)), Color::White);
        lemma_text_joins(head, shown);
        assert(input_inks(value, Some(e), width) =~= head + shown);
        assert(line_text(head + shown) =~= seq![' ', ' ', '>', ' '] + value.take(i) + seq!['│']
            + value.skip(i));
    }
}

/// The form shows every field in order: its label on one line and its value on the next,
/// with the caret in the one that has the focus and in no other, where the focus is said
/// to be.
pub proof fn law_every_field_is_shown(
    fields: Seq<Row>,
    focused: int,
    edit: EditView,
    width: u16,
    k: int,
    i: int,
)
    requires
        0 <= i < k,
    ensures
        ({
            let d = fields_drawn(fields, focused, edit, width, k);
            &&& d.lines.len() == 1 + 3 * k
            &&& line_text(d.lines[1 + 3 * i].spans) == seq![' ', ' '] + fields[i].0 + (if i < 3 {
                seq![' ', '*']
            } else {
                Seq::empty()
            })
            &&& d.lines[2 + 3 * i].spans == input_inks(
                fields[i].1,
                if i == focused {
                    Some(edit)
                } else {
                    None
                },
                width,
            )
            &&& i == focused ==> d.start == 1 + 3 * i && d.end == 3 + 3 * i
        }),
    decreases k,
{
    lemma_fields_count(fields, focused, edit, width, k - 1);
    lemma_fields_count(fields, focused, edit, width, k);
    if i < k - 1 {
        law_every_field_is_shown(fields, focused, edit, width, k - 1, i);
        let before = fields_drawn(fields, focused, edit, width, k - 1);
        let d = fields_drawn(fields, focused, edit, width, k);
        assert(d.lines[1 + 3 * i] == before.lines[1 + 3 * i]);
        assert(d.lines[2 + 3 * i] == before.lines[2 + 3 * i]);
    } else {
        reveal_strlit("  ");
        reveal_strlit(" *");
        assert("  "@ =~= seq![' ', ' ']);
        assert(" *"@ =~= seq![' ', '*']);
        let d = fields_drawn(fields, focused, edit, width, k);
        let name = (
            "  "@ + fields[i].0,
            crate::view_panes::label_ink(i == focused, Color::Green),
        );
        lemma_text_one(name);
        lemma_text_two(name, (" *"@, ink(Color::Red)));
        assert(line_text(d.lines[1 + 3 * i].spans) =~= seq![' ', ' '] + fields[i].0 + (if i < 3 {
            seq![' ', '*']
        } else {
            Seq::empty()
        }));
    }
}

proof fn lemma_fields_count(fields: Seq<Row>, focused: int, edit: EditView, width: u16, k: int)
    requires
        0 <= k,
    ensures
        fields_drawn(fields, focused, edit, width, k).lines.len() == 1 + 3 * k,
    decreases k,
{
    if k > 0 {
        lemma_fields_count(fields, focused, edit, width, k - 1);
    }
}

/// The variable form shows every variable in order: its name on one line and its value on
/// the next, with the caret in the one that has the focus and in no other.
pub proof fn law_every_variable_is_shown(
    vars: Seq<Row>,
    focused: int,
    edit: EditView,
    width: u16,
    k: int,
    i: int,
)
    requires
        0 <= i < k,
    ensures
        ({
            let d = vars_drawn(vars, focused, edit, width, k);
            &&& d.lines.len() == 1 + 3 * k
            &&& line_text(d.lines[1 + 3 * i].spans) == seq![' ', ' '] + vars[i].0
            &&& d.lines[2 + 3 * i].spans == input_inks(
                vars[i].1,
                if i == focused {
                    Some(edit)
                } else {
                    None
                },
                width,
            )
            &&& i == focused ==> d.start == 1 + 3 * i && d.end == 3 + 3 * i
        }),
    decreases k,
{
    lemma_vars_count(vars, focused, edit, width, k - 1);
    lemma_vars_count(vars, focused, edit, width, k);
    if i < k - 1 {
        law_every_variable_is_shown(vars, focused, edit, width, k - 1, i);
        let before = vars_drawn(vars, focused, edit, width, k - 1);
        let d = vars_drawn(vars, focused, edit, width, k);
        assert(d.lines[1 + 3 * i] == before.lines[1 + 3 * i]);
        assert(d.lines[2 + 3 * i] == before.lines[2 + 3 * i]);
    } else {
        reveal_strlit("  ");
        assert("  "@ =~= seq![' ', ' ']);
        let name = (
            "  "@ + vars[i].0,
            crate::view_panes::label_ink(i == focused, Color::Yellow),
        );
        lemma_text_one(name);
    }
}

proof fn lemma_vars_count(vars: Seq<Row>, focused: int, edit: EditView, width: u16, k: int)
    requires
        0 <= k,
    ensures
        vars_drawn(vars, focused, edit, width, k).lines.len() == 1 + 3 * k,
    decreases k,
{
    if k > 0 {
        lemma_vars_count(vars, focused, edit, width, k - 1);
    }
}

/// A pane of pairs shows every pair in order, behind what stands above them: the name of a
/// pair in its second line and its value in its fourth, with the caret in the one that
/// has the focus and in no other.
pub proof fn law_every_pair_is_shown(
    d: Drawn,
    pairs: Seq<Row>,
    noun: Seq<char>,
    first: Seq<char>,
    focused: int,
    edit: EditView,
    width: u16,
    k: int,
    i: int,
)
    requires
        0 <= i < k,
    ensures
        ({
            let all = pairs_drawn(d, pairs, noun, first, focused, edit, width, k);
            let at = d.lines.len() + 5 * i;
            &&& all.lines.len() == d.lines.len() + 5 * k
            &&& all.lines[at + 1].spans == input_inks(
                pairs[i].0,
                if focused == 2 * i {
                    Some(edit)
                } else {
                    None
                },
                width,
            )
            &&& all.lines[at + 3].spans == input_inks(
                pairs[i].1,
                if focused == 2 * i + 1 {
                    Some(edit)
                } else {
                    None
                },
                width,
            )
            &&& focused == 2 * i ==> all.start == at
            &&& focused == 2 * i + 1 ==> all.start == at + 2
        }),
    decreases k,
{
    lemma_pairs_count(d, pairs, noun, first, focused, edit, width, k - 1);
    lemma_pairs_count(d, pairs, noun, first, focused, edit, width, k);
    if i < k - 1 {
        law_every_pair_is_shown(d, pairs, noun, first, focused, edit, width, k - 1, i);
        let before = pairs_drawn(d, pairs, noun, first, focused, edit, width, k - 1);
        let all = pairs_drawn(d, pairs, noun, first, focused, edit, width, k);
        let at = d.lines.len() + 5 * i;
        assert(all.lines[at + 1] == before.lines[at + 1]);
        assert(all.lines[at + 3] == before.lines[at + 3]);
    }
}

proof fn lemma_pairs_count(
    d: Drawn,
    pairs: Seq<Row>,
    noun: Seq<char>,
    first: Seq<char>,
    focused: int,
    edit: EditView,
    width: u16,
    k: int,
)
    requires
        0 <= k,
    ensures
        pairs_drawn(d, pairs, noun, first, focused, edit, width, k).lines.len() == d.lines.len() + 5 * k,
    decreases k,
{
    if k > 0 {
        lemma_pairs_count(d, pairs, noun, first, focused, edit, width, k - 1);
    }
}

// ─── Colours ──────────────────────────────────────────────────────────────────

/// The colour tells the class of a status: success, redirection, and the two kinds of
/// error are all apart, and each class has one.
pub proof fn law_a_status_is_coloured_by_its_class(a: u16, b: u16)
    requires
        200 <= a < 600,
        200 <= b < 600,
    ensures
        color_of_status(a) == color_of_status(b) <==> a / 100 == b / 100,
        a / 100 == 2 ==> color_of_status(a) == Color::Green,
        a / 100 == 3 ==> color_of_status(a) == Color::Cyan,
        a / 100 == 4 ==> color_of_status(a) == Color::Yellow,
        a / 100 == 5 ==> color_of_status(a) == Color::Red,
{
}

/// A value of JSON is coloured by what it is: strings, the two truth values, nothing,
/// brackets, and the rest, which are numbers.
pub proof fn law_a_value_is_coloured_by_its_kind(text: Seq<char>, number: Seq<char>)
    requires
        number.len() > 0 && ('0' <= number[0] <= '9' || number[0] == '-'),
    ensures
        value_color(seq!['"'] + text) == Color::Green,
        value_color(number) == Color::Cyan,
        value_color("true"@) == Color::Magenta,
        value_color("false"@) == Color::Magenta,
        value_color("null"@) == Color::Red,
{
    reveal_strlit("true");
    reveal_strlit("false");
    reveal_strlit("null");
    reveal_strlit("{");
    reveal_strlit("}");
    reveal_strlit("[");
    reveal_strlit("]");
    reveal_strlit("{}");
    reveal_strlit("[]");
    assert((seq!['"'] + text)[0] == '"');
    assert("true"@[0] == 't' && "false"@[0] == 'f' && "null"@[0] == 'n');
    assert("{"@[0] == '{' && "}"@[0] == '}' && "["@[0] == '[' && "]"@[0] == ']');
    assert("{}"@[0] == '{' && "[]"@[0] == '[');
}

// ─── Wrapping ─────────────────────────────────────────────────────────────────

/// A row that does not fit breaks behind the last white space in it; only where it has
/// none does it break in the middle of a word, and then it is full.
pub proof fn law_rows_break_behind_white_space(chars: Seq<char>, width: int, s: int, j: int)
    requires
        0 <= s,
        0 < width,
        s + width < chars.len(),
        s <= j < s + width,
    ensures
        ({
            let to = next_row(chars, width, s);
            &&& s < to <= s + width
            &&& white(chars[to - 1]) || to == s + width
            &&& white(chars[j]) ==> j < to && white(chars[to - 1])
            &&& wrap_from(chars, width, s) == seq![s] + wrap_from(chars, width, to)
        }),
{
    lemma_break(chars, s, s + width, j);
}

proof fn lemma_break(chars: Seq<char>, s: int, end: int, j: int)
    requires
        0 <= s <= j,
        end <= chars.len(),
    ensures
        match last_break(chars, s, end) {
            Some(to) => s < to <= end && white(chars[to - 1]) && (j < end && white(chars[j]) ==> j < to),
            None => j < end ==> !white(chars[j]),
        },
    decreases end - s,
{
    if end > s && !white(chars[end - 1]) {
        lemma_break(chars, s, end - 1, j);
    }
}

// ─── The printed report ───────────────────────────────────────────────────────

proof fn lemma_report_counts(statuses: Seq<StatusCount>, max: nat, n: int, i: int)
    requires
        0 <= n <= statuses.len(),
    ensures
        report_counts(statuses, max, n).len() == n + 1,
        0 <= i < n ==> report_counts(statuses, max, n)[i + 1] == report_count(statuses[i], max),
    decreases n,
{
    if n > 0 {
        lemma_report_counts(statuses, max, n - 1, i);
    }
}

/// The printed report gives every status a line, in order: the status, its bar, its reason
/// and how often it came. Below those it gives the average, the shortest and the longest
/// time, each by its name, and the graph comes last.
pub proof fn law_the_printed_report(results: TestResults, i: int)
    requires
        0 <= i < results.statuses@.len(),
    ensures
        ({
            let all = report(results);
            let n = results.statuses@.len() as int;
            let sc = results.statuses@[i];
            let cells = bar_cells(sc.count as nat, most(results.statuses@, n));
            &&& line_text(all[i + 1].spans) == seq![' ', ' '] + right_aligned(
                decimal(sc.status as nat),
                3,
            ) + seq![' ', ' '] + repeated('█', cells) + repeated('░', (30 - cells) as nat) + seq![
                ' ',
                ' ',
            ] + reason_or_unknown(reason_phrase(sc.status)) + seq![' ', ' ', '×'] + decimal(
                sc.count as nat,
            )
            &&& line_text(all[n + 3].spans) == "  avg:  "@ + duration_form(results.avg)
            &&& line_text(all[n + 4].spans) == "  min:  "@ + duration_form(results.min)
            &&& line_text(all[n + 5].spans) == "  max:  "@ + duration_form(results.max)
            &&& all.len() == n + 7 + graph_lines(results.timings@).len()
        }),
{
    let all = report(results);
    let n = results.statuses@.len() as int;
    let max = most(results.statuses@, n);
    lemma_report_counts(results.statuses@, max, n, i);
    let sc = results.statuses@[i];
    let cells = bar_cells(sc.count as nat, max);
    assert(all[i + 1] == report_count(sc, max));
    reveal_strlit("  ");
    reveal_strlit("  ×");
    assert("  "@ =~= seq![' ', ' ']);
    assert("  ×"@ =~= seq![' ', ' ', '×']);
    let s = report_count(sc, max).spans;
    lemma_text_two(s[0], s[1]);
    lemma_text_two(s[2], s[3]);
    lemma_text_joins(seq![s[0], s[1]], seq![s[2], s[3]]);
    assert(s =~= seq![s[0], s[1]] + seq![s[2], s[3]]);
    assert(line_text(s) =~= seq![' ', ' '] + right_aligned(decimal(sc.status as nat), 3) + seq![' ', ' ']
        + repeated('█', cells) + repeated('░', (30 - cells) as nat) + seq![' ', ' '] + reason_or_unknown(
        reason_phrase(sc.status),
    ) + seq![' ', ' ', '×'] + decimal(sc.count as nat));
    let times = report_times(results);
    assert(all[n + 3] == times[2] && all[n + 4] == times[3] && all[n + 5] == times[4]);
    lemma_text_two(times[2].spans[0], times[2].spans[1]);
    lemma_text_two(times[3].spans[0], times[3].spans[1]);
    lemma_text_two(times[4].spans[0], times[4].spans[1]);
    assert(times[2].spans =~= seq![times[2].spans[0], times[2].spans[1]]);
    assert(times[3].spans =~= seq![times[3].spans[0], times[3].spans[1]]);
    assert(times[4].spans =~= seq![times[4].spans[0], times[4].spans[1]]);
}

} // verus!
