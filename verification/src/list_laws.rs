//! What holds of the list of entries and of what its keys ask for.
use vstd::prelude::*;
use vstd::string::*;

use crate::app::{entry_matches, filtered, listed_rows, row_total, AppView};
use crate::app_keys::{digits_only, key_handled, mouse_handled, one_line, paste_handled, same_list, MouseKind};
use crate::config::{MAX_SPLIT_PCT, MIN_SPLIT_PCT};
use crate::keys::{KeyCode, KeyEvent};
use crate::panes::{ActionView, ImportView, ModeView, PendingAction};
use crate::text::{occurs, occurs_at};
use crate::tree::{Entry, EntryKind, TreeRow};
use crate::unicode::lowercase;

verus! {

/// The list is in front, its filter is not being typed, and the keymap is down.
pub open spec fn at_list(a: AppView) -> bool {
    a.mode is Browse && !a.show_help && !a.filter_active
}

/// The filter of the list is being typed.
pub open spec fn at_filter(a: AppView) -> bool {
    a.mode is Browse && !a.show_help && a.filter_active
}

/// A key pressed alone.
pub open spec fn alone(code: KeyCode) -> KeyEvent {
    KeyEvent { code, control: false, alt: false }
}

/// Two states that differ in the selected row at most, and in whether a `g` is pending.
pub open spec fn only_selects(a: AppView, b: AppView) -> bool {
    b == (AppView { selected: b.selected, pending_g: b.pending_g, ..a })
}

/// The row is that of the entry.
pub open spec fn row_is(a: AppView, row: int, idx: int) -> bool {
    if a.filter.len() == 0 {
        0 <= row < listed_rows(a).len() && (
        listed_rows(a)[row] matches TreeRow::Leaf { entry_idx, .. } && entry_idx == idx)
    } else {
        0 <= row < filtered(a.entries, a.filter).len() && filtered(a.entries, a.filter)[row] == idx
    }
}

/// The row is that of the folder.
pub open spec fn row_is_folder(a: AppView, row: int, at: Seq<char>) -> bool {
    a.filter.len() == 0 && 0 <= row < listed_rows(a).len() && (
    listed_rows(a)[row] matches TreeRow::Folder { path, .. } && path == at)
}

// ─── Walking ──────────────────────────────────────────────────────────────────

/// `j` and Down select the row below and stop at the last; `k` and Up the row above and
/// stop at the first; `gg` goes to the first, `G` to the last. Nothing else changes, and
/// nothing is done.
pub proof fn law_walking_the_list(a: AppView, row: int, code: KeyCode, now: u64)
    requires
        at_list(a),
        a.selected == Some(row),
        0 <= row < row_total(a),
        code == KeyCode::Down || code == KeyCode::Up || code == KeyCode::Char('j') || code
            == KeyCode::Char('k') || code == KeyCode::Char('g') || code == KeyCode::Char('G'),
    ensures
        ({
            let (b, act) = key_handled(a, alone(code), now);
            &&& act == ActionView::Nothing && only_selects(a, b)
            &&& b.pending_g == (code == KeyCode::Char('g') && !a.pending_g)
            &&& code == KeyCode::Down || code == KeyCode::Char('j') ==> b.selected == Some(
                if row + 1 < row_total(a) {
                    row + 1
                } else {
                    row
                },
            )
            &&& code == KeyCode::Up || code == KeyCode::Char('k') ==> b.selected == Some(
                if row > 0 {
                    row - 1
                } else {
                    0
                },
            )
            &&& code == KeyCode::Char('g') && !a.pending_g ==> b.selected == a.selected
            &&& code == KeyCode::Char('g') && a.pending_g ==> b.selected == Some(0int)
            &&& code == KeyCode::Char('G') ==> b.selected == Some(row_total(a) - 1)
        }),
{
}

/// A chord does nothing in the list.
pub proof fn law_a_chord_does_nothing_in_the_list(a: AppView, key: KeyEvent, now: u64)
    requires
        at_list(a),
        key.control,
    ensures
        key_handled(a, key, now) == (a, ActionView::Nothing),
{
}

// ─── Entries ──────────────────────────────────────────────────────────────────

/// Enter and `r` run the entry of the selected row, `t` tests it, `y` copies it: that
/// entry and no other, read again first. The list stays as it is.
pub proof fn law_keys_act_on_the_selected_entry(a: AppView, row: int, idx: int, now: u64)
    requires
        at_list(a),
        a.selected == Some(row),
        row_is(a, row, idx),
        0 <= idx < a.entries.len(),
    ensures
        key_handled(a, alone(KeyCode::Enter), now).1 == ActionView::LoadEntry(idx, PendingAction::Run),
        key_handled(a, alone(KeyCode::Char('r')), now).1 == ActionView::LoadEntry(
            idx,
            PendingAction::Run,
        ),
        key_handled(a, alone(KeyCode::Char('t')), now).1 == ActionView::LoadEntry(
            idx,
            PendingAction::Test,
        ),
        key_handled(a, alone(KeyCode::Char('y')), now).1 == ActionView::LoadEntry(
            idx,
            PendingAction::Curl,
        ),
        key_handled(a, alone(KeyCode::Char('R')), now).1 == ActionView::ReloadEntries(
            Some(a.entries[idx].name@),
        ),
        only_selects(a, key_handled(a, alone(KeyCode::Enter), now).0),
        only_selects(a, key_handled(a, alone(KeyCode::Char('r')), now).0),
        only_selects(a, key_handled(a, alone(KeyCode::Char('t')), now).0),
        only_selects(a, key_handled(a, alone(KeyCode::Char('y')), now).0),
        key_handled(a, alone(KeyCode::Enter), now).0.selected == a.selected,
        key_handled(a, alone(KeyCode::Char('r')), now).0.selected == a.selected,
        key_handled(a, alone(KeyCode::Char('t')), now).0.selected == a.selected,
        key_handled(a, alone(KeyCode::Char('y')), now).0.selected == a.selected,
{
}

/// `e` opens the selected request in the form, `c` a copy of it; a chain opens in none.
pub proof fn law_keys_open_the_selected_request(a: AppView, row: int, idx: int, now: u64)
    requires
        at_list(a),
        a.selected == Some(row),
        row_is(a, row, idx),
        0 <= idx < a.entries.len(),
    ensures
        ({
            let e = a.entries[idx];
            let edit = key_handled(a, alone(KeyCode::Char('e')), now);
            let copy = key_handled(a, alone(KeyCode::Char('c')), now);
            &&& e.kind is Request ==> edit.1 == (ActionView::LoadRequest {
                name: e.name@,
                global: e.global,
                clone: false,
            }) && copy.1 == (ActionView::LoadRequest { name: e.name@, global: e.global, clone: true })
            &&& e.kind is Chain ==> edit.1 == ActionView::Nothing && copy.1 == ActionView::Nothing
            &&& edit.0 == (AppView { pending_g: false, ..a })
            &&& copy.0 == (AppView { pending_g: false, ..a })
        }),
{
}

/// `d` asks first; a yes deletes the entry that was selected, from the place it is kept
/// in, and anything but a yes deletes nothing.
pub proof fn law_deleting_asks_first(
    a: AppView,
    row: int,
    idx: int,
    answer: KeyEvent,
    now: u64,
    later: u64,
)
    requires
        at_list(a),
        a.selected == Some(row),
        row_is(a, row, idx),
        0 <= idx < a.entries.len(),
    ensures
        ({
            let e = a.entries[idx];
            let (b, act) = key_handled(a, alone(KeyCode::Char('d')), now);
            let (c, then_act) = key_handled(b, answer, later);
            let yes = answer.code == KeyCode::Enter || answer.code == KeyCode::Char('y');
            let no = answer.code == KeyCode::Esc || answer.code == KeyCode::Char('n');
            &&& act == ActionView::Nothing && same_list(a, b) && same_list(a, c)
            &&& yes ==> then_act == (ActionView::DeleteRequest { name: e.name@, global: e.global })
            &&& !yes ==> then_act == ActionView::Nothing
            &&& yes || no ==> c.mode is Browse
            &&& !yes && !no ==> c.mode == b.mode
        }),
{
}

/// Where the selected row is no entry, the keys that act on an entry do nothing.
pub proof fn law_no_entry_no_action(a: AppView, code: KeyCode, now: u64)
    requires
        at_list(a),
        forall|row: int, idx: int| a.selected == Some(row) ==> !#[trigger] row_is(a, row, idx),
        code == KeyCode::Char('t') || code == KeyCode::Char('y') || code == KeyCode::Char('e') || code
            == KeyCode::Char('c') || code == KeyCode::Char('d'),
    ensures
        key_handled(a, alone(code), now) == ((AppView { pending_g: false, ..a }), ActionView::Nothing),
{
    match a.selected {
        Some(row) => {
            match crate::app::selected_entry(a) {
                Some(idx) => {
                    assert(row_is(a, row, idx));
                },
                None => {},
            }
            let b = AppView { pending_g: false, ..a };
            assert(crate::app::selected_entry(b) == crate::app::selected_entry(a));
        },
        None => {},
    }
}

/// On a folder, Enter, `r` and the space bar open it where it is closed and close it where
/// it is open. No other folder is touched, and nothing is done.
pub proof fn law_a_folder_opens_and_closes(
    a: AppView,
    row: int,
    path: Seq<char>,
    other: Seq<char>,
    code: KeyCode,
    now: u64,
)
    requires
        at_list(a),
        a.selected == Some(row),
        row_is_folder(a, row, path),
        code == KeyCode::Enter || code == KeyCode::Char('r') || code == KeyCode::Char(' '),
    ensures
        ({
            let (b, act) = key_handled(a, alone(code), now);
            &&& act == ActionView::Nothing
            &&& b.collapsed.contains(path) == !a.collapsed.contains(path)
            &&& other != path ==> b.collapsed.contains(other) == a.collapsed.contains(other)
            &&& b == (AppView {
                collapsed: b.collapsed,
                selected: b.selected,
                pending_g: false,
                ..a
            })
            &&& row < row_total(b) || a.collapsed.contains(path) ==> b.selected == a.selected
            &&& row >= row_total(b) > 0 && !a.collapsed.contains(path) ==> (b.selected matches Some(to) && 0 <= to
                < row_total(b))
        }),
{
    let b = AppView { pending_g: false, ..a };
    let c = AppView { collapsed: b.collapsed.insert(path), ..b };
    lemma_folder_row_bounds(listed_rows(c), path, 0);
    assert(listed_rows(b) == listed_rows(a));
    if a.collapsed.contains(path) {
        let d = AppView { collapsed: b.collapsed.remove(path), ..b };
        assert(crate::app::folder_toggled(b, path) == d);
    }
}

proof fn lemma_folder_row_bounds(rows: Seq<TreeRow>, path: Seq<char>, i: int)
    requires
        0 <= i,
    ensures
        0 <= crate::app::folder_row(rows, path, i),
    decreases rows.len() - i,
{
    if i < rows.len() {
        lemma_folder_row_bounds(rows, path, i + 1);
    }
}

/// `n` opens an empty form, `i` an empty import, `?` the keymap and `f` the filter; `q`
/// quits. None of them changes an entry, a folder or the filter's text.
pub proof fn law_keys_open_panes(a: AppView, code: KeyCode, now: u64)
    requires
        at_list(a),
        code == KeyCode::Char('n') || code == KeyCode::Char('i') || code == KeyCode::Char('?') || code
            == KeyCode::Char('f') || code == KeyCode::Char('q'),
    ensures
        ({
            let (b, act) = key_handled(a, alone(code), now);
            &&& act == (if code == KeyCode::Char('q') {
                ActionView::Quit
            } else {
                ActionView::Nothing
            })
            &&& b.entries == a.entries && b.nodes == a.nodes && b.collapsed == a.collapsed && b.filter
                == a.filter && b.split_pct == a.split_pct && b.register == a.register
            &&& b.show_help == (code == KeyCode::Char('?'))
            &&& b.filter_active == (code == KeyCode::Char('f'))
            &&& code != KeyCode::Char('f') ==> b.selected == a.selected
            &&& code == KeyCode::Char('n') ==> (b.mode matches ModeView::NewRequest(p) && p.error is None
                && p.draft.original_name is None && !p.draft.global && p.draft.profiles.len() == 0
                && p.draft.body is None && p.draft.extract is None)
            &&& code == KeyCode::Char('i') ==> b.mode == ModeView::ImportCurl(
                ImportView { buffer: Seq::empty(), error: None },
            )
            &&& code != KeyCode::Char('n') && code != KeyCode::Char('i') ==> b.mode is Browse
        }),
{
}

/// While the keymap is up, any key takes it down and does nothing else.
pub proof fn law_any_key_takes_the_keymap_down(a: AppView, key: KeyEvent, now: u64)
    requires
        a.show_help,
    ensures
        key_handled(a, key, now) == ((AppView { show_help: false, ..a }), ActionView::Nothing),
{
}

// ─── The filter ───────────────────────────────────────────────────────────────

/// While the filter is typed, every character goes into it, at its end, Backspace takes
/// the last one away, Esc drops the filter and Enter keeps it. The list behind it stays,
/// and nothing is done.
pub proof fn law_typing_the_filter_of_the_list(a: AppView, c: char, key: KeyEvent, now: u64)
    requires
        at_filter(a),
    ensures
        ({
            let (b, act) = key_handled(a, key, now);
            &&& act == ActionView::Nothing
            &&& b == (AppView {
                filter: b.filter,
                filter_active: b.filter_active,
                selected: b.selected,
                ..a
            })
            &&& key.code == KeyCode::Char(c) ==> b.filter == a.filter + seq![c] && b.filter_active
            &&& key.code == KeyCode::Backspace && a.filter.len() > 0 ==> b.filter + seq![a.filter.last()]
                == a.filter && b.filter_active
            &&& key.code == KeyCode::Backspace && a.filter.len() == 0 ==> b.filter.len() == 0
                && b.filter_active
            &&& key.code == KeyCode::Esc ==> b.filter.len() == 0 && !b.filter_active
            &&& key.code == KeyCode::Enter ==> b == (AppView { filter_active: false, ..a })
        }),
{
    assert(a.filter.push(c) =~= a.filter + seq![c]);
    if a.filter.len() > 0 {
        assert(a.filter.drop_last() + seq![a.filter.last()] =~= a.filter);
    }
}

// ─── Pasting ──────────────────────────────────────────────────────────────────

/// A pasted text on one line is as long as it was, with a space for each line break and
/// every other character in its place.
pub proof fn law_line_breaks_become_spaces(s: Seq<char>, i: int)
    requires
        0 <= i < s.len(),
    ensures
        one_line(s).len() == s.len(),
        s[i] == '\n' || s[i] == '\r' ==> one_line(s)[i] == ' ',
        s[i] != '\n' && s[i] != '\r' ==> one_line(s)[i] == s[i],
{
}

/// Of a text pasted into a number its digits are kept, in order, and nothing else.
pub proof fn law_a_number_takes_digits(a: Seq<char>, c: char, b: Seq<char>)
    ensures
        '0' <= c <= '9' ==> digits_only(a + seq![c] + b) == digits_only(a) + seq![c] + digits_only(b),
        !('0' <= c <= '9') ==> digits_only(a + seq![c] + b) == digits_only(a) + digits_only(b),
{
    lemma_digits_join(a + seq![c], b);
    assert((a + seq![c]).drop_last() =~= a);
    assert((a + seq![c]).last() == c);
    if '0' <= c <= '9' {
        assert(digits_only(a).push(c) + digits_only(b) =~= digits_only(a) + seq![c] + digits_only(b));
    }
}

proof fn lemma_digits_join(a: Seq<char>, b: Seq<char>)
    ensures
        digits_only(a + b) == digits_only(a) + digits_only(b),
    decreases b.len(),
{
    if b.len() == 0 {
        assert(a + b =~= a);
        assert(digits_only(b) =~= Seq::<char>::empty());
        assert(digits_only(a) + digits_only(b) =~= digits_only(a));
    } else {
        lemma_digits_join(a, b.drop_last());
        assert((a + b).drop_last() =~= a + b.drop_last());
        assert((a + b).last() == b.last());
        if '0' <= b.last() <= '9' {
            assert(digits_only(a) + digits_only(b.drop_last()).push(b.last()) =~= (digits_only(a)
                + digits_only(b.drop_last())).push(b.last()));
        }
    }
}

/// A paste goes to the end of the list's filter while that is typed, and to the end of
/// an import as it is, line breaks and all. It changes no entry and leaves the list alone.
pub proof fn law_a_paste_goes_where_typing_goes(a: AppView, text: Seq<char>)
    ensures
        at_filter(a) ==> paste_handled(a, text).filter == a.filter + one_line(text) && paste_handled(
            a,
            text,
        ).mode == a.mode,
        a.mode matches ModeView::ImportCurl(p) ==> (paste_handled(a, text).mode
            matches ModeView::ImportCurl(q) && q.buffer == p.buffer + text && q.error is None),
        a.mode matches ModeView::Response(p) ==> (paste_handled(a, text).mode
            matches ModeView::Response(q) && q.body == p.body && q.headers == p.headers && q.filter == (
        if p.filter_active {
            p.filter + one_line(text)
        } else {
            p.filter
        })),
        !(a.mode is Browse) ==> same_list(a, paste_handled(a, text)),
        a.mode is Browse && !a.filter_active ==> paste_handled(a, text) == a,
        ({
            let b = paste_handled(a, text);
            b.entries == a.entries && b.nodes == a.nodes && b.collapsed == a.collapsed && b.register
                == a.register && b.pending_g == a.pending_g
        }),
{
}

// ─── The divider ──────────────────────────────────────────────────────────────

/// The divider is grabbed where it stands and follows the pointer: to the nearest
/// percent of the screen, within its bounds. Nothing else moves.
pub proof fn law_the_divider_follows_the_pointer(a: AppView, column: u16)
    ensures
        mouse_handled(a, MouseKind::Down, a.split_x).dragging_split,
        !mouse_handled(a, MouseKind::Up, column).dragging_split,
        ({
            let b = mouse_handled(a, MouseKind::Drag, column);
            &&& b == (AppView { split_pct: b.split_pct, ..a })
            &&& !a.dragging_split || a.term_width == 0 ==> b == a
            &&& a.dragging_split && a.term_width > 0 ==> {
                &&& MIN_SPLIT_PCT <= b.split_pct <= MAX_SPLIT_PCT
                &&& MIN_SPLIT_PCT < b.split_pct ==> 2 * (column * 100 - b.split_pct * a.term_width)
                    >= -(a.term_width as int)
                &&& b.split_pct < MAX_SPLIT_PCT ==> 2 * (column * 100 - b.split_pct * a.term_width)
                    <= a.term_width
            }
        }),
        ({
            let b = mouse_handled(a, MouseKind::Down, column);
            b == (AppView { dragging_split: b.dragging_split, ..a })
        }),
        ({
            let b = mouse_handled(a, MouseKind::Up, column);
            b == (AppView { dragging_split: false, ..a })
        }),
        mouse_handled(a, MouseKind::Other, column) == a,
{
    if a.term_width > 0 {
        let w = a.term_width as int;
        let n = column * 100 + w / 2;
        let pct = n / w;
        assert(pct * w <= n < (pct + 1) * w) by (nonlinear_arith)
            requires
                w > 0,
                pct == n / w,
        ;
        assert((pct + 1) * w == pct * w + w) by (nonlinear_arith);
        let got = mouse_handled(a, MouseKind::Drag, column).split_pct as int;
        if a.dragging_split {
            if got > MIN_SPLIT_PCT {
                assert(got * w <= pct * w) by (nonlinear_arith)
                    requires
                        got <= pct,
                        w > 0,
                ;
            }
            if got < MAX_SPLIT_PCT {
                assert(pct * w <= got * w) by (nonlinear_arith)
                    requires
                        pct <= got,
                        w > 0,
                ;
            }
        }
    }
}

// ─── Results ──────────────────────────────────────────────────────────────────

/// Over the results of a load test, Esc goes back to the list, `c` copies them and `q`
/// quits; no other key does anything, and the list stays as it is.
pub proof fn law_keys_over_the_results(a: AppView, key: KeyEvent, now: u64)
    requires
        a.mode is TestResponse,
        !a.show_help,
    ensures
        ({
            let (b, act) = key_handled(a, key, now);
            &&& same_list(a, b) && b.register == a.register
            &&& act == (if key.code == KeyCode::Char('q') {
                ActionView::Quit
            } else if key.code == KeyCode::Char('c') {
                ActionView::CopyResults
            } else {
                ActionView::Nothing
            })
            &&& key.code == KeyCode::Esc ==> b.mode is Browse
            &&& key.code != KeyCode::Esc ==> b.mode == a.mode
        }),
{
}

// ─── What a filter finds ──────────────────────────────────────────────────────

/// A filter finds an entry by its name, and a request by its method and by its URL too,
/// wherever in them the query stands and whatever the case; a chain by its name alone.
pub proof fn law_what_a_filter_finds(e: Entry, query: Seq<char>, before: Seq<char>, after: Seq<char>)
    ensures
        lowercase(e.name@) == before + query + after ==> entry_matches(e, query),
        (e.kind matches EntryKind::Request { method, .. } && lowercase(method@) == before + query + after)
            ==> entry_matches(e, query),
        (e.kind matches EntryKind::Request { url, .. } && lowercase(url@) == before + query + after)
            ==> entry_matches(e, query),
        entry_matches(e, query) ==> {
            ||| holds_at_some_place(lowercase(e.name@), query)
            ||| e.kind matches EntryKind::Request { method, .. } && holds_at_some_place(
                lowercase(method@),
                query,
            )
            ||| e.kind matches EntryKind::Request { url, .. } && holds_at_some_place(
                lowercase(url@),
                query,
            )
        },
{
    let at = before.len() as int;
    let all = before + query + after;
    assert(all.subrange(at, at + query.len()) =~= query);
    assert(occurs_at(all, query, at));
    assert(occurs(all, query));
    lemma_occurs(lowercase(e.name@), query);
    match e.kind {
        EntryKind::Request { method, url, .. } => {
            lemma_occurs(lowercase(method@), query);
            lemma_occurs(lowercase(url@), query);
        },
        EntryKind::Chain { .. } => {},
    }
}

/// The query stands somewhere in the text.
pub open spec fn holds_at_some_place(s: Seq<char>, query: Seq<char>) -> bool {
    exists|i: int| 0 <= i <= s.len() - query.len() && #[trigger] s.subrange(i, i + query.len()) == query
}

proof fn lemma_occurs(s: Seq<char>, query: Seq<char>)
    ensures
        occurs(s, query) ==> holds_at_some_place(s, query),
{
    if occurs(s, query) {
        let i = choose|i: int| occurs_at(s, query, i);
        assert(s.subrange(i, i + query.len()) == query);
    }
}

} // verus!
