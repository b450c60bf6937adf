//! What holds of the terminal interface as a whole.
use vstd::prelude::*;
use vstd::string::*;

use crate::app::{
    entry_matches, filtered, folder_toggled, list_bottom, list_down, list_top, list_up, matches_upto,
    row_total, AppView,
};
use crate::app_keys::{
    body_step, browse_key, form_step, key_handled, list_filter_key, pairs_step, profile_step, profiles_step,
    test_step, vars_step,
};
use crate::app_outcomes::entry_asks;
use crate::config::Keys;
use crate::form::{body_applied, DraftView};
use crate::keys::{KeyCode, KeyEvent};
use crate::panes::{request_form_key, ActionView, ModeView, PendingAction, RequestFormView};
use crate::request::TextMap;
use crate::response::{
    filter_key, pane_lines, picked_lines, response_key, selected_range, KindView, ResponseActView,
    ResponseView,
};
use crate::text::joined;
use crate::tree::Entry;
use crate::unicode::lowercase;

verus! {

// ─── Actions ──────────────────────────────────────────────────────────────────

/// An action that sends something or makes a command.
pub open spec fn sends(act: ActionView) -> bool {
    act is RunRequest || act is RunChain || act is RunTest || act is RenderCurl
}

/// An action that changes files.
pub open spec fn writes(act: ActionView) -> bool {
    act is SaveRequest || act is DeleteRequest
}

/// Nothing is sent straight from the list: an entry is read again first.
pub proof fn law_the_list_sends_nothing_unread(a: AppView, code: KeyCode)
    ensures
        !sends(browse_key(a, code).1),
        !writes(browse_key(a, code).1),
{
}

/// Files change only on Enter in the request form, and on a confirmed deletion.
pub proof fn law_only_saving_and_deleting_write(a: AppView, key: KeyEvent, now: u64)
    ensures
        key_handled(a, key, now).1 is SaveRequest ==> a.mode is NewRequest && key.code
            == KeyCode::Enter,
        key_handled(a, key, now).1 is DeleteRequest ==> a.mode is ConfirmDelete && (key.code
            == KeyCode::Enter || key.code == KeyCode::Char('y')),
{
    let away = AppView { mode: ModeView::Browse, ..a };
    match a.mode {
        ModeView::VarInput(p) => {
            lemma_vars_write_nothing(away, p, key, now);
        },
        ModeView::TestInput(p) => {
            lemma_test_writes_nothing(away, p, key, now);
        },
        ModeView::NewRequest(p) => {
            lemma_form_saves_on_enter(away, p, key, now);
        },
        ModeView::EditPairs(p) => {
            lemma_panes_do_nothing(away, key, now);
        },
        ModeView::EditBody(p) => {
            lemma_panes_do_nothing(away, key, now);
        },
        ModeView::ProfileList(p) => {
            lemma_panes_do_nothing(away, key, now);
        },
        ModeView::NewProfile(p) => {
            lemma_panes_do_nothing(away, key, now);
        },
        _ => {},
    }
}

proof fn lemma_vars_write_nothing(a: AppView, p: crate::panes::VarView, key: KeyEvent, now: u64)
    ensures
        !writes(vars_step(a, p, key, now).1),
{
    reveal(vars_step);
}

proof fn lemma_test_writes_nothing(a: AppView, p: crate::panes::TestView, key: KeyEvent, now: u64)
    ensures
        !writes(test_step(a, p, key, now).1),
{
    reveal(test_step);
}

proof fn lemma_form_saves_on_enter(a: AppView, p: RequestFormView, key: KeyEvent, now: u64)
    ensures
        !(form_step(a, p, key, now).1 is DeleteRequest),
        form_step(a, p, key, now).1 is SaveRequest ==> key.code == KeyCode::Enter,
{
    reveal(form_step);
}

proof fn lemma_panes_do_nothing(a: AppView, key: KeyEvent, now: u64)
    ensures
        forall|p: crate::panes::PairsView|
            (#[trigger] pairs_step(a, p, key, now)).1 == ActionView::Nothing,
        forall|p: crate::panes::BodyPaneView|
            (#[trigger] body_step(a, p, key, now)).1 == ActionView::Nothing,
        forall|p: crate::panes::ProfileListView|
            (#[trigger] profiles_step(a, p, key)).1 == ActionView::Nothing,
        forall|p: crate::panes::ProfilePaneView|
            (#[trigger] profile_step(a, p, key, now)).1 == ActionView::Nothing,
{
    reveal(pairs_step);
    reveal(body_step);
    reveal(profile_step);
}

/// The panes of a request apply to the form and do nothing else: what they change is
/// written when the form is saved, and lost when it is left.
pub proof fn law_panes_only_change_the_form(a: AppView, key: KeyEvent, now: u64)
    requires
        a.mode is EditPairs || a.mode is EditBody || a.mode is ProfileList || a.mode is NewProfile,
    ensures
        key_handled(a, key, now).1 == ActionView::Nothing,
{
    lemma_panes_do_nothing(AppView { mode: ModeView::Browse, ..a }, key, now);
}

/// A chain is run and nothing else: a load test or a command of it is refused, and
/// nothing is sent.
pub proof fn law_a_chain_is_only_run(a: AppView, e: Entry, purpose: PendingAction, env: TextMap)
    requires
        e.kind is Chain,
    ensures
        purpose == PendingAction::Run ==> entry_asks(a, e, purpose, env) == (
            a,
            ActionView::LoadChain(e.name@),
        ),
        purpose != PendingAction::Run ==> entry_asks(a, e, purpose, env).1 == ActionView::Nothing && (
        entry_asks(a, e, purpose, env).0.mode matches ModeView::Response(p) && p.kind
            == KindView::Error),
{
}

/// Copying a request as a command asks for just what running it asks for: the same
/// profiles, the same variables, or nothing.
pub proof fn law_copying_asks_what_running_asks(a: AppView, e: Entry, env: TextMap)
    requires
        a.mode is Browse,
        e.kind is Request,
    ensures
        ({
            let (ran, run) = entry_asks(a, e, PendingAction::Run, env);
            let (copied, copy) = entry_asks(a, e, PendingAction::Curl, env);
            match ran.mode {
                ModeView::ProfileSelect(p) => copied.mode matches ModeView::ProfileSelect(q)
                    && q.profiles == p.profiles,
                ModeView::VarInput(p) => copied.mode matches ModeView::VarInput(q) && q.vars
                    == p.vars,
                ModeView::Browse => copied.mode is Browse && run == ActionView::RunRequest(
                    e.name@,
                    Map::empty(),
                ) && copy == ActionView::RenderCurl(e.name@, Map::empty()),
                _ => false,
            }
        }),
{
}

// ─── The request form ─────────────────────────────────────────────────────────

/// Leaving the form takes one Esc on the rows below its fields, and on a field one in
/// normal mode; while a field is typed in, Esc only ends the typing.
pub proof fn law_esc_leaves_the_form(
    p: RequestFormView,
    register: Seq<char>,
    keys: Keys,
    now: u64,
)
    requires
        p.draft.focused >= 0,
    ensures
        ({
            let esc = KeyEvent { code: KeyCode::Esc, control: false, alt: false };
            let (mode, _, act) = request_form_key(p, register, esc, keys, now);
            &&& act == ActionView::Nothing
            &&& p.draft.focused >= p.draft.fields.len() ==> mode == ModeView::Browse
            &&& p.draft.focused < p.draft.fields.len() && p.draft.edit.insert ==> (
            mode matches ModeView::NewRequest(q) && !q.draft.edit.insert && q.draft.focused
                == p.draft.focused)
            &&& p.draft.focused < p.draft.fields.len() && !p.draft.edit.insert
                && p.draft.edit.cmd is None ==> mode == ModeView::Browse
        }),
{
}

/// Emptying the body takes it off the request, with its content type; and a body is
/// kept to the letter.
pub proof fn law_an_empty_body_is_none_and_any_other_is_kept(
    d: DraftView,
    content_type: Seq<char>,
    data: Seq<char>,
)
    ensures
        body_applied(d, content_type, Seq::empty()) == Ok::<DraftView, Seq<char>>(
            DraftView { body: None, ..d },
        ),
        data.len() > 0 ==> match body_applied(d, content_type, data) {
            Ok(e) => e.body matches Some(b) && b.data == data && e.query == d.query && e.fields
                == d.fields,
            Err(_) => crate::text::trimmed(content_type).len() == 0,
        },
{
}

// ─── Responses ────────────────────────────────────────────────────────────────

/// `c` copies what the pane shows, filtered or not.
pub proof fn law_c_copies_what_is_shown(p: ResponseView, was_g: bool, height: u16)
    ensures
        response_key(p, KeyCode::Char('c'), was_g, height).2 == ResponseActView::CopyAll(
            joined(pane_lines(p), "\n"@),
        ),
{
}

/// `y` copies the selected lines, or the one with the cursor, and changes no line.
pub proof fn law_y_copies_the_selection(p: ResponseView, was_g: bool, height: u16)
    requires
        0 <= p.cursor < pane_lines(p).len(),
        p.anchor matches Some(n) ==> 0 <= n < pane_lines(p).len(),
    ensures
        ({
            let (from, to) = selected_range(p.cursor, p.anchor);
            let picked = pane_lines(p).subrange(from, to + 1);
            let (q, _, act) = response_key(p, KeyCode::Char('y'), was_g, height);
            &&& act == ResponseActView::CopyLines(joined(picked, "\n"@), to + 1 - from)
            &&& pane_lines(q) == pane_lines(p)
        }),
{
    let (from, to) = selected_range(p.cursor, p.anchor);
    assert(picked_lines(p)->0 =~= pane_lines(p).subrange(from, to + 1));
}

/// Esc drops a selection first, and leaves the pane once there is none.
pub proof fn law_esc_drops_a_selection_first(p: ResponseView, was_g: bool, height: u16)
    ensures
        ({
            let (q, _, act) = response_key(p, KeyCode::Esc, was_g, height);
            if p.anchor is Some {
                act == ResponseActView::Stay && q.anchor is None
            } else {
                act == ResponseActView::Leave
            }
        }),
{
}

/// Whatever changes which lines are shown puts the cursor back on the first of them.
pub proof fn law_a_changed_filter_starts_at_the_top(p: ResponseView, code: KeyCode)
    ensures
        ({
            let q = filter_key(p, code);
            q.filter != p.filter ==> q.cursor == 0 && q.scroll == 0 && q.anchor is None
        }),
{
}

// ─── The list ─────────────────────────────────────────────────────────────────

/// The selection is a row of the list, or the list has no row.
pub open spec fn on_a_row(a: AppView) -> bool {
    match a.selected {
        Some(i) => 0 <= i < row_total(a),
        None => row_total(a) == 0,
    }
}

/// Walking the list keeps the selection on a row.
pub proof fn law_walking_keeps_the_selection_on_a_row(a: AppView)
    requires
        on_a_row(a),
    ensures
        on_a_row(list_down(a)),
        on_a_row(list_up(a)),
        on_a_row(list_top(a)),
        on_a_row(list_bottom(a)),
{
}

/// A key to the filter puts the selection on the first row that is left, or nowhere
/// where none is.
pub proof fn law_filtering_selects_the_first_row(a: AppView, code: KeyCode)
    requires
        code != KeyCode::Enter,
    ensures
        ({
            let b = list_filter_key(a, code);
            b.filter != a.filter ==> on_a_row(b) && (b.selected matches Some(i) ==> i == 0)
        }),
{
}

/// Opening or closing a folder twice leaves the folders as they were.
pub proof fn law_toggling_twice_changes_no_folder(a: AppView, path: Seq<char>)
    ensures
        folder_toggled(folder_toggled(a, path), path).collapsed == a.collapsed,
{
    let once = folder_toggled(a, path);
    if a.collapsed.contains(path) {
        assert(a.collapsed.remove(path).insert(path) =~= a.collapsed);
    } else {
        assert(a.collapsed.insert(path).remove(path) =~= a.collapsed);
    }
}

proof fn lemma_matches_upto(entries: Seq<Entry>, query: Seq<char>, n: int)
    requires
        0 <= n <= entries.len(),
    ensures
        ({
            let left = matches_upto(entries, query, n);
            &&& forall|k: int|
                0 <= k < left.len() ==> 0 <= #[trigger] left[k] < n && entry_matches(
                    entries[left[k]],
                    query,
                )
            &&& forall|j: int, k: int| 0 <= j < k < left.len() ==> left[j] < left[k]
            &&& forall|i: int|
                0 <= i < n && entry_matches(#[trigger] entries[i], query) ==> left.contains(i)
        }),
    decreases n,
{
    if n > 0 {
        lemma_matches_upto(entries, query, n - 1);
        let before = matches_upto(entries, query, n - 1);
        let left = matches_upto(entries, query, n);
        assert forall|i: int|
            0 <= i < n && entry_matches(#[trigger] entries[i], query) implies left.contains(i) by {
            if i < n - 1 {
                let k = choose|k: int| 0 <= k < before.len() && before[k] == i;
                assert(left[k] == i);
            } else {
                assert(left[left.len() - 1] == i);
            }
        }
    }
}

/// A filter lists exactly the entries that match it, in their order.
pub proof fn law_a_filter_lists_exactly_what_matches(entries: Seq<Entry>, filter: Seq<char>)
    requires
        filter.len() > 0,
    ensures
        ({
            let left = filtered(entries, filter);
            &&& forall|i: int|
                #[trigger] left.contains(i) <==> 0 <= i < entries.len() && entry_matches(
                    entries[i],
                    lowercase(filter),
                )
            &&& forall|j: int, k: int| 0 <= j < k < left.len() ==> left[j] < left[k]
        }),
{
    lemma_matches_upto(entries, lowercase(filter), entries.len() as int);
    let left = filtered(entries, filter);
    assert forall|i: int| #[trigger]
        left.contains(i) <==> 0 <= i < entries.len() && entry_matches(
            entries[i],
            lowercase(filter),
        ) by {
        if left.contains(i) {
            let k = choose|k: int| 0 <= k < left.len() && left[k] == i;
            assert(0 <= left[k] < entries.len());
        }
        if 0 <= i < entries.len() && entry_matches(entries[i], lowercase(filter)) {
            assert(left.contains(i));
        }
    }
}

} // verus!
