//! What holds of the panes that are typed in: the request form, the panes behind it,
//! and the forms that ask for variables.
use vstd::prelude::*;
use vstd::string::*;

use crate::app::AppView;
use crate::caret::offset;
use crate::app_keys::{
    digits_only, mode_pasted, one_line, body_step, form_step, is_chain_name, key_handled, pairs_step,
    profile_step, same_list, test_step, vars_step,
};
use crate::edit::{key_applied, landed_on, opened_on, pasted, multiline_key_applied, Applied};
use crate::form::{stepped_row, DraftView};
use crate::keys::{KeyCode, KeyEvent};
use crate::panes::{
    ActionView, BodyPaneView, ImportView, ModeView, PairsView, PendingAction, PickerView, ProfileListView,
    ProfilePaneView, RequestFormView, TestView, VarView,
};
use crate::order::Row;
use crate::text::{decimal, word_number};

verus! {

/// The parts of a draft that the fields of the form do not show.
pub open spec fn same_parts(d: DraftView, e: DraftView) -> bool {
    &&& e.profiles == d.profiles
    &&& e.original_name == d.original_name
    &&& e.headers == d.headers
    &&& e.query == d.query
    &&& e.body == d.body
    &&& e.extract == d.extract
}

/// Two lists of rows alike but for one text: the name of row `i`, or its value.
pub open spec fn differ_in(a: Seq<Row>, b: Seq<Row>, i: int, value: bool) -> bool {
    &&& a.len() == b.len()
    &&& forall|j: int| 0 <= j < a.len() && j != i ==> #[trigger] b[j] == a[j]
    &&& 0 <= i < a.len() ==> if value {
        b[i].0 == a[i].0
    } else {
        b[i].1 == a[i].1
    }
}

// ─── Walking ──────────────────────────────────────────────────────────────────

/// A step goes to the next row, from the last to the first, and a step back undoes it:
/// the walk passes every row and never leaves them.
pub proof fn law_a_walk_goes_round(row: int, total: int)
    requires
        0 <= row < total,
    ensures
        row + 1 < total ==> stepped_row(row, total, true) == row + 1,
        stepped_row(total - 1, total, true) == 0,
        stepped_row(stepped_row(row, total, true), total, false) == row,
        stepped_row(stepped_row(row, total, false), total, true) == row,
        0 <= stepped_row(row, total, true) < total,
        0 <= stepped_row(row, total, false) < total,
{
}

// ─── The request form ─────────────────────────────────────────────────────────

/// Tab and its reverse go from row to row of the form, over the fields and the four rows
/// below them, and change nothing of the request.
pub proof fn law_tab_walks_the_form(a: AppView, p: RequestFormView, key: KeyEvent, now: u64)
    requires
        a.mode == ModeView::NewRequest(p),
        !a.show_help,
        key.code == KeyCode::Tab || key.code == KeyCode::BackTab,
        p.draft.fields.len() + 4 <= usize::MAX,
        0 <= p.draft.focused < p.draft.fields.len() + 4,
    ensures
        ({
            let n = p.draft.fields.len() as int;
            let (b, act) = key_handled(a, key, now);
            &&& act == ActionView::Nothing && same_list(a, b) && b.register == a.register
            &&& b.mode matches ModeView::NewRequest(q) && {
                &&& q.error == p.error && q.draft.fields == p.draft.fields && q.draft.global
                    == p.draft.global && same_parts(p.draft, q.draft)
                &&& key.code == KeyCode::Tab && p.draft.focused < n + 3 ==> q.draft.focused
                    == p.draft.focused + 1
                &&& key.code == KeyCode::Tab && p.draft.focused == n + 3 ==> q.draft.focused == 0
                &&& key.code == KeyCode::BackTab && p.draft.focused > 0 ==> q.draft.focused
                    == p.draft.focused - 1
                &&& key.code == KeyCode::BackTab && p.draft.focused == 0 ==> q.draft.focused == n + 3
            }
        }),
{
    reveal(form_step);
}

/// Enter on a field saves. On the rows below the fields it turns the request's place
/// between the project and the user, or opens the headers, the query or the profiles.
pub proof fn law_enter_in_the_form(a: AppView, p: RequestFormView, now: u64)
    requires
        a.mode == ModeView::NewRequest(p),
        !a.show_help,
        0 <= p.draft.focused,
    ensures
        ({
            let n = p.draft.fields.len() as int;
            let at = p.draft.focused;
            let key = KeyEvent { code: KeyCode::Enter, control: false, alt: false };
            let (b, act) = key_handled(a, key, now);
            &&& same_list(a, b) && b.register == a.register
            &&& (act == ActionView::SaveRequest) == (at < n)
            &&& at >= n ==> act == ActionView::Nothing
            &&& at < n ==> b.mode == a.mode
            &&& at == n ==> b.mode == ModeView::NewRequest(
                RequestFormView { draft: DraftView { global: !p.draft.global, ..p.draft }, ..p },
            )
            &&& at == n + 1 ==> (b.mode matches ModeView::EditPairs(q) && q.draft == p.draft && q.kind
                == crate::form::PairKind::Headers && q.focused == 0 && q.error is None)
            &&& at == n + 2 ==> (b.mode matches ModeView::EditPairs(q) && q.draft == p.draft && q.kind
                == crate::form::PairKind::Query && q.focused == 0 && q.error is None)
            &&& at > n + 2 ==> b.mode == ModeView::ProfileList(
                ProfileListView { draft: p.draft, selected: 0 },
            )
        }),
{
    reveal(form_step);
}

/// With Control, `g` turns the request's place, `e` and `h` open the headers, `q` the
/// query, `b` the body and `p` the profiles, wherever the focus is, and the draft goes
/// along whole.
pub proof fn law_chords_in_the_form(a: AppView, p: RequestFormView, c: char, now: u64)
    requires
        a.mode == ModeView::NewRequest(p),
        !a.show_help,
    ensures
        ({
            let key = KeyEvent { code: KeyCode::Char(c), control: true, alt: false };
            let (b, act) = key_handled(a, key, now);
            &&& act == ActionView::Nothing && same_list(a, b)
            &&& c == 'g' ==> b.mode == ModeView::NewRequest(
                RequestFormView { draft: DraftView { global: !p.draft.global, ..p.draft }, ..p },
            )
            &&& c == 'e' || c == 'h' ==> (b.mode matches ModeView::EditPairs(q) && q.draft == p.draft
                && q.kind == crate::form::PairKind::Headers)
            &&& c == 'q' ==> (b.mode matches ModeView::EditPairs(q) && q.draft == p.draft && q.kind
                == crate::form::PairKind::Query)
            &&& c == 'b' ==> (b.mode matches ModeView::EditBody(q) && q.draft == p.draft && q.focused
                == 0 && q.error is None)
            &&& c == 'p' ==> b.mode == ModeView::ProfileList(
                ProfileListView { draft: p.draft, selected: 0 },
            )
        }),
{
    reveal(form_step);
}

/// What is typed on a field changes that field's value and nothing else of the request.
pub proof fn law_a_field_is_typed_in_alone(a: AppView, p: RequestFormView, key: KeyEvent, now: u64)
    requires
        a.mode == ModeView::NewRequest(p),
        !a.show_help,
        0 <= p.draft.focused < p.draft.fields.len(),
        !key.control,
        key.code != KeyCode::Enter && key.code != KeyCode::Tab && key.code != KeyCode::BackTab,
    ensures
        ({
            let i = p.draft.focused;
            let (text, edit, held, applied) = key_applied(
                p.draft.fields[i].1,
                p.draft.edit,
                a.register,
                key,
                a.keys,
                now,
            );
            let (b, act) = key_handled(a, key, now);
            &&& act == ActionView::Nothing && same_list(a, b) && b.register == held
            &&& applied == Applied::Exit ==> b.mode is Browse
            &&& applied != Applied::Exit ==> (b.mode matches ModeView::NewRequest(q) && q.draft.fields.len()
                == p.draft.fields.len() && q.draft.fields[i] == (p.draft.fields[i].0, text) && (forall|
                j: int,
            |
                0 <= j < p.draft.fields.len() && j != i ==> #[trigger] q.draft.fields[j]
                    == p.draft.fields[j]) && q.draft.global == p.draft.global && same_parts(
                p.draft,
                q.draft,
            ))
            &&& applied == Applied::Yes ==> (b.mode matches ModeView::NewRequest(q) && q.error is None
                && q.draft.focused == i && q.draft.edit == edit)
        }),
{
    reveal(form_step);
    let i = p.draft.focused;
    let r = key_applied(p.draft.fields[i].1, p.draft.edit, a.register, key, a.keys, now);
    lemma_field_step(AppView { mode: ModeView::Browse, ..a }, p, key, now, r);
}

proof fn lemma_field_step(
    a: AppView,
    p: RequestFormView,
    key: KeyEvent,
    now: u64,
    r: (Seq<char>, crate::edit::EditView, Seq<char>, Applied),
)
    requires
        0 <= p.draft.focused < p.draft.fields.len(),
        !key.control,
        key.code != KeyCode::Enter && key.code != KeyCode::Tab && key.code != KeyCode::BackTab,
        r == key_applied(p.draft.fields[p.draft.focused].1, p.draft.edit, a.register, key, a.keys, now),
    ensures
        ({
            let e = DraftView {
                fields: p.draft.fields.update(
                    p.draft.focused,
                    (p.draft.fields[p.draft.focused].0, r.0),
                ),
                edit: r.1,
                ..p.draft
            };
            let (b, act) = form_step(a, p, key, now);
            &&& act == ActionView::Nothing && b == (AppView { mode: b.mode, register: r.2, ..a })
            &&& b.mode == match r.3 {
                Applied::Yes => ModeView::NewRequest(RequestFormView { draft: e, error: None }),
                Applied::Exit => ModeView::Browse,
                Applied::FocusNext => ModeView::NewRequest(
                    RequestFormView { draft: crate::form::focus_stepped(e, true), ..p },
                ),
                Applied::FocusPrev => ModeView::NewRequest(
                    RequestFormView { draft: crate::form::focus_stepped(e, false), ..p },
                ),
                Applied::No => ModeView::NewRequest(RequestFormView { draft: e, ..p }),
            }
        }),
{
    reveal(form_step);
}

// ─── Importing ────────────────────────────────────────────────────────────────

/// Into the import every character is typed at its end, Enter a line break, and
/// Backspace takes the last one away; each clears what was said to be wrong. Esc leaves
/// for the list.
pub proof fn law_typing_an_import(a: AppView, p: ImportView, key: KeyEvent, c: char, now: u64)
    requires
        a.mode == ModeView::ImportCurl(p),
        !a.show_help,
    ensures
        ({
            let (b, act) = key_handled(a, key, now);
            &&& act == ActionView::Nothing && same_list(a, b) && b.register == a.register
            &&& key.code == KeyCode::Esc ==> b.mode is Browse
            &&& key.code == KeyCode::Char(c) && !(key.control && c == 's') ==> b.mode
                == ModeView::ImportCurl(ImportView { buffer: p.buffer + seq![c], error: None })
            &&& key.code == KeyCode::Enter ==> b.mode == ModeView::ImportCurl(
                ImportView { buffer: p.buffer + seq!['\n'], error: None },
            )
            &&& key.code == KeyCode::Backspace ==> (b.mode matches ModeView::ImportCurl(q) && q.error
                is None && if p.buffer.len() > 0 {
                q.buffer + seq![p.buffer.last()] == p.buffer
            } else {
                q.buffer == p.buffer
            })
        }),
{
    assert(p.buffer.push(c) =~= p.buffer + seq![c]);
    assert(p.buffer.push('\n') =~= p.buffer + seq!['\n']);
    if p.buffer.len() > 0 {
        assert(p.buffer.drop_last() + seq![p.buffer.last()] =~= p.buffer);
    }
}

/// Ctrl+s imports: the form opens on the request that the command describes, as a new
/// one; a command that describes none stays to be mended, whole, with what is wrong.
pub proof fn law_an_import_opens_the_form(a: AppView, p: ImportView, now: u64)
    requires
        a.mode == ModeView::ImportCurl(p),
        !a.show_help,
    ensures
        ({
            let key = KeyEvent { code: KeyCode::Char('s'), control: true, alt: false };
            let (b, act) = key_handled(a, key, now);
            &&& act == ActionView::Nothing && same_list(a, b)
            &&& match crate::curl_parse::imported(p.buffer) {
                Ok(c) => b.mode matches ModeView::NewRequest(q) && q.error is None
                    && q.draft.original_name is None && !q.draft.global && q.draft.query == c.query
                    && q.draft.headers == c.headers && q.draft.body == c.body,
                Err(_) => b.mode matches ModeView::ImportCurl(q) && q.buffer == p.buffer && q.error
                    is Some,
            }
        }),
{
}

// ─── Headers and query ────────────────────────────────────────────────────────

/// Ctrl+a adds an empty row below the others and goes to its name; Ctrl+d takes away the
/// row in focus and no other.
pub proof fn law_rows_are_added_and_removed(a: AppView, p: PairsView, now: u64)
    requires
        a.mode == ModeView::EditPairs(p),
        !a.show_help,
        2 * p.rows.len() <= usize::MAX,
    ensures
        ({
            let key = KeyEvent { code: KeyCode::Char('a'), control: true, alt: false };
            let (b, act) = key_handled(a, key, now);
            &&& act == ActionView::Nothing && same_list(a, b)
            &&& b.mode matches ModeView::EditPairs(q) && q.rows == p.rows + seq![
                (Seq::<char>::empty(), Seq::<char>::empty()),
            ] && q.focused == 2 * p.rows.len() && q.draft == p.draft && q.kind == p.kind
        }),
        ({
            let key = KeyEvent { code: KeyCode::Char('d'), control: true, alt: false };
            let (b, act) = key_handled(a, key, now);
            let i = p.focused / 2;
            &&& act == ActionView::Nothing && same_list(a, b)
            &&& b.mode matches ModeView::EditPairs(q) && q.draft == p.draft && q.kind == p.kind && (if 0
                <= i < p.rows.len() {
                q.rows == p.rows.take(i) + p.rows.skip(i + 1)
            } else {
                q.rows == p.rows
            })
        }),
{
    reveal(pairs_step);
    let none = (Seq::<char>::empty(), Seq::<char>::empty());
    assert(p.rows.push(none) =~= p.rows + seq![none]);
    let i = p.focused / 2;
    if 0 <= i < p.rows.len() {
        assert(p.rows.remove(i) =~= p.rows.take(i) + p.rows.skip(i + 1));
    }
}

/// What is typed in a row changes the one text in focus: its name at an even place, its
/// value at an odd one. The draft behind the pane waits for Enter; Esc drops the rows.
pub proof fn law_a_row_is_typed_in_alone(a: AppView, p: PairsView, key: KeyEvent, now: u64)
    requires
        a.mode == ModeView::EditPairs(p),
        !a.show_help,
        0 <= p.focused < 2 * p.rows.len(),
        !key.control,
        key.code != KeyCode::Enter && key.code != KeyCode::Tab && key.code != KeyCode::BackTab,
    ensures
        ({
            let i = p.focused / 2;
            let value = p.focused % 2 == 1;
            let was = if value {
                p.rows[i].1
            } else {
                p.rows[i].0
            };
            let (text, _, held, applied) = key_applied(was, p.edit, a.register, key, a.keys, now);
            let (b, act) = key_handled(a, key, now);
            &&& act == ActionView::Nothing && same_list(a, b) && b.register == held
            &&& applied == Applied::Exit ==> b.mode == ModeView::NewRequest(
                RequestFormView { draft: p.draft, error: None },
            )
            &&& applied != Applied::Exit ==> (b.mode matches ModeView::EditPairs(q) && q.draft == p.draft
                && q.kind == p.kind && differ_in(p.rows, q.rows, i, value) && text == (if value {
                q.rows[i].1
            } else {
                q.rows[i].0
            }))
        }),
{
    let value = p.focused % 2 == 1;
    let was = if value {
        p.rows[p.focused / 2].1
    } else {
        p.rows[p.focused / 2].0
    };
    assert(crate::panes::pair_text(p.rows, p.focused) == Some(was));
    let r = key_applied(was, p.edit, a.register, key, a.keys, now);
    lemma_pairs_step(AppView { mode: ModeView::Browse, ..a }, p, key, now, was, r);
}

proof fn lemma_pairs_step(
    a: AppView,
    p: PairsView,
    key: KeyEvent,
    now: u64,
    was: Seq<char>,
    r: (Seq<char>, crate::edit::EditView, Seq<char>, Applied),
)
    requires
        crate::panes::pair_text(p.rows, p.focused) == Some(was),
        !key.control,
        key.code != KeyCode::Enter && key.code != KeyCode::Tab && key.code != KeyCode::BackTab,
        r == key_applied(was, p.edit, a.register, key, a.keys, now),
    ensures
        ({
            let rows = crate::panes::with_pair_text(p.rows, p.focused, r.0);
            let (b, act) = pairs_step(a, p, key, now);
            &&& act == ActionView::Nothing && b == (AppView { mode: b.mode, register: r.2, ..a })
            &&& r.3 == Applied::Exit ==> b.mode == ModeView::NewRequest(
                RequestFormView { draft: p.draft, error: None },
            )
            &&& r.3 != Applied::Exit ==> (b.mode matches ModeView::EditPairs(q) && q.rows == rows && q.draft
                == p.draft && q.kind == p.kind)
        }),
{
    reveal(pairs_step);
}

// ─── The body ─────────────────────────────────────────────────────────────────

/// What is typed in the body pane goes to the content type while that has the focus, and
/// to the data otherwise; the other stays as it is, and so does the draft.
pub proof fn law_the_body_is_typed_in_alone(a: AppView, p: BodyPaneView, key: KeyEvent, now: u64)
    requires
        a.mode == ModeView::EditBody(p),
        !a.show_help,
        !key.control,
        key.code != KeyCode::Tab && key.code != KeyCode::BackTab,
        p.focused == 0 ==> key.code != KeyCode::Enter,
    ensures
        ({
            let (b, act) = key_handled(a, key, now);
            let r = if p.focused == 0 {
                key_applied(p.content_type, p.edit, a.register, key, a.keys, now)
            } else {
                multiline_key_applied(p.data, p.edit, a.register, key, a.keys, now)
            };
            &&& act == ActionView::Nothing && same_list(a, b) && b.register == r.2
            &&& r.3 == Applied::Exit ==> b.mode == ModeView::NewRequest(
                RequestFormView { draft: p.draft, error: None },
            )
            &&& r.3 != Applied::Exit ==> (b.mode matches ModeView::EditBody(q) && q.draft == p.draft && (
            if p.focused == 0 {
                q.content_type == r.0 && q.data == p.data
            } else {
                q.data == r.0 && q.content_type == p.content_type
            }))
        }),
{
    let r = if p.focused == 0 {
        key_applied(p.content_type, p.edit, a.register, key, a.keys, now)
    } else {
        multiline_key_applied(p.data, p.edit, a.register, key, a.keys, now)
    };
    lemma_body_step(AppView { mode: ModeView::Browse, ..a }, p, key, now, r);
}

proof fn lemma_body_step(
    a: AppView,
    p: BodyPaneView,
    key: KeyEvent,
    now: u64,
    r: (Seq<char>, crate::edit::EditView, Seq<char>, Applied),
)
    requires
        !key.control,
        key.code != KeyCode::Tab && key.code != KeyCode::BackTab,
        p.focused == 0 ==> key.code != KeyCode::Enter,
        p.focused == 0 ==> r == key_applied(p.content_type, p.edit, a.register, key, a.keys, now),
        p.focused != 0 ==> r == multiline_key_applied(p.data, p.edit, a.register, key, a.keys, now),
    ensures
        ({
            let (b, act) = body_step(a, p, key, now);
            &&& act == ActionView::Nothing && b == (AppView { mode: b.mode, register: r.2, ..a })
            &&& r.3 == Applied::Exit ==> b.mode == ModeView::NewRequest(
                RequestFormView { draft: p.draft, error: None },
            )
            &&& r.3 != Applied::Exit ==> (b.mode matches ModeView::EditBody(q) && q.draft == p.draft && (
            if p.focused == 0 {
                q.content_type == r.0 && q.data == p.data
            } else {
                q.data == r.0 && q.content_type == p.content_type
            }))
        }),
{
    reveal(body_step);
}

// ─── Profiles ─────────────────────────────────────────────────────────────────

/// In the list of profiles Enter opens the selected one, with its own name and its own
/// parameters, `d` takes it away and leaves the others in order, and on the row behind
/// the last Enter adds one, as `n` does anywhere. Esc goes back to the form.
pub proof fn law_keys_act_on_the_selected_profile(a: AppView, p: ProfileListView, now: u64)
    requires
        a.mode == ModeView::ProfileList(p),
        !a.show_help,
        0 <= p.selected <= p.draft.profiles.len(),
    ensures
        ({
            let d = p.draft;
            let enter = key_handled(a, crate::list_laws::alone(KeyCode::Enter), now).0.mode;
            let remove = key_handled(a, crate::list_laws::alone(KeyCode::Char('d')), now).0.mode;
            let fresh = key_handled(a, crate::list_laws::alone(KeyCode::Char('n')), now).0.mode;
            let esc = key_handled(a, crate::list_laws::alone(KeyCode::Esc), now).0.mode;
            &&& esc == ModeView::NewRequest(RequestFormView { draft: d, error: None })
            &&& fresh matches ModeView::NewProfile(q) && q.draft == d && q.editing is None && q.name.len()
                == 0 && q.params.len() == 0
            &&& p.selected < d.profiles.len() ==> {
                &&& enter matches ModeView::NewProfile(q) && q.draft == d && q.editing == Some(p.selected)
                    && q.name == d.profiles[p.selected].name && q.params == crate::strmap::listing(
                    d.profiles[p.selected].params,
                )
                &&& remove matches ModeView::ProfileList(q) && q.draft == (DraftView {
                    profiles: d.profiles.take(p.selected) + d.profiles.skip(p.selected + 1),
                    ..d
                }) && 0 <= q.selected <= q.draft.profiles.len()
            }
            &&& p.selected == d.profiles.len() ==> {
                &&& enter == fresh
                &&& remove == a.mode
            }
        }),
{
    let d = p.draft;
    if p.selected < d.profiles.len() {
        assert(d.profiles.remove(p.selected) =~= d.profiles.take(p.selected) + d.profiles.skip(
            p.selected + 1,
        ));
    }
}

/// `j` and Down go one row down the profiles, as far as the row behind the last; `k` and
/// Up one row up. No profile changes.
pub proof fn law_walking_the_profiles(a: AppView, p: ProfileListView, code: KeyCode, now: u64)
    requires
        a.mode == ModeView::ProfileList(p),
        !a.show_help,
        0 <= p.selected <= p.draft.profiles.len(),
        code == KeyCode::Down || code == KeyCode::Up || code == KeyCode::Char('j') || code
            == KeyCode::Char('k'),
    ensures
        ({
            let down = code == KeyCode::Down || code == KeyCode::Char('j');
            let n = p.draft.profiles.len();
            key_handled(a, crate::list_laws::alone(code), now).0.mode == ModeView::ProfileList(
                ProfileListView {
                    selected: if down && p.selected < n {
                        p.selected + 1
                    } else if !down && p.selected > 0 {
                        p.selected - 1
                    } else {
                        p.selected
                    },
                    ..p
                },
            )
        }),
{
}

/// Ctrl+a adds an empty parameter below the others, Ctrl+d takes away the one in focus
/// and no other; the name of the profile stays.
pub proof fn law_parameters_are_added_and_removed(a: AppView, p: ProfilePaneView, now: u64)
    requires
        a.mode == ModeView::NewProfile(p),
        !a.show_help,
        0 <= p.focused,
        1 + 2 * p.params.len() <= usize::MAX,
    ensures
        ({
            let key = KeyEvent { code: KeyCode::Char('a'), control: true, alt: false };
            key_handled(a, key, now).0.mode matches ModeView::NewProfile(q) && q.params == p.params
                + seq![(Seq::<char>::empty(), Seq::<char>::empty())] && q.focused == 1 + 2
                * p.params.len() && q.name == p.name && q.draft == p.draft && q.editing == p.editing
        }),
        ({
            let key = KeyEvent { code: KeyCode::Char('d'), control: true, alt: false };
            let i = (p.focused - 1) / 2;
            key_handled(a, key, now).0.mode matches ModeView::NewProfile(q) && q.name == p.name
                && q.draft == p.draft && q.editing == p.editing && q.params == (if 1 <= p.focused
                <= 2 * p.params.len() {
                p.params.take(i) + p.params.skip(i + 1)
            } else {
                p.params
            })
        }),
{
    reveal(profile_step);
    let none = (Seq::<char>::empty(), Seq::<char>::empty());
    assert(p.params.push(none) =~= p.params + seq![none]);
    let i = (p.focused - 1) / 2;
    if 1 <= p.focused <= 2 * p.params.len() {
        assert(p.params.remove(i) =~= p.params.take(i) + p.params.skip(i + 1));
    }
}

/// What is typed in a profile changes the one text in focus: the name, or one name or
/// value of a parameter. The draft behind the pane stays.
pub proof fn law_a_profile_is_typed_in_alone(a: AppView, p: ProfilePaneView, key: KeyEvent, now: u64)
    requires
        a.mode == ModeView::NewProfile(p),
        !a.show_help,
        0 <= p.focused <= 2 * p.params.len(),
        !key.control,
        key.code != KeyCode::Enter && key.code != KeyCode::Tab && key.code != KeyCode::BackTab,
    ensures
        ({
            let i = (p.focused - 1) / 2;
            let value = p.focused % 2 == 0;
            let was = if p.focused == 0 {
                p.name
            } else if value {
                p.params[i].1
            } else {
                p.params[i].0
            };
            let (text, _, held, applied) = key_applied(was, p.edit, a.register, key, a.keys, now);
            let (b, act) = key_handled(a, key, now);
            &&& act == ActionView::Nothing && same_list(a, b) && b.register == held
            &&& applied == Applied::Exit ==> (b.mode matches ModeView::ProfileList(q) && q.draft
                == p.draft)
            &&& applied != Applied::Exit ==> (b.mode matches ModeView::NewProfile(q) && q.draft
                == p.draft && q.editing == p.editing && (if p.focused == 0 {
                q.name == text && q.params == p.params
            } else {
                q.name == p.name && differ_in(p.params, q.params, i, value) && text == (if value {
                    q.params[i].1
                } else {
                    q.params[i].0
                })
            }))
        }),
{
    let i = (p.focused - 1) / 2;
    let value = p.focused % 2 == 0;
    let was = if p.focused == 0 {
        p.name
    } else if value {
        p.params[i].1
    } else {
        p.params[i].0
    };
    assert(crate::panes::profile_text(p.name, p.params, p.focused) == Some(was));
    let r = key_applied(was, p.edit, a.register, key, a.keys, now);
    lemma_profile_step(AppView { mode: ModeView::Browse, ..a }, p, key, now, was, r);
}

proof fn lemma_profile_step(
    a: AppView,
    p: ProfilePaneView,
    key: KeyEvent,
    now: u64,
    was: Seq<char>,
    r: (Seq<char>, crate::edit::EditView, Seq<char>, Applied),
)
    requires
        crate::panes::profile_text(p.name, p.params, p.focused) == Some(was),
        !key.control,
        key.code != KeyCode::Enter && key.code != KeyCode::Tab && key.code != KeyCode::BackTab,
        r == key_applied(was, p.edit, a.register, key, a.keys, now),
    ensures
        ({
            let q0 = crate::sub_panes::with_profile_text(p, r.0);
            let (b, act) = profile_step(a, p, key, now);
            &&& act == ActionView::Nothing && b == (AppView { mode: b.mode, register: r.2, ..a })
            &&& r.3 == Applied::Exit ==> (b.mode matches ModeView::ProfileList(q) && q.draft == p.draft)
            &&& r.3 != Applied::Exit ==> (b.mode matches ModeView::NewProfile(q) && q.name == q0.name
                && q.params == q0.params && q.draft == p.draft && q.editing == p.editing)
        }),
{
    reveal(profile_step);
}

/// In the picker the first row stands for no profile. `j` and Down go one row down as far
/// as the last profile, `k` and Up one row up, Enter picks and Esc goes back to the list.
pub proof fn law_walking_the_picker(a: AppView, p: PickerView, code: KeyCode, now: u64)
    requires
        a.mode == ModeView::ProfileSelect(p),
        !a.show_help,
        0 <= p.selected <= p.profiles.len(),
    ensures
        ({
            let (b, act) = key_handled(a, crate::list_laws::alone(code), now);
            let down = code == KeyCode::Down || code == KeyCode::Char('j');
            let up = code == KeyCode::Up || code == KeyCode::Char('k');
            &&& same_list(a, b) && b.register == a.register
            &&& act == (if code == KeyCode::Enter {
                ActionView::LoadForProfile(p.entry_name)
            } else {
                ActionView::Nothing
            })
            &&& code == KeyCode::Esc ==> b.mode is Browse
            &&& code != KeyCode::Esc ==> b.mode == ModeView::ProfileSelect(
                PickerView {
                    selected: if down && p.selected < p.profiles.len() {
                        p.selected + 1
                    } else if up && p.selected > 0 {
                        p.selected - 1
                    } else {
                        p.selected
                    },
                    ..p
                },
            )
        }),
{
}

// ─── Variables ────────────────────────────────────────────────────────────────

/// Enter in the variable form goes on with what was begun, for the entry that it was
/// begun for, and hands over every variable with its value as it stands in the form.
pub proof fn law_enter_hands_over_the_variables(a: AppView, p: VarView, k: int, now: u64)
    requires
        a.mode == ModeView::VarInput(p),
        !a.show_help,
        0 <= k < p.vars.len(),
        forall|i: int| k < i < p.vars.len() ==> (#[trigger] p.vars[i]).0 != p.vars[k].0,
    ensures
        ({
            let (b, act) = key_handled(a, crate::list_laws::alone(KeyCode::Enter), now);
            let vars = match act {
                ActionView::RenderCurl(_, m) => m,
                ActionView::RunChain(_, m) => m,
                ActionView::RunRequest(_, m) => m,
                _ => Map::empty(),
            };
            let entry = match act {
                ActionView::RenderCurl(n, _) => Some(n),
                ActionView::RunChain(n, _) => Some(n),
                ActionView::RunRequest(n, _) => Some(n),
                _ => None,
            };
            &&& b.mode == a.mode && same_list(a, b) && b.register == a.register
            &&& entry == Some(p.entry_name)
            &&& act is RenderCurl <==> p.action == PendingAction::Curl
            &&& act is RunChain <==> p.action != PendingAction::Curl && is_chain_name(
                a.entries,
                p.entry_name,
            )
            &&& vars.dom().contains(p.vars[k].0) && vars[p.vars[k].0] == p.vars[k].1
            &&& forall|n: Seq<char>| #[trigger]
                vars.dom().contains(n) ==> exists|i: int|
                    0 <= i < p.vars.len() && (#[trigger] p.vars[i]).0 == n
        }),
{
    reveal(vars_step);
    lemma_collected_at(p.vars, k);
    let m = crate::curl_parse::collected(p.vars);
    assert forall|n: Seq<char>| #[trigger] m.dom().contains(n) implies exists|i: int|
        0 <= i < p.vars.len() && (#[trigger] p.vars[i]).0 == n by {
        crate::curl_parse::lemma_collected_names(p.vars, n);
        let i = choose|i: int| 0 <= i < p.vars.len() && #[trigger] p.vars[i].0 == n;
        assert(p.vars[i].0 == n);
    }
}

pub proof fn lemma_collected_at(rows: Seq<Row>, k: int)
    requires
        0 <= k < rows.len(),
        forall|i: int| k < i < rows.len() ==> (#[trigger] rows[i]).0 != rows[k].0,
    ensures
        crate::curl_parse::collected(rows).dom().contains(rows[k].0),
        crate::curl_parse::collected(rows)[rows[k].0] == rows[k].1,
    decreases rows.len(),
{
    if k < rows.len() - 1 {
        let front = rows.drop_last();
        assert(front[k] == rows[k]);
        assert forall|i: int| k < i < front.len() implies (#[trigger] front[i]).0 != front[k].0 by {
            assert(rows[i].0 != rows[k].0);
        }
        lemma_collected_at(front, k);
        assert(rows[rows.len() - 1].0 != rows[k].0);
    }
}

/// What is typed in the variable form changes the value in focus, and no name and no
/// other value.
pub proof fn law_a_value_is_typed_in_alone(a: AppView, p: VarView, key: KeyEvent, now: u64)
    requires
        a.mode == ModeView::VarInput(p),
        !a.show_help,
        0 <= p.focused < p.vars.len(),
        key.code != KeyCode::Enter && key.code != KeyCode::Tab && key.code != KeyCode::BackTab,
    ensures
        ({
            let i = p.focused;
            let (text, _, held, applied) = key_applied(
                p.vars[i].1,
                p.edit,
                a.register,
                key,
                a.keys,
                now,
            );
            let (b, act) = key_handled(a, key, now);
            &&& act == ActionView::Nothing && same_list(a, b) && b.register == held
            &&& applied == Applied::Exit ==> b.mode is Browse
            &&& applied != Applied::Exit ==> (b.mode matches ModeView::VarInput(q) && differ_in(
                p.vars,
                q.vars,
                i,
                true,
            ) && q.vars[i].1 == text && q.entry_name == p.entry_name && q.action == p.action)
        }),
{
    let r = key_applied(p.vars[p.focused].1, p.edit, a.register, key, a.keys, now);
    lemma_vars_step(AppView { mode: ModeView::Browse, ..a }, p, key, now, r);
}

proof fn lemma_vars_step(
    a: AppView,
    p: VarView,
    key: KeyEvent,
    now: u64,
    r: (Seq<char>, crate::edit::EditView, Seq<char>, Applied),
)
    requires
        0 <= p.focused < p.vars.len(),
        key.code != KeyCode::Enter && key.code != KeyCode::Tab && key.code != KeyCode::BackTab,
        r == key_applied(p.vars[p.focused].1, p.edit, a.register, key, a.keys, now),
    ensures
        ({
            let (b, act) = vars_step(a, p, key, now);
            &&& act == ActionView::Nothing && b == (AppView { mode: b.mode, register: r.2, ..a })
            &&& r.3 == Applied::Exit ==> b.mode is Browse
            &&& r.3 != Applied::Exit ==> (b.mode matches ModeView::VarInput(q) && q.vars == p.vars.update(
                p.focused,
                (p.vars[p.focused].0, r.0),
            ) && q.entry_name == p.entry_name && q.action == p.action)
        }),
{
    reveal(vars_step);
}

/// Enter in the load test form runs the test of its entry, with every value as it stands
/// and as often as the number says; a text that is no number stands for ten times.
pub proof fn law_enter_runs_the_test(a: AppView, p: TestView, n: nat, now: u64)
    requires
        a.mode == ModeView::TestInput(p),
        !a.show_help,
        n <= usize::MAX,
    ensures
        ({
            let (b, act) = key_handled(a, crate::list_laws::alone(KeyCode::Enter), now);
            &&& b.mode == a.mode && same_list(a, b) && b.register == a.register
            &&& act matches ActionView::RunTest(name, vars, times) && {
                &&& name == p.entry_name
                &&& vars == crate::curl_parse::collected(p.vars)
                &&& p.iterations == decimal(n) ==> times == n
                &&& word_number(p.iterations) is None ==> times == 10
            }
        }),
{
    reveal(test_step);
    if p.iterations == decimal(n) {
        crate::text_laws::law_a_number_reads_back(n);
    }
}

/// The number of a load test takes digits and no other character while it is typed; what
/// is typed on a variable changes that variable's value alone.
pub proof fn law_the_test_is_typed_in_alone(a: AppView, p: TestView, key: KeyEvent, now: u64)
    requires
        a.mode == ModeView::TestInput(p),
        !a.show_help,
        0 <= p.focused <= p.vars.len(),
        key.code != KeyCode::Enter && key.code != KeyCode::Tab && key.code != KeyCode::BackTab,
    ensures
        ({
            let i = p.focused;
            let was = if i < p.vars.len() {
                p.vars[i].1
            } else {
                p.iterations
            };
            let (text, _, held, applied) = key_applied(was, p.edit, a.register, key, a.keys, now);
            let (b, act) = key_handled(a, key, now);
            let kept = i == p.vars.len() && p.edit.insert && (key.code matches KeyCode::Char(c) && !('0'
                <= c <= '9'));
            &&& act == ActionView::Nothing && same_list(a, b)
            &&& kept ==> b == a
            &&& !kept && applied == Applied::Exit ==> b.mode is Browse
            &&& !kept && applied != Applied::Exit ==> (b.mode matches ModeView::TestInput(q)
                && q.entry_name == p.entry_name && (if i < p.vars.len() {
                differ_in(p.vars, q.vars, i, true) && q.vars[i].1 == text && q.iterations
                    == p.iterations
            } else {
                q.vars == p.vars && q.iterations == text
            }))
            &&& !kept ==> b.register == held
        }),
{
    let was = if p.focused < p.vars.len() {
        p.vars[p.focused].1
    } else {
        p.iterations
    };
    let r = key_applied(was, p.edit, a.register, key, a.keys, now);
    lemma_test_step(AppView { mode: ModeView::Browse, ..a }, p, key, now, was, r);
}

proof fn lemma_test_step(
    a: AppView,
    p: TestView,
    key: KeyEvent,
    now: u64,
    was: Seq<char>,
    r: (Seq<char>, crate::edit::EditView, Seq<char>, Applied),
)
    requires
        0 <= p.focused <= p.vars.len(),
        key.code != KeyCode::Enter && key.code != KeyCode::Tab && key.code != KeyCode::BackTab,
        was == crate::sub_panes::test_text(p.vars, p.iterations, p.focused),
        r == key_applied(was, p.edit, a.register, key, a.keys, now),
    ensures
        ({
            let (b, act) = test_step(a, p, key, now);
            let kept = p.focused == p.vars.len() && p.edit.insert && (key.code matches KeyCode::Char(c)
                && !('0' <= c <= '9'));
            &&& act == ActionView::Nothing
            &&& kept ==> b == (AppView { mode: ModeView::TestInput(p), ..a })
            &&& !kept ==> b == (AppView { mode: b.mode, register: r.2, ..a })
            &&& !kept && r.3 == Applied::Exit ==> b.mode is Browse
            &&& !kept && r.3 != Applied::Exit ==> (b.mode matches ModeView::TestInput(q) && q.entry_name
                == p.entry_name && (if p.focused < p.vars.len() {
                q.vars == p.vars.update(p.focused, (p.vars[p.focused].0, r.0)) && q.iterations
                    == p.iterations
            } else {
                q.vars == p.vars && q.iterations == r.0
            }))
        }),
{
    reveal(test_step);
}

// ─── Carets and pastes ────────────────────────────────────────────────────────

/// A field that is opened is typed in at its end. One that the focus moves to has its caret
/// at its end too, in the mode that was on: in normal mode on the last character.
pub proof fn law_the_caret_of_a_field_entered(value: Seq<char>)
    requires
        !value.contains('\n'),
    ensures
        opened_on(value).insert && opened_on(value).caret == offset(value, value.len() as int),
        landed_on(value, true).insert && landed_on(value, true).caret == offset(
            value,
            value.len() as int,
        ),
        !landed_on(value, false).insert && landed_on(value, false).caret == offset(
            value,
            if value.len() > 0 {
                value.len() - 1
            } else {
                0
            },
        ),
        opened_on(value).history.len() == 0 && opened_on(value).cmd is None,
        landed_on(value, true).history.len() == 0 && landed_on(value, true).cmd is None,
{
    let n = value.len() as int;
    assert(value.take(n) =~= value);
    crate::caret::lemma_line_start(value, n);
    if crate::caret::line_start(value, n) > 0 {
        assert(value.contains(value[crate::caret::line_start(value, n) - 1]));
    }
}

/// A paste goes into the field in focus, at its caret and on one line, and into no other;
/// the data of a body takes it as it is, and the number of a load test its digits.
pub proof fn law_a_paste_goes_into_the_field_in_focus(m: ModeView, text: Seq<char>)
    ensures
        m matches ModeView::NewRequest(p) ==> (0 <= p.draft.focused < p.draft.fields.len() ==> (
        mode_pasted(m, text) matches ModeView::NewRequest(q) && q.draft.fields.len()
            == p.draft.fields.len() && q.draft.fields[p.draft.focused] == (
            p.draft.fields[p.draft.focused].0,
            pasted(p.draft.fields[p.draft.focused].1, p.draft.edit, one_line(text)).0,
        ) && (forall|j: int|
            0 <= j < p.draft.fields.len() && j != p.draft.focused ==> #[trigger] q.draft.fields[j]
                == p.draft.fields[j]) && same_parts(p.draft, q.draft) && q.draft.global
            == p.draft.global)),
        m matches ModeView::VarInput(p) ==> (0 <= p.focused < p.vars.len() ==> (mode_pasted(
            m,
            text,
        ) matches ModeView::VarInput(q) && differ_in(p.vars, q.vars, p.focused, true)
            && q.vars[p.focused].1 == pasted(p.vars[p.focused].1, p.edit, one_line(text)).0
            && q.entry_name == p.entry_name && q.action == p.action)),
        m matches ModeView::TestInput(p) ==> (p.focused == p.vars.len() ==> (mode_pasted(m, text)
            matches ModeView::TestInput(q) && q.vars == p.vars && q.iterations == pasted(
            p.iterations,
            p.edit,
            digits_only(text),
        ).0)),
        m matches ModeView::TestInput(p) ==> (0 <= p.focused < p.vars.len() ==> (mode_pasted(m, text)
            matches ModeView::TestInput(q) && differ_in(p.vars, q.vars, p.focused, true)
            && q.vars[p.focused].1 == pasted(p.vars[p.focused].1, p.edit, one_line(text)).0
            && q.iterations == p.iterations)),
        m matches ModeView::EditBody(p) ==> (mode_pasted(m, text) matches ModeView::EditBody(q)
            && q.draft == p.draft && (if p.focused == 0 {
            q.content_type == pasted(p.content_type, p.edit, one_line(text)).0 && q.data == p.data
        } else {
            q.data == pasted(p.data, p.edit, text).0 && q.content_type == p.content_type
        })),
        m matches ModeView::EditPairs(p) ==> (0 <= p.focused < 2 * p.rows.len() ==> (mode_pasted(
            m,
            text,
        ) matches ModeView::EditPairs(q) && q.draft == p.draft && differ_in(
            p.rows,
            q.rows,
            p.focused / 2,
            p.focused % 2 == 1,
        ))),
{
}

} // verus!
