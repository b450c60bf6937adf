//! Keys in the panes that the request form opens, and in those that collect what a
//! run needs.
use vstd::prelude::*;
use vstd::string::*;

use crate::config::Keys;
use crate::curl_parse::{collect_pairs, collected};
use crate::edit::{
    apply, apply_multiline, key_applied, landed_on, multiline_key_applied, opened_on, Applied, Edit, EditView,
};
use crate::form::{
    apply_body, body_applied, make_profile, placed, profile_of, rows_applied, step_row, stepped_row,
    upsert_profile, DraftView,
};
use crate::keys::{KeyCode, KeyEvent};
use crate::order::{rows_of, Row};
use crate::panes::{
    is_chord, caret_for, caret_on, count_fields, countable, pair_field, pair_text, profile_field, profile_form,
    profile_text, profiles_form, request_form, with_pair_text, Action, ActionView, BodyPane, BodyPaneView,
    Mode, ModeView, PairsPane, PairsView, PendingAction, PickerView, ProfileListPane, ProfileListView,
    ProfilePane, ProfilePaneView, ProfilePicker, TestPane, TestView, VarPane, VarView,
};
use crate::request::profile_views;
use crate::strmap::{listing, StrMap};
use crate::text::{parse_word, word_number};

verus! {

// ─── Headers and query ────────────────────────────────────────────────────────

/// One step of the walk over the fields of some rows; there is none over no rows.
pub open spec fn pairs_stepped(p: PairsView, forward: bool) -> PairsView {
    let total = countable(2 * p.rows.len() as int);
    if total == 0 {
        p
    } else {
        let to = stepped_row(p.focused, total, forward);
        PairsView { focused: to, edit: caret_on(pair_text(p.rows, to), p.edit.insert), ..p }
    }
}

/// The pane with a row more, its name in focus.
pub open spec fn pair_added(p: PairsView) -> PairsView {
    PairsView {
        rows: p.rows.push((Seq::empty(), Seq::empty())),
        focused: countable(2 * p.rows.len() as int),
        edit: opened_on(Seq::empty()),
        error: None,
        ..p
    }
}

/// The pane without the row in focus.
pub open spec fn pair_removed(p: PairsView) -> PairsView {
    let i = p.focused / 2;
    if 0 <= i < p.rows.len() {
        let rows = p.rows.remove(i);
        let total = countable(2 * rows.len() as int);
        let last = if total > 0 {
            total - 1
        } else {
            0
        };
        let focused = if p.focused < last {
            p.focused
        } else {
            last
        };
        PairsView {
            rows,
            focused,
            edit: caret_on(pair_text(rows, focused), p.edit.insert),
            error: None,
            ..p
        }
    } else {
        p
    }
}

/// One key in the pane on the headers or the query: the mode and the register.
pub open spec fn pairs_key(
    p: PairsView,
    register: Seq<char>,
    key: KeyEvent,
    keys: Keys,
    now: u64,
) -> (ModeView, Seq<char>) {
    if key.code == KeyCode::Tab || key.code == KeyCode::BackTab {
        (ModeView::EditPairs(pairs_stepped(p, key.code == KeyCode::Tab)), register)
    } else if key.control && key.code == KeyCode::Char('a') {
        (ModeView::EditPairs(pair_added(p)), register)
    } else if key.control && key.code == KeyCode::Char('d') {
        (ModeView::EditPairs(pair_removed(p)), register)
    } else if key.code == KeyCode::Enter {
        (
            match rows_applied(p.draft, p.rows, p.kind) {
                Ok(d) => request_form(d),
                Err(t) => ModeView::EditPairs(PairsView { error: Some(t), ..p }),
            },
            register,
        )
    } else {
        match pair_text(p.rows, p.focused) {
            None => (
                if key.code == KeyCode::Esc {
                    request_form(p.draft)
                } else {
                    ModeView::EditPairs(p)
                },
                register,
            ),
            Some(value) => {
                let (text, edit, held, applied) = key_applied(
                    value,
                    p.edit,
                    register,
                    key,
                    keys,
                    now,
                );
                let q = PairsView { rows: with_pair_text(p.rows, p.focused, text), edit, ..p };
                (
                    match applied {
                        Applied::Yes => ModeView::EditPairs(PairsView { error: None, ..q }),
                        Applied::Exit => request_form(p.draft),
                        Applied::FocusNext => ModeView::EditPairs(pairs_stepped(q, true)),
                        Applied::FocusPrev => ModeView::EditPairs(pairs_stepped(q, false)),
                        Applied::No => ModeView::EditPairs(q),
                    },
                    held,
                )
            },
        }
    }
}

fn set_pair_field(pairs: &mut Vec<(String, String)>, focused: usize, text: String)
    ensures
        rows_of(final(pairs)@) == with_pair_text(rows_of(old(pairs)@), focused as int, text@),
{
    let i: usize = focused / 2;
    let ghost before = rows_of(pairs@);
    if i < pairs.len() {
        if focused % 2 == 1 {
            let name = pairs[i].0.clone();
            pairs.set(i, (name, text));
        } else {
            let value = pairs[i].1.clone();
            pairs.set(i, (text, value));
        }
        proof {
            assert(rows_of(pairs@) =~= with_pair_text(before, focused as int, text@));
        }
    }
}

/// One step of the walk over the fields of a pane.
pub fn step_pairs(pane: &mut PairsPane, forward: bool)
    ensures
        final(pane)@ == pairs_stepped(old(pane)@, forward),
{
    let total: usize = count_fields(pane.pairs.len(), 0);
    if total == 0 {
        return;
    }
    let insert = pane.edit.insert;
    pane.focused = step_row(pane.focused, total, forward);
    let edit = caret_for(pair_field(&pane.pairs, pane.focused), insert);
    pane.edit = edit;
}

fn add_pair(pane: &mut PairsPane)
    ensures
        final(pane)@ == pair_added(old(pane)@),
{
    let ghost before = rows_of(pane.pairs@);
    pane.focused = count_fields(pane.pairs.len(), 0);
    pane.pairs.push((String::new(), String::new()));
    pane.edit = Edit::default();
    pane.error = None;
    proof {
        assert(rows_of(pane.pairs@) =~= before.push(
            (Seq::<char>::empty(), Seq::<char>::empty()),
        ));
    }
}

fn remove_pair(pane: &mut PairsPane)
    ensures
        final(pane)@ == pair_removed(old(pane)@),
{
    let i: usize = pane.focused / 2;
    if i < pane.pairs.len() {
        let ghost before = rows_of(pane.pairs@);
        pane.pairs.remove(i);
        proof {
            assert(rows_of(pane.pairs@) =~= before.remove(i as int));
        }
        let total: usize = count_fields(pane.pairs.len(), 0);
        let last: usize = if total > 0 {
            total - 1
        } else {
            0
        };
        if pane.focused >= last {
            pane.focused = last;
        }
        let insert = pane.edit.insert;
        let edit = caret_for(pair_field(&pane.pairs, pane.focused), insert);
        pane.edit = edit;
        pane.error = None;
    }
}

/// One key in the pane on the headers or the query. Edits land in the draft only
/// when Enter succeeds; Esc drops them.
pub fn handle_key_edit_pairs(
    pane: PairsPane,
    key: KeyEvent,
    keys: Keys,
    register: &mut String,
    now: u64,
) -> (r: Mode)
    ensures
        (r@, final(register)@) == pairs_key(pane@, old(register)@, key, keys, now),
{
    let mut pane = pane;
    match key.code {
        KeyCode::Tab => {
            step_pairs(&mut pane, true);
            return Mode::EditPairs(pane);
        },
        KeyCode::BackTab => {
            step_pairs(&mut pane, false);
            return Mode::EditPairs(pane);
        },
        _ => {},
    }
    if is_chord(key, 'a') {
        add_pair(&mut pane);
        return Mode::EditPairs(pane);
    }
    if is_chord(key, 'd') {
        remove_pair(&mut pane);
        return Mode::EditPairs(pane);
    }
    match key.code {
        KeyCode::Enter => {
            match pane.kind.apply(&mut pane.draft, &pane.pairs) {
                Ok(_) => {
                    return Mode::request_form(pane.draft);
                },
                Err(message) => {
                    pane.error = Some(message);
                    return Mode::EditPairs(pane);
                },
            }
        },
        _ => {},
    }
    let held: Option<String> = match pair_field(&pane.pairs, pane.focused) {
        Some(s) => Some(s.clone()),
        None => None,
    };
    match held {
        None => match key.code {
            KeyCode::Esc => Mode::request_form(pane.draft),
            _ => Mode::EditPairs(pane),
        },
        Some(value) => {
            let mut value = value;
            let applied = apply(&mut value, &mut pane.edit, key, keys, register, now);
            set_pair_field(&mut pane.pairs, pane.focused, value);
            match applied {
                Applied::Yes => {
                    pane.error = None;
                    Mode::EditPairs(pane)
                },
                Applied::Exit => Mode::request_form(pane.draft),
                Applied::FocusNext => {
                    step_pairs(&mut pane, true);
                    Mode::EditPairs(pane)
                },
                Applied::FocusPrev => {
                    step_pairs(&mut pane, false);
                    Mode::EditPairs(pane)
                },
                Applied::No => Mode::EditPairs(pane),
            }
        },
    }
}

// ─── The body ─────────────────────────────────────────────────────────────────

/// The text of a row of the body pane.
pub open spec fn body_text(p: BodyPaneView, focused: int) -> Seq<char> {
    if focused == 0 {
        p.content_type
    } else {
        p.data
    }
}

/// From one row of the body pane to the other.
pub open spec fn body_stepped(p: BodyPaneView, forward: bool) -> BodyPaneView {
    let to = stepped_row(p.focused, 2, forward);
    BodyPaneView { focused: to, edit: landed_on(body_text(p, to), p.edit.insert), ..p }
}

/// One key in the body pane: the mode and the register. Ctrl+s applies; Enter steps
/// down from the content type and types a newline in the data.
pub open spec fn body_key(
    p: BodyPaneView,
    register: Seq<char>,
    key: KeyEvent,
    keys: Keys,
    now: u64,
) -> (ModeView, Seq<char>) {
    if key.code == KeyCode::Tab || key.code == KeyCode::BackTab {
        (ModeView::EditBody(body_stepped(p, key.code == KeyCode::Tab)), register)
    } else if key.control && key.code == KeyCode::Char('s') {
        (
            match body_applied(p.draft, p.content_type, p.data) {
                Ok(d) => request_form(d),
                Err(t) => ModeView::EditBody(BodyPaneView { error: Some(t), ..p }),
            },
            register,
        )
    } else if key.code == KeyCode::Enter && p.focused == 0 {
        (ModeView::EditBody(body_stepped(p, true)), register)
    } else {
        let (text, edit, held, applied) = if p.focused == 0 {
            key_applied(p.content_type, p.edit, register, key, keys, now)
        } else {
            multiline_key_applied(p.data, p.edit, register, key, keys, now)
        };
        let q = if p.focused == 0 {
            BodyPaneView { content_type: text, edit, ..p }
        } else {
            BodyPaneView { data: text, edit, ..p }
        };
        (
            match applied {
                Applied::Yes => ModeView::EditBody(BodyPaneView { error: None, ..q }),
                Applied::Exit => request_form(p.draft),
                Applied::FocusNext => ModeView::EditBody(body_stepped(q, true)),
                Applied::FocusPrev => ModeView::EditBody(body_stepped(q, false)),
                Applied::No => ModeView::EditBody(q),
            },
            held,
        )
    }
}

/// From one row of the body pane to the other.
pub fn step_body(pane: &mut BodyPane, forward: bool)
    ensures
        final(pane)@ == body_stepped(old(pane)@, forward),
{
    pane.focused = step_row(pane.focused, 2, forward);
    let insert = pane.edit.insert;
    pane.edit =
    if pane.focused == 0 {
        Edit::landing(pane.content_type.as_str(), insert)
    } else {
        Edit::landing(pane.data.as_str(), insert)
    };
}

/// One key in the body pane.
pub fn handle_key_edit_body(
    pane: BodyPane,
    key: KeyEvent,
    keys: Keys,
    register: &mut String,
    now: u64,
) -> (r: Mode)
    ensures
        (r@, final(register)@) == body_key(pane@, old(register)@, key, keys, now),
{
    let mut pane = pane;
    match key.code {
        KeyCode::Tab => {
            step_body(&mut pane, true);
            return Mode::EditBody(pane);
        },
        KeyCode::BackTab => {
            step_body(&mut pane, false);
            return Mode::EditBody(pane);
        },
        KeyCode::Enter => {
            if pane.focused == 0 {
                step_body(&mut pane, true);
                return Mode::EditBody(pane);
            }
        },
        _ => {},
    }
    if is_chord(key, 's') {
        match apply_body(&mut pane.draft, pane.content_type.as_str(), pane.data.as_str()) {
            Ok(_) => {
                return Mode::request_form(pane.draft);
            },
            Err(message) => {
                pane.error = Some(message);
                return Mode::EditBody(pane);
            },
        }
    }
    let applied = if pane.focused == 0 {
        apply(&mut pane.content_type, &mut pane.edit, key, keys, register, now)
    } else {
        apply_multiline(&mut pane.data, &mut pane.edit, key, keys, register, now)
    };
    match applied {
        Applied::Yes => {
            pane.error = None;
            Mode::EditBody(pane)
        },
        Applied::Exit => Mode::request_form(pane.draft),
        Applied::FocusNext => {
            step_body(&mut pane, true);
            Mode::EditBody(pane)
        },
        Applied::FocusPrev => {
            step_body(&mut pane, false);
            Mode::EditBody(pane)
        },
        Applied::No => Mode::EditBody(pane),
    }
}

// ─── The profile list ─────────────────────────────────────────────────────────

/// One key in the profile list. The row behind the last profile adds one.
pub open spec fn profiles_key(p: ProfileListView, code: KeyCode) -> ModeView {
    let d = p.draft;
    let n = d.profiles.len() as int;
    let down = ModeView::ProfileList(
        ProfileListView {
            selected: if p.selected < n {
                p.selected + 1
            } else {
                p.selected
            },
            ..p
        },
    );
    let up = ModeView::ProfileList(
        ProfileListView {
            selected: if p.selected > 0 {
                p.selected - 1
            } else {
                0
            },
            ..p
        },
    );
    let add = profile_form(d, None, Seq::empty(), Seq::empty());
    match code {
        KeyCode::Esc => request_form(d),
        KeyCode::Down => down,
        KeyCode::Up => up,
        KeyCode::Enter => if p.selected < n {
            profile_form(
                d,
                Some(p.selected),
                d.profiles[p.selected].name,
                listing(d.profiles[p.selected].params),
            )
        } else {
            add
        },
        KeyCode::Char(c) => if c == 'j' {
            down
        } else if c == 'k' {
            up
        } else if c == 'n' {
            add
        } else if c == 'd' && p.selected < n {
            profiles_form(
                DraftView { profiles: d.profiles.remove(p.selected), ..d },
                if p.selected < n - 1 {
                    p.selected
                } else {
                    n - 1
                },
            )
        } else {
            ModeView::ProfileList(p)
        },
        _ => ModeView::ProfileList(p),
    }
}

fn open_selected_profile(pane: ProfileListPane) -> (r: Mode)
    ensures
        r@ == profiles_key(pane@, KeyCode::Enter),
{
    let i: usize = pane.selected;
    if i < pane.draft.profiles.len() {
        let name = pane.draft.profiles[i].name.clone();
        let params = pane.draft.profiles[i].params.to_pairs();
        Mode::new_profile(pane.draft, Some(i), name, params)
    } else {
        let none: Vec<(String, String)> = Vec::new();
        proof {
            assert(rows_of(none@) =~= Seq::empty());
        }
        Mode::new_profile(pane.draft, None, String::new(), none)
    }
}

/// One key in the profile list.
pub fn handle_key_profile_list(pane: ProfileListPane, code: KeyCode) -> (r: Mode)
    ensures
        r@ == profiles_key(pane@, code),
{
    let mut pane = pane;
    let n: usize = pane.draft.profiles.len();
    let mut step: Option<bool> = None;
    match code {
        KeyCode::Esc => {
            return Mode::request_form(pane.draft);
        },
        KeyCode::Enter => {
            return open_selected_profile(pane);
        },
        KeyCode::Down => {
            step = Some(true);
        },
        KeyCode::Up => {
            step = Some(false);
        },
        KeyCode::Char(c) => {
            if c == 'j' {
                step = Some(true);
            } else if c == 'k' {
                step = Some(false);
            } else if c == 'n' {
                let none: Vec<(String, String)> = Vec::new();
                proof {
                    assert(rows_of(none@) =~= Seq::empty());
                }
                return Mode::new_profile(pane.draft, None, String::new(), none);
            } else if c == 'd' && pane.selected < n {
                let ghost before = profile_views(pane.draft.profiles@);
                let i: usize = pane.selected;
                pane.draft.profiles.remove(i);
                proof {
                    assert(profile_views(pane.draft.profiles@) =~= before.remove(i as int));
                }
                if pane.selected >= n - 1 {
                    pane.selected = n - 1;
                }
            }
        },
        _ => {},
    }
    match step {
        Some(down) => {
            if down {
                if pane.selected < n {
                    pane.selected = pane.selected + 1;
                }
            } else if pane.selected > 0 {
                pane.selected = pane.selected - 1;
            }
        },
        None => {},
    }
    Mode::ProfileList(pane)
}

// ─── One profile ──────────────────────────────────────────────────────────────

/// One step of the walk over a profile's fields: the name, then the parameters.
pub open spec fn profile_stepped(p: ProfilePaneView, forward: bool) -> ProfilePaneView {
    let to = stepped_row(p.focused, countable(1 + 2 * p.params.len() as int), forward);
    ProfilePaneView {
        focused: to,
        edit: caret_on(profile_text(p.name, p.params, to), p.edit.insert),
        ..p
    }
}

/// The pane with a parameter more, its name in focus.
pub open spec fn param_added(p: ProfilePaneView) -> ProfilePaneView {
    ProfilePaneView {
        params: p.params.push((Seq::empty(), Seq::empty())),
        focused: countable(1 + 2 * p.params.len() as int),
        edit: opened_on(Seq::empty()),
        ..p
    }
}

/// The pane without the parameter in focus; the name cannot be removed.
pub open spec fn param_removed(p: ProfilePaneView) -> ProfilePaneView {
    let i = (p.focused - 1) / 2;
    if p.focused >= 1 && i < p.params.len() {
        let params = p.params.remove(i);
        let last = countable(2 * params.len() as int);
        let focused = if p.focused < last {
            p.focused
        } else {
            last
        };
        ProfilePaneView {
            params,
            focused,
            edit: caret_on(profile_text(p.name, params, focused), p.edit.insert),
            error: None,
            ..p
        }
    } else {
        p
    }
}

/// The profile saved into the draft, or what is wrong with it.
pub open spec fn profile_saved(p: ProfilePaneView) -> ModeView {
    match profile_of(p.name, p.params) {
        Err(t) => ModeView::NewProfile(ProfilePaneView { error: Some(t), ..p }),
        Ok(profile) => match placed(p.draft.profiles, profile, p.editing) {
            Err(t) => ModeView::NewProfile(ProfilePaneView { error: Some(t), ..p }),
            Ok((profiles, at)) => profiles_form(DraftView { profiles, ..p.draft }, at),
        },
    }
}

/// The pane with a field's text replaced.
pub open spec fn with_profile_text(p: ProfilePaneView, text: Seq<char>) -> ProfilePaneView {
    if p.focused == 0 {
        ProfilePaneView { name: text, ..p }
    } else {
        ProfilePaneView { params: with_pair_text(p.params, p.focused - 1, text), ..p }
    }
}

/// One key in the pane on a profile: the mode and the register.
pub open spec fn profile_key(
    p: ProfilePaneView,
    register: Seq<char>,
    key: KeyEvent,
    keys: Keys,
    now: u64,
) -> (ModeView, Seq<char>) {
    if key.code == KeyCode::Tab || key.code == KeyCode::BackTab {
        (ModeView::NewProfile(profile_stepped(p, key.code == KeyCode::Tab)), register)
    } else if key.control && key.code == KeyCode::Char('a') {
        (ModeView::NewProfile(param_added(p)), register)
    } else if key.control && key.code == KeyCode::Char('d') {
        (ModeView::NewProfile(param_removed(p)), register)
    } else if key.code == KeyCode::Enter {
        (profile_saved(p), register)
    } else {
        match profile_text(p.name, p.params, p.focused) {
            None => (ModeView::NewProfile(p), register),
            Some(value) => {
                let (text, edit, held, applied) = key_applied(
                    value,
                    p.edit,
                    register,
                    key,
                    keys,
                    now,
                );
                let q = ProfilePaneView { edit, ..with_profile_text(p, text) };
                (
                    match applied {
                        Applied::Yes => ModeView::NewProfile(ProfilePaneView { error: None, ..q }),
                        Applied::Exit => profiles_form(
                            p.draft,
                            match p.editing {
                                Some(i) => i,
                                None => p.draft.profiles.len() as int,
                            },
                        ),
                        Applied::FocusNext => ModeView::NewProfile(profile_stepped(q, true)),
                        Applied::FocusPrev => ModeView::NewProfile(profile_stepped(q, false)),
                        Applied::No => ModeView::NewProfile(q),
                    },
                    held,
                )
            },
        }
    }
}

/// One step of the walk over a profile's fields.
pub fn step_profile(pane: &mut ProfilePane, forward: bool)
    ensures
        final(pane)@ == profile_stepped(old(pane)@, forward),
{
    let total: usize = count_fields(pane.params.len(), 1);
    let insert = pane.edit.insert;
    pane.focused = step_row(pane.focused, total, forward);
    let edit = caret_for(profile_field(&pane.name, &pane.params, pane.focused), insert);
    pane.edit = edit;
}

fn add_param(pane: &mut ProfilePane)
    ensures
        final(pane)@ == param_added(old(pane)@),
{
    let ghost before = rows_of(pane.params@);
    pane.focused = count_fields(pane.params.len(), 1);
    pane.params.push((String::new(), String::new()));
    pane.edit = Edit::default();
    proof {
        assert(rows_of(pane.params@) =~= before.push(
            (Seq::<char>::empty(), Seq::<char>::empty()),
        ));
    }
}

fn remove_param(pane: &mut ProfilePane)
    ensures
        final(pane)@ == param_removed(old(pane)@),
{
    if pane.focused == 0 {
        return;
    }
    let i: usize = (pane.focused - 1) / 2;
    if i < pane.params.len() {
        let ghost before = rows_of(pane.params@);
        pane.params.remove(i);
        proof {
            assert(rows_of(pane.params@) =~= before.remove(i as int));
        }
        let last: usize = count_fields(pane.params.len(), 0);
        if pane.focused >= last {
            pane.focused = last;
        }
        let insert = pane.edit.insert;
        let edit = caret_for(profile_field(&pane.name, &pane.params, pane.focused), insert);
        pane.edit = edit;
        pane.error = None;
    }
}

/// Saves the profile of the pane into the draft, or says what is wrong with it.
pub fn save_new_profile(pane: ProfilePane) -> (r: Mode)
    ensures
        r@ == profile_saved(pane@),
{
    let mut pane = pane;
    match make_profile(pane.name.as_str(), &pane.params) {
        Err(message) => {
            pane.error = Some(message);
            Mode::NewProfile(pane)
        },
        Ok(profile) => {
            match upsert_profile(&mut pane.draft.profiles, profile, pane.editing) {
                Ok(selected) => Mode::ProfileList(
                    ProfileListPane { draft: pane.draft, selected },
                ),
                Err(message) => {
                    pane.error = Some(message);
                    Mode::NewProfile(pane)
                },
            }
        },
    }
}

/// One key in the pane on a profile.
pub fn handle_key_new_profile(
    pane: ProfilePane,
    key: KeyEvent,
    keys: Keys,
    register: &mut String,
    now: u64,
) -> (r: Mode)
    ensures
        (r@, final(register)@) == profile_key(pane@, old(register)@, key, keys, now),
{
    let mut pane = pane;
    match key.code {
        KeyCode::Tab => {
            step_profile(&mut pane, true);
            return Mode::NewProfile(pane);
        },
        KeyCode::BackTab => {
            step_profile(&mut pane, false);
            return Mode::NewProfile(pane);
        },
        KeyCode::Enter => {
            return save_new_profile(pane);
        },
        _ => {},
    }
    if is_chord(key, 'a') {
        add_param(&mut pane);
        return Mode::NewProfile(pane);
    }
    if is_chord(key, 'd') {
        remove_param(&mut pane);
        return Mode::NewProfile(pane);
    }
    let held: Option<String> = match profile_field(&pane.name, &pane.params, pane.focused) {
        Some(s) => Some(s.clone()),
        None => None,
    };
    match held {
        None => Mode::NewProfile(pane),
        Some(value) => {
            let mut value = value;
            let applied = apply(&mut value, &mut pane.edit, key, keys, register, now);
            if pane.focused == 0 {
                pane.name = value;
            } else {
                set_pair_field(&mut pane.params, pane.focused - 1, value);
            }
            match applied {
                Applied::Yes => {
                    pane.error = None;
                    Mode::NewProfile(pane)
                },
                Applied::Exit => {
                    let selected: usize = match pane.editing {
                        Some(i) => i,
                        None => pane.draft.profiles.len(),
                    };
                    Mode::ProfileList(ProfileListPane { draft: pane.draft, selected })
                },
                Applied::FocusNext => {
                    step_profile(&mut pane, true);
                    Mode::NewProfile(pane)
                },
                Applied::FocusPrev => {
                    step_profile(&mut pane, false);
                    Mode::NewProfile(pane)
                },
                Applied::No => Mode::NewProfile(pane),
            }
        },
    }
}

// ─── Picking a profile ────────────────────────────────────────────────────────

/// One key in the profile picker.
pub open spec fn picker_key(p: PickerView, code: KeyCode) -> (ModeView, ActionView) {
    let down = ModeView::ProfileSelect(
        PickerView {
            selected: if p.selected < p.profiles.len() {
                p.selected + 1
            } else {
                p.profiles.len() as int
            },
            ..p
        },
    );
    let up = ModeView::ProfileSelect(
        PickerView {
            selected: if p.selected > 0 {
                p.selected - 1
            } else {
                0
            },
            ..p
        },
    );
    let nothing = ActionView::Nothing;
    match code {
        KeyCode::Esc => (ModeView::Browse, nothing),
        KeyCode::Down => (down, nothing),
        KeyCode::Up => (up, nothing),
        KeyCode::Enter => (
            ModeView::ProfileSelect(p),
            ActionView::LoadForProfile(p.entry_name),
        ),
        KeyCode::Char(c) => if c == 'j' {
            (down, nothing)
        } else if c == 'k' {
            (up, nothing)
        } else {
            (ModeView::ProfileSelect(p), nothing)
        },
        _ => (ModeView::ProfileSelect(p), nothing),
    }
}

/// One key in the profile picker.
pub fn handle_key_profile_select(pane: ProfilePicker, code: KeyCode) -> (r: (Mode, Action))
    ensures
        (r.0@, r.1@) == picker_key(pane@, code),
{
    let mut pane = pane;
    let mut step: Option<bool> = None;
    match code {
        KeyCode::Esc => {
            return (Mode::Browse, Action::Nothing);
        },
        KeyCode::Enter => {
            let name = pane.entry_name.clone();
            return (Mode::ProfileSelect(pane), Action::LoadForProfile(name));
        },
        KeyCode::Down => {
            step = Some(true);
        },
        KeyCode::Up => {
            step = Some(false);
        },
        KeyCode::Char(c) => {
            if c == 'j' {
                step = Some(true);
            } else if c == 'k' {
                step = Some(false);
            }
        },
        _ => {},
    }
    match step {
        Some(down) => {
            if down {
                pane.selected =
                if pane.selected < pane.profiles.len() {
                    pane.selected + 1
                } else {
                    pane.profiles.len()
                };
            } else if pane.selected > 0 {
                pane.selected = pane.selected - 1;
            }
        },
        None => {},
    }
    (Mode::ProfileSelect(pane), Action::Nothing)
}

// ─── Variables ────────────────────────────────────────────────────────────────

/// The value of a row, or none.
pub open spec fn value_text(vars: Seq<Row>, i: int) -> Option<Seq<char>> {
    if 0 <= i < vars.len() {
        Some(vars[i].1)
    } else {
        None
    }
}

/// One step of the walk over the variables; there is none over none.
pub open spec fn vars_stepped(p: VarView, forward: bool) -> VarView {
    if p.vars.len() == 0 {
        p
    } else {
        let to = stepped_row(p.focused, p.vars.len() as int, forward);
        VarView { focused: to, edit: landed_on(p.vars[to].1, p.edit.insert), ..p }
    }
}

/// What the variables are for, now that they are given.
pub open spec fn vars_given(
    name: Seq<char>,
    vars: Map<Seq<char>, Seq<char>>,
    action: PendingAction,
    is_chain: bool,
) -> ActionView {
    if action == PendingAction::Curl {
        ActionView::RenderCurl(name, vars)
    } else if is_chain {
        ActionView::RunChain(name, vars)
    } else {
        ActionView::RunRequest(name, vars)
    }
}

/// What the variables are for, now that they are given.
pub fn start_action(name: String, vars: StrMap, action: PendingAction, is_chain: bool) -> (r: Action)
    ensures
        r@ == vars_given(name@, vars@, action, is_chain),
{
    if action == PendingAction::Curl {
        Action::RenderCurl(name, vars)
    } else if is_chain {
        Action::RunChain(name, vars)
    } else {
        Action::RunRequest(name, vars)
    }
}

/// One key in the variable form: the mode, the register, and what is to be run.
/// `is_chain` says whether the entry is a chain.
pub open spec fn vars_key(
    p: VarView,
    is_chain: bool,
    register: Seq<char>,
    key: KeyEvent,
    keys: Keys,
    now: u64,
) -> (ModeView, Seq<char>, ActionView) {
    let nothing = ActionView::Nothing;
    if key.code == KeyCode::Enter {
        (
            ModeView::VarInput(p),
            register,
            vars_given(p.entry_name, collected(p.vars), p.action, is_chain),
        )
    } else if key.code == KeyCode::Tab || key.code == KeyCode::BackTab {
        (ModeView::VarInput(vars_stepped(p, key.code == KeyCode::Tab)), register, nothing)
    } else {
        match value_text(p.vars, p.focused) {
            None => (ModeView::VarInput(p), register, nothing),
            Some(value) => {
                let (text, edit, held, applied) = key_applied(
                    value,
                    p.edit,
                    register,
                    key,
                    keys,
                    now,
                );
                let q = VarView {
                    vars: p.vars.update(p.focused, (p.vars[p.focused].0, text)),
                    edit,
                    ..p
                };
                (
                    match applied {
                        Applied::Exit => ModeView::Browse,
                        Applied::FocusNext => ModeView::VarInput(vars_stepped(q, true)),
                        Applied::FocusPrev => ModeView::VarInput(vars_stepped(q, false)),
                        _ => ModeView::VarInput(q),
                    },
                    held,
                    nothing,
                )
            },
        }
    }
}

/// One step of the walk over the variables.
pub fn step_vars(pane: &mut VarPane, forward: bool)
    ensures
        final(pane)@ == vars_stepped(old(pane)@, forward),
{
    if pane.vars.len() == 0 {
        return;
    }
    pane.focused = step_row(pane.focused, pane.vars.len(), forward);
    let insert = pane.edit.insert;
    pane.edit = Edit::landing(pane.vars[pane.focused].1.as_str(), insert);
}

fn set_value(vars: &mut Vec<(String, String)>, i: usize, text: String)
    requires
        i < old(vars).len(),
    ensures
        rows_of(final(vars)@) == rows_of(old(vars)@).update(
            i as int,
            (rows_of(old(vars)@)[i as int].0, text@),
        ),
{
    let ghost before = rows_of(vars@);
    let name = vars[i].0.clone();
    vars.set(i, (name, text));
    proof {
        assert(rows_of(vars@) =~= before.update(i as int, (before[i as int].0, text@)));
    }
}

/// One key in the variable form.
pub fn handle_key_var_input(
    pane: VarPane,
    is_chain: bool,
    key: KeyEvent,
    keys: Keys,
    register: &mut String,
    now: u64,
) -> (r: (Mode, Action))
    ensures
        (r.0@, final(register)@, r.1@) == vars_key(
            pane@,
            is_chain,
            old(register)@,
            key,
            keys,
            now,
        ),
{
    let mut pane = pane;
    match key.code {
        KeyCode::Enter => {
            let vars = collect_pairs(&pane.vars);
            let action = start_action(pane.entry_name.clone(), vars, pane.action, is_chain);
            return (Mode::VarInput(pane), action);
        },
        KeyCode::Tab => {
            step_vars(&mut pane, true);
            return (Mode::VarInput(pane), Action::Nothing);
        },
        KeyCode::BackTab => {
            step_vars(&mut pane, false);
            return (Mode::VarInput(pane), Action::Nothing);
        },
        _ => {},
    }
    let i: usize = pane.focused;
    if i >= pane.vars.len() {
        return (Mode::VarInput(pane), Action::Nothing);
    }
    let mut value = pane.vars[i].1.clone();
    let applied = apply(&mut value, &mut pane.edit, key, keys, register, now);
    set_value(&mut pane.vars, i, value);
    match applied {
        Applied::Exit => (Mode::Browse, Action::Nothing),
        Applied::FocusNext => {
            step_vars(&mut pane, true);
            (Mode::VarInput(pane), Action::Nothing)
        },
        Applied::FocusPrev => {
            step_vars(&mut pane, false);
            (Mode::VarInput(pane), Action::Nothing)
        },
        _ => (Mode::VarInput(pane), Action::Nothing),
    }
}

// ─── Load tests ───────────────────────────────────────────────────────────────

/// The text of a field of the load test form: the variables, then the number.
pub open spec fn test_text(vars: Seq<Row>, iterations: Seq<char>, focused: int) -> Seq<char> {
    if 0 <= focused < vars.len() {
        vars[focused].1
    } else {
        iterations
    }
}

/// One step of the walk over the load test form.
pub open spec fn test_stepped(p: TestView, forward: bool) -> TestView {
    let to = stepped_row(p.focused, countable(p.vars.len() as int + 1), forward);
    TestView {
        focused: to,
        edit: landed_on(test_text(p.vars, p.iterations, to), p.edit.insert),
        ..p
    }
}

/// How many requests to send: what the field says, or ten where it says nothing.
pub open spec fn iterations_of(text: Seq<char>) -> int {
    match word_number(text) {
        Some(n) => n as int,
        None => 10,
    }
}

/// A character that the number field does not take while typing.
pub open spec fn refused_digit(edit: EditView, code: KeyCode) -> bool {
    match code {
        KeyCode::Char(c) => edit.insert && !('0' <= c <= '9'),
        _ => false,
    }
}

/// One key in the load test form: the mode, the register, and the test to run. The
/// number takes digits alone while it is typed.
pub open spec fn test_key(
    p: TestView,
    register: Seq<char>,
    key: KeyEvent,
    keys: Keys,
    now: u64,
) -> (ModeView, Seq<char>, ActionView) {
    let nothing = ActionView::Nothing;
    if key.code == KeyCode::Enter {
        (
            ModeView::TestInput(p),
            register,
            ActionView::RunTest(p.entry_name, collected(p.vars), iterations_of(p.iterations)),
        )
    } else if key.code == KeyCode::Tab || key.code == KeyCode::BackTab {
        (ModeView::TestInput(test_stepped(p, key.code == KeyCode::Tab)), register, nothing)
    } else if p.focused >= p.vars.len() && refused_digit(p.edit, key.code) {
        (ModeView::TestInput(p), register, nothing)
    } else {
        let (text, edit, held, applied) = key_applied(
            test_text(p.vars, p.iterations, p.focused),
            p.edit,
            register,
            key,
            keys,
            now,
        );
        let q = if p.focused < p.vars.len() {
            TestView {
                vars: p.vars.update(p.focused, (p.vars[p.focused].0, text)),
                edit,
                ..p
            }
        } else {
            TestView { iterations: text, edit, ..p }
        };
        (
            match applied {
                Applied::Exit => ModeView::Browse,
                Applied::FocusNext => ModeView::TestInput(test_stepped(q, true)),
                Applied::FocusPrev => ModeView::TestInput(test_stepped(q, false)),
                _ => ModeView::TestInput(q),
            },
            held,
            nothing,
        )
    }
}

/// The field of the load test form that a focus index points at.
pub fn test_field<'a>(vars: &'a Vec<(String, String)>, iterations: &'a String, focused: usize) -> (r:
    &'a String)
    ensures
        r@ == test_text(rows_of(vars@), iterations@, focused as int),
{
    if focused < vars.len() {
        &vars[focused].1
    } else {
        iterations
    }
}

/// One step of the walk over the load test form.
pub fn step_test(pane: &mut TestPane, forward: bool)
    ensures
        final(pane)@ == test_stepped(old(pane)@, forward),
{
    let total: usize = pane.vars.len().saturating_add(1);
    pane.focused = step_row(pane.focused, total, forward);
    let insert = pane.edit.insert;
    let edit = Edit::landing(
        test_field(&pane.vars, &pane.iterations, pane.focused).as_str(),
        insert,
    );
    pane.edit = edit;
}

/// One key in the load test form.
pub fn handle_key_test_input(
    pane: TestPane,
    key: KeyEvent,
    keys: Keys,
    register: &mut String,
    now: u64,
) -> (r: (Mode, Action))
    ensures
        (r.0@, final(register)@, r.1@) == test_key(pane@, old(register)@, key, keys, now),
{
    let mut pane = pane;
    match key.code {
        KeyCode::Enter => {
            let vars = collect_pairs(&pane.vars);
            let n: usize = match parse_word(pane.iterations.as_str()) {
                Some(n) => n,
                None => 10,
            };
            let action = Action::RunTest(pane.entry_name.clone(), vars, n);
            return (Mode::TestInput(pane), action);
        },
        KeyCode::Tab => {
            step_test(&mut pane, true);
            return (Mode::TestInput(pane), Action::Nothing);
        },
        KeyCode::BackTab => {
            step_test(&mut pane, false);
            return (Mode::TestInput(pane), Action::Nothing);
        },
        _ => {},
    }
    let i: usize = pane.focused;
    let on_number = i >= pane.vars.len();
    let refused = match key.code {
        KeyCode::Char(c) => pane.edit.insert && !('0' <= c && c <= '9'),
        _ => false,
    };
    if on_number && refused {
        return (Mode::TestInput(pane), Action::Nothing);
    }
    let mut value = test_field(&pane.vars, &pane.iterations, i).clone();
    let applied = apply(&mut value, &mut pane.edit, key, keys, register, now);
    if on_number {
        pane.iterations = value;
    } else {
        set_value(&mut pane.vars, i, value);
    }
    match applied {
        Applied::Exit => (Mode::Browse, Action::Nothing),
        Applied::FocusNext => {
            step_test(&mut pane, true);
            (Mode::TestInput(pane), Action::Nothing)
        },
        Applied::FocusPrev => {
            step_test(&mut pane, false);
            (Mode::TestInput(pane), Action::Nothing)
        },
        _ => (Mode::TestInput(pane), Action::Nothing),
    }
}

// ─── Deleting ─────────────────────────────────────────────────────────────────

/// One key at the question whether to delete.
pub open spec fn delete_key(name: Seq<char>, global: bool, code: KeyCode) -> (ModeView, ActionView) {
    let asked = ModeView::ConfirmDelete { entry_name: name, global };
    let yes = (ModeView::Browse, ActionView::DeleteRequest { name, global });
    let no = (ModeView::Browse, ActionView::Nothing);
    match code {
        KeyCode::Enter => yes,
        KeyCode::Esc => no,
        KeyCode::Char(c) => if c == 'y' {
            yes
        } else if c == 'n' {
            no
        } else {
            (asked, ActionView::Nothing)
        },
        _ => (asked, ActionView::Nothing),
    }
}

/// One key at the question whether to delete.
pub fn handle_key_confirm_delete(entry_name: String, global: bool, code: KeyCode) -> (r: (
    Mode,
    Action,
))
    ensures
        (r.0@, r.1@) == delete_key(entry_name@, global, code),
{
    match code {
        KeyCode::Enter => (Mode::Browse, Action::DeleteRequest { name: entry_name, global }),
        KeyCode::Esc => (Mode::Browse, Action::Nothing),
        KeyCode::Char(c) => {
            if c == 'y' {
                (Mode::Browse, Action::DeleteRequest { name: entry_name, global })
            } else if c == 'n' {
                (Mode::Browse, Action::Nothing)
            } else {
                (Mode::ConfirmDelete { entry_name, global }, Action::Nothing)
            }
        },
        _ => (Mode::ConfirmDelete { entry_name, global }, Action::Nothing),
    }
}

} // verus!
