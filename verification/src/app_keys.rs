//! Keys, pastes and the mouse in the terminal interface.
use vstd::prelude::*;
use vstd::string::*;

use crate::app::{
    filtered, folder_toggled, list_bottom, list_down, list_reset, list_top, list_up, row_opt, selected_entry,
    selected_folder, App, AppView,
};
use crate::config::{MAX_SPLIT_PCT, MIN_SPLIT_PCT};
use crate::edit::{insert_str, pasted, Edit};
use crate::form::{blank_draft, DraftView, RequestDraft};
use crate::keys::{KeyCode, KeyEvent};
use crate::order::rows_of;
use crate::panes::{
    handle_key_import_curl, handle_key_new_request, import_key, pair_text, profile_text, request_form,
    request_form_key, with_pair_text, Action, ActionView, BodyPane, BodyPaneView, ImportPane, ImportView, Mode,
    ModeView, PickerView, ProfileListPane, ProfileListView, ProfilePicker, PairsPane, PairsView, PendingAction,
    ProfilePane, ProfilePaneView, RequestFormView, RequestPane, TestPane, TestView, VarPane, VarView,
};
use crate::response::{
    filter_key, pop_char, response_key, ResponseAct, ResponseActView, ResponsePane, ResponseView,
};
use crate::sub_panes::{
    body_key, delete_key, handle_key_confirm_delete, handle_key_edit_body, handle_key_edit_pairs,
    handle_key_new_profile, handle_key_profile_list, handle_key_profile_select, handle_key_test_input,
    handle_key_var_input, pairs_key, picker_key, profile_key, profiles_key, test_key, vars_key,
    with_profile_text,
};
use crate::text::{places, chars_of, str_eq};
use crate::tree::{Entry, EntryKind};

verus! {

// ─── The list ─────────────────────────────────────────────────────────────────

/// The selected entry, as far as there is one.
pub open spec fn entry_at_hand(a: AppView) -> Option<int> {
    match selected_entry(a) {
        Some(i) if 0 <= i < a.entries.len() => Some(i),
        _ => None,
    }
}

/// The selected request: its name and whether it is the user's. A chain is none.
pub open spec fn request_at_hand(a: AppView) -> Option<(Seq<char>, bool)> {
    match entry_at_hand(a) {
        Some(i) => match a.entries[i].kind {
            EntryKind::Request { .. } => Some((a.entries[i].name@, a.entries[i].global)),
            EntryKind::Chain { .. } => None,
        },
        None => None,
    }
}

/// What to do with the selected entry: read it again first.
pub open spec fn entry_action(a: AppView, purpose: PendingAction) -> ActionView {
    match entry_at_hand(a) {
        Some(i) => ActionView::LoadEntry(i, purpose),
        None => ActionView::Nothing,
    }
}

/// What to do to open the selected request in the form.
pub open spec fn open_action(a: AppView, clone: bool) -> ActionView {
    match request_at_hand(a) {
        Some((name, global)) => ActionView::LoadRequest { name, global, clone },
        None => ActionView::Nothing,
    }
}

/// One letter in the list.
pub open spec fn browse_letter(a: AppView, c: char, was_g: bool) -> (AppView, ActionView) {
    let nothing = ActionView::Nothing;
    if c == 'q' {
        (a, ActionView::Quit)
    } else if c == 'j' {
        (list_down(a), nothing)
    } else if c == 'k' {
        (list_up(a), nothing)
    } else if c == 'G' {
        (list_bottom(a), nothing)
    } else if c == 'g' {
        if was_g {
            (list_top(a), nothing)
        } else {
            (AppView { pending_g: true, ..a }, nothing)
        }
    } else if c == ' ' {
        match selected_folder(a) {
            Some(path) => (folder_toggled(a, path), nothing),
            None => (a, nothing),
        }
    } else if c == 'R' {
        (
            a,
            ActionView::ReloadEntries(
                match entry_at_hand(a) {
                    Some(i) => Some(a.entries[i].name@),
                    None => None,
                },
            ),
        )
    } else if c == 'r' {
        browse_enter(a)
    } else if c == 't' {
        (a, entry_action(a, PendingAction::Test))
    } else if c == 'y' {
        (a, entry_action(a, PendingAction::Curl))
    } else if c == 'n' {
        (AppView { mode: request_form(blank_draft()), ..a }, nothing)
    } else if c == 'i' {
        (
            AppView {
                mode: ModeView::ImportCurl(ImportView { buffer: Seq::empty(), error: None }),
                ..a
            },
            nothing,
        )
    } else if c == 'e' {
        (a, open_action(a, false))
    } else if c == 'c' {
        (a, open_action(a, true))
    } else if c == 'd' {
        match entry_at_hand(a) {
            Some(i) => (
                AppView {
                    mode: ModeView::ConfirmDelete {
                        entry_name: a.entries[i].name@,
                        global: a.entries[i].global,
                    },
                    ..a
                },
                nothing,
            ),
            None => (a, nothing),
        }
    } else if c == 'f' {
        (
            AppView {
                filter_active: true,
                selected: if filtered(a.entries, a.filter).len() == 0 {
                    None
                } else {
                    Some(0)
                },
                ..a
            },
            nothing,
        )
    } else if c == '?' {
        (AppView { show_help: true, ..a }, nothing)
    } else {
        (a, nothing)
    }
}

/// Enter in the list: a folder opens or closes, an entry runs.
pub open spec fn browse_enter(a: AppView) -> (AppView, ActionView) {
    match selected_folder(a) {
        Some(path) => (folder_toggled(a, path), ActionView::Nothing),
        None => (a, entry_action(a, PendingAction::Run)),
    }
}

/// One key in the list.
pub open spec fn browse_key(a: AppView, code: KeyCode) -> (AppView, ActionView) {
    let b = AppView { pending_g: false, ..a };
    match code {
        KeyCode::Down => (list_down(b), ActionView::Nothing),
        KeyCode::Up => (list_up(b), ActionView::Nothing),
        KeyCode::Enter => browse_enter(b),
        KeyCode::Char(c) => browse_letter(b, c, a.pending_g),
        _ => (b, ActionView::Nothing),
    }
}

/// One key while the list's filter is being typed. Each change puts the selection
/// on the first row.
pub open spec fn list_filter_key(a: AppView, code: KeyCode) -> AppView {
    match code {
        KeyCode::Esc => list_reset(AppView { filter_active: false, filter: Seq::empty(), ..a }),
        KeyCode::Enter => AppView { filter_active: false, ..a },
        KeyCode::Char(c) => list_reset(AppView { filter: a.filter.push(c), ..a }),
        KeyCode::Backspace => list_reset(
            AppView {
                filter: if a.filter.len() > 0 {
                    a.filter.drop_last()
                } else {
                    a.filter
                },
                ..a
            },
        ),
        _ => a,
    }
}

impl App {
    /// The selected entry, as far as there is one.
    pub fn at_hand(&self) -> (r: Option<usize>)
        ensures
            row_opt(r) == entry_at_hand(self@),
            r matches Some(i) ==> i < self.entries.len(),
    {
        match self.selected_entry_index() {
            Some(i) => {
                if i < self.entries.len() {
                    Some(i)
                } else {
                    None
                }
            },
            None => None,
        }
    }

    /// The selected request: its name and whether it is the user's.
    pub fn selected_request(&self) -> (r: Option<(String, bool)>)
        ensures
            request_at_hand(self@) matches Some(p) ==> (r matches Some(q) && (q.0@, q.1) == p),
            request_at_hand(self@) is None ==> r is None,
    {
        match self.at_hand() {
            None => None,
            Some(i) => {
                let entry = &self.entries[i];
                match &entry.kind {
                    EntryKind::Request { .. } => Some((entry.name.clone(), entry.global)),
                    EntryKind::Chain { .. } => None,
                }
            },
        }
    }

    fn load_selected(&self, purpose: PendingAction) -> (r: Action)
        ensures
            r@ == entry_action(self@, purpose),
    {
        match self.at_hand() {
            Some(i) => Action::LoadEntry(i, purpose),
            None => Action::Nothing,
        }
    }

    fn open_selected(&self, clone: bool) -> (r: Action)
        ensures
            r@ == open_action(self@, clone),
    {
        match self.selected_request() {
            Some(p) => Action::LoadRequest { name: p.0, global: p.1, clone },
            None => Action::Nothing,
        }
    }

    fn enter_selected(&mut self) -> (r: Action)
        ensures
            (final(self)@, r@) == browse_enter(old(self)@),
    {
        match self.selected_folder_path() {
            Some(path) => {
                self.toggle_folder(path);
                Action::Nothing
            },
            None => self.load_selected(PendingAction::Run),
        }
    }

    fn ask_delete(&mut self)
        ensures
            final(self)@ == browse_letter(old(self)@, 'd', false).0,
    {
        match self.at_hand() {
            Some(i) => {
                let entry_name = self.entries[i].name.clone();
                let global = self.entries[i].global;
                self.mode = Mode::ConfirmDelete { entry_name, global };
            },
            None => {},
        }
    }

    fn handle_letter_browse(&mut self, c: char, was_g: bool) -> (r: Action)
        ensures
            (final(self)@, r@) == browse_letter(old(self)@, c, was_g),
    {
        match c {
            'q' => {
                return Action::Quit;
            },
            'j' => {
                self.move_down();
            },
            'k' => {
                self.move_up();
            },
            'G' => {
                self.move_bottom();
            },
            'g' => {
                if was_g {
                    self.move_top();
                } else {
                    self.pending_g = true;
                }
            },
            ' ' => {
                match self.selected_folder_path() {
                    Some(path) => {
                        self.toggle_folder(path);
                    },
                    None => {},
                }
            },
            'R' => {
                let name = match self.at_hand() {
                    Some(i) => Some(self.entries[i].name.clone()),
                    None => None,
                };
                return Action::ReloadEntries(name);
            },
            'r' => {
                return self.enter_selected();
            },
            't' => {
                return self.load_selected(PendingAction::Test);
            },
            'y' => {
                return self.load_selected(PendingAction::Curl);
            },
            'n' => {
                self.mode = Mode::request_form(RequestDraft::blank());
            },
            'i' => {
                self.mode = Mode::ImportCurl(ImportPane { buffer: String::new(), error: None });
            },
            'e' => {
                return self.open_selected(false);
            },
            'c' => {
                return self.open_selected(true);
            },
            'd' => {
                self.ask_delete();
            },
            'f' => {
                self.filter_active = true;
                let left = self.filtered_indices();
                proof {
                    assert(places(left@).len() == left@.len());
                }
                self.selected =
                if left.len() == 0 {
                    None
                } else {
                    Some(0)
                };
            },
            '?' => {
                self.show_help = true;
            },
            _ => {},
        }
        Action::Nothing
    }

    /// One key in the list.
    pub fn handle_key_browse(&mut self, code: KeyCode) -> (r: Action)
        ensures
            (final(self)@, r@) == browse_key(old(self)@, code),
    {
        let was_g = self.pending_g;
        self.pending_g = false;
        match code {
            KeyCode::Down => {
                self.move_down();
                Action::Nothing
            },
            KeyCode::Up => {
                self.move_up();
                Action::Nothing
            },
            KeyCode::Enter => self.enter_selected(),
            KeyCode::Char(c) => self.handle_letter_browse(c, was_g),
            _ => Action::Nothing,
        }
    }

    /// One key while the list's filter is being typed.
    pub fn handle_key_filter(&mut self, code: KeyCode)
        ensures
            final(self)@ == list_filter_key(old(self)@, code),
    {
        match code {
            KeyCode::Esc => {
                self.filter_active = false;
                self.filter = String::new();
                self.reset_selection();
            },
            KeyCode::Enter => {
                self.filter_active = false;
            },
            KeyCode::Char(c) => {
                self.filter.push(c);
                self.reset_selection();
            },
            KeyCode::Backspace => {
                self.filter = pop_char(self.filter.as_str());
                self.reset_selection();
            },
            _ => {},
        }
    }
}

// ─── Keys ─────────────────────────────────────────────────────────────────────

/// Some entry of that name is a chain.
pub open spec fn is_chain_name(entries: Seq<Entry>, name: Seq<char>) -> bool {
    exists|i: int|
        0 <= i < entries.len() && (#[trigger] entries[i]).name@ == name && entries[i].kind is Chain
}

/// What a key in the response pane comes to.
pub open spec fn response_outcome(a: AppView, p: ResponseView, code: KeyCode) -> (
    AppView,
    ActionView,
) {
    if p.filter_active {
        (AppView { mode: ModeView::Response(filter_key(p, code)), ..a }, ActionView::Nothing)
    } else {
        let (q, g, act) = response_key(p, code, a.pending_g, a.response_view_height);
        let b = AppView { mode: ModeView::Response(q), pending_g: g, ..a };
        match act {
            ResponseActView::Stay => (b, ActionView::Nothing),
            ResponseActView::Leave => (
                AppView { mode: ModeView::Browse, ..b },
                ActionView::Nothing,
            ),
            ResponseActView::Quit => (b, ActionView::Quit),
            ResponseActView::CopyLines(s, n) => (b, ActionView::CopyLines(s, n)),
            ResponseActView::CopyAll(s) => (b, ActionView::CopyAll(s)),
        }
    }
}

/// What a key does while the results of a load test are shown.
pub open spec fn results_key(a: AppView, code: KeyCode) -> (AppView, ActionView) {
    let b = AppView { pending_g: false, ..a };
    match code {
        KeyCode::Esc => (AppView { mode: ModeView::Browse, ..b }, ActionView::Nothing),
        KeyCode::Char(c) => if c == 'q' {
            (b, ActionView::Quit)
        } else if c == 'g' {
            (AppView { pending_g: !a.pending_g, ..a }, ActionView::Nothing)
        } else if c == 'c' {
            (b, ActionView::CopyResults)
        } else {
            (b, ActionView::Nothing)
        },
        _ => (b, ActionView::Nothing),
    }
}

/// What a key does in the list of entries; a chord does nothing there.
pub open spec fn list_step(a: AppView, key: KeyEvent) -> (AppView, ActionView) {
    if a.filter_active {
        (list_filter_key(a, key.code), ActionView::Nothing)
    } else if key.control {
        (a, ActionView::Nothing)
    } else {
        browse_key(a, key.code)
    }
}

/// What a key does in the list of profiles.
pub open spec fn picker_step(a: AppView, p: PickerView, key: KeyEvent) -> (AppView, ActionView) {
    let (mode, act) = picker_key(p, key.code);
    (AppView { mode, ..a }, act)
}

/// What a key does in the form of variables.
#[verifier::opaque]
pub open spec fn vars_step(a: AppView, p: VarView, key: KeyEvent, now: u64) -> (AppView, ActionView) {
    let (mode, register, act) = vars_key(p, is_chain_name(a.entries, p.entry_name), a.register, key, a.keys, now);
    (AppView { mode, register, ..a }, act)
}

/// What a key does in the form of a load test.
#[verifier::opaque]
pub open spec fn test_step(a: AppView, p: TestView, key: KeyEvent, now: u64) -> (AppView, ActionView) {
    let (mode, register, act) = test_key(p, a.register, key, a.keys, now);
    (AppView { mode, register, ..a }, act)
}

/// What a key does in the form of a request.
#[verifier::opaque]
pub open spec fn form_step(a: AppView, p: RequestFormView, key: KeyEvent, now: u64) -> (AppView, ActionView) {
    let (mode, register, act) = request_form_key(p, a.register, key, a.keys, now);
    (AppView { mode, register, ..a }, act)
}

/// What a key does in the pane that takes a command.
pub open spec fn import_step(a: AppView, p: ImportView, key: KeyEvent) -> (AppView, ActionView) {
    (AppView { mode: import_key(p, key), ..a }, ActionView::Nothing)
}

/// What a key does in the pane of headers or of query parameters.
#[verifier::opaque]
pub open spec fn pairs_step(a: AppView, p: PairsView, key: KeyEvent, now: u64) -> (AppView, ActionView) {
    let (mode, register) = pairs_key(p, a.register, key, a.keys, now);
    (AppView { mode, register, ..a }, ActionView::Nothing)
}

/// What a key does in the pane of the body.
#[verifier::opaque]
pub open spec fn body_step(a: AppView, p: BodyPaneView, key: KeyEvent, now: u64) -> (AppView, ActionView) {
    let (mode, register) = body_key(p, a.register, key, a.keys, now);
    (AppView { mode, register, ..a }, ActionView::Nothing)
}

/// What a key does in the pane of profiles.
pub open spec fn profiles_step(a: AppView, p: ProfileListView, key: KeyEvent) -> (AppView, ActionView) {
    (AppView { mode: profiles_key(p, key.code), ..a }, ActionView::Nothing)
}

/// What a key does in the form of one profile.
#[verifier::opaque]
pub open spec fn profile_step(a: AppView, p: ProfilePaneView, key: KeyEvent, now: u64) -> (AppView, ActionView) {
    let (mode, register) = profile_key(p, a.register, key, a.keys, now);
    (AppView { mode, register, ..a }, ActionView::Nothing)
}

/// What a key does: with the keymap up, it takes that down and nothing else;
/// otherwise the pane that is open decides, with the list behind it.
pub open spec fn key_handled(a: AppView, key: KeyEvent, now: u64) -> (AppView, ActionView) {
    if a.show_help {
        (AppView { show_help: false, ..a }, ActionView::Nothing)
    } else {
        let away = AppView { mode: ModeView::Browse, ..a };
        match a.mode {
            ModeView::Browse => list_step(a, key),
            ModeView::ProfileSelect(p) => picker_step(away, p, key),
            ModeView::VarInput(p) => vars_step(away, p, key, now),
            ModeView::TestInput(p) => test_step(away, p, key, now),
            ModeView::NewRequest(p) => form_step(away, p, key, now),
            ModeView::ImportCurl(p) => import_step(away, p, key),
            ModeView::EditPairs(p) => pairs_step(away, p, key, now),
            ModeView::EditBody(p) => body_step(away, p, key, now),
            ModeView::ProfileList(p) => profiles_step(away, p, key),
            ModeView::NewProfile(p) => profile_step(away, p, key, now),
            ModeView::ConfirmDelete { entry_name, global } => {
                let (mode, act) = delete_key(entry_name, global, key.code);
                (AppView { mode, ..a }, act)
            },
            ModeView::Response(p) => response_outcome(away, p, key.code),
            ModeView::TestResponse(_) => results_key(a, key.code),
        }
    }
}

impl App {
    /// Whether an entry of that name is a chain.
    pub fn is_chain_entry(&self, name: &str) -> (r: bool)
        ensures
            r == is_chain_name(self@.entries, name@),
    {
        let mut i: usize = 0;
        while i < self.entries.len()
            invariant
                i <= self.entries.len(),
                forall|k: int|
                    0 <= k < i ==> !((#[trigger] self.entries@[k]).name@ == name@
                        && self.entries@[k].kind is Chain),
            decreases self.entries.len() - i,
        {
            let chain = match &self.entries[i].kind {
                EntryKind::Chain { .. } => true,
                EntryKind::Request { .. } => false,
            };
            if chain && str_eq(self.entries[i].name.as_str(), name) {
                return true;
            }
            i = i + 1;
        }
        false
    }

    fn handle_key_response(&mut self, pane: ResponsePane, code: KeyCode) -> (r: Action)
        ensures
            (final(self)@, r@) == response_outcome(old(self)@, pane@, code),
    {
        let mut pane = pane;
        if pane.response_filter_active {
            pane.handle_key_filter(code);
            self.mode = Mode::Response(pane);
            return Action::Nothing;
        }
        let mut g = self.pending_g;
        let act = pane.handle_key(code, &mut g, self.response_view_height);
        self.pending_g = g;
        self.mode = Mode::Response(pane);
        match act {
            ResponseAct::Stay => Action::Nothing,
            ResponseAct::Leave => {
                self.mode = Mode::Browse;
                Action::Nothing
            },
            ResponseAct::Quit => Action::Quit,
            ResponseAct::CopyLines(s, n) => Action::CopyLines(s, n),
            ResponseAct::CopyAll(s) => Action::CopyAll(s),
        }
    }

    fn handle_key_results(&mut self, code: KeyCode) -> (r: Action)
        ensures
            (final(self)@, r@) == results_key(old(self)@, code),
    {
        let was_g = self.pending_g;
        self.pending_g = false;
        match code {
            KeyCode::Esc => {
                self.mode = Mode::Browse;
                Action::Nothing
            },
            KeyCode::Char(c) => {
                if c == 'q' {
                    Action::Quit
                } else if c == 'g' {
                    self.pending_g = !was_g;
                    Action::Nothing
                } else if c == 'c' {
                    Action::CopyResults
                } else {
                    Action::Nothing
                }
            },
            _ => Action::Nothing,
        }
    }

    fn on_list_key(&mut self, key: KeyEvent) -> (r: Action)
        ensures
            (final(self)@, r@) == list_step(old(self)@, key),
    {
        if self.filter_active {
            self.handle_key_filter(key.code);
            Action::Nothing
        } else if key.control {
            Action::Nothing
        } else {
            self.handle_key_browse(key.code)
        }
    }

    fn on_picker_key(&mut self, p: ProfilePicker, key: KeyEvent) -> (r: Action)
        ensures
            (final(self)@, r@) == picker_step(old(self)@, p@, key),
    {
        let (next, act) = handle_key_profile_select(p, key.code);
        self.mode = next;
        act
    }

    fn on_vars_key(&mut self, p: VarPane, key: KeyEvent, now: u64) -> (r: Action)
        ensures
            (final(self)@, r@) == vars_step(old(self)@, p@, key, now),
    {
        proof {
            reveal(vars_step);
        }
        let chain = self.is_chain_entry(p.entry_name.as_str());
        let (next, act) = handle_key_var_input(p, chain, key, self.keys, &mut self.register, now);
        self.mode = next;
        act
    }

    fn on_test_key(&mut self, p: TestPane, key: KeyEvent, now: u64) -> (r: Action)
        ensures
            (final(self)@, r@) == test_step(old(self)@, p@, key, now),
    {
        proof {
            reveal(test_step);
        }
        let (next, act) = handle_key_test_input(p, key, self.keys, &mut self.register, now);
        self.mode = next;
        act
    }

    fn on_form_key(&mut self, p: RequestPane, key: KeyEvent, now: u64) -> (r: Action)
        ensures
            (final(self)@, r@) == form_step(old(self)@, p@, key, now),
    {
        proof {
            reveal(form_step);
        }
        let (next, act) = handle_key_new_request(p, key, self.keys, &mut self.register, now);
        self.mode = next;
        act
    }

    fn on_import_key(&mut self, p: ImportPane, key: KeyEvent) -> (r: Action)
        ensures
            (final(self)@, r@) == import_step(old(self)@, p@, key),
    {
        let next = handle_key_import_curl(p, key);
        self.mode = next;
        Action::Nothing
    }

    fn on_pairs_key(&mut self, p: PairsPane, key: KeyEvent, now: u64) -> (r: Action)
        ensures
            (final(self)@, r@) == pairs_step(old(self)@, p@, key, now),
    {
        proof {
            reveal(pairs_step);
        }
        let next = handle_key_edit_pairs(p, key, self.keys, &mut self.register, now);
        self.mode = next;
        Action::Nothing
    }

    fn on_body_key(&mut self, p: BodyPane, key: KeyEvent, now: u64) -> (r: Action)
        ensures
            (final(self)@, r@) == body_step(old(self)@, p@, key, now),
    {
        proof {
            reveal(body_step);
        }
        let next = handle_key_edit_body(p, key, self.keys, &mut self.register, now);
        self.mode = next;
        Action::Nothing
    }

    fn on_profiles_key(&mut self, p: ProfileListPane, key: KeyEvent) -> (r: Action)
        ensures
            (final(self)@, r@) == profiles_step(old(self)@, p@, key),
    {
        let next = handle_key_profile_list(p, key.code);
        self.mode = next;
        Action::Nothing
    }

    fn on_profile_key(&mut self, p: ProfilePane, key: KeyEvent, now: u64) -> (r: Action)
        ensures
            (final(self)@, r@) == profile_step(old(self)@, p@, key, now),
    {
        proof {
            reveal(profile_step);
        }
        let next = handle_key_new_profile(p, key, self.keys, &mut self.register, now);
        self.mode = next;
        Action::Nothing
    }

    /// One key. `now` is when it was pressed, in milliseconds.
    pub fn handle_key(&mut self, key: KeyEvent, now: u64) -> (r: Action)
        ensures
            (final(self)@, r@) == key_handled(old(self)@, key, now),
    {
        if self.show_help {
            self.show_help = false;
            return Action::Nothing;
        }
        let mut mode = Mode::Browse;
        core::mem::swap(&mut mode, &mut self.mode);
        match mode {
            Mode::Browse => self.on_list_key(key),
            Mode::ProfileSelect(p) => self.on_picker_key(p, key),
            Mode::VarInput(p) => self.on_vars_key(p, key, now),
            Mode::TestInput(p) => self.on_test_key(p, key, now),
            Mode::NewRequest(p) => self.on_form_key(p, key, now),
            Mode::ImportCurl(p) => self.on_import_key(p, key),
            Mode::EditPairs(p) => self.on_pairs_key(p, key, now),
            Mode::EditBody(p) => self.on_body_key(p, key, now),
            Mode::ProfileList(p) => self.on_profiles_key(p, key),
            Mode::NewProfile(p) => self.on_profile_key(p, key, now),
            Mode::ConfirmDelete { entry_name, global } => {
                let (next, act) = handle_key_confirm_delete(entry_name, global, key.code);
                self.mode = next;
                act
            },
            Mode::Response(p) => self.handle_key_response(p, key.code),
            Mode::TestResponse(results) => {
                self.mode = Mode::TestResponse(results);
                self.handle_key_results(key.code)
            },
        }
    }
}

// ─── Pastes ───────────────────────────────────────────────────────────────────

/// A text with its line breaks turned into spaces.
pub open spec fn one_line(s: Seq<char>) -> Seq<char> {
    s.map_values(
        |c: char|
            if c == '\r' || c == '\n' {
                ' '
            } else {
                c
            },
    )
}

/// The digits of a text.
pub open spec fn digits_only(s: Seq<char>) -> Seq<char>
    decreases s.len(),
{
    if s.len() == 0 {
        s
    } else if '0' <= s.last() <= '9' {
        digits_only(s.drop_last()).push(s.last())
    } else {
        digits_only(s.drop_last())
    }
}

/// A paste into the field in focus. Only the import buffer and the body take line
/// breaks, and the number of a load test takes digits alone.
pub open spec fn mode_pasted(m: ModeView, text: Seq<char>) -> ModeView {
    let line = one_line(text);
    match m {
        ModeView::ImportCurl(p) => ModeView::ImportCurl(
            ImportView { buffer: p.buffer + text, error: None },
        ),
        ModeView::NewRequest(p) => {
            let d = p.draft;
            if 0 <= d.focused < d.fields.len() {
                let (value, edit) = pasted(d.fields[d.focused].1, d.edit, line);
                ModeView::NewRequest(
                    RequestFormView {
                        draft: DraftView {
                            fields: d.fields.update(d.focused, (d.fields[d.focused].0, value)),
                            edit,
                            ..d
                        },
                        error: None,
                    },
                )
            } else {
                m
            }
        },
        ModeView::NewProfile(p) => match profile_text(p.name, p.params, p.focused) {
            Some(t) => {
                let (value, edit) = pasted(t, p.edit, line);
                ModeView::NewProfile(
                    ProfilePaneView { edit, error: None, ..with_profile_text(p, value) },
                )
            },
            None => ModeView::NewProfile(ProfilePaneView { error: None, ..p }),
        },
        ModeView::EditPairs(p) => match pair_text(p.rows, p.focused) {
            Some(t) => {
                let (value, edit) = pasted(t, p.edit, line);
                ModeView::EditPairs(
                    PairsView {
                        rows: with_pair_text(p.rows, p.focused, value),
                        edit,
                        error: None,
                        ..p
                    },
                )
            },
            None => ModeView::EditPairs(PairsView { error: None, ..p }),
        },
        ModeView::EditBody(p) => if p.focused == 0 {
            let (value, edit) = pasted(p.content_type, p.edit, line);
            ModeView::EditBody(BodyPaneView { content_type: value, edit, error: None, ..p })
        } else {
            let (value, edit) = pasted(p.data, p.edit, text);
            ModeView::EditBody(BodyPaneView { data: value, edit, error: None, ..p })
        },
        ModeView::VarInput(p) => if 0 <= p.focused < p.vars.len() {
            let (value, edit) = pasted(p.vars[p.focused].1, p.edit, line);
            ModeView::VarInput(
                VarView {
                    vars: p.vars.update(p.focused, (p.vars[p.focused].0, value)),
                    edit,
                    ..p
                },
            )
        } else {
            m
        },
        ModeView::TestInput(p) => if 0 <= p.focused < p.vars.len() {
            let (value, edit) = pasted(p.vars[p.focused].1, p.edit, line);
            ModeView::TestInput(
                TestView {
                    vars: p.vars.update(p.focused, (p.vars[p.focused].0, value)),
                    edit,
                    ..p
                },
            )
        } else {
            let (value, edit) = pasted(p.iterations, p.edit, digits_only(text));
            ModeView::TestInput(TestView { iterations: value, edit, ..p })
        },
        ModeView::Response(p) if p.filter_active => ModeView::Response(
            ResponseView { filter: p.filter + line, ..p },
        ),
        _ => m,
    }
}

/// A paste, into the list's filter while that is typed and else into the field in
/// focus.
pub open spec fn paste_handled(a: AppView, text: Seq<char>) -> AppView {
    if a.filter_active && a.mode is Browse {
        list_reset(AppView { filter: a.filter + one_line(text), ..a })
    } else {
        AppView { mode: mode_pasted(a.mode, text), ..a }
    }
}

fn to_one_line(s: &str) -> (r: String)
    ensures
        r@ == one_line(s@),
{
    let v = chars_of(s);
    let mut r = String::new();
    let mut i: usize = 0;
    proof {
        assert(r@ =~= one_line(s@).take(0));
    }
    while i < v.len()
        invariant
            i <= v.len(),
            v@ == s@,
            r@ == one_line(s@).take(i as int),
        decreases v.len() - i,
    {
        r.push(
            if v[i] == '\r' || v[i] == '\n' {
                ' '
            } else {
                v[i]
            },
        );
        proof {
            assert(one_line(s@).take(i + 1) =~= one_line(s@).take(i as int).push(
                one_line(s@)[i as int],
            ));
        }
        i = i + 1;
    }
    proof {
        assert(one_line(s@).take(v@.len() as int) =~= one_line(s@));
    }
    r
}

fn to_digits(s: &str) -> (r: String)
    ensures
        r@ == digits_only(s@),
{
    let v = chars_of(s);
    let mut r = String::new();
    let mut i: usize = 0;
    proof {
        assert(v@.take(0) =~= Seq::empty());
        assert(r@ =~= digits_only(v@.take(0)));
    }
    while i < v.len()
        invariant
            i <= v.len(),
            v@ == s@,
            r@ == digits_only(v@.take(i as int)),
        decreases v.len() - i,
    {
        proof {
            assert(v@.take(i + 1).drop_last() =~= v@.take(i as int));
        }
        if '0' <= v[i] && v[i] <= '9' {
            r.push(v[i]);
        }
        i = i + 1;
    }
    proof {
        assert(v@.take(v@.len() as int) =~= v@);
    }
    r
}

fn paste_value(pairs: &mut Vec<(String, String)>, i: usize, edit: &mut Edit, text: &str)
    requires
        i < old(pairs).len(),
    ensures
        ({
            let before = rows_of(old(pairs)@);
            let (value, after) = pasted(before[i as int].1, old(edit)@, text@);
            &&& rows_of(final(pairs)@) == before.update(i as int, (before[i as int].0, value))
            &&& final(edit)@ == after
        }),
{
    let ghost before = rows_of(pairs@);
    let name = pairs[i].0.clone();
    let mut value = pairs[i].1.clone();
    insert_str(&mut value, edit, text);
    pairs.set(i, (name, value));
    proof {
        assert(rows_of(pairs@) =~= before.update(i as int, (before[i as int].0, value@)));
    }
}

fn paste_name(pairs: &mut Vec<(String, String)>, i: usize, edit: &mut Edit, text: &str)
    requires
        i < old(pairs).len(),
    ensures
        ({
            let before = rows_of(old(pairs)@);
            let (value, after) = pasted(before[i as int].0, old(edit)@, text@);
            &&& rows_of(final(pairs)@) == before.update(i as int, (value, before[i as int].1))
            &&& final(edit)@ == after
        }),
{
    let ghost before = rows_of(pairs@);
    let mut name = pairs[i].0.clone();
    let value = pairs[i].1.clone();
    insert_str(&mut name, edit, text);
    pairs.set(i, (name, value));
    proof {
        assert(rows_of(pairs@) =~= before.update(i as int, (name@, before[i as int].1)));
    }
}

/// Pastes into a row's field, where there is one.
fn paste_pair(pairs: &mut Vec<(String, String)>, focused: usize, edit: &mut Edit, text: &str)
    ensures
        match pair_text(rows_of(old(pairs)@), focused as int) {
            Some(t) => {
                let (value, after) = pasted(t, old(edit)@, text@);
                &&& rows_of(final(pairs)@) == with_pair_text(
                    rows_of(old(pairs)@),
                    focused as int,
                    value,
                )
                &&& final(edit)@ == after
            },
            None => rows_of(final(pairs)@) == rows_of(old(pairs)@) && final(edit)@ == old(edit)@,
        },
{
    let i: usize = focused / 2;
    if i < pairs.len() {
        if focused % 2 == 1 {
            paste_value(pairs, i, edit, text);
        } else {
            paste_name(pairs, i, edit, text);
        }
    }
}

fn paste_into(mode: Mode, text: &str) -> (r: Mode)
    ensures
        r@ == mode_pasted(mode@, text@),
{
    let line = to_one_line(text);
    match mode {
        Mode::ImportCurl(p) => {
            let mut buffer = p.buffer;
            buffer.append(text);
            Mode::ImportCurl(ImportPane { buffer, error: None })
        },
        Mode::NewRequest(p) => {
            let mut p = p;
            let i: usize = p.draft.focused;
            if i < p.draft.fields.len() {
                paste_value(&mut p.draft.fields, i, &mut p.draft.edit, line.as_str());
                p.error = None;
            }
            Mode::NewRequest(p)
        },
        Mode::NewProfile(p) => {
            let mut p = p;
            p.error = None;
            if p.focused == 0 {
                insert_str(&mut p.name, &mut p.edit, line.as_str());
            } else {
                paste_pair(&mut p.params, p.focused - 1, &mut p.edit, line.as_str());
            }
            Mode::NewProfile(p)
        },
        Mode::EditPairs(p) => {
            let mut p = p;
            p.error = None;
            paste_pair(&mut p.pairs, p.focused, &mut p.edit, line.as_str());
            Mode::EditPairs(p)
        },
        Mode::EditBody(p) => {
            let mut p = p;
            p.error = None;
            if p.focused == 0 {
                insert_str(&mut p.content_type, &mut p.edit, line.as_str());
            } else {
                insert_str(&mut p.data, &mut p.edit, text);
            }
            Mode::EditBody(p)
        },
        Mode::VarInput(p) => {
            let mut p = p;
            let i: usize = p.focused;
            if i < p.vars.len() {
                paste_value(&mut p.vars, i, &mut p.edit, line.as_str());
            }
            Mode::VarInput(p)
        },
        Mode::TestInput(p) => {
            let mut p = p;
            let i: usize = p.focused;
            if i < p.vars.len() {
                paste_value(&mut p.vars, i, &mut p.edit, line.as_str());
            } else {
                let digits = to_digits(text);
                insert_str(&mut p.iterations, &mut p.edit, digits.as_str());
            }
            Mode::TestInput(p)
        },
        Mode::Response(p) => {
            let mut p = p;
            if p.response_filter_active {
                p.response_filter.append(line.as_str());
            }
            Mode::Response(p)
        },
        other => other,
    }
}

impl App {
    /// Delivers a paste to whichever field has focus.
    pub fn handle_paste(&mut self, text: &str)
        ensures
            final(self)@ == paste_handled(old(self)@, text@),
    {
        let browsing = match &self.mode {
            Mode::Browse => true,
            _ => false,
        };
        if self.filter_active && browsing {
            let line = to_one_line(text);
            self.filter.append(line.as_str());
            self.reset_selection();
            return;
        }
        let mut mode = Mode::Browse;
        core::mem::swap(&mut mode, &mut self.mode);
        self.mode = paste_into(mode, text);
    }
}

// ─── The mouse ────────────────────────────────────────────────────────────────

/// How far either side of the divider still grabs it.
pub const DIVIDER_GRAB: u16 = 1;

/// What the mouse did.
#[derive(Debug, Clone, Copy, PartialEq, Eq, Structural)]
pub enum MouseKind {
    /// The left button went down, was dragged, or came up.
    Down,
    Drag,
    Up,
    Other,
}

/// The share, in percent, that puts the divider under `column` on a screen `total`
/// wide: to the nearest percent, within the bounds.
pub open spec fn split_under(column: u16, total: u16) -> Option<u16> {
    if total == 0 {
        None
    } else {
        let pct = (column * 100 + total / 2) / (total as int);
        Some(
            if pct < MIN_SPLIT_PCT {
                MIN_SPLIT_PCT
            } else if pct > MAX_SPLIT_PCT {
                MAX_SPLIT_PCT
            } else {
                pct as u16
            },
        )
    }
}

/// The share that puts the divider under a column; none while no width is known.
pub fn split_pct_at(column: u16, total: u16) -> (r: Option<u16>)
    ensures
        r == split_under(column, total),
        r matches Some(p) ==> MIN_SPLIT_PCT <= p <= MAX_SPLIT_PCT,
{
    if total == 0 {
        return None;
    }
    let wide: u32 = total as u32;
    let pct: u32 = (column as u32 * 100 + wide / 2) / wide;
    Some(
        if pct < 15 {
            MIN_SPLIT_PCT
        } else if pct > 85 {
            MAX_SPLIT_PCT
        } else {
            pct as u16
        },
    )
}

/// What the mouse does: grab the divider, drag it, let it go.
pub open spec fn mouse_handled(a: AppView, kind: MouseKind, column: u16) -> AppView {
    match kind {
        MouseKind::Down => AppView {
            dragging_split: -1 <= a.split_x - column <= DIVIDER_GRAB,
            ..a
        },
        MouseKind::Drag => if a.dragging_split {
            match split_under(column, a.term_width) {
                Some(p) => AppView { split_pct: p, ..a },
                None => a,
            }
        } else {
            a
        },
        MouseKind::Up => AppView { dragging_split: false, ..a },
        MouseKind::Other => a,
    }
}

impl App {
    /// Puts the divider under a column, or leaves it while no width is known.
    pub fn set_split_at(&mut self, column: u16)
        ensures
            final(self)@ == match split_under(column, old(self)@.term_width) {
                Some(p) => AppView { split_pct: p, ..old(self)@ },
                None => old(self)@,
            },
    {
        match split_pct_at(column, self.term_width) {
            Some(p) => {
                self.split_pct = p;
            },
            None => {},
        }
    }

    /// The mouse does one thing: drag the divider between the two panes.
    pub fn handle_mouse(&mut self, kind: MouseKind, column: u16)
        ensures
            final(self)@ == mouse_handled(old(self)@, kind, column),
    {
        match kind {
            MouseKind::Down => {
                let away: u16 = if self.split_x > column {
                    self.split_x - column
                } else {
                    column - self.split_x
                };
                self.dragging_split = away <= DIVIDER_GRAB;
            },
            MouseKind::Drag => {
                if self.dragging_split {
                    self.set_split_at(column);
                }
            },
            MouseKind::Up => {
                self.dragging_split = false;
            },
            MouseKind::Other => {},
        }
    }
}

// ─── Laws ─────────────────────────────────────────────────────────────────────

/// Whatever the mouse does, the divider stays within its bounds.
pub proof fn law_the_divider_stays_within_bounds(a: AppView, kind: MouseKind, column: u16)
    requires
        MIN_SPLIT_PCT <= a.split_pct <= MAX_SPLIT_PCT,
    ensures
        MIN_SPLIT_PCT <= mouse_handled(a, kind, column).split_pct <= MAX_SPLIT_PCT,
{
}

/// With the keymap up, any key takes it down and does nothing else.
pub proof fn law_any_key_only_dismisses_the_keymap(a: AppView, key: KeyEvent, now: u64)
    requires
        a.show_help,
    ensures
        key_handled(a, key, now) == (AppView { show_help: false, ..a }, ActionView::Nothing),
{
}

/// Two states with the same list, selection, filter and divider.
pub open spec fn same_list(a: AppView, b: AppView) -> bool {
    &&& a.entries == b.entries
    &&& a.nodes == b.nodes
    &&& a.collapsed == b.collapsed
    &&& a.selected == b.selected
    &&& a.filter == b.filter
    &&& a.filter_active == b.filter_active
    &&& a.split_pct == b.split_pct
}

proof fn lemma_picker_step(a: AppView, p: PickerView, key: KeyEvent)
    ensures
        same_list(picker_step(a, p, key).0, a),
{
}

proof fn lemma_vars_step(a: AppView, p: VarView, key: KeyEvent, now: u64)
    ensures
        same_list(vars_step(a, p, key, now).0, a),
{
    reveal(vars_step);
}

proof fn lemma_test_step(a: AppView, p: TestView, key: KeyEvent, now: u64)
    ensures
        same_list(test_step(a, p, key, now).0, a),
{
    reveal(test_step);
}

proof fn lemma_form_step(a: AppView, p: RequestFormView, key: KeyEvent, now: u64)
    ensures
        same_list(form_step(a, p, key, now).0, a),
{
    reveal(form_step);
}

proof fn lemma_import_step(a: AppView, p: ImportView, key: KeyEvent)
    ensures
        same_list(import_step(a, p, key).0, a),
{
}

proof fn lemma_pairs_step(a: AppView, p: PairsView, key: KeyEvent, now: u64)
    ensures
        same_list(pairs_step(a, p, key, now).0, a),
{
    reveal(pairs_step);
}

proof fn lemma_body_step(a: AppView, p: BodyPaneView, key: KeyEvent, now: u64)
    ensures
        same_list(body_step(a, p, key, now).0, a),
{
    reveal(body_step);
}

proof fn lemma_profiles_step(a: AppView, p: ProfileListView, key: KeyEvent)
    ensures
        same_list(profiles_step(a, p, key).0, a),
{
}

proof fn lemma_profile_step(a: AppView, p: ProfilePaneView, key: KeyEvent, now: u64)
    ensures
        same_list(profile_step(a, p, key, now).0, a),
{
    reveal(profile_step);
}

proof fn lemma_response_outcome(a: AppView, p: ResponseView, code: KeyCode)
    ensures
        same_list(response_outcome(a, p, code).0, a),
{
}

/// Outside the list, no key touches the list, its selection or its filter.
pub proof fn law_panes_leave_the_list_alone(a: AppView, key: KeyEvent, now: u64)
    requires
        !(a.mode is Browse),
    ensures
        same_list(key_handled(a, key, now).0, a),
{
    let away = AppView { mode: ModeView::Browse, ..a };
    match a.mode {
        ModeView::ProfileSelect(p) => {
            lemma_picker_step(away, p, key);
        },
        ModeView::VarInput(p) => {
            lemma_vars_step(away, p, key, now);
        },
        ModeView::TestInput(p) => {
            lemma_test_step(away, p, key, now);
        },
        ModeView::NewRequest(p) => {
            lemma_form_step(away, p, key, now);
        },
        ModeView::ImportCurl(p) => {
            lemma_import_step(away, p, key);
        },
        ModeView::EditPairs(p) => {
            lemma_pairs_step(away, p, key, now);
        },
        ModeView::EditBody(p) => {
            lemma_body_step(away, p, key, now);
        },
        ModeView::ProfileList(p) => {
            lemma_profiles_step(away, p, key);
        },
        ModeView::NewProfile(p) => {
            lemma_profile_step(away, p, key, now);
        },
        ModeView::Response(p) => {
            lemma_response_outcome(away, p, key.code);
        },
        _ => {},
    }
}

} // verus!
