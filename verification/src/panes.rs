//! The panes of the terminal interface that hold a form, and what keys do in them.
use vstd::prelude::*;
use vstd::string::*;

use crate::config::Keys;
use crate::curl_parse::{collected, from_curl, imported};
use crate::curl_error::fault_text;
use crate::edit::{apply, key_applied, landed_on, opened_on, Applied, Edit, EditView};
use crate::form::{
    body_opening, draft_of, focus_stepped, index_opt, opening_data, opening_type, pane_rows, target_of,
    DraftView, Focus, PairKind, RequestDraft,
};
use crate::keys::{KeyCode, KeyEvent};
use crate::order::{rows_of, Row};
use crate::request::{profile_views, text_opt, Profile, ProfileView};
use crate::response::{pop_char, ResponsePane, ResponseView};
use crate::strmap::StrMap;
use crate::tester::TestResults;

verus! {

// ─── Modes ────────────────────────────────────────────────────────────────────

/// What a profile and variables are collected for.
#[derive(Debug, Clone, Copy, PartialEq, Eq, Structural)]
pub enum PendingAction {
    Run,
    Test,
    Curl,
}

/// The profile picker.
#[derive(Debug, PartialEq, Eq)]
pub struct ProfilePicker {
    pub entry_name: String,
    pub profiles: Vec<Profile>,
    /// 0 is no profile, `i + 1` is `profiles[i]`.
    pub selected: usize,
    pub action: PendingAction,
}

/// The variable form.
#[derive(Debug, PartialEq, Eq)]
pub struct VarPane {
    pub entry_name: String,
    /// Names and the values being typed.
    pub vars: Vec<(String, String)>,
    pub focused: usize,
    pub edit: Edit,
    pub action: PendingAction,
}

/// The form of a load test: the variables, then the number of requests.
#[derive(Debug, PartialEq, Eq)]
pub struct TestPane {
    pub entry_name: String,
    pub vars: Vec<(String, String)>,
    pub iterations: String,
    pub focused: usize,
    pub edit: Edit,
}

/// The request form.
#[derive(Debug, PartialEq, Eq)]
pub struct RequestPane {
    pub draft: RequestDraft,
    pub error: Option<String>,
}

/// The buffer a command is pasted into.
#[derive(Debug, PartialEq, Eq)]
pub struct ImportPane {
    pub buffer: String,
    pub error: Option<String>,
}

/// The draft's headers or query as rows of two fields each.
#[derive(Debug, PartialEq, Eq)]
pub struct PairsPane {
    pub kind: PairKind,
    pub draft: RequestDraft,
    pub pairs: Vec<(String, String)>,
    /// `2i` is the name of row `i`, `2i + 1` its value.
    pub focused: usize,
    pub edit: Edit,
    pub error: Option<String>,
}

/// The draft's body: the content type on row 0, the data on row 1.
#[derive(Debug, PartialEq, Eq)]
pub struct BodyPane {
    pub draft: RequestDraft,
    pub content_type: String,
    pub data: String,
    pub focused: usize,
    pub edit: Edit,
    pub error: Option<String>,
}

/// The draft's profiles, and behind them the row that adds one.
#[derive(Debug, PartialEq, Eq)]
pub struct ProfileListPane {
    pub draft: RequestDraft,
    pub selected: usize,
}

/// One profile of the draft.
#[derive(Debug, PartialEq, Eq)]
pub struct ProfilePane {
    pub draft: RequestDraft,
    /// Which profile this edits; none when adding one.
    pub editing: Option<usize>,
    pub name: String,
    pub params: Vec<(String, String)>,
    /// 0 is the name, `1 + 2i` and `2 + 2i` are parameter `i`.
    pub focused: usize,
    pub edit: Edit,
    pub error: Option<String>,
}

/// What the right-hand pane is.
#[derive(Debug, PartialEq, Eq)]
pub enum Mode {
    Browse,
    ProfileSelect(ProfilePicker),
    VarInput(VarPane),
    TestInput(TestPane),
    Response(ResponsePane),
    TestResponse(TestResults),
    NewRequest(RequestPane),
    ImportCurl(ImportPane),
    ConfirmDelete { entry_name: String, global: bool },
    EditPairs(PairsPane),
    EditBody(BodyPane),
    ProfileList(ProfileListPane),
    NewProfile(ProfilePane),
}

pub ghost struct PickerView {
    pub entry_name: Seq<char>,
    pub profiles: Seq<ProfileView>,
    pub selected: int,
    pub action: PendingAction,
}

pub ghost struct VarView {
    pub entry_name: Seq<char>,
    pub vars: Seq<Row>,
    pub focused: int,
    pub edit: EditView,
    pub action: PendingAction,
}

pub ghost struct TestView {
    pub entry_name: Seq<char>,
    pub vars: Seq<Row>,
    pub iterations: Seq<char>,
    pub focused: int,
    pub edit: EditView,
}

pub ghost struct RequestFormView {
    pub draft: DraftView,
    pub error: Option<Seq<char>>,
}

pub ghost struct ImportView {
    pub buffer: Seq<char>,
    pub error: Option<Seq<char>>,
}

pub ghost struct PairsView {
    pub kind: PairKind,
    pub draft: DraftView,
    pub rows: Seq<Row>,
    pub focused: int,
    pub edit: EditView,
    pub error: Option<Seq<char>>,
}

pub ghost struct BodyPaneView {
    pub draft: DraftView,
    pub content_type: Seq<char>,
    pub data: Seq<char>,
    pub focused: int,
    pub edit: EditView,
    pub error: Option<Seq<char>>,
}

pub ghost struct ProfileListView {
    pub draft: DraftView,
    pub selected: int,
}

pub ghost struct ProfilePaneView {
    pub draft: DraftView,
    pub editing: Option<int>,
    pub name: Seq<char>,
    pub params: Seq<Row>,
    pub focused: int,
    pub edit: EditView,
    pub error: Option<Seq<char>>,
}

/// A mode, as text.
pub ghost enum ModeView {
    Browse,
    ProfileSelect(PickerView),
    VarInput(VarView),
    TestInput(TestView),
    Response(ResponseView),
    TestResponse(TestResults),
    NewRequest(RequestFormView),
    ImportCurl(ImportView),
    ConfirmDelete { entry_name: Seq<char>, global: bool },
    EditPairs(PairsView),
    EditBody(BodyPaneView),
    ProfileList(ProfileListView),
    NewProfile(ProfilePaneView),
}

impl View for ProfilePicker {
    type V = PickerView;

    open spec fn view(&self) -> PickerView {
        PickerView {
            entry_name: self.entry_name@,
            profiles: profile_views(self.profiles@),
            selected: self.selected as int,
            action: self.action,
        }
    }
}

impl View for VarPane {
    type V = VarView;

    open spec fn view(&self) -> VarView {
        VarView {
            entry_name: self.entry_name@,
            vars: rows_of(self.vars@),
            focused: self.focused as int,
            edit: self.edit@,
            action: self.action,
        }
    }
}

impl View for TestPane {
    type V = TestView;

    open spec fn view(&self) -> TestView {
        TestView {
            entry_name: self.entry_name@,
            vars: rows_of(self.vars@),
            iterations: self.iterations@,
            focused: self.focused as int,
            edit: self.edit@,
        }
    }
}

impl View for RequestPane {
    type V = RequestFormView;

    open spec fn view(&self) -> RequestFormView {
        RequestFormView { draft: self.draft@, error: text_opt(self.error) }
    }
}

impl View for ImportPane {
    type V = ImportView;

    open spec fn view(&self) -> ImportView {
        ImportView { buffer: self.buffer@, error: text_opt(self.error) }
    }
}

impl View for PairsPane {
    type V = PairsView;

    open spec fn view(&self) -> PairsView {
        PairsView {
            kind: self.kind,
            draft: self.draft@,
            rows: rows_of(self.pairs@),
            focused: self.focused as int,
            edit: self.edit@,
            error: text_opt(self.error),
        }
    }
}

impl View for BodyPane {
    type V = BodyPaneView;

    open spec fn view(&self) -> BodyPaneView {
        BodyPaneView {
            draft: self.draft@,
            content_type: self.content_type@,
            data: self.data@,
            focused: self.focused as int,
            edit: self.edit@,
            error: text_opt(self.error),
        }
    }
}

impl View for ProfileListPane {
    type V = ProfileListView;

    open spec fn view(&self) -> ProfileListView {
        ProfileListView { draft: self.draft@, selected: self.selected as int }
    }
}

impl View for ProfilePane {
    type V = ProfilePaneView;

    open spec fn view(&self) -> ProfilePaneView {
        ProfilePaneView {
            draft: self.draft@,
            editing: index_opt(self.editing),
            name: self.name@,
            params: rows_of(self.params@),
            focused: self.focused as int,
            edit: self.edit@,
            error: text_opt(self.error),
        }
    }
}

impl View for Mode {
    type V = ModeView;

    open spec fn view(&self) -> ModeView {
        match self {
            Mode::Browse => ModeView::Browse,
            Mode::ProfileSelect(p) => ModeView::ProfileSelect(p@),
            Mode::VarInput(p) => ModeView::VarInput(p@),
            Mode::TestInput(p) => ModeView::TestInput(p@),
            Mode::Response(p) => ModeView::Response(p@),
            Mode::TestResponse(r) => ModeView::TestResponse(*r),
            Mode::NewRequest(p) => ModeView::NewRequest(p@),
            Mode::ImportCurl(p) => ModeView::ImportCurl(p@),
            Mode::ConfirmDelete { entry_name, global } => ModeView::ConfirmDelete {
                entry_name: entry_name@,
                global: *global,
            },
            Mode::EditPairs(p) => ModeView::EditPairs(p@),
            Mode::EditBody(p) => ModeView::EditBody(p@),
            Mode::ProfileList(p) => ModeView::ProfileList(p@),
            Mode::NewProfile(p) => ModeView::NewProfile(p@),
        }
    }
}

/// What is to be done outside after a key.
#[derive(Debug, PartialEq, Eq)]
pub enum Action {
    Nothing,
    Quit,
    /// Read the list of requests again, and go back to the one named.
    ReloadEntries(Option<String>),
    /// Read an entry again, to run, test or copy it.
    LoadEntry(usize, PendingAction),
    /// Read a request to edit it, or to clone it.
    LoadRequest { name: String, global: bool, clone: bool },
    /// Read what an entry asks for, now that a profile is picked.
    LoadForProfile(String),
    /// Write the request of the form.
    SaveRequest,
    DeleteRequest { name: String, global: bool },
    RunRequest(String, StrMap),
    RunChain(String, StrMap),
    RunTest(String, StrMap, usize),
    RenderCurl(String, StrMap),
    /// Read a chain to run it.
    LoadChain(String),
    CopyLines(String, usize),
    CopyAll(String),
    /// Copy the results of a load test.
    CopyResults,
}

/// The same, as text.
pub ghost enum ActionView {
    Nothing,
    Quit,
    ReloadEntries(Option<Seq<char>>),
    LoadEntry(int, PendingAction),
    LoadRequest { name: Seq<char>, global: bool, clone: bool },
    LoadForProfile(Seq<char>),
    SaveRequest,
    DeleteRequest { name: Seq<char>, global: bool },
    RunRequest(Seq<char>, Map<Seq<char>, Seq<char>>),
    RunChain(Seq<char>, Map<Seq<char>, Seq<char>>),
    RunTest(Seq<char>, Map<Seq<char>, Seq<char>>, int),
    RenderCurl(Seq<char>, Map<Seq<char>, Seq<char>>),
    LoadChain(Seq<char>),
    CopyLines(Seq<char>, int),
    CopyAll(Seq<char>),
    CopyResults,
}

impl View for Action {
    type V = ActionView;

    open spec fn view(&self) -> ActionView {
        match self {
            Action::Nothing => ActionView::Nothing,
            Action::Quit => ActionView::Quit,
            Action::ReloadEntries(o) => ActionView::ReloadEntries(text_opt(*o)),
            Action::LoadEntry(i, a) => ActionView::LoadEntry(*i as int, *a),
            Action::LoadRequest { name, global, clone } => ActionView::LoadRequest {
                name: name@,
                global: *global,
                clone: *clone,
            },
            Action::LoadForProfile(s) => ActionView::LoadForProfile(s@),
            Action::SaveRequest => ActionView::SaveRequest,
            Action::DeleteRequest { name, global } => ActionView::DeleteRequest {
                name: name@,
                global: *global,
            },
            Action::RunRequest(s, m) => ActionView::RunRequest(s@, m@),
            Action::RunChain(s, m) => ActionView::RunChain(s@, m@),
            Action::RunTest(s, m, n) => ActionView::RunTest(s@, m@, *n as int),
            Action::RenderCurl(s, m) => ActionView::RenderCurl(s@, m@),
            Action::LoadChain(s) => ActionView::LoadChain(s@),
            Action::CopyLines(s, n) => ActionView::CopyLines(s@, *n as int),
            Action::CopyAll(s) => ActionView::CopyAll(s@),
            Action::CopyResults => ActionView::CopyResults,
        }
    }
}

// ─── Fields by index ──────────────────────────────────────────────────────────

/// The text of the field a focus index points at: `2i` is the name of row `i`,
/// `2i + 1` its value.
pub open spec fn pair_text(rows: Seq<Row>, focused: int) -> Option<Seq<char>> {
    if 0 <= focused / 2 < rows.len() {
        Some(
            if focused % 2 == 1 {
                rows[focused / 2].1
            } else {
                rows[focused / 2].0
            },
        )
    } else {
        None
    }
}

/// The rows with the text of one field replaced.
pub open spec fn with_pair_text(rows: Seq<Row>, focused: int, text: Seq<char>) -> Seq<Row> {
    let i = focused / 2;
    if 0 <= i < rows.len() {
        rows.update(
            i,
            if focused % 2 == 1 {
                (rows[i].0, text)
            } else {
                (text, rows[i].1)
            },
        )
    } else {
        rows
    }
}

/// The field a focus index points at.
pub fn pair_field(pairs: &Vec<(String, String)>, focused: usize) -> (r: Option<&String>)
    ensures
        r is Some <==> pair_text(rows_of(pairs@), focused as int) is Some,
        r matches Some(s) ==> pair_text(rows_of(pairs@), focused as int) == Some(s@),
{
    let i: usize = focused / 2;
    if i < pairs.len() {
        if focused % 2 == 1 {
            Some(&pairs[i].1)
        } else {
            Some(&pairs[i].0)
        }
    } else {
        None
    }
}

/// The text of a profile pane's field: 0 is the name, then the parameters.
pub open spec fn profile_text(name: Seq<char>, params: Seq<Row>, focused: int) -> Option<Seq<char>> {
    if focused == 0 {
        Some(name)
    } else {
        pair_text(params, focused - 1)
    }
}

/// The field of a profile pane that a focus index points at.
pub fn profile_field<'a>(name: &'a String, params: &'a Vec<(String, String)>, focused: usize) -> (r:
    Option<&'a String>)
    ensures
        r is Some <==> profile_text(name@, rows_of(params@), focused as int) is Some,
        r matches Some(s) ==> profile_text(name@, rows_of(params@), focused as int) == Some(s@),
{
    if focused == 0 {
        Some(name)
    } else {
        pair_field(params, focused - 1)
    }
}

/// As many as a machine word can count.
pub open spec fn countable(n: int) -> int {
    if n <= usize::MAX {
        n
    } else {
        usize::MAX as int
    }
}

/// How many fields `rows` rows and `extra` more are.
pub fn count_fields(rows: usize, extra: usize) -> (r: usize)
    ensures
        r == countable(extra + 2 * rows),
{
    match rows.checked_mul(2) {
        Some(n) => n.saturating_add(extra),
        None => usize::MAX,
    }
}

/// The caret for a field that just took focus: at its end, in the mode it was in;
/// a fresh one where there is no such field.
pub open spec fn caret_on(text: Option<Seq<char>>, insert: bool) -> EditView {
    match text {
        Some(s) => landed_on(s, insert),
        None => opened_on(Seq::empty()),
    }
}

/// The caret for a field that just took focus.
pub fn caret_for(value: Option<&String>, insert: bool) -> (r: Edit)
    ensures
        r@ == caret_on(
            match value {
                Some(s) => Some(s@),
                None => None,
            },
            insert,
        ),
{
    match value {
        Some(s) => Edit::landing(s.as_str(), insert),
        None => Edit::default(),
    }
}

/// `j` and `k` as a row walk, on a row without text. A chord is none.
pub open spec fn walk_of(key: KeyEvent) -> Option<bool> {
    if key.control || key.alt {
        None
    } else if key.code == KeyCode::Char('j') {
        Some(true)
    } else if key.code == KeyCode::Char('k') {
        Some(false)
    } else {
        None
    }
}

/// `j` and `k` as a row walk.
pub fn walk_key(key: KeyEvent) -> (r: Option<bool>)
    ensures
        r == walk_of(key),
{
    if key.control || key.alt {
        return None;
    }
    match key.code {
        KeyCode::Char(c) => {
            if c == 'j' {
                Some(true)
            } else if c == 'k' {
                Some(false)
            } else {
                None
            }
        },
        _ => None,
    }
}

// ─── Opening panes ────────────────────────────────────────────────────────────

/// The first value of some rows, or nothing.
pub open spec fn first_value(rows: Seq<Row>) -> Seq<char> {
    if rows.len() > 0 {
        rows[0].1
    } else {
        Seq::empty()
    }
}

/// The variable form on its first variable.
pub open spec fn var_form(entry_name: Seq<char>, vars: Seq<Row>, action: PendingAction) -> ModeView {
    ModeView::VarInput(
        VarView { entry_name, vars, focused: 0, edit: opened_on(first_value(vars)), action },
    )
}

/// The load test form on its first variable, or on the number where there is none.
pub open spec fn test_form(entry_name: Seq<char>, vars: Seq<Row>) -> ModeView {
    ModeView::TestInput(
        TestView {
            entry_name,
            vars,
            iterations: "10"@,
            focused: 0,
            edit: opened_on(
                if vars.len() > 0 {
                    vars[0].1
                } else {
                    "10"@
                },
            ),
        },
    )
}

/// The request form.
pub open spec fn request_form(draft: DraftView) -> ModeView {
    ModeView::NewRequest(RequestFormView { draft, error: None })
}

/// The pane on the draft's headers or query, on its first name.
pub open spec fn pairs_form(kind: PairKind, draft: DraftView) -> ModeView {
    let rows = pane_rows(draft, kind);
    ModeView::EditPairs(
        PairsView {
            kind,
            draft,
            rows,
            focused: 0,
            edit: opened_on(
                if rows.len() > 0 {
                    rows[0].0
                } else {
                    Seq::empty()
                },
            ),
            error: None,
        },
    )
}

/// The body pane, on the content type.
pub open spec fn body_form(draft: DraftView) -> ModeView {
    ModeView::EditBody(
        BodyPaneView {
            draft,
            content_type: opening_type(draft),
            data: opening_data(draft),
            focused: 0,
            edit: opened_on(opening_type(draft)),
            error: None,
        },
    )
}

/// The profile list.
pub open spec fn profiles_form(draft: DraftView, selected: int) -> ModeView {
    ModeView::ProfileList(ProfileListView { draft, selected })
}

/// The pane on one profile, on its name.
pub open spec fn profile_form(
    draft: DraftView,
    editing: Option<int>,
    name: Seq<char>,
    params: Seq<Row>,
) -> ModeView {
    ModeView::NewProfile(
        ProfilePaneView {
            draft,
            editing,
            name,
            params,
            focused: 0,
            edit: opened_on(name),
            error: None,
        },
    )
}

impl Mode {
    pub fn var_input(entry_name: String, vars: Vec<(String, String)>, action: PendingAction) -> (r:
        Mode)
        ensures
            r@ == var_form(entry_name@, rows_of(vars@), action),
    {
        let edit = if vars.len() > 0 {
            Edit::at_end(vars[0].1.as_str())
        } else {
            Edit::default()
        };
        Mode::VarInput(VarPane { entry_name, vars, focused: 0, edit, action })
    }

    pub fn test_input(entry_name: String, vars: Vec<(String, String)>) -> (r: Mode)
        ensures
            r@ == test_form(entry_name@, rows_of(vars@)),
    {
        let edit = if vars.len() > 0 {
            Edit::at_end(vars[0].1.as_str())
        } else {
            Edit::at_end("10")
        };
        Mode::TestInput(
            TestPane { entry_name, vars, iterations: "10".to_owned(), focused: 0, edit },
        )
    }

    pub fn request_form(draft: RequestDraft) -> (r: Mode)
        ensures
            r@ == request_form(draft@),
    {
        Mode::NewRequest(RequestPane { draft, error: None })
    }

    pub fn edit_pairs(kind: PairKind, draft: RequestDraft) -> (r: Mode)
        ensures
            r@ == pairs_form(kind, draft@),
    {
        let pairs = kind.pairs(&draft);
        let edit = if pairs.len() > 0 {
            Edit::at_end(pairs[0].0.as_str())
        } else {
            Edit::default()
        };
        Mode::EditPairs(PairsPane { kind, draft, pairs, focused: 0, edit, error: None })
    }

    pub fn edit_body(draft: RequestDraft) -> (r: Mode)
        ensures
            r@ == body_form(draft@),
    {
        let (content_type, data) = body_opening(&draft);
        let edit = Edit::at_end(content_type.as_str());
        Mode::EditBody(BodyPane { draft, content_type, data, focused: 0, edit, error: None })
    }

    pub fn new_profile(
        draft: RequestDraft,
        editing: Option<usize>,
        name: String,
        params: Vec<(String, String)>,
    ) -> (r: Mode)
        ensures
            r@ == profile_form(draft@, index_opt(editing), name@, rows_of(params@)),
    {
        let edit = Edit::at_end(name.as_str());
        Mode::NewProfile(
            ProfilePane { draft, editing, name, params, focused: 0, edit, error: None },
        )
    }
}

// ─── The request form ─────────────────────────────────────────────────────────

/// The form after a key was applied to the focused field, and where that leads.
pub open spec fn field_key(
    p: RequestFormView,
    i: int,
    register: Seq<char>,
    key: KeyEvent,
    keys: Keys,
    now: u64,
) -> (ModeView, Seq<char>) {
    let d = p.draft;
    let (text, edit, held, applied) = key_applied(d.fields[i].1, d.edit, register, key, keys, now);
    let e = DraftView { fields: d.fields.update(i, (d.fields[i].0, text)), edit, ..d };
    (
        match applied {
            Applied::Yes => ModeView::NewRequest(RequestFormView { draft: e, error: None }),
            Applied::Exit => ModeView::Browse,
            Applied::FocusNext => ModeView::NewRequest(
                RequestFormView { draft: focus_stepped(e, true), ..p },
            ),
            Applied::FocusPrev => ModeView::NewRequest(
                RequestFormView { draft: focus_stepped(e, false), ..p },
            ),
            Applied::No => ModeView::NewRequest(RequestFormView { draft: e, ..p }),
        },
        held,
    )
}

/// One key in the request form: the mode after it, the register, and whether the
/// form is to be saved.
pub open spec fn request_form_key(
    p: RequestFormView,
    register: Seq<char>,
    key: KeyEvent,
    keys: Keys,
    now: u64,
) -> (ModeView, Seq<char>, ActionView) {
    let d = p.draft;
    let target = target_of(d.focused, d.fields.len() as int);
    let toggled = ModeView::NewRequest(
        RequestFormView { draft: DraftView { global: !d.global, ..d }, ..p },
    );
    let nothing = ActionView::Nothing;
    let stay = ModeView::NewRequest(p);
    if key.code == KeyCode::Tab || key.code == KeyCode::BackTab {
        (
            ModeView::NewRequest(
                RequestFormView { draft: focus_stepped(d, key.code == KeyCode::Tab), ..p },
            ),
            register,
            nothing,
        )
    } else if key.control && key.code == KeyCode::Char('g') {
        (toggled, register, nothing)
    } else if key.control && key.code == KeyCode::Char('p') {
        (profiles_form(d, 0), register, nothing)
    } else if key.control && (key.code == KeyCode::Char('e') || key.code == KeyCode::Char('h')) {
        (pairs_form(PairKind::Headers, d), register, nothing)
    } else if key.control && key.code == KeyCode::Char('q') {
        (pairs_form(PairKind::Query, d), register, nothing)
    } else if key.control && key.code == KeyCode::Char('b') {
        (body_form(d), register, nothing)
    } else if key.code == KeyCode::Enter {
        match target {
            Focus::Field(_) => (stay, register, ActionView::SaveRequest),
            Focus::Global => (toggled, register, nothing),
            Focus::Headers => (pairs_form(PairKind::Headers, d), register, nothing),
            Focus::Query => (pairs_form(PairKind::Query, d), register, nothing),
            Focus::Profiles => (profiles_form(d, 0), register, nothing),
        }
    } else if d.focused < d.fields.len() {
        let (mode, held) = field_key(p, d.focused, register, key, keys, now);
        (mode, held, nothing)
    } else {
        match walk_of(key) {
            Some(forward) => (
                ModeView::NewRequest(RequestFormView { draft: focus_stepped(d, forward), ..p }),
                register,
                nothing,
            ),
            None => if key.code == KeyCode::Esc {
                (ModeView::Browse, register, nothing)
            } else {
                (stay, register, nothing)
            },
        }
    }
}

/// Whether a key is Control and a letter.
pub fn is_chord(key: KeyEvent, letter: char) -> (r: bool)
    ensures
        r == (key.control && key.code == KeyCode::Char(letter)),
{
    match key.code {
        KeyCode::Char(c) => key.control && c == letter,
        _ => false,
    }
}

fn edit_field(
    pane: RequestPane,
    key: KeyEvent,
    keys: Keys,
    register: &mut String,
    now: u64,
) -> (r: Mode)
    requires
        pane.draft.focused < pane.draft.fields.len(),
    ensures
        (r@, final(register)@) == field_key(
            pane@,
            pane@.draft.focused,
            old(register)@,
            key,
            keys,
            now,
        ),
{
    let mut draft = pane.draft;
    let i: usize = draft.focused;
    let ghost rows = rows_of(draft.fields@);
    let label = draft.fields[i].0.clone();
    let mut value = draft.fields[i].1.clone();
    let applied = apply(&mut value, &mut draft.edit, key, keys, register, now);
    draft.fields.set(i, (label, value));
    proof {
        assert(rows_of(draft.fields@) =~= rows.update(i as int, (rows[i as int].0, value@)));
    }
    match applied {
        Applied::Yes => Mode::NewRequest(RequestPane { draft, error: None }),
        Applied::Exit => Mode::Browse,
        Applied::FocusNext => {
            draft.step_focus(true);
            Mode::NewRequest(RequestPane { draft, error: pane.error })
        },
        Applied::FocusPrev => {
            draft.step_focus(false);
            Mode::NewRequest(RequestPane { draft, error: pane.error })
        },
        Applied::No => Mode::NewRequest(RequestPane { draft, error: pane.error }),
    }
}

/// One key in the request form. Tab walks the fields and the action rows; Enter
/// saves from a field and does the row's thing on a row.
pub fn handle_key_new_request(
    pane: RequestPane,
    key: KeyEvent,
    keys: Keys,
    register: &mut String,
    now: u64,
) -> (r: (Mode, Action))
    ensures
        (r.0@, final(register)@, r.1@) == request_form_key(pane@, old(register)@, key, keys, now),
{
    let mut pane = pane;
    match key.code {
        KeyCode::Tab => {
            pane.draft.step_focus(true);
            return (Mode::NewRequest(pane), Action::Nothing);
        },
        KeyCode::BackTab => {
            pane.draft.step_focus(false);
            return (Mode::NewRequest(pane), Action::Nothing);
        },
        _ => {},
    }
    if is_chord(key, 'g') {
        pane.draft.global = !pane.draft.global;
        return (Mode::NewRequest(pane), Action::Nothing);
    }
    if is_chord(key, 'p') {
        return (
            Mode::ProfileList(ProfileListPane { draft: pane.draft, selected: 0 }),
            Action::Nothing,
        );
    }
    if is_chord(key, 'e') || is_chord(key, 'h') {
        return (Mode::edit_pairs(PairKind::Headers, pane.draft), Action::Nothing);
    }
    if is_chord(key, 'q') {
        return (Mode::edit_pairs(PairKind::Query, pane.draft), Action::Nothing);
    }
    if is_chord(key, 'b') {
        return (Mode::edit_body(pane.draft), Action::Nothing);
    }
    let target = pane.draft.focus_target();
    match key.code {
        KeyCode::Enter => {
            match target {
                Focus::Field(_) => (Mode::NewRequest(pane), Action::SaveRequest),
                Focus::Global => {
                    pane.draft.global = !pane.draft.global;
                    (Mode::NewRequest(pane), Action::Nothing)
                },
                Focus::Headers => (
                    Mode::edit_pairs(PairKind::Headers, pane.draft),
                    Action::Nothing,
                ),
                Focus::Query => (Mode::edit_pairs(PairKind::Query, pane.draft), Action::Nothing),
                Focus::Profiles => (
                    Mode::ProfileList(ProfileListPane { draft: pane.draft, selected: 0 }),
                    Action::Nothing,
                ),
            }
        },
        _ => {
            if pane.draft.focused < pane.draft.fields.len() {
                return (edit_field(pane, key, keys, register, now), Action::Nothing);
            }
            match walk_key(key) {
                Some(forward) => {
                    pane.draft.step_focus(forward);
                    (Mode::NewRequest(pane), Action::Nothing)
                },
                None => match key.code {
                    KeyCode::Esc => (Mode::Browse, Action::Nothing),
                    _ => (Mode::NewRequest(pane), Action::Nothing),
                },
            }
        },
    }
}

// ─── The import buffer ────────────────────────────────────────────────────────

/// What a pasted command leads to: the form with the request it describes, or the
/// buffer kept with what is wrong with it.
pub open spec fn import_confirmed(buffer: Seq<char>) -> ModeView {
    match imported(buffer) {
        Ok(c) => request_form(draft_of(c, None, false)),
        Err(f) => ModeView::ImportCurl(ImportView { buffer, error: Some(fault_text(f)) }),
    }
}

/// One key in the import buffer. Enter is a newline; Ctrl+s imports.
pub open spec fn import_key(p: ImportView, key: KeyEvent) -> ModeView {
    match key.code {
        KeyCode::Esc => ModeView::Browse,
        KeyCode::Enter => ModeView::ImportCurl(
            ImportView { buffer: p.buffer.push('\n'), error: None },
        ),
        KeyCode::Char(c) => if key.control && c == 's' {
            import_confirmed(p.buffer)
        } else {
            ModeView::ImportCurl(ImportView { buffer: p.buffer.push(c), error: None })
        },
        KeyCode::Backspace => ModeView::ImportCurl(
            ImportView {
                buffer: if p.buffer.len() > 0 {
                    p.buffer.drop_last()
                } else {
                    p.buffer
                },
                error: None,
            },
        ),
        _ => ModeView::ImportCurl(p),
    }
}

/// Parses the pasted command and hands the result to the request form. On failure
/// the buffer is kept.
pub fn confirm_import_curl(buffer: String) -> (r: Mode)
    ensures
        r@ == import_confirmed(buffer@),
{
    match from_curl(buffer.as_str()) {
        Ok(config) => Mode::request_form(RequestDraft::from_config(config, None, false)),
        Err(e) => {
            let message = e.message();
            Mode::ImportCurl(ImportPane { buffer, error: Some(message) })
        },
    }
}

/// One key in the import buffer.
pub fn handle_key_import_curl(pane: ImportPane, key: KeyEvent) -> (r: Mode)
    ensures
        r@ == import_key(pane@, key),
{
    let mut buffer = pane.buffer;
    match key.code {
        KeyCode::Esc => Mode::Browse,
        KeyCode::Enter => {
            buffer.push('\n');
            Mode::ImportCurl(ImportPane { buffer, error: None })
        },
        KeyCode::Char(c) => {
            if key.control && c == 's' {
                confirm_import_curl(buffer)
            } else {
                buffer.push(c);
                Mode::ImportCurl(ImportPane { buffer, error: None })
            }
        },
        KeyCode::Backspace => {
            let shorter = pop_char(buffer.as_str());
            Mode::ImportCurl(ImportPane { buffer: shorter, error: None })
        },
        _ => Mode::ImportCurl(ImportPane { buffer, error: pane.error }),
    }
}

} // verus!
