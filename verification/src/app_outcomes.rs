//! What the terminal interface makes of the outcome of outside work.
use vstd::prelude::*;
use vstd::string::*;

use crate::app::{filtered, listed_rows, row_opt, row_total, App, AppView};
use crate::app_keys::is_chain_name;
use crate::config::{default_preferences, UserConfig};
use crate::curl_parse::{collect_pairs, collected};
use crate::form::{draft_of, RequestDraft};
use crate::order::{rows_of, Row};
use crate::panes::{
    request_form, test_form, var_form, Action, ActionView, Mode, ModeView, PendingAction, PickerView,
    ProfilePicker, RequestFormView,
};
use crate::request::{
    copy_profiles, profile_views, text_opt, ChainConfig, ProfileView, RequestConfig, TextMap,
};
use crate::response::{lines_note, message_view, KindView, ResponseKind, ResponsePane, ResponseView};
use crate::strmap::StrMap;
use crate::strset::StrSet;
use crate::sub_panes::{start_action, vars_given};
use crate::text::{places, concat2, str_eq, texts};
use crate::tree::{
    build_tree, collect_folder_paths, entry_names, folders, nodes_view, row_views, tree_rows, visible_rows,
    whole_tree, Entry, EntryKind, TreeRow, VisibleRow,
};
use crate::vars::{chain_var_names, distinct, extract_var_names, placeholders, sources, wanted};

verus! {

// ─── Variables on offer ───────────────────────────────────────────────────────

/// The value a variable opens with: the profile's, else the environment's, else
/// nothing.
pub open spec fn offer(name: Seq<char>, params: TextMap, env: TextMap) -> Seq<char> {
    if params.dom().contains(name) {
        params[name]
    } else if env.dom().contains(name) {
        env[name]
    } else {
        Seq::empty()
    }
}

/// The rows of the variable form.
pub open spec fn offers(names: Seq<Seq<char>>, params: TextMap, env: TextMap) -> Seq<Row> {
    names.map_values(|n: Seq<char>| (n, offer(n, params, env)))
}

/// Pairs each variable with the value it opens with.
pub fn offer_vars(names: &Vec<String>, params: &StrMap, env: &StrMap) -> (r: Vec<(String, String)>)
    ensures
        rows_of(r@) == offers(texts(names@), params@, env@),
{
    let mut rows: Vec<(String, String)> = Vec::new();
    let mut i: usize = 0;
    let ghost all = offers(texts(names@), params@, env@);
    proof {
        assert(rows_of(rows@) =~= all.take(0));
    }
    while i < names.len()
        invariant
            i <= names.len(),
            all == offers(texts(names@), params@, env@),
            rows_of(rows@) == all.take(i as int),
        decreases names.len() - i,
    {
        let name = names[i].clone();
        let value = match params.get(name.as_str()) {
            Some(v) => v.clone(),
            None => match env.get(name.as_str()) {
                Some(v) => v.clone(),
                None => String::new(),
            },
        };
        let ghost before = rows@;
        rows.push((name, value));
        proof {
            assert(texts(names@)[i as int] == names@[i as int]@);
            assert(value@ =~= offer(name@, params@, env@));
            assert(all[i as int] == (name@, value@));
            assert(rows_of(rows@) =~= rows_of(before).push((name@, value@)));
            assert(all.take(i + 1) =~= all.take(i as int).push(all[i as int]));
        }
        i = i + 1;
    }
    proof {
        assert(all.take(names@.len() as int) =~= all);
    }
    rows
}

/// A profile that answers every variable with something.
pub open spec fn answers_all(names: Seq<Seq<char>>, params: TextMap) -> bool {
    forall|i: int|
        0 <= i < names.len() ==> params.dom().contains(#[trigger] names[i])
            && params[names[i]].len() > 0
}

fn is_answered(names: &Vec<String>, params: &StrMap) -> (r: bool)
    ensures
        r == answers_all(texts(names@), params@),
{
    let mut i: usize = 0;
    let ghost all = texts(names@);
    while i < names.len()
        invariant
            i <= names.len(),
            all == texts(names@),
            forall|k: int|
                0 <= k < i ==> params@.dom().contains(#[trigger] all[k]) && params@[all[k]].len()
                    > 0,
        decreases names.len() - i,
    {
        proof {
            assert(all[i as int] == names@[i as int]@);
        }
        match params.get(names[i].as_str()) {
            None => {
                return false;
            },
            Some(v) => {
                if v.as_str().is_empty() {
                    return false;
                }
            },
        }
        i = i + 1;
    }
    true
}

/// The variables that an entry asks for; a chain's are not in its entry.
pub open spec fn entry_vars(e: Entry) -> Seq<Seq<char>> {
    match e.kind {
        EntryKind::Request { url, headers, query, body_data, .. } => distinct(
            placeholders(sources(url@, headers.rows(), query.rows(), text_opt(body_data))),
        ),
        EntryKind::Chain { .. } => Seq::empty(),
    }
}

/// The variables that an entry asks for.
pub fn entry_var_names(entry: &Entry) -> (r: Vec<String>)
    ensures
        texts(r@) == entry_vars(*entry),
{
    match &entry.kind {
        EntryKind::Request { url, headers, query, body_data, .. } => {
            let data = match body_data {
                Some(d) => Some(d.as_str()),
                None => None,
            };
            extract_var_names(url.as_str(), headers, query, data)
        },
        EntryKind::Chain { .. } => {
            let none: Vec<String> = Vec::new();
            proof {
                assert(texts(none@) =~= Seq::empty());
            }
            none
        },
    }
}

// ─── Messages ─────────────────────────────────────────────────────────────────

/// The response pane on a plain text.
pub open spec fn message_mode(kind: KindView, body: Seq<char>) -> ModeView {
    ModeView::Response(message_view(kind, body, Seq::empty(), false))
}

/// The response pane on a failure.
pub open spec fn error_mode(words: Seq<char>) -> ModeView {
    message_mode(KindView::Error, "Error: "@ + words)
}

impl App {
    /// Shows a plain text in the response pane.
    pub fn show_message(&mut self, kind: ResponseKind, body: String)
        ensures
            final(self)@ == (AppView { mode: message_mode(kind@, body@), ..old(self)@ }),
    {
        let pane = ResponsePane::message(kind, body, String::new(), false);
        proof {
            assert(pane@.headers =~= Seq::empty());
        }
        self.mode = Mode::Response(pane);
    }

    /// Shows a failure in the response pane.
    pub fn show_error(&mut self, words: &str)
        ensures
            final(self)@ == (AppView { mode: error_mode(words@), ..old(self)@ }),
    {
        self.show_message(ResponseKind::Error, concat2("Error: ", words));
    }

    /// Shows a command made from a request, and whether copying it went well.
    pub fn curl_copied(&mut self, command: String, copied: Result<(), String>)
        ensures
            final(self)@ == (AppView {
                mode: message_mode((ResponseKind::Curl { copied })@, command@),
                ..old(self)@
            }),
    {
        self.show_message(ResponseKind::Curl { copied }, command);
    }
}

// ─── Starting ─────────────────────────────────────────────────────────────────

/// The state at the start: every folder closed, the first row selected. Preferences
/// that cannot be read are said so, and the defaults hold.
pub open spec fn started(
    entries: Seq<Entry>,
    use_nerd_fonts: bool,
    config: Result<UserConfig, Seq<char>>,
) -> AppView {
    let nodes = whole_tree(entry_names(entries));
    let collapsed = folders(nodes, nodes.len() as int);
    let settings = match config {
        Ok(c) => c,
        Err(_) => default_preferences(),
    };
    AppView {
        entries,
        nodes,
        collapsed,
        use_nerd_fonts,
        selected: if tree_rows(nodes, collapsed).len() > 0 {
            Some(0)
        } else {
            None
        },
        pending_g: false,
        response_view_height: 0,
        filter: Seq::empty(),
        filter_active: false,
        show_help: false,
        keys: settings.keys,
        mode: match config {
            Ok(_) => ModeView::Browse,
            Err(words) => message_mode(KindView::Error, "Config: "@ + words),
        },
        register: Seq::empty(),
        split_pct: settings.split_pct,
        split_x: 0,
        term_width: 0,
        dragging_split: false,
    }
}

/// The preferences, or the words of what is wrong with them.
pub open spec fn config_words(config: Result<UserConfig, String>) -> Result<UserConfig, Seq<char>> {
    match config {
        Ok(c) => Ok(c),
        Err(words) => Err(words@),
    }
}

impl App {
    /// The state at the start.
    pub fn new(
        entries: Vec<Entry>,
        use_nerd_fonts: bool,
        config: Result<UserConfig, String>,
    ) -> (r: App)
        ensures
            r@ == started(entries@, use_nerd_fonts, config_words(config)),
    {
        let tree = build_tree(&entries);
        let mut collapsed_folders = StrSet::new();
        collect_folder_paths(&tree, &mut collapsed_folders);
        proof {
            assert(nodes_view(tree@).len() == tree@.len());
            assert(collapsed_folders@ =~= folders(nodes_view(tree@), tree@.len() as int));
        }
        let rows = visible_rows(&tree, &collapsed_folders);
        proof {
            assert(row_views(rows@).len() == rows@.len());
        }
        let selected = if rows.len() > 0 {
            Some(0)
        } else {
            None
        };
        let (settings, mode) = match config {
            Ok(c) => (c, Mode::Browse),
            Err(words) => {
                let pane = ResponsePane::message(
                    ResponseKind::Error,
                    concat2("Config: ", words.as_str()),
                    String::new(),
                    false,
                );
                proof {
                    assert(pane@.headers =~= Seq::empty());
                }
                (UserConfig::defaults(), Mode::Response(pane))
            },
        };
        let app = App {
            entries,
            tree,
            collapsed_folders,
            use_nerd_fonts,
            selected,
            pending_g: false,
            response_view_height: 0,
            filter: String::new(),
            filter_active: false,
            show_help: false,
            keys: settings.keys,
            mode,
            register: String::new(),
            split_pct: settings.split_pct,
            split_x: 0,
            term_width: 0,
            dragging_split: false,
        };
        proof {
            assert(app@.filter =~= Seq::empty());
            assert(app@.register =~= Seq::empty());
        }
        app
    }
}

// ─── What an entry asks for ───────────────────────────────────────────────────

/// The profile picker, on no profile.
pub open spec fn picker_mode(
    entry_name: Seq<char>,
    profiles: Seq<ProfileView>,
    action: PendingAction,
) -> ModeView {
    ModeView::ProfileSelect(PickerView { entry_name, profiles, selected: 0, action })
}

/// What an entry asks for before it can be run, tested or copied: a profile where
/// it has any, then its variables. A chain can only be run.
pub open spec fn entry_asks(a: AppView, e: Entry, purpose: PendingAction, env: TextMap) -> (
    AppView,
    ActionView,
) {
    let nothing = ActionView::Nothing;
    match e.kind {
        EntryKind::Chain { .. } => match purpose {
            PendingAction::Run => (a, ActionView::LoadChain(e.name@)),
            PendingAction::Test => (
                AppView {
                    mode: message_mode(KindView::Error, "Testing chains is not supported."@),
                    ..a
                },
                nothing,
            ),
            PendingAction::Curl => (
                AppView {
                    mode: message_mode(
                        KindView::Error,
                        "Copying chains as cURL is not supported."@,
                    ),
                    ..a
                },
                nothing,
            ),
        },
        EntryKind::Request { profiles, .. } => {
            let names = entry_vars(e);
            let vars = offers(names, Map::empty(), env);
            if profiles@.len() > 0 {
                (
                    AppView {
                        mode: picker_mode(e.name@, profile_views(profiles@), purpose),
                        ..a
                    },
                    nothing,
                )
            } else if purpose == PendingAction::Test {
                (AppView { mode: test_form(e.name@, vars), ..a }, nothing)
            } else if names.len() == 0 {
                (a, vars_given(e.name@, Map::empty(), purpose, false))
            } else {
                (AppView { mode: var_form(e.name@, vars, purpose), ..a }, nothing)
            }
        },
    }
}

/// The state with one entry as it was just read.
pub open spec fn with_entry(a: AppView, idx: int, e: Entry) -> AppView {
    AppView {
        entries: if 0 <= idx < a.entries.len() {
            a.entries.update(idx, e)
        } else {
            a.entries
        },
        ..a
    }
}

/// What a chain asks for before it can be run.
pub open spec fn chain_asks(a: AppView, name: Seq<char>, chain: ChainConfig, env: TextMap) -> (
    AppView,
    ActionView,
) {
    let names = wanted(chain.steps@, chain.steps@.len() as int);
    let profiles = match chain.profiles {
        Some(v) => profile_views(v@),
        None => Seq::empty(),
    };
    if profiles.len() > 0 {
        (
            AppView { mode: picker_mode(name, profiles, PendingAction::Run), ..a },
            ActionView::Nothing,
        )
    } else if names.len() == 0 {
        (a, ActionView::RunChain(name, Map::empty()))
    } else {
        (
            AppView {
                mode: var_form(name, offers(names, Map::empty(), env), PendingAction::Run),
                ..a
            },
            ActionView::Nothing,
        )
    }
}

/// The parameters of the profile picked; row 0 stands for none.
pub open spec fn picked_params(p: PickerView) -> TextMap {
    if 0 < p.selected <= p.profiles.len() {
        p.profiles[p.selected - 1].params
    } else {
        Map::empty()
    }
}

/// What picking a profile leads to, given the variables that the entry asks for. A
/// profile that answers them all spares the form, but for a load test, which still
/// asks how often.
pub open spec fn profile_picked(a: AppView, names: Seq<Seq<char>>, env: TextMap) -> (
    AppView,
    ActionView,
) {
    match a.mode {
        ModeView::ProfileSelect(p) => {
            let params = picked_params(p);
            let vars = offers(names, params, env);
            if p.action == PendingAction::Test {
                (AppView { mode: test_form(p.entry_name, vars), ..a }, ActionView::Nothing)
            } else if answers_all(names, params) {
                (
                    a,
                    vars_given(
                        p.entry_name,
                        collected(vars),
                        p.action,
                        is_chain_name(a.entries, p.entry_name),
                    ),
                )
            } else {
                (
                    AppView { mode: var_form(p.entry_name, vars, p.action), ..a },
                    ActionView::Nothing,
                )
            }
        },
        _ => (a, ActionView::Nothing),
    }
}

fn ask_for(entry: &Entry, purpose: PendingAction, env: &StrMap) -> (r: (Option<Mode>, Action))
    requires
        entry.kind is Request,
    ensures
        forall|a: AppView|
            #![trigger entry_asks(a, *entry, purpose, env@)]
            (
                match r.0 {
                    Some(m) => AppView { mode: m@, ..a },
                    None => a,
                },
                r.1@,
            ) == entry_asks(a, *entry, purpose, env@),
{
    let names = entry_var_names(entry);
    let nobody = StrMap::new();
    proof {
        assert(texts(names@).len() == names@.len());
    }
    match &entry.kind {
        EntryKind::Request { profiles, .. } => {
            if profiles.len() > 0 {
                let picker = ProfilePicker {
                    entry_name: entry.name.clone(),
                    profiles: copy_profiles(profiles),
                    selected: 0,
                    action: purpose,
                };
                return (Some(Mode::ProfileSelect(picker)), Action::Nothing);
            }
        },
        EntryKind::Chain { .. } => {},
    }
    let vars = offer_vars(&names, &nobody, env);
    if purpose == PendingAction::Test {
        (Some(Mode::test_input(entry.name.clone(), vars)), Action::Nothing)
    } else if names.len() == 0 {
        (None, start_action(entry.name.clone(), nobody, purpose, false))
    } else {
        (Some(Mode::var_input(entry.name.clone(), vars, purpose)), Action::Nothing)
    }
}

impl App {
    /// An entry was read again, to be run, tested or copied.
    pub fn entry_ready(
        &mut self,
        idx: usize,
        entry: Entry,
        purpose: PendingAction,
        env: &StrMap,
    ) -> (r: Action)
        ensures
            (final(self)@, r@) == entry_asks(
                with_entry(old(self)@, idx as int, entry),
                entry,
                purpose,
                env@,
            ),
    {
        let chain = match &entry.kind {
            EntryKind::Chain { .. } => true,
            EntryKind::Request { .. } => false,
        };
        let name = entry.name.clone();
        let asked = if chain {
            (None, Action::Nothing)
        } else {
            ask_for(&entry, purpose, env)
        };
        if idx < self.entries.len() {
            self.entries.set(idx, entry);
        }
        if !chain {
            match asked.0 {
                Some(mode) => {
                    self.mode = mode;
                },
                None => {},
            }
            return asked.1;
        }
        match purpose {
            PendingAction::Run => Action::LoadChain(name),
            PendingAction::Test => {
                self.show_message(
                    ResponseKind::Error,
                    "Testing chains is not supported.".to_owned(),
                );
                Action::Nothing
            },
            PendingAction::Curl => {
                self.show_message(
                    ResponseKind::Error,
                    "Copying chains as cURL is not supported.".to_owned(),
                );
                Action::Nothing
            },
        }
    }

    /// A chain was read, to be run.
    pub fn start_chain(&mut self, name: String, chain: &ChainConfig, env: &StrMap) -> (r: Action)
        ensures
            (final(self)@, r@) == chain_asks(old(self)@, name@, *chain, env@),
    {
        let names = chain_var_names(&chain.steps);
        proof {
            assert(texts(names@).len() == names@.len());
        }
        match &chain.profiles {
            Some(profiles) => {
                if profiles.len() > 0 {
                    self.mode = Mode::ProfileSelect(
                        ProfilePicker {
                            entry_name: name,
                            profiles: copy_profiles(profiles),
                            selected: 0,
                            action: PendingAction::Run,
                        },
                    );
                    return Action::Nothing;
                }
            },
            None => {},
        }
        let nobody = StrMap::new();
        if names.len() == 0 {
            return Action::RunChain(name, nobody);
        }
        let vars = offer_vars(&names, &nobody, env);
        self.mode = Mode::var_input(name, vars, PendingAction::Run);
        Action::Nothing
    }

    /// A profile was picked, and these are the variables that the entry asks for.
    pub fn confirm_profile_select(&mut self, names: &Vec<String>, env: &StrMap) -> (r: Action)
        ensures
            (final(self)@, r@) == profile_picked(old(self)@, texts(names@), env@),
    {
        let (name, params, action) = match &self.mode {
            Mode::ProfileSelect(p) => {
                let params = if p.selected > 0 && p.selected <= p.profiles.len() {
                    p.profiles[p.selected - 1].params.clone()
                } else {
                    StrMap::new()
                };
                (p.entry_name.clone(), params, p.action)
            },
            _ => {
                return Action::Nothing;
            },
        };
        proof {
            match old(self).mode {
                Mode::ProfileSelect(p) => {
                    assert(p@.profiles.len() == p.profiles@.len());
                    if p.selected > 0 && p.selected <= p.profiles.len() {
                        assert(p@.profiles[p.selected - 1] == p.profiles@[p.selected - 1]@);
                    }
                    assert(params@ == picked_params(p@));
                },
                _ => {},
            }
        }
        let chain = self.is_chain_entry(name.as_str());
        let vars = offer_vars(names, &params, env);
        if action == PendingAction::Test {
            self.mode = Mode::test_input(name, vars);
            Action::Nothing
        } else if is_answered(names, &params) {
            start_action(name, collect_pairs(&vars), action, chain)
        } else {
            self.mode = Mode::var_input(name, vars, action);
            Action::Nothing
        }
    }

    /// A request was read to be edited, or to be cloned: then it has no name yet and
    /// stays in the project.
    pub fn request_ready(&mut self, config: RequestConfig, name: String, global: bool, clone: bool)
        ensures
            final(self)@ == (AppView {
                mode: request_form(
                    if clone {
                        draft_of(config@, None, false)
                    } else {
                        draft_of(config@, Some(name@), global)
                    },
                ),
                ..old(self)@
            }),
    {
        let draft = if clone {
            RequestDraft::from_config(config, None, false)
        } else {
            RequestDraft::from_config(config, Some(name), global)
        };
        self.mode = Mode::request_form(draft);
    }
}

/// A picked profile that answers every variable is taken at its word: what is run
/// has for each variable the value that the profile gives, whatever the environment
/// holds.
pub proof fn law_a_full_profile_is_taken_at_its_word(
    names: Seq<Seq<char>>,
    params: TextMap,
    env: TextMap,
    i: int,
)
    requires
        answers_all(names, params),
        0 <= i < names.len(),
    ensures
        collected(offers(names, params, env)).dom().contains(names[i]),
        collected(offers(names, params, env))[names[i]] == params[names[i]],
{
    lemma_collected_offers(names, params, env, i);
}

proof fn lemma_collected_offers(names: Seq<Seq<char>>, params: TextMap, env: TextMap, i: int)
    requires
        0 <= i < names.len(),
    ensures
        collected(offers(names, params, env)).dom().contains(names[i]),
        collected(offers(names, params, env))[names[i]] == offer(names[i], params, env),
    decreases names.len(),
{
    let rows = offers(names, params, env);
    let n = names.len() - 1;
    assert(rows.drop_last() =~= offers(names.drop_last(), params, env));
    assert(rows.last() == (names[n], offer(names[n], params, env)));
    if names[i] != names[n] {
        assert(names.drop_last()[i] == names[i]);
        lemma_collected_offers(names.drop_last(), params, env, i);
    }
}

// ─── The list read again ──────────────────────────────────────────────────────

/// The first entry at or after `i` of that name, or the number of entries.
pub open spec fn named_from(entries: Seq<Entry>, name: Seq<char>, i: int) -> int
    decreases entries.len() - i,
{
    if i >= entries.len() {
        entries.len() as int
    } else if entries[i].name@ == name {
        i
    } else {
        named_from(entries, name, i + 1)
    }
}

/// The first row at or after `i` that is that entry, or the number of rows.
pub open spec fn leaf_row(rows: Seq<TreeRow>, idx: int, i: int) -> int
    decreases rows.len() - i,
{
    if i >= rows.len() {
        rows.len() as int
    } else {
        match rows[i] {
            TreeRow::Leaf { entry_idx, .. } if entry_idx == idx => i,
            _ => leaf_row(rows, idx, i + 1),
        }
    }
}

/// The first place at or after `i` that holds that entry, or the number of places.
pub open spec fn place_row(left: Seq<int>, idx: int, i: int) -> int
    decreases left.len() - i,
{
    if i >= left.len() {
        left.len() as int
    } else if left[i] == idx {
        i
    } else {
        place_row(left, idx, i + 1)
    }
}

/// The row of an entry, where it has one.
pub open spec fn entry_row(a: AppView, idx: int) -> Option<int> {
    if a.filter.len() == 0 {
        let rows = listed_rows(a);
        let at = leaf_row(rows, idx, 0);
        if at < rows.len() {
            Some(at)
        } else {
            None
        }
    } else {
        let left = filtered(a.entries, a.filter);
        let at = place_row(left, idx, 0);
        if at < left.len() {
            Some(at)
        } else {
            None
        }
    }
}

/// The state with other entries, and the tree over those.
pub open spec fn with_entries(a: AppView, entries: Seq<Entry>) -> AppView {
    AppView { entries, nodes: whole_tree(entry_names(entries)), ..a }
}

/// The list read again: folders stay as they are, and the selection goes to the row
/// of the entry named, or stays in place as far as there are rows.
pub open spec fn relisted(a: AppView, entries: Seq<Entry>, target: Option<Seq<char>>) -> AppView {
    let b = with_entries(a, entries);
    let count = row_total(b);
    if count == 0 {
        AppView { selected: None, ..b }
    } else {
        let held = match a.selected {
            Some(i) => i,
            None => 0,
        };
        let fallback = if held < count {
            held
        } else {
            count - 1
        };
        let found = match target {
            Some(name) => {
                let idx = named_from(entries, name, 0);
                if idx < entries.len() {
                    entry_row(b, idx)
                } else {
                    None
                }
            },
            None => None,
        };
        AppView {
            selected: Some(
                match found {
                    Some(row) => row,
                    None => fallback,
                },
            ),
            ..b
        }
    }
}

/// The list after a deletion: the selection stays in place as far as there are rows.
pub open spec fn left_over(a: AppView, entries: Seq<Entry>) -> AppView {
    let b = with_entries(a, entries);
    let count = row_total(b);
    AppView {
        selected: if count == 0 {
            None
        } else {
            match a.selected {
                Some(i) => Some(
                    if i < count {
                        i
                    } else {
                        count - 1
                    },
                ),
                None => None,
            }
        },
        ..b
    }
}

fn find_named(entries: &Vec<Entry>, name: &str) -> (r: usize)
    ensures
        r == named_from(entries@, name@, 0),
        r <= entries.len(),
{
    let mut i: usize = 0;
    while i < entries.len()
        invariant
            i <= entries.len(),
            named_from(entries@, name@, 0) == named_from(entries@, name@, i as int),
        decreases entries.len() - i,
    {
        if str_eq(entries[i].name.as_str(), name) {
            return i;
        }
        i = i + 1;
    }
    i
}

fn find_leaf(rows: &Vec<VisibleRow>, idx: usize) -> (r: usize)
    ensures
        r == leaf_row(row_views(rows@), idx as int, 0),
        r <= rows.len(),
{
    let ghost shown = row_views(rows@);
    let mut i: usize = 0;
    while i < rows.len()
        invariant
            i <= rows.len(),
            shown == row_views(rows@),
            leaf_row(shown, idx as int, 0) == leaf_row(shown, idx as int, i as int),
        decreases rows.len() - i,
    {
        proof {
            assert(shown[i as int] == rows@[i as int]@);
        }
        match &rows[i] {
            VisibleRow::Leaf { entry_idx, .. } => {
                if *entry_idx == idx {
                    return i;
                }
            },
            VisibleRow::Folder { .. } => {},
        }
        i = i + 1;
    }
    i
}

fn find_place(left: &Vec<usize>, idx: usize) -> (r: usize)
    ensures
        r == place_row(places(left@), idx as int, 0),
        r <= left.len(),
{
    let ghost all = places(left@);
    let mut i: usize = 0;
    while i < left.len()
        invariant
            i <= left.len(),
            all == places(left@),
            place_row(all, idx as int, 0) == place_row(all, idx as int, i as int),
        decreases left.len() - i,
    {
        proof {
            assert(all[i as int] == left@[i as int] as int);
        }
        if left[i] == idx {
            return i;
        }
        i = i + 1;
    }
    i
}

impl App {
    /// The row of an entry, among the rows of the tree or those that the filter
    /// leaves.
    pub fn row_position(&self, entry_idx: usize) -> (r: Option<usize>)
        ensures
            row_opt(r) == entry_row(self@, entry_idx as int),
    {
        if self.using_tree() {
            let rows = visible_rows(&self.tree, &self.collapsed_folders);
            let at: usize = find_leaf(&rows, entry_idx);
            proof {
                assert(row_views(rows@).len() == rows@.len());
            }
            if at < rows.len() {
                Some(at)
            } else {
                None
            }
        } else {
            let left = self.filtered_indices();
            let at: usize = find_place(&left, entry_idx);
            proof {
                assert(places(left@).len() == left@.len());
            }
            if at < left.len() {
                Some(at)
            } else {
                None
            }
        }
    }

    /// The list was read again; the selection goes to the entry named.
    pub fn reload_entries(&mut self, entries: Vec<Entry>, target: Option<&str>)
        ensures
            final(self)@ == relisted(
                old(self)@,
                entries@,
                match target {
                    Some(t) => Some(t@),
                    None => None,
                },
            ),
    {
        self.tree = build_tree(&entries);
        self.entries = entries;
        let count: usize = self.visible_count();
        if count == 0 {
            self.selected = None;
            return;
        }
        let held: usize = match self.selected {
            Some(i) => i,
            None => 0,
        };
        let fallback: usize = if held < count {
            held
        } else {
            count - 1
        };
        let found = match target {
            Some(name) => {
                let idx: usize = find_named(&self.entries, name);
                if idx < self.entries.len() {
                    self.row_position(idx)
                } else {
                    None
                }
            },
            None => None,
        };
        self.selected =
        Some(
            match found {
                Some(row) => row,
                None => fallback,
            },
        );
    }

    /// An entry was deleted, and these are left.
    pub fn entry_deleted(&mut self, entries: Vec<Entry>)
        ensures
            final(self)@ == left_over(old(self)@, entries@),
    {
        self.tree = build_tree(&entries);
        self.entries = entries;
        let count: usize = self.visible_count();
        self.selected =
        if count == 0 {
            None
        } else {
            match self.selected {
                Some(i) => Some(
                    if i < count {
                        i
                    } else {
                        count - 1
                    },
                ),
                None => None,
            }
        };
    }

    /// The request of the form could not be saved: the form says why and stays.
    pub fn save_failed(&mut self, words: String)
        ensures
            final(self)@ == (AppView {
                mode: match old(self)@.mode {
                    ModeView::NewRequest(p) => ModeView::NewRequest(
                        RequestFormView { error: Some(words@), ..p },
                    ),
                    other => other,
                },
                ..old(self)@
            }),
    {
        let mut mode = Mode::Browse;
        core::mem::swap(&mut mode, &mut self.mode);
        self.mode =
        match mode {
            Mode::NewRequest(p) => {
                let mut p = p;
                p.error = Some(words);
                Mode::NewRequest(p)
            },
            other => other,
        };
    }

    /// The request of the form was saved under a name: the list is shown, on it.
    pub fn request_saved(&mut self, entries: Option<Vec<Entry>>, name: &str)
        ensures
            final(self)@ == (AppView {
                mode: ModeView::Browse,
                ..match entries {
                    Some(v) => relisted(old(self)@, v@, Some(name@)),
                    None => old(self)@,
                }
            }),
    {
        match entries {
            Some(v) => {
                self.reload_entries(v, Some(name));
            },
            None => {},
        }
        self.mode = Mode::Browse;
    }

    /// Copying the picked lines went well, or failed for a reason.
    pub fn lines_copied(&mut self, count: usize, copied: Result<(), String>)
        ensures
            final(self)@ == (AppView {
                mode: match (copied, old(self)@.mode) {
                    (Err(e), _) => message_mode(KindView::Error, "Copy failed: "@ + e@),
                    (Ok(_), ModeView::Response(p)) => ModeView::Response(
                        ResponseView { anchor: None, status: Some(lines_note(count as nat)), ..p },
                    ),
                    (Ok(_), other) => other,
                },
                ..old(self)@
            }),
    {
        match copied {
            Err(e) => {
                self.show_message(ResponseKind::Error, concat2("Copy failed: ", e.as_str()));
            },
            Ok(_) => {
                let mut mode = Mode::Browse;
                core::mem::swap(&mut mode, &mut self.mode);
                self.mode =
                match mode {
                    Mode::Response(p) => {
                        let mut p = p;
                        p.note_lines_copied(count);
                        Mode::Response(p)
                    },
                    other => other,
                };
            },
        }
    }

    /// Copying the whole view went well, or failed for a reason.
    pub fn all_copied(&mut self, copied: Result<(), String>)
        ensures
            final(self)@ == (AppView {
                mode: match (copied, old(self)@.mode) {
                    (Err(e), _) => message_mode(KindView::Error, "Copy failed: "@ + e@),
                    (Ok(_), ModeView::Response(p)) => ModeView::Response(
                        ResponseView {
                            status: Some(
                                if p.filter.len() == 0 {
                                    "copied response"@
                                } else {
                                    "copied filtered lines"@
                                },
                            ),
                            ..p
                        },
                    ),
                    (Ok(_), other) => other,
                },
                ..old(self)@
            }),
    {
        match copied {
            Err(e) => {
                self.show_message(ResponseKind::Error, concat2("Copy failed: ", e.as_str()));
            },
            Ok(_) => {
                let mut mode = Mode::Browse;
                core::mem::swap(&mut mode, &mut self.mode);
                self.mode =
                match mode {
                    Mode::Response(p) => {
                        let mut p = p;
                        p.note_all_copied();
                        Mode::Response(p)
                    },
                    other => other,
                };
            },
        }
    }
}

proof fn lemma_leaf_row(rows: Seq<TreeRow>, idx: int, i: int)
    requires
        0 <= i <= rows.len(),
    ensures
        i <= leaf_row(rows, idx, i) <= rows.len(),
    decreases rows.len() - i,
{
    if i < rows.len() {
        lemma_leaf_row(rows, idx, i + 1);
    }
}

proof fn lemma_place_row(left: Seq<int>, idx: int, i: int)
    requires
        0 <= i <= left.len(),
    ensures
        i <= place_row(left, idx, i) <= left.len(),
    decreases left.len() - i,
{
    if i < left.len() {
        lemma_place_row(left, idx, i + 1);
    }
}

/// However the list changed on disk, the selection is a row of it, or there is no
/// row; and no folder opens or closes.
pub proof fn law_a_reload_keeps_the_selection_on_a_row(
    a: AppView,
    entries: Seq<Entry>,
    target: Option<Seq<char>>,
)
    requires
        a.selected matches Some(i) ==> i >= 0,
    ensures
        ({
            let b = relisted(a, entries, target);
            &&& b.collapsed == a.collapsed
            &&& b.filter == a.filter
            &&& match b.selected {
                Some(i) => 0 <= i < row_total(b),
                None => row_total(b) == 0,
            }
        }),
{
    let b = with_entries(a, entries);
    let idx = match target {
        Some(name) => named_from(entries, name, 0),
        None => 0,
    };
    lemma_leaf_row(listed_rows(b), idx, 0);
    lemma_place_row(filtered(entries, a.filter), idx, 0);
}

} // verus!
