//! The request form: a request being written, and the panes that write its parts.
use vstd::prelude::*;
use vstd::string::*;

use crate::commands::path_for;
use crate::config::{global_path, request_path, str_opt};
use crate::curl_parse::{collect_pairs, collected, header_from, lemma_collected_names, lemma_header_from};
use crate::edit::{landed_on, opened_on, Edit, EditView};
use crate::order::{rows_of, Row};
use crate::request::{
    body_opt, copy_body, copy_map, copy_profiles, copy_text, map_opt, profile_views, text_opt, Body, BodyView,
    Profile, ProfileView, RequestConfig, RequestView, TextMap,
};
use crate::strmap::{listing, StrMap};
use crate::text::{
    ascii_lower, chars_of, concat3, contains, eq_ignoring_case, occurs, same_ignoring_case, str_eq, texts,
    trim, trimmed,
};
use crate::unicode::{to_uppercase, uppercase};

verus! {

// ─── The draft ────────────────────────────────────────────────────────────────

/// The request being created or edited. The form edits four fields; the rest of the
/// request is carried along, since an imported or cloned one has no file to read it
/// from again.
#[derive(Debug, PartialEq, Eq)]
pub struct RequestDraft {
    /// Label and value: name, method, url, description.
    pub fields: Vec<(String, String)>,
    /// The text fields first, then the action rows.
    pub focused: usize,
    /// The caret in the focused field.
    pub edit: Edit,
    pub profiles: Vec<Profile>,
    /// The name of the request being edited; none when creating one.
    pub original_name: Option<String>,
    pub global: bool,
    pub headers: StrMap,
    pub query: StrMap,
    pub body: Option<Body>,
    pub extract: Option<StrMap>,
}

/// The same, as text.
pub ghost struct DraftView {
    pub fields: Seq<Row>,
    pub focused: int,
    pub edit: EditView,
    pub profiles: Seq<ProfileView>,
    pub original_name: Option<Seq<char>>,
    pub global: bool,
    pub headers: TextMap,
    pub query: TextMap,
    pub body: Option<BodyView>,
    pub extract: Option<TextMap>,
}

impl View for RequestDraft {
    type V = DraftView;

    open spec fn view(&self) -> DraftView {
        DraftView {
            fields: rows_of(self.fields@),
            focused: self.focused as int,
            edit: self.edit@,
            profiles: profile_views(self.profiles@),
            original_name: text_opt(self.original_name),
            global: self.global,
            headers: self.headers@,
            query: self.query@,
            body: body_opt(self.body),
            extract: map_opt(self.extract),
        }
    }
}

/// What a focus index of the form points at: text, or a row that is an action.
#[derive(Debug, Clone, Copy, PartialEq, Eq, Structural)]
pub enum Focus {
    Field(usize),
    Global,
    Headers,
    Query,
    Profiles,
}

/// The labels of the four fields with their values.
pub open spec fn form_rows(
    name: Seq<char>,
    method: Seq<char>,
    url: Seq<char>,
    description: Seq<char>,
) -> Seq<Row> {
    seq![
        ("name"@, name),
        ("method"@, method),
        ("url"@, url),
        ("description"@, description),
    ]
}

/// A form with nothing in it but the method.
pub open spec fn blank_draft() -> DraftView {
    DraftView {
        fields: form_rows(Seq::empty(), "GET"@, Seq::empty(), Seq::empty()),
        focused: 0,
        edit: opened_on(Seq::empty()),
        profiles: Seq::empty(),
        original_name: None,
        global: false,
        headers: Map::empty(),
        query: Map::empty(),
        body: None,
        extract: None,
    }
}

/// The text, or none.
pub open spec fn text_or_empty(o: Option<Seq<char>>) -> Seq<char> {
    match o {
        Some(s) => s,
        None => Seq::empty(),
    }
}

/// The form of a request: every part of it but the name, which is the one it is
/// edited under.
pub open spec fn draft_of(config: RequestView, original_name: Option<Seq<char>>, global: bool) -> DraftView {
    let name = text_or_empty(original_name);
    DraftView {
        fields: form_rows(name, config.method, config.url, text_or_empty(config.description)),
        focused: 0,
        edit: opened_on(name),
        profiles: match config.profiles {
            Some(p) => p,
            None => Seq::empty(),
        },
        original_name,
        global,
        headers: config.headers,
        query: config.query,
        body: config.body,
        extract: config.extract,
    }
}

fn form_fields(name: String, method: String, url: String, description: String) -> (r: Vec<
    (String, String),
>)
    ensures
        rows_of(r@) == form_rows(name@, method@, url@, description@),
{
    let mut r: Vec<(String, String)> = Vec::new();
    r.push(("name".to_owned(), name));
    r.push(("method".to_owned(), method));
    r.push(("url".to_owned(), url));
    r.push(("description".to_owned(), description));
    proof {
        assert(rows_of(r@) =~= form_rows(name@, method@, url@, description@));
    }
    r
}

/// What a focus index of a form with `n` fields points at. The order is the one
/// the rows are drawn in.
pub open spec fn target_of(focused: int, n: int) -> Focus {
    if focused < n {
        Focus::Field(focused as usize)
    } else if focused == n {
        Focus::Global
    } else if focused == n + 1 {
        Focus::Headers
    } else if focused == n + 2 {
        Focus::Query
    } else {
        Focus::Profiles
    }
}

/// The row after or before another of `total`, wrapping at both ends.
pub open spec fn stepped_row(focused: int, total: int, forward: bool) -> int {
    if forward {
        if focused + 1 < total {
            focused + 1
        } else {
            0
        }
    } else if focused == 0 || focused > total {
        total - 1
    } else {
        focused - 1
    }
}

/// The row after or before another, wrapping at both ends.
pub fn step_row(focused: usize, total: usize, forward: bool) -> (r: usize)
    requires
        total > 0,
    ensures
        r == stepped_row(focused as int, total as int, forward),
        r < total,
{
    if forward {
        if focused < total - 1 {
            focused + 1
        } else {
            0
        }
    } else if focused == 0 || focused > total {
        total - 1
    } else {
        focused - 1
    }
}

/// The draft with focus moved: a field that takes it gets a caret at its end, in
/// the mode the caret was in.
pub open spec fn focused_at(d: DraftView, idx: int) -> DraftView {
    if 0 <= idx < d.fields.len() {
        DraftView { focused: idx, edit: landed_on(d.fields[idx].1, d.edit.insert), ..d }
    } else {
        DraftView { focused: idx, ..d }
    }
}

/// The number of rows of a form with `n` fields, as far as a machine word counts:
/// the fields, then the four action rows.
pub open spec fn row_count(n: int) -> int {
    if n + 4 <= usize::MAX {
        n + 4
    } else {
        usize::MAX as int
    }
}

/// The draft with focus one row on or back.
pub open spec fn focus_stepped(d: DraftView, forward: bool) -> DraftView {
    focused_at(d, stepped_row(d.focused, row_count(d.fields.len() as int), forward))
}

impl RequestDraft {
    /// A form to start a request in.
    pub fn blank() -> (r: RequestDraft)
        ensures
            r@ == blank_draft(),
    {
        let r = RequestDraft {
            fields: form_fields(String::new(), "GET".to_owned(), String::new(), String::new()),
            focused: 0,
            edit: Edit::default(),
            profiles: Vec::new(),
            original_name: None,
            global: false,
            headers: StrMap::new(),
            query: StrMap::new(),
            body: None,
            extract: None,
        };
        proof {
            assert(r@.profiles =~= Seq::empty());
        }
        r
    }

    /// A form to change a request in: one that is stored under `original_name`, or
    /// one that has no name yet.
    pub fn from_config(config: RequestConfig, original_name: Option<String>, global: bool) -> (r:
        RequestDraft)
        ensures
            r@ == draft_of(config@, text_opt(original_name), global),
    {
        let name = match &original_name {
            Some(n) => n.clone(),
            None => String::new(),
        };
        let description = match config.description {
            Some(d) => d,
            None => String::new(),
        };
        let profiles = match config.profiles {
            Some(p) => p,
            None => Vec::new(),
        };
        proof {
            if config.profiles is None {
                assert(profile_views(profiles@) =~= Seq::empty());
            }
        }
        let edit = Edit::at_end(name.as_str());
        RequestDraft {
            fields: form_fields(name, config.method, config.url, description),
            focused: 0,
            edit,
            profiles,
            original_name,
            global,
            headers: config.headers,
            query: config.query,
            body: config.body,
            extract: config.extract,
        }
    }

    pub fn headers(&self) -> (r: &StrMap)
        ensures
            r@ == self@.headers,
    {
        &self.headers
    }

    pub fn query(&self) -> (r: &StrMap)
        ensures
            r@ == self@.query,
    {
        &self.query
    }

    /// The number of Tab stops: the text fields, then the four action rows.
    pub fn rows(&self) -> (r: usize)
        ensures
            r == row_count(self@.fields.len() as int),
            r >= 4,
    {
        self.fields.len().saturating_add(4)
    }

    /// What the focus points at.
    pub fn focus_target(&self) -> (r: Focus)
        ensures
            r == target_of(self@.focused, self@.fields.len() as int),
    {
        let n: usize = self.fields.len();
        if self.focused < n {
            Focus::Field(self.focused)
        } else if self.focused == n {
            Focus::Global
        } else if self.focused - n == 1 {
            Focus::Headers
        } else if self.focused - n == 2 {
            Focus::Query
        } else {
            Focus::Profiles
        }
    }

    /// Moves focus, and puts the caret at the end of the field it lands on.
    pub fn focus(&mut self, idx: usize)
        ensures
            final(self)@ == focused_at(old(self)@, idx as int),
    {
        self.focused = idx;
        if idx < self.fields.len() {
            let insert = self.edit.insert;
            self.edit = Edit::landing(self.fields[idx].1.as_str(), insert);
        }
    }

    /// Moves focus one row on or back.
    pub fn step_focus(&mut self, forward: bool)
        ensures
            final(self)@ == focus_stepped(old(self)@, forward),
    {
        let total: usize = self.rows();
        let to: usize = step_row(self.focused, total, forward);
        self.focus(to);
    }
}

impl Clone for RequestDraft {
    fn clone(&self) -> (r: RequestDraft)
        ensures
            r@ == self@,
    {
        RequestDraft {
            fields: copy_pairs(&self.fields),
            focused: self.focused,
            edit: self.edit.clone(),
            profiles: copy_profiles(&self.profiles),
            original_name: copy_text(&self.original_name),
            global: self.global,
            headers: self.headers.clone(),
            query: self.query.clone(),
            body: copy_body(&self.body),
            extract: copy_map(&self.extract),
        }
    }
}

/// The same pairs again.
pub fn copy_pairs(pairs: &Vec<(String, String)>) -> (r: Vec<(String, String)>)
    ensures
        rows_of(r@) == rows_of(pairs@),
{
    let mut r: Vec<(String, String)> = Vec::new();
    let mut i: usize = 0;
    while i < pairs.len()
        invariant
            i <= pairs.len(),
            rows_of(r@) == rows_of(pairs@).take(i as int),
        decreases pairs.len() - i,
    {
        let ghost before = rows_of(r@);
        let p = &pairs[i];
        r.push((p.0.clone(), p.1.clone()));
        proof {
            let row = rows_of(pairs@)[i as int];
            assert(rows_of(r@) =~= before.push(row));
            assert(rows_of(pairs@).take(i + 1) =~= before.push(row));
        }
        i = i + 1;
    }
    proof {
        assert(rows_of(pairs@).take(pairs@.len() as int) =~= rows_of(pairs@));
    }
    r
}

// ─── Headers and query ────────────────────────────────────────────────────────

/// Which of the draft's two maps a pane edits.
#[derive(Debug, Clone, Copy, PartialEq, Eq, Structural)]
pub enum PairKind {
    Headers,
    Query,
}

/// Some row goes by the name.
pub open spec fn clashes(rows: Seq<Row>, name: Seq<char>, kind: PairKind) -> bool {
    exists|i: int| 0 <= i < rows.len() && same_name((#[trigger] rows[i]).0, name, kind)
}

/// Two names are one: up to ASCII case for headers, exactly for the query.
pub open spec fn same_name(a: Seq<char>, b: Seq<char>, kind: PairKind) -> bool {
    match kind {
        PairKind::Headers => same_ignoring_case(a, b),
        PairKind::Query => a == b,
    }
}

/// The first `n` rows as they are kept, or the name that occurs twice: names and
/// values are trimmed, and a row without a name is dropped.
pub open spec fn kept_rows(rows: Seq<Row>, n: int, kind: PairKind) -> Result<Seq<Row>, Seq<char>>
    decreases n,
{
    if n <= 0 {
        Ok(Seq::empty())
    } else {
        match kept_rows(rows, n - 1, kind) {
            Err(name) => Err(name),
            Ok(kept) => {
                let name = trimmed(rows[n - 1].0);
                if name.len() == 0 {
                    Ok(kept)
                } else if clashes(kept, name, kind) {
                    Err(name)
                } else {
                    Ok(kept.push((name, trimmed(rows[n - 1].1))))
                }
            },
        }
    }
}

/// What is reported of a name that occurs twice.
pub open spec fn clash_text(name: Seq<char>, kind: PairKind) -> Seq<char> {
    match kind {
        PairKind::Headers => "Duplicate header '"@ + name + "'"@,
        PairKind::Query => "Duplicate query param '"@ + name + "'"@,
    }
}

/// The draft with the rows of a pane taken over. A request with a body keeps its
/// content type there and not among the headers.
pub open spec fn rows_applied(d: DraftView, rows: Seq<Row>, kind: PairKind) -> Result<
    DraftView,
    Seq<char>,
> {
    match kept_rows(rows, rows.len() as int, kind) {
        Err(name) => Err(clash_text(name, kind)),
        Ok(kept) => match kind {
            PairKind::Query => Ok(DraftView { query: collected(kept), ..d }),
            PairKind::Headers => {
                let at = header_from(kept, "content-type"@, 0);
                match d.body {
                    Some(body) if at < kept.len() => Ok(
                        DraftView {
                            headers: collected(kept.remove(at)),
                            body: Some(
                                if kept[at].1.len() == 0 {
                                    body
                                } else {
                                    BodyView { content_type: kept[at].1, ..body }
                                },
                            ),
                            ..d
                        },
                    ),
                    _ => Ok(DraftView { headers: collected(kept), ..d }),
                }
            },
        },
    }
}

fn name_clashes(kept: &Vec<(String, String)>, name: &str, kind: PairKind) -> (r: bool)
    ensures
        r == clashes(rows_of(kept@), name@, kind),
{
    let ghost rows = rows_of(kept@);
    let mut i: usize = 0;
    while i < kept.len()
        invariant
            i <= kept.len(),
            rows == rows_of(kept@),
            forall|j: int| 0 <= j < i ==> !same_name((#[trigger] rows[j]).0, name@, kind),
        decreases kept.len() - i,
    {
        let same = match kind {
            PairKind::Headers => eq_ignoring_case(kept[i].0.as_str(), name),
            PairKind::Query => str_eq(kept[i].0.as_str(), name),
        };
        proof {
            assert(rows[i as int].0 == kept@[i as int].0@);
        }
        if same {
            return true;
        }
        i = i + 1;
    }
    false
}

fn keep_rows(pairs: &Vec<(String, String)>, kind: PairKind) -> (r: Result<
    Vec<(String, String)>,
    String,
>)
    ensures
        kept_rows(rows_of(pairs@), pairs@.len() as int, kind) matches Ok(k) ==> (r matches Ok(v)
            && rows_of(v@) == k),
        kept_rows(rows_of(pairs@), pairs@.len() as int, kind) matches Err(n) ==> (r matches Err(e)
            && e@ == n),
{
    let mut kept: Vec<(String, String)> = Vec::new();
    let ghost rows = rows_of(pairs@);
    let mut i: usize = 0;
    proof {
        assert(rows_of(kept@) =~= Seq::empty());
    }
    while i < pairs.len()
        invariant
            i <= pairs.len(),
            rows == rows_of(pairs@),
            kept_rows(rows, i as int, kind) == Ok::<Seq<Row>, Seq<char>>(rows_of(kept@)),
        decreases pairs.len() - i,
    {
        let name = trim(pairs[i].0.as_str());
        proof {
            assert(rows[i as int] == (pairs@[i as int].0@, pairs@[i as int].1@));
        }
        if !name.as_str().is_empty() {
            if name_clashes(&kept, name.as_str(), kind) {
                proof {
                    lemma_kept_fails(rows, i + 1, pairs@.len() as int, kind);
                }
                return Err(name);
            }
            let value = trim(pairs[i].1.as_str());
            let ghost before = rows_of(kept@);
            kept.push((name, value));
            proof {
                assert(rows_of(kept@) =~= before.push((name@, value@)));
            }
        }
        i = i + 1;
    }
    Ok(kept)
}

proof fn lemma_kept_fails(rows: Seq<Row>, k: int, n: int, kind: PairKind)
    requires
        0 <= k <= n,
        kept_rows(rows, k, kind) is Err,
    ensures
        kept_rows(rows, n, kind) == kept_rows(rows, k, kind),
    decreases n - k,
{
    if k < n {
        lemma_kept_fails(rows, k, n - 1, kind);
    }
}

fn first_named(kept: &Vec<(String, String)>, name: &str) -> (r: Option<usize>)
    ensures
        r matches Some(i) ==> i < kept.len() && i == header_from(rows_of(kept@), name@, 0),
        r is None ==> header_from(rows_of(kept@), name@, 0) == kept.len(),
{
    let ghost rows = rows_of(kept@);
    let mut i: usize = 0;
    while i < kept.len()
        invariant
            i <= kept.len(),
            rows == rows_of(kept@),
            header_from(rows, name@, 0) == header_from(rows, name@, i as int),
        decreases kept.len() - i,
    {
        if eq_ignoring_case(kept[i].0.as_str(), name) {
            return Some(i);
        }
        i = i + 1;
    }
    None
}

/// Folds edited header rows back into a draft, or refuses them by name.
pub fn apply_headers(draft: &mut RequestDraft, pairs: &Vec<(String, String)>) -> (r: Result<
    (),
    String,
>)
    ensures
        rows_applied(old(draft)@, rows_of(pairs@), PairKind::Headers) matches Ok(d) ==> r is Ok
            && final(draft)@ == d,
        rows_applied(old(draft)@, rows_of(pairs@), PairKind::Headers) matches Err(t) ==> (
        r matches Err(e) && e@ == t && final(draft)@ == old(draft)@),
{
    let mut kept = match keep_rows(pairs, PairKind::Headers) {
        Ok(k) => k,
        Err(name) => {
            return Err(concat3("Duplicate header '", name.as_str(), "'"));
        },
    };
    match first_named(&kept, "content-type") {
        Some(at) => {
            match &draft.body {
                Some(body) => {
                    let ghost rows = rows_of(kept@);
                    let pair = kept.remove(at);
                    proof {
                        assert(rows_of(kept@) =~= rows.remove(at as int));
                    }
                    if !pair.1.as_str().is_empty() {
                        let data = body.data.clone();
                        draft.body = Some(Body { content_type: pair.1, data });
                    }
                },
                None => {},
            }
        },
        None => {},
    }
    draft.headers = collect_pairs(&kept);
    Ok(())
}

/// Folds edited query rows back into a draft, or refuses them by name.
pub fn apply_query(draft: &mut RequestDraft, pairs: &Vec<(String, String)>) -> (r: Result<
    (),
    String,
>)
    ensures
        rows_applied(old(draft)@, rows_of(pairs@), PairKind::Query) matches Ok(d) ==> r is Ok
            && final(draft)@ == d,
        rows_applied(old(draft)@, rows_of(pairs@), PairKind::Query) matches Err(t) ==> (
        r matches Err(e) && e@ == t && final(draft)@ == old(draft)@),
{
    match keep_rows(pairs, PairKind::Query) {
        Ok(kept) => {
            draft.query = collect_pairs(&kept);
            Ok(())
        },
        Err(name) => Err(concat3("Duplicate query param '", name.as_str(), "'")),
    }
}

/// The rows a pane of the kind opens with.
pub open spec fn pane_rows(d: DraftView, kind: PairKind) -> Seq<Row> {
    listing(
        match kind {
            PairKind::Headers => d.headers,
            PairKind::Query => d.query,
        },
    )
}

impl PairKind {
    /// The pane's title.
    pub open spec fn pane_name(self) -> Seq<char> {
        match self {
            PairKind::Headers => " Headers "@,
            PairKind::Query => " Query params "@,
        }
    }

    /// What the pane says when there is nothing in it.
    pub open spec fn pane_hint(self) -> Seq<char> {
        match self {
            PairKind::Headers => "  No headers. Ctrl+a adds one."@,
            PairKind::Query => "  No query params. Ctrl+a adds one."@,
        }
    }

    /// The pane's title.
    pub fn title(self) -> (r: &'static str)
        ensures
            r@ == self.pane_name(),
    {
        match self {
            PairKind::Headers => " Headers ",
            PairKind::Query => " Query params ",
        }
    }

    /// The noun for one row.
    pub open spec fn row_noun(self) -> Seq<char> {
        match self {
            PairKind::Headers => "header"@,
            PairKind::Query => "param"@,
        }
    }

    /// The noun for one row.
    pub fn noun(self) -> (r: &'static str)
        ensures
            r@ == self.row_noun(),
    {
        match self {
            PairKind::Headers => "header",
            PairKind::Query => "param",
        }
    }

    /// What the pane says when there is nothing in it.
    pub fn empty_hint(self) -> (r: &'static str)
        ensures
            r@ == self.pane_hint(),
    {
        match self {
            PairKind::Headers => "  No headers. Ctrl+a adds one.",
            PairKind::Query => "  No query params. Ctrl+a adds one.",
        }
    }

    /// The draft's rows of this kind, in name order.
    pub fn pairs(self, draft: &RequestDraft) -> (r: Vec<(String, String)>)
        ensures
            rows_of(r@) == pane_rows(draft@, self),
    {
        match self {
            PairKind::Headers => draft.headers.to_pairs(),
            PairKind::Query => draft.query.to_pairs(),
        }
    }

    /// Folds edited rows back into the draft, or refuses them by name.
    pub fn apply(self, draft: &mut RequestDraft, pairs: &Vec<(String, String)>) -> (r: Result<
        (),
        String,
    >)
        ensures
            rows_applied(old(draft)@, rows_of(pairs@), self) matches Ok(d) ==> r is Ok
                && final(draft)@ == d,
            rows_applied(old(draft)@, rows_of(pairs@), self) matches Err(t) ==> (r matches Err(e)
                && e@ == t && final(draft)@ == old(draft)@),
    {
        match self {
            PairKind::Headers => apply_headers(draft, pairs),
            PairKind::Query => apply_query(draft, pairs),
        }
    }
}

// ─── The body ─────────────────────────────────────────────────────────────────

/// The draft with the body pane taken over. An empty body is none; a body without
/// a content type is refused; a request that gets a body hands its content type
/// header over to it. The data is kept as typed.
pub open spec fn body_applied(d: DraftView, content_type: Seq<char>, data: Seq<char>) -> Result<
    DraftView,
    Seq<char>,
> {
    let kind = trimmed(content_type);
    if data.len() == 0 {
        Ok(DraftView { body: None, ..d })
    } else if kind.len() == 0 {
        Err("Content type is required"@)
    } else {
        let rows = listing(d.headers);
        let at = header_from(rows, "content-type"@, 0);
        Ok(
            DraftView {
                body: Some(BodyView { content_type: kind, data }),
                headers: if at < rows.len() {
                    collected(rows.remove(at))
                } else {
                    d.headers
                },
                ..d
            },
        )
    }
}

/// Folds the body pane back into a draft.
pub fn apply_body(draft: &mut RequestDraft, content_type: &str, data: &str) -> (r: Result<
    (),
    String,
>)
    ensures
        body_applied(old(draft)@, content_type@, data@) matches Ok(d) ==> r is Ok && final(draft)@
            == d,
        body_applied(old(draft)@, content_type@, data@) matches Err(t) ==> (r matches Err(e) && e@
            == t && final(draft)@ == old(draft)@),
{
    if data.is_empty() {
        draft.body = None;
        return Ok(());
    }
    let kind = trim(content_type);
    if kind.as_str().is_empty() {
        return Err("Content type is required".to_owned());
    }
    let mut rows = draft.headers.to_pairs();
    match first_named(&rows, "content-type") {
        Some(at) => {
            let ghost before = rows_of(rows@);
            let pair = rows.remove(at);
            proof {
                assert(rows_of(rows@) =~= before.remove(at as int));
            }
            draft.headers = collect_pairs(&rows);
        },
        None => {},
    }
    draft.body = Some(Body { content_type: kind, data: data.to_owned() });
    Ok(())
}

/// The content type the body pane opens on: that of the header where there is one,
/// that of the body where there is one, and JSON otherwise.
pub open spec fn opening_type(d: DraftView) -> Seq<char> {
    let rows = listing(d.headers);
    let at = header_from(rows, "content-type"@, 0);
    if at < rows.len() {
        rows[at].1
    } else {
        match d.body {
            Some(b) => b.content_type,
            None => "application/json"@,
        }
    }
}

/// The data the body pane opens on.
pub open spec fn opening_data(d: DraftView) -> Seq<char> {
    match d.body {
        Some(b) => b.data,
        None => Seq::empty(),
    }
}

/// What the body pane opens on: the content type and the data.
pub fn body_opening(draft: &RequestDraft) -> (r: (String, String))
    ensures
        r.0@ == opening_type(draft@),
        r.1@ == opening_data(draft@),
{
    let rows = draft.headers.to_pairs();
    let content_type = match first_named(&rows, "content-type") {
        Some(at) => rows[at].1.clone(),
        None => match &draft.body {
            Some(b) => b.content_type.clone(),
            None => "application/json".to_owned(),
        },
    };
    let data = match &draft.body {
        Some(b) => b.data.clone(),
        None => String::new(),
    };
    (content_type, data)
}

// ─── Profiles ─────────────────────────────────────────────────────────────────

/// Another profile than the one being edited goes by the name.
pub open spec fn name_taken(
    profiles: Seq<ProfileView>,
    name: Seq<char>,
    editing: Option<int>,
) -> bool {
    exists|i: int|
        0 <= i < profiles.len() && (#[trigger] profiles[i]).name == name && Some(i) != editing
}

/// The profiles with one placed, and where: over the one being edited, or behind
/// the last. A name that another has is refused.
pub open spec fn placed(
    profiles: Seq<ProfileView>,
    profile: ProfileView,
    editing: Option<int>,
) -> Result<(Seq<ProfileView>, int), Seq<char>> {
    if name_taken(profiles, profile.name, editing) {
        Err("A profile named '"@ + profile.name + "' already exists"@)
    } else {
        match editing {
            Some(i) if 0 <= i < profiles.len() => Ok((profiles.update(i, profile), i)),
            _ => Ok((profiles.push(profile), profiles.len() as int)),
        }
    }
}

/// An optional index.
pub open spec fn index_opt(o: Option<usize>) -> Option<int> {
    match o {
        Some(i) => Some(i as int),
        None => None,
    }
}

/// Places a profile: replacing the one at `editing`, or behind the last. Hands back
/// where it landed.
pub fn upsert_profile(profiles: &mut Vec<Profile>, profile: Profile, editing: Option<usize>) -> (r:
    Result<usize, String>)
    ensures
        placed(profile_views(old(profiles)@), profile@, index_opt(editing)) matches Ok(p) ==> (
        r matches Ok(i) && i == p.1 && profile_views(final(profiles)@) == p.0),
        placed(profile_views(old(profiles)@), profile@, index_opt(editing)) matches Err(t) ==> (
        r matches Err(e) && e@ == t && final(profiles)@ == old(profiles)@),
{
    let ghost held = profile_views(profiles@);
    let mut i: usize = 0;
    while i < profiles.len()
        invariant
            i <= profiles.len(),
            profiles@ == old(profiles)@,
            held == profile_views(profiles@),
            forall|j: int|
                0 <= j < i ==> !((#[trigger] held[j]).name == profile@.name && Some(j)
                    != index_opt(editing)),
        decreases profiles.len() - i,
    {
        let own = match editing {
            Some(k) => k == i,
            None => false,
        };
        proof {
            assert(held[i as int].name == profiles@[i as int].name@);
        }
        if !own && str_eq(profiles[i].name.as_str(), profile.name.as_str()) {
            proof {
                assert(held[i as int].name == profile@.name && Some(i as int) != index_opt(editing));
                assert(name_taken(held, profile@.name, index_opt(editing)));
            }
            return Err(
                concat3("A profile named '", profile.name.as_str(), "' already exists"),
            );
        }
        i = i + 1;
    }
    match editing {
        Some(k) => {
            if k < profiles.len() {
                profiles.set(k, profile);
                proof {
                    assert(profile_views(profiles@) =~= held.update(k as int, profile@));
                }
                return Ok(k);
            }
        },
        None => {},
    }
    let at: usize = profiles.len();
    profiles.push(profile);
    proof {
        assert(profile_views(profiles@) =~= held.push(profile@));
    }
    Ok(at)
}

/// The parameters of a profile as they are kept: trimmed, and those without a name
/// dropped.
pub open spec fn kept_params(rows: Seq<Row>, n: int) -> Seq<Row>
    decreases n,
{
    if n <= 0 {
        Seq::empty()
    } else {
        let before = kept_params(rows, n - 1);
        let name = trimmed(rows[n - 1].0);
        if name.len() == 0 {
            before
        } else {
            before.push((name, trimmed(rows[n - 1].1)))
        }
    }
}

/// The profile that a pane describes; one without a name is refused.
pub open spec fn profile_of(name: Seq<char>, params: Seq<Row>) -> Result<ProfileView, Seq<char>> {
    if trimmed(name).len() == 0 {
        Err("Profile name is required"@)
    } else {
        Ok(
            ProfileView {
                name: trimmed(name),
                params: collected(kept_params(params, params.len() as int)),
            },
        )
    }
}

/// Makes the profile that a pane describes.
pub fn make_profile(name: &str, params: &Vec<(String, String)>) -> (r: Result<Profile, String>)
    ensures
        profile_of(name@, rows_of(params@)) matches Ok(p) ==> (r matches Ok(q) && q@ == p),
        profile_of(name@, rows_of(params@)) matches Err(t) ==> (r matches Err(e) && e@ == t),
{
    let name = trim(name);
    if name.as_str().is_empty() {
        return Err("Profile name is required".to_owned());
    }
    let mut kept: Vec<(String, String)> = Vec::new();
    let ghost rows = rows_of(params@);
    let mut i: usize = 0;
    proof {
        assert(rows_of(kept@) =~= Seq::empty());
    }
    while i < params.len()
        invariant
            i <= params.len(),
            rows == rows_of(params@),
            rows_of(kept@) == kept_params(rows, i as int),
        decreases params.len() - i,
    {
        let key = trim(params[i].0.as_str());
        if !key.as_str().is_empty() {
            let value = trim(params[i].1.as_str());
            let ghost before = rows_of(kept@);
            kept.push((key, value));
            proof {
                assert(rows_of(kept@) =~= before.push((key@, value@)));
            }
        }
        i = i + 1;
    }
    Ok(Profile { name, params: collect_pairs(&kept) })
}

// ─── Saving ───────────────────────────────────────────────────────────────────

/// The value of a field, or nothing where there is no such field.
pub open spec fn field_value(fields: Seq<Row>, i: int) -> Seq<char> {
    if 0 <= i < fields.len() {
        fields[i].1
    } else {
        Seq::empty()
    }
}

/// A name that would not make a file below the request directory.
pub open spec fn bad_name(name: Seq<char>) -> bool {
    ||| name.contains('\\')
    ||| name.contains('.')
    ||| name.len() > 0 && name[0] == '/'
    ||| name.len() > 0 && name.last() == '/'
    ||| occurs(name, "//"@)
}

/// The request a form describes, or what is missing.
pub open spec fn request_of(d: DraftView) -> Result<RequestView, Seq<char>> {
    request_as(d, uppercase(trimmed(field_value(d.fields, 1))))
}

/// The request that a draft describes under a method, or what it lacks.
pub open spec fn request_as(d: DraftView, method: Seq<char>) -> Result<RequestView, Seq<char>> {
    let name = trimmed(field_value(d.fields, 0));
    let url = trimmed(field_value(d.fields, 2));
    let description = trimmed(field_value(d.fields, 3));
    if name.len() == 0 {
        Err("Name is required"@)
    } else if bad_name(name) {
        Err("Invalid name (use folder/name for subfolders)"@)
    } else if method.len() == 0 {
        Err("Method is required"@)
    } else if url.len() == 0 {
        Err("URL is required"@)
    } else {
        Ok(
            RequestView {
                name,
                method,
                url,
                description: if description.len() == 0 {
                    None
                } else {
                    Some(description)
                },
                headers: d.headers,
                query: d.query,
                body: d.body,
                extract: d.extract,
                profiles: if d.profiles.len() == 0 {
                    None
                } else {
                    Some(d.profiles)
                },
            },
        )
    }
}

/// What saving a form comes to.
#[derive(Debug, PartialEq, Eq)]
pub struct SavePlan {
    pub config: RequestConfig,
    /// The file to write.
    pub path: String,
    /// Whether a file that is there already is in the way.
    pub must_be_new: bool,
    /// The file the request was under before it was renamed.
    pub old_path: Option<String>,
}

/// The file of a request in a scope.
pub open spec fn scope_path(name: Seq<char>, global: bool, home: Option<Seq<char>>) -> Seq<char> {
    request_path(
        if global {
            global_path(home)
        } else {
            ".ichigo"@
        },
        name,
    )
}

/// The value of a field, empty where there is no such field.
pub fn value_at(fields: &Vec<(String, String)>, i: usize) -> (r: String)
    ensures
        r@ == field_value(rows_of(fields@), i as int),
{
    if i < fields.len() {
        fields[i].1.clone()
    } else {
        String::new()
    }
}

fn is_bad_name(name: &str) -> (r: bool)
    ensures
        r == bad_name(name@),
{
    let v = chars_of(name);
    let n: usize = v.len();
    crate::text::contains_char(name, '\\') || crate::text::contains_char(name, '.') || (n > 0
        && v[0] == '/') || (n > 0 && v[n - 1] == '/') || contains(name, "//")
}

/// What saving comes to for a request: where it goes, whether nothing may be there
/// yet, and what a rename leaves behind.
pub open spec fn planned(d: DraftView, c: RequestView, home: Option<Seq<char>>, plan: SavePlan) -> bool {
    let renamed = d.original_name != Some(c.name);
    &&& plan.config@ == c
    &&& plan.path@ == scope_path(c.name, d.global, home)
    &&& plan.must_be_new == renamed
    &&& text_opt(plan.old_path) == match d.original_name {
        Some(old) if renamed => Some(scope_path(old, d.global, home)),
        _ => None,
    }
}

/// What saving a draft under a method comes to.
pub fn plan_save_as(draft: &RequestDraft, method: String, home: Option<&str>) -> (r: Result<
    SavePlan,
    String,
>)
    ensures
        match request_as(draft@, method@) {
            Err(t) => r matches Err(e) && e@ == t,
            Ok(c) => r matches Ok(plan) && planned(draft@, c, str_opt(home), plan),
        },
{
    let name = trim(value_at(&draft.fields, 0).as_str());
    let url = trim(value_at(&draft.fields, 2).as_str());
    let description = trim(value_at(&draft.fields, 3).as_str());
    if name.as_str().is_empty() {
        return Err("Name is required".to_owned());
    }
    if is_bad_name(name.as_str()) {
        return Err("Invalid name (use folder/name for subfolders)".to_owned());
    }
    if method.as_str().is_empty() {
        return Err("Method is required".to_owned());
    }
    if url.as_str().is_empty() {
        return Err("URL is required".to_owned());
    }
    let path = path_for(name.as_str(), draft.global, home);
    let renamed = match &draft.original_name {
        Some(old) => !str_eq(old.as_str(), name.as_str()),
        None => true,
    };
    let old_path = match &draft.original_name {
        Some(old) => {
            if renamed {
                Some(path_for(old.as_str(), draft.global, home))
            } else {
                None
            }
        },
        None => None,
    };
    let profiles = if draft.profiles.len() == 0 {
        None
    } else {
        Some(copy_profiles(&draft.profiles))
    };
    let config = RequestConfig {
        name,
        method,
        url,
        description: if description.as_str().is_empty() {
            None
        } else {
            Some(description)
        },
        headers: draft.headers.clone(),
        query: draft.query.clone(),
        body: copy_body(&draft.body),
        extract: copy_map(&draft.extract),
        profiles,
    };
    Ok(SavePlan { config, path, must_be_new: renamed, old_path })
}

/// What saving a draft comes to: the request, the file to write, whether that file
/// must not be there yet, and the file that a rename leaves behind.
pub fn plan_save(draft: &RequestDraft, home: Option<&str>) -> (r: Result<SavePlan, String>)
    ensures
        match request_of(draft@) {
            Err(t) => r matches Err(e) && e@ == t,
            Ok(c) => r matches Ok(plan) && planned(draft@, c, str_opt(home), plan),
        },
{
    let method = to_uppercase(trim(value_at(&draft.fields, 1).as_str()).as_str());
    plan_save_as(draft, method, home)
}

/// What is reported of a file that is in the way.
pub fn exists_message(name: &str) -> (r: String)
    ensures
        r@ == "'"@ + name@ + "' already exists"@,
{
    concat3("'", name, "' already exists")
}

// ─── Laws ─────────────────────────────────────────────────────────────────────

/// No two kept rows clash: headers differ by more than case, query parameters
/// differ; and no kept row is without a name.
pub proof fn law_kept_rows_do_not_clash(rows: Seq<Row>, n: int, kind: PairKind)
    ensures
        kept_rows(rows, n, kind) matches Ok(kept) ==> {
            &&& forall|i: int| 0 <= i < kept.len() ==> (#[trigger] kept[i]).0.len() > 0
            &&& forall|i: int, j: int|
                0 <= i < j < kept.len() ==> !same_name(
                    (#[trigger] kept[i]).0,
                    (#[trigger] kept[j]).0,
                    kind,
                )
        },
    decreases n,
{
    if n > 0 {
        law_kept_rows_do_not_clash(rows, n - 1, kind);
        match kept_rows(rows, n - 1, kind) {
            Err(name) => {},
            Ok(kept) => {
                let name = trimmed(rows[n - 1].0);
                if name.len() > 0 && !clashes(kept, name, kind) {
                    let after = kept.push((name, trimmed(rows[n - 1].1)));
                    assert forall|i: int, j: int| 0 <= i < j < after.len() implies !same_name(
                        (#[trigger] after[i]).0,
                        (#[trigger] after[j]).0,
                        kind,
                    ) by {
                        assert(kept[i] == after[i]);
                        if j < kept.len() {
                            assert(kept[j] == after[j]);
                        }
                    }
                }
            },
        }
    }
}

/// A request with a body has no content type among the headers that a pane was
/// applied with: it is the body's.
pub proof fn law_applied_content_type_is_the_bodys(d: DraftView, rows: Seq<Row>)
    requires
        d.body is Some,
    ensures
        rows_applied(d, rows, PairKind::Headers) matches Ok(e) ==> e.body is Some && forall|
            k: Seq<char>,
        | #[trigger]
            e.headers.dom().contains(k) ==> !same_ignoring_case(k, "content-type"@),
{
    let kind = PairKind::Headers;
    law_kept_rows_do_not_clash(rows, rows.len() as int, kind);
    match kept_rows(rows, rows.len() as int, kind) {
        Err(name) => {},
        Ok(kept) => {
            let name = "content-type"@;
            lemma_header_from(kept, name, 0);
            let at = header_from(kept, name, 0);
            let left = if at < kept.len() {
                kept.remove(at)
            } else {
                kept
            };
            let e = rows_applied(d, rows, kind)->Ok_0;
            assert(e.headers == collected(left));
            assert forall|k: Seq<char>| #[trigger]
                e.headers.dom().contains(k) implies !same_ignoring_case(k, name) by {
                lemma_collected_names(left, k);
                let i = choose|i: int| 0 <= i < left.len() && #[trigger] left[i].0 == k;
                if at < kept.len() {
                    let j = if i < at {
                        i
                    } else {
                        i + 1
                    };
                    assert(left[i] == kept[j]);
                    if same_ignoring_case(k, name) {
                        let a = kept[at].0;
                        assert(same_ignoring_case(a, k) && same_ignoring_case(k, a)) by {
                            assert forall|x: int| 0 <= x < a.len() implies ascii_lower(
                                #[trigger] a[x],
                            ) == ascii_lower(k[x]) by {
                                assert(ascii_lower(a[x]) == ascii_lower(name[x]));
                                assert(ascii_lower(k[x]) == ascii_lower(name[x]));
                            }
                            assert forall|x: int| 0 <= x < k.len() implies ascii_lower(
                                #[trigger] k[x],
                            ) == ascii_lower(a[x]) by {
                                assert(ascii_lower(a[x]) == ascii_lower(name[x]));
                                assert(ascii_lower(k[x]) == ascii_lower(name[x]));
                            }
                        }
                        assert(!same_name(
                            kept[if j < at {
                                j
                            } else {
                                at
                            }].0,
                            kept[if j < at {
                                at
                            } else {
                                j
                            }].0,
                            kind,
                        ));
                    }
                }
            }
        },
    }
}

/// Editing one of the two maps leaves the other, and for the query the body too.
pub proof fn law_panes_leave_each_other_alone(d: DraftView, rows: Seq<Row>)
    ensures
        rows_applied(d, rows, PairKind::Query) matches Ok(e) ==> e == (DraftView {
            query: e.query,
            ..d
        }),
        rows_applied(d, rows, PairKind::Headers) matches Ok(e) ==> e == (DraftView {
            headers: e.headers,
            body: e.body,
            ..d
        }),
{
}

/// Profile names stay unique.
pub open spec fn profiles_unique(profiles: Seq<ProfileView>) -> bool {
    forall|i: int, j: int|
        0 <= i < j < profiles.len() ==> (#[trigger] profiles[i]).name != (#[trigger] profiles[j]).name
}

/// Placing a profile keeps every name unique.
pub proof fn law_profile_names_stay_unique(
    profiles: Seq<ProfileView>,
    profile: ProfileView,
    editing: Option<int>,
)
    requires
        profiles_unique(profiles),
    ensures
        placed(profiles, profile, editing) matches Ok(p) ==> profiles_unique(p.0),
{
    match placed(profiles, profile, editing) {
        Err(t) => {},
        Ok((after, at)) => {
            assert forall|i: int, j: int| 0 <= i < j < after.len() implies (#[trigger] after[i]).name
                != (#[trigger] after[j]).name by {
                if i == at {
                    assert(profiles[j].name != profile.name || Some(j) == editing);
                } else if j == at {
                    assert(profiles[i].name != profile.name || Some(i) == editing);
                } else {
                    assert(profiles[i].name != profiles[j].name);
                }
            }
        },
    }
}

/// A form opened on a stored request and saved unchanged says what the request
/// said, for a request whose texts are in the form that saving gives them.
pub proof fn law_an_unchanged_form_saves_the_request(config: RequestView, global: bool)
    requires
        trimmed(config.name) == config.name,
        config.name.len() > 0,
        !bad_name(config.name),
        uppercase(trimmed(config.method)) == config.method,
        config.method.len() > 0,
        trimmed(config.url) == config.url,
        config.url.len() > 0,
        config.description matches Some(s) ==> trimmed(s) == s && s.len() > 0,
        config.profiles matches Some(p) ==> p.len() > 0,
    ensures
        request_of(draft_of(config, Some(config.name), global)) == Ok::<RequestView, Seq<char>>(
            config,
        ),
{
    let d = draft_of(config, Some(config.name), global);
    let none = Seq::<char>::empty();
    assert(trimmed(none) == none);
    assert(d.fields[0].1 == config.name);
    assert(d.fields[1].1 == config.method);
    assert(d.fields[2].1 == config.url);
    assert(d.fields[3].1 == text_or_empty(config.description));
}

} // verus!
