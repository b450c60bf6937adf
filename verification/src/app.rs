//! The terminal interface as a machine: a key, a paste, a mouse event or the outcome
//! of outside work goes in, the next state and what to do next come out.
use vstd::prelude::*;
use vstd::string::*;

use crate::config::Keys;
use crate::panes::{Mode, ModeView};
use crate::request::text_opt;
use crate::strset::StrSet;
use crate::text::{contains, places, occurs, str_eq};
use crate::tree::{
    nodes_view, row_views, tree_rows, visible_rows, Entry, EntryKind, Node, TreeNode, TreeRow, VisibleRow,
};
use crate::unicode::{lowercase, to_lowercase};

verus! {

/// The state of the terminal interface.
#[derive(Debug, PartialEq, Eq)]
pub struct App {
    pub entries: Vec<Entry>,
    pub tree: Vec<TreeNode>,
    pub collapsed_folders: StrSet,
    pub use_nerd_fonts: bool,
    /// The selected row of the list.
    pub selected: Option<usize>,
    /// A first `g` was typed.
    pub pending_g: bool,
    /// The height of the response text as last drawn.
    pub response_view_height: u16,
    pub filter: String,
    pub filter_active: bool,
    /// The keymap is drawn over everything.
    pub show_help: bool,
    pub keys: Keys,
    pub mode: Mode,
    /// What was yanked or cut last.
    pub register: String,
    /// The list's share of the width, in percent.
    pub split_pct: u16,
    /// Where the divider was last drawn, and on how wide a screen.
    pub split_x: u16,
    pub term_width: u16,
    pub dragging_split: bool,
}

/// The same, as text.
pub ghost struct AppView {
    pub entries: Seq<Entry>,
    pub nodes: Seq<Node>,
    pub collapsed: Set<Seq<char>>,
    pub use_nerd_fonts: bool,
    pub selected: Option<int>,
    pub pending_g: bool,
    pub response_view_height: u16,
    pub filter: Seq<char>,
    pub filter_active: bool,
    pub show_help: bool,
    pub keys: Keys,
    pub mode: ModeView,
    pub register: Seq<char>,
    pub split_pct: u16,
    pub split_x: u16,
    pub term_width: u16,
    pub dragging_split: bool,
}

/// An optional row.
pub open spec fn row_opt(o: Option<usize>) -> Option<int> {
    match o {
        Some(i) => Some(i as int),
        None => None,
    }
}

impl View for App {
    type V = AppView;

    open spec fn view(&self) -> AppView {
        AppView {
            entries: self.entries@,
            nodes: nodes_view(self.tree@),
            collapsed: self.collapsed_folders@,
            use_nerd_fonts: self.use_nerd_fonts,
            selected: row_opt(self.selected),
            pending_g: self.pending_g,
            response_view_height: self.response_view_height,
            filter: self.filter@,
            filter_active: self.filter_active,
            show_help: self.show_help,
            keys: self.keys,
            mode: self.mode@,
            register: self.register@,
            split_pct: self.split_pct,
            split_x: self.split_x,
            term_width: self.term_width,
            dragging_split: self.dragging_split,
        }
    }
}

// ─── The list ─────────────────────────────────────────────────────────────────

/// The name holds the query, or one of a request's method and URL does.
pub open spec fn holds(name: Seq<char>, target: Option<(Seq<char>, Seq<char>)>, query: Seq<char>) -> bool {
    ||| occurs(name, query)
    ||| match target {
        Some((method, url)) => occurs(method, query) || occurs(url, query),
        None => false,
    }
}

/// The entry's name holds the query, or, of a request, its method or its URL does;
/// all lowercased.
pub open spec fn entry_matches(e: Entry, query: Seq<char>) -> bool {
    holds(
        lowercase(e.name@),
        match e.kind {
            EntryKind::Request { method, url, .. } => Some((lowercase(method@), lowercase(url@))),
            EntryKind::Chain { .. } => None,
        },
        query,
    )
}

/// The places of the matching ones among the first `n` entries.
pub open spec fn matches_upto(entries: Seq<Entry>, query: Seq<char>, n: int) -> Seq<int>
    decreases n,
{
    if n <= 0 {
        Seq::empty()
    } else {
        let before = matches_upto(entries, query, n - 1);
        if entry_matches(entries[n - 1], query) {
            before.push(n - 1)
        } else {
            before
        }
    }
}

/// The places of the entries that a filter leaves.
pub open spec fn filtered(entries: Seq<Entry>, filter: Seq<char>) -> Seq<int> {
    if filter.len() == 0 {
        Seq::new(entries.len(), |i: int| i)
    } else {
        matches_upto(entries, lowercase(filter), entries.len() as int)
    }
}

/// The rows of the list while there is no filter.
pub open spec fn listed_rows(a: AppView) -> Seq<TreeRow> {
    tree_rows(a.nodes, a.collapsed)
}

/// How many rows the list has: those of the tree, or the entries that a filter
/// leaves.
pub open spec fn row_total(a: AppView) -> int {
    if a.filter.len() == 0 {
        listed_rows(a).len() as int
    } else {
        filtered(a.entries, a.filter).len() as int
    }
}

/// The entry of the selected row; a folder has none.
pub open spec fn selected_entry(a: AppView) -> Option<int> {
    match a.selected {
        None => None,
        Some(pos) => if a.filter.len() == 0 {
            let rows = listed_rows(a);
            if 0 <= pos < rows.len() {
                match rows[pos] {
                    TreeRow::Leaf { entry_idx, .. } => Some(entry_idx as int),
                    TreeRow::Folder { .. } => None,
                }
            } else {
                None
            }
        } else {
            let left = filtered(a.entries, a.filter);
            if 0 <= pos < left.len() {
                Some(left[pos])
            } else {
                None
            }
        },
    }
}

/// The selection one row on.
pub open spec fn list_down(a: AppView) -> AppView {
    let count = row_total(a);
    if count == 0 {
        a
    } else {
        AppView {
            selected: Some(
                match a.selected {
                    Some(i) => if i + 1 < count {
                        i + 1
                    } else {
                        count - 1
                    },
                    None => 0,
                },
            ),
            ..a
        }
    }
}

/// The selection one row back.
pub open spec fn list_up(a: AppView) -> AppView {
    if row_total(a) == 0 {
        a
    } else {
        AppView {
            selected: Some(
                match a.selected {
                    Some(i) => if i > 0 {
                        i - 1
                    } else {
                        0
                    },
                    None => 0,
                },
            ),
            ..a
        }
    }
}

/// The selection on the first row.
pub open spec fn list_top(a: AppView) -> AppView {
    if row_total(a) > 0 {
        AppView { selected: Some(0), ..a }
    } else {
        a
    }
}

/// The selection on the last row.
pub open spec fn list_bottom(a: AppView) -> AppView {
    let count = row_total(a);
    if count > 0 {
        AppView { selected: Some(count - 1), ..a }
    } else {
        a
    }
}

/// The selection on the first row, or none where there is no row.
pub open spec fn list_reset(a: AppView) -> AppView {
    AppView {
        selected: if row_total(a) == 0 {
            None
        } else {
            Some(0)
        },
        ..a
    }
}

/// The first row at or after `i` that is the folder of that path, or the number of
/// rows.
pub open spec fn folder_row(rows: Seq<TreeRow>, path: Seq<char>, i: int) -> int
    decreases rows.len() - i,
{
    if i >= rows.len() {
        rows.len() as int
    } else {
        match rows[i] {
            TreeRow::Folder { path: p, .. } if p == path => i,
            _ => folder_row(rows, path, i + 1),
        }
    }
}

/// A folder opened or closed. A selection that closing leaves beyond the last row
/// goes to the folder.
pub open spec fn folder_toggled(a: AppView, path: Seq<char>) -> AppView {
    if a.collapsed.contains(path) {
        AppView { collapsed: a.collapsed.remove(path), ..a }
    } else {
        let b = AppView { collapsed: a.collapsed.insert(path), ..a };
        let rows = listed_rows(b);
        match b.selected {
            Some(pos) if pos >= rows.len() => {
                let at = folder_row(rows, path, 0);
                AppView {
                    selected: Some(
                        if at < rows.len() {
                            at
                        } else if rows.len() > 0 {
                            rows.len() - 1
                        } else {
                            0
                        },
                    ),
                    ..b
                }
            },
            _ => b,
        }
    }
}

/// The folder of the selected row.
pub open spec fn selected_folder(a: AppView) -> Option<Seq<char>> {
    match a.selected {
        Some(pos) if a.filter.len() == 0 && 0 <= pos < listed_rows(a).len() => match listed_rows(
            a,
        )[pos] {
            TreeRow::Folder { path, .. } => Some(path),
            TreeRow::Leaf { .. } => None,
        },
        _ => None,
    }
}

/// Whether a name, or a request's method or URL, holds a query.
pub fn holds_query(name: &str, target: Option<(&str, &str)>, query: &str) -> (r: bool)
    ensures
        r == holds(
            name@,
            match target {
                Some((method, url)) => Some((method@, url@)),
                None => None,
            },
            query@,
        ),
{
    if contains(name, query) {
        return true;
    }
    match target {
        Some((method, url)) => contains(method, query) || contains(url, query),
        None => false,
    }
}

fn does_entry_match(e: &Entry, query: &str) -> (r: bool)
    ensures
        r == entry_matches(*e, query@),
{
    let name = to_lowercase(e.name.as_str());
    match &e.kind {
        EntryKind::Request { method, url, .. } => {
            let method = to_lowercase(method.as_str());
            let url = to_lowercase(url.as_str());
            holds_query(name.as_str(), Some((method.as_str(), url.as_str())), query)
        },
        EntryKind::Chain { .. } => holds_query(name.as_str(), None, query),
    }
}

impl App {
    /// The places of the entries that the filter leaves.
    pub fn filtered_indices(&self) -> (r: Vec<usize>)
        ensures
            places(r@) == filtered(self@.entries, self@.filter),
    {
        let mut r: Vec<usize> = Vec::new();
        let all = self.filter.as_str().is_empty();
        let query = to_lowercase(self.filter.as_str());
        let mut i: usize = 0;
        proof {
            assert(places(r@) =~= Seq::empty());
        }
        while i < self.entries.len()
            invariant
                i <= self.entries.len(),
                all == (self.filter@.len() == 0),
                query@ == lowercase(self.filter@),
                all ==> places(r@) == Seq::new(i as nat, |k: int| k),
                !all ==> places(r@) == matches_upto(self.entries@, query@, i as int),
            decreases self.entries.len() - i,
        {
            let ghost before = places(r@);
            if all || does_entry_match(&self.entries[i], query.as_str()) {
                r.push(i);
                proof {
                    assert(places(r@) =~= before.push(i as int));
                }
            }
            proof {
                if all {
                    assert(places(r@) =~= Seq::new((i + 1) as nat, |k: int| k));
                }
            }
            i = i + 1;
        }
        r
    }

    fn rows(&self) -> (r: Vec<VisibleRow>)
        ensures
            row_views(r@) == listed_rows(self@),
            r@.len() == listed_rows(self@).len(),
    {
        let rows = visible_rows(&self.tree, &self.collapsed_folders);
        proof {
            assert(row_views(rows@).len() == rows@.len());
        }
        rows
    }

    /// Whether the list shows the tree rather than what a filter leaves.
    pub fn using_tree(&self) -> (r: bool)
        ensures
            r == (self@.filter.len() == 0),
    {
        self.filter.as_str().is_empty()
    }

    /// How many rows the list has.
    pub fn visible_count(&self) -> (r: usize)
        ensures
            r == row_total(self@),
    {
        if self.using_tree() {
            self.rows().len()
        } else {
            let left = self.filtered_indices();
            proof {
                assert(places(left@).len() == left@.len());
            }
            left.len()
        }
    }

    pub fn move_down(&mut self)
        ensures
            final(self)@ == list_down(old(self)@),
    {
        let count: usize = self.visible_count();
        if count == 0 {
            return;
        }
        let next: usize = match self.selected {
            Some(i) => {
                if i < count - 1 {
                    i + 1
                } else {
                    count - 1
                }
            },
            None => 0,
        };
        self.selected = Some(next);
    }

    pub fn move_up(&mut self)
        ensures
            final(self)@ == list_up(old(self)@),
    {
        if self.visible_count() == 0 {
            return;
        }
        let next: usize = match self.selected {
            Some(i) => {
                if i > 0 {
                    i - 1
                } else {
                    0
                }
            },
            None => 0,
        };
        self.selected = Some(next);
    }

    pub fn move_top(&mut self)
        ensures
            final(self)@ == list_top(old(self)@),
    {
        if self.visible_count() > 0 {
            self.selected = Some(0);
        }
    }

    pub fn move_bottom(&mut self)
        ensures
            final(self)@ == list_bottom(old(self)@),
    {
        let count: usize = self.visible_count();
        if count > 0 {
            self.selected = Some(count - 1);
        }
    }

    /// Puts the selection on the first row.
    pub fn reset_selection(&mut self)
        ensures
            final(self)@ == list_reset(old(self)@),
    {
        let count: usize = self.visible_count();
        self.selected =
        if count == 0 {
            None
        } else {
            Some(0)
        };
    }

    /// The entry of the selected row.
    pub fn selected_entry_index(&self) -> (r: Option<usize>)
        ensures
            r is Some <==> selected_entry(self@) is Some,
            r matches Some(i) ==> selected_entry(self@) == Some(i as int),
    {
        match self.selected {
            None => None,
            Some(pos) => {
                if self.using_tree() {
                    let rows = self.rows();
                    if pos < rows.len() {
                        proof {
                            assert(row_views(rows@)[pos as int] == rows@[pos as int]@);
                        }
                        match &rows[pos] {
                            VisibleRow::Leaf { entry_idx, .. } => Some(*entry_idx),
                            VisibleRow::Folder { .. } => None,
                        }
                    } else {
                        None
                    }
                } else {
                    let left = self.filtered_indices();
                    proof {
                        assert(places(left@).len() == left@.len());
                    }
                    if pos < left.len() {
                        proof {
                            assert(places(left@)[pos as int] == left@[pos as int] as int);
                        }
                        Some(left[pos])
                    } else {
                        None
                    }
                }
            },
        }
    }

    /// The folder of the selected row.
    pub fn selected_folder_path(&self) -> (r: Option<String>)
        ensures
            text_opt(r) == selected_folder(self@),
    {
        if !self.using_tree() {
            return None;
        }
        match self.selected {
            None => None,
            Some(pos) => {
                let rows = self.rows();
                if pos < rows.len() {
                    proof {
                        assert(row_views(rows@)[pos as int] == rows@[pos as int]@);
                    }
                    match &rows[pos] {
                        VisibleRow::Folder { path, .. } => Some(path.clone()),
                        VisibleRow::Leaf { .. } => None,
                    }
                } else {
                    None
                }
            },
        }
    }

    /// Opens or closes a folder.
    pub fn toggle_folder(&mut self, path: String)
        ensures
            final(self)@ == folder_toggled(old(self)@, path@),
    {
        if self.collapsed_folders.contains(path.as_str()) {
            self.collapsed_folders.remove(path.as_str());
            return;
        }
        self.collapsed_folders.insert(path.clone());
        let rows = self.rows();
        let count: usize = rows.len();
        match self.selected {
            Some(pos) => {
                if pos >= count {
                    let at: usize = find_folder_row(&rows, path.as_str());
                    self.selected =
                    Some(
                        if at < count {
                            at
                        } else if count > 0 {
                            count - 1
                        } else {
                            0
                        },
                    );
                }
            },
            None => {},
        }
    }
}

fn find_folder_row(rows: &Vec<VisibleRow>, path: &str) -> (r: usize)
    ensures
        r == folder_row(row_views(rows@), path@, 0),
        r <= rows.len(),
{
    let ghost shown = row_views(rows@);
    let mut i: usize = 0;
    while i < rows.len()
        invariant
            i <= rows.len(),
            shown == row_views(rows@),
            folder_row(shown, path@, 0) == folder_row(shown, path@, i as int),
        decreases rows.len() - i,
    {
        proof {
            assert(shown[i as int] == rows@[i as int]@);
        }
        match &rows[i] {
            VisibleRow::Folder { path: p, .. } => {
                if str_eq(p.as_str(), path) {
                    return i;
                }
            },
            VisibleRow::Leaf { .. } => {},
        }
        i = i + 1;
    }
    i
}

} // verus!
