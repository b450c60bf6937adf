//! Requests as a tree of folders, and the rows that show it.
use vstd::prelude::*;
use vstd::string::*;

use crate::request::Profile;
use crate::strmap::StrMap;
use crate::strset::StrSet;
use crate::text::{
    begins_with, char_from, chars_of, concat2, concat3, contains_char, find_char, lemma_char_from,
    slice_string, str_eq, trim, trimmed,
};

verus! {

// ─── Entries ──────────────────────────────────────────────────────────────────

/// What an entry of the list runs.
#[derive(Debug, PartialEq, Eq)]
pub enum EntryKind {
    Request {
        method: String,
        url: String,
        description: Option<String>,
        headers: StrMap,
        query: StrMap,
        body_data: Option<String>,
        profiles: Vec<Profile>,
    },
    /// The names of its steps.
    Chain { steps: Vec<String> },
}

/// One entry of the list.
#[derive(Debug, PartialEq, Eq)]
pub struct Entry {
    pub name: String,
    pub global: bool,
    pub kind: EntryKind,
}

/// The names of the entries, and which of them are the user's.
pub open spec fn entry_names(entries: Seq<Entry>) -> Seq<(Seq<char>, bool)> {
    entries.map_values(|e: Entry| (e.name@, e.global))
}

// ─── The tree ─────────────────────────────────────────────────────────────────

/// A folder or an entry.
#[derive(Debug, PartialEq, Eq)]
pub enum TreeNode {
    Folder { path: String, children: Vec<TreeNode> },
    Leaf { entry_idx: usize },
}

/// The same, as text.
pub ghost enum Node {
    Folder { path: Seq<char>, children: Seq<Node> },
    Leaf { entry_idx: nat },
}

/// A node, as text.
pub open spec fn node_view(n: TreeNode) -> Node
    decreases n,
{
    match n {
        TreeNode::Folder { path, children } => Node::Folder {
            path: path@,
            children: nodes_view(children@),
        },
        TreeNode::Leaf { entry_idx } => Node::Leaf { entry_idx: entry_idx as nat },
    }
}

/// Nodes, as text.
pub open spec fn nodes_view(v: Seq<TreeNode>) -> Seq<Node>
    decreases v,
{
    Seq::new(
        v.len(),
        |i: int|
            if 0 <= i < v.len() {
                node_view(v[i])
            } else {
                arbitrary()
            },
    )
}

/// The first folder of that path at or after `i`, or the number of nodes.
pub open spec fn folder_from(nodes: Seq<Node>, path: Seq<char>, i: int) -> int
    decreases nodes.len() - i,
{
    if i >= nodes.len() {
        nodes.len() as int
    } else {
        match nodes[i] {
            Node::Folder { path: p, .. } if p == path => i,
            _ => folder_from(nodes, path, i + 1),
        }
    }
}

/// The path of a folder below another.
pub open spec fn folder_path(prefix: Seq<char>, segment: Seq<char>) -> Seq<char> {
    if prefix.len() == 0 {
        segment
    } else {
        prefix + "/"@ + segment
    }
}

/// The children of a folder.
pub open spec fn children_of(n: Node) -> Seq<Node> {
    match n {
        Node::Folder { children, .. } => children,
        Node::Leaf { .. } => Seq::empty(),
    }
}

/// The nodes with an entry put in: below the folders that its name spells out,
/// made where they are missing.
pub open spec fn grown(nodes: Seq<Node>, name: Seq<char>, idx: nat, prefix: Seq<char>) -> Seq<Node>
    decreases name.len(),
    via grown_shrinks
{
    let slash = char_from(name, '/', 0);
    if slash >= name.len() {
        nodes.push(Node::Leaf { entry_idx: idx })
    } else {
        let path = folder_path(prefix, name.take(slash));
        let rest = name.skip(slash + 1);
        let at = folder_from(nodes, path, 0);
        if 0 <= at < nodes.len() {
            nodes.update(
                at,
                Node::Folder { path, children: grown(children_of(nodes[at]), rest, idx, path) },
            )
        } else {
            nodes.push(
                Node::Folder { path, children: grown(Seq::empty(), rest, idx, path) },
            )
        }
    }
}

#[via_fn]
proof fn grown_shrinks(nodes: Seq<Node>, name: Seq<char>, idx: nat, prefix: Seq<char>) {
    lemma_char_from(name, '/', 0);
}

/// The tree of the first `n` entries of one scope.
pub open spec fn scope_tree(
    names: Seq<(Seq<char>, bool)>,
    n: int,
    global: bool,
    prefix: Seq<char>,
) -> Seq<Node>
    decreases n,
{
    if n <= 0 {
        Seq::empty()
    } else {
        let before = scope_tree(names, n - 1, global, prefix);
        if names[n - 1].1 == global {
            grown(before, names[n - 1].0, (n - 1) as nat, prefix)
        } else {
            before
        }
    }
}

/// Some entry is the user's.
pub open spec fn any_global(names: Seq<(Seq<char>, bool)>) -> bool {
    exists|i: int| 0 <= i < names.len() && (#[trigger] names[i]).1
}

/// The tree of all entries: the project's at the root, the user's in a folder of
/// their own behind them.
pub open spec fn whole_tree(names: Seq<(Seq<char>, bool)>) -> Seq<Node> {
    let root = scope_tree(names, names.len() as int, false, Seq::empty());
    if any_global(names) {
        root.push(
            Node::Folder {
                path: "[global]"@,
                children: scope_tree(names, names.len() as int, true, "[global]"@),
            },
        )
    } else {
        root
    }
}

fn find_folder(nodes: &Vec<TreeNode>, path: &str) -> (r: Option<usize>)
    ensures
        r matches Some(i) ==> i < nodes.len() && i == folder_from(nodes_view(nodes@), path@, 0)
            && nodes@[i as int] is Folder && nodes@[i as int]->path@ == path@,
        r is None ==> folder_from(nodes_view(nodes@), path@, 0) == nodes.len(),
{
    let ghost shown = nodes_view(nodes@);
    let mut i: usize = 0;
    while i < nodes.len()
        invariant
            i <= nodes.len(),
            shown == nodes_view(nodes@),
            folder_from(shown, path@, 0) == folder_from(shown, path@, i as int),
        decreases nodes.len() - i,
    {
        proof {
            assert(shown[i as int] == node_view(nodes@[i as int]));
        }
        match &nodes[i] {
            TreeNode::Folder { path: p, .. } => {
                if str_eq(p.as_str(), path) {
                    return Some(i);
                }
            },
            TreeNode::Leaf { .. } => {},
        }
        i = i + 1;
    }
    None
}

/// Puts an entry into a tree.
pub fn tree_insert(nodes: &mut Vec<TreeNode>, name: &str, entry_idx: usize, path_prefix: &str)
    ensures
        nodes_view(final(nodes)@) == grown(
            nodes_view(old(nodes)@),
            name@,
            entry_idx as nat,
            path_prefix@,
        ),
    decreases name@.len(),
{
    let ghost before = nodes_view(nodes@);
    let v = chars_of(name);
    let slash: usize = find_char(&v, '/', 0);
    if slash >= v.len() {
        nodes.push(TreeNode::Leaf { entry_idx });
        proof {
            assert(nodes_view(nodes@) =~= before.push(Node::Leaf { entry_idx: entry_idx as nat }));
        }
        return;
    }
    let segment = slice_string(&v, 0, slash);
    let rest = slice_string(&v, slash + 1, v.len());
    proof {
        assert(v@.subrange(0, slash as int) =~= name@.take(slash as int));
        assert(v@.subrange(slash + 1, v@.len() as int) =~= name@.skip(slash + 1));
    }
    let path = if path_prefix.is_empty() {
        segment
    } else {
        concat3(path_prefix, "/", segment.as_str())
    };
    match find_folder(nodes, path.as_str()) {
        Some(at) => {
            proof {
                assert(before[at as int] == node_view(nodes@[at as int]));
            }
            let ghost all = nodes@;
            let node = nodes.remove(at);
            match node {
                TreeNode::Folder { path: p, children } => {
                    let mut below = children;
                    tree_insert(&mut below, rest.as_str(), entry_idx, path.as_str());
                    nodes.insert(at, TreeNode::Folder { path: p, children: below });
                    proof {
                        let grown_node = Node::Folder {
                            path: path@,
                            children: nodes_view(below@),
                        };
                        assert(node_view(nodes@[at as int]) == grown_node);
                        assert(nodes_view(nodes@) =~= before.update(at as int, grown_node)) by {
                            assert forall|i: int| 0 <= i < all.len() implies nodes_view(nodes@)[i]
                                == before.update(at as int, grown_node)[i] by {
                                if i != at {
                                    assert(nodes@[i] == all[i]);
                                }
                            }
                        }
                    }
                },
                TreeNode::Leaf { entry_idx: e } => {
                    nodes.insert(at, TreeNode::Leaf { entry_idx: e });
                },
            }
        },
        None => {
            let mut below: Vec<TreeNode> = Vec::new();
            proof {
                assert(nodes_view(below@) =~= Seq::empty());
            }
            tree_insert(&mut below, rest.as_str(), entry_idx, path.as_str());
            nodes.push(TreeNode::Folder { path, children: below });
            proof {
                assert(nodes_view(nodes@) =~= before.push(
                    Node::Folder { path: path@, children: nodes_view(below@) },
                ));
            }
        },
    }
}

fn insert_scope(entries: &Vec<Entry>, global: bool, prefix: &str) -> (r: (Vec<TreeNode>, bool))
    ensures
        nodes_view(r.0@) == scope_tree(
            entry_names(entries@),
            entries@.len() as int,
            global,
            prefix@,
        ),
        r.1 == exists|i: int| 0 <= i < entries@.len() && (#[trigger] entries@[i]).global == global,
{
    let mut nodes: Vec<TreeNode> = Vec::new();
    let mut any = false;
    let mut i: usize = 0;
    proof {
        assert(nodes_view(nodes@) =~= Seq::empty());
    }
    while i < entries.len()
        invariant
            i <= entries.len(),
            nodes_view(nodes@) == scope_tree(entry_names(entries@), i as int, global, prefix@),
            any == exists|k: int| 0 <= k < i && (#[trigger] entries@[k]).global == global,
        decreases entries.len() - i,
    {
        proof {
            assert(entry_names(entries@)[i as int] == (
                entries@[i as int].name@,
                entries@[i as int].global,
            ));
        }
        if entries[i].global == global {
            tree_insert(&mut nodes, entries[i].name.as_str(), i, prefix);
            any = true;
        }
        i = i + 1;
    }
    (nodes, any)
}

/// The tree of a list of entries.
pub fn build_tree(entries: &Vec<Entry>) -> (r: Vec<TreeNode>)
    ensures
        nodes_view(r@) == whole_tree(entry_names(entries@)),
{
    let (mut root, _) = insert_scope(entries, false, "");
    let (below, any) = insert_scope(entries, true, "[global]");
    proof {
        reveal_strlit("");
        assert(""@ =~= Seq::<char>::empty());
        let names = entry_names(entries@);
        if any {
            let i = choose|i: int| 0 <= i < entries@.len() && (#[trigger] entries@[i]).global == true;
            assert(names[i].1);
        }
        if any_global(names) {
            let i = choose|i: int| 0 <= i < names.len() && (#[trigger] names[i]).1;
            assert(entries@[i].global == true);
        }
        assert(any == any_global(names));
    }
    let ghost before = nodes_view(root@);
    if any {
        root.push(TreeNode::Folder { path: "[global]".to_owned(), children: below });
        proof {
            assert(nodes_view(root@) =~= before.push(
                Node::Folder { path: "[global]"@, children: nodes_view(below@) },
            ));
        }
    }
    root
}

// ─── Rows ─────────────────────────────────────────────────────────────────────

/// One row of the list.
#[derive(Debug, PartialEq, Eq)]
pub enum VisibleRow {
    Folder { path: String, expanded: bool, prefix: String },
    Leaf { entry_idx: usize, prefix: String },
}

/// The same, as text.
pub ghost enum TreeRow {
    Folder { path: Seq<char>, expanded: bool, prefix: Seq<char> },
    Leaf { entry_idx: nat, prefix: Seq<char> },
}

impl View for VisibleRow {
    type V = TreeRow;

    open spec fn view(&self) -> TreeRow {
        match self {
            VisibleRow::Folder { path, expanded, prefix } => TreeRow::Folder {
                path: path@,
                expanded: *expanded,
                prefix: prefix@,
            },
            VisibleRow::Leaf { entry_idx, prefix } => TreeRow::Leaf {
                entry_idx: *entry_idx as nat,
                prefix: prefix@,
            },
        }
    }
}

/// Rows, as text.
pub open spec fn row_views(rows: Seq<VisibleRow>) -> Seq<TreeRow> {
    rows.map_values(|r: VisibleRow| r@)
}

/// What stands before a row: nothing at the root, and else the branch it hangs on.
pub open spec fn row_prefix(is_root: bool, is_last: bool, parent: Seq<char>) -> Seq<char> {
    if is_root {
        Seq::empty()
    } else {
        parent + (if is_last {
            "└── "@
        } else {
            "├── "@
        })
    }
}

/// What stands before the rows below a folder.
pub open spec fn child_prefix(is_root: bool, is_last: bool, parent: Seq<char>) -> Seq<char> {
    if is_root {
        Seq::empty()
    } else {
        parent + (if is_last {
            "    "@
        } else {
            "│   "@
        })
    }
}

/// The rows of the first `n` of some nodes.
pub open spec fn rows_shown(
    nodes: Seq<Node>,
    n: int,
    collapsed: Set<Seq<char>>,
    is_root: bool,
    parent: Seq<char>,
) -> Seq<TreeRow>
    decreases nodes, n,
{
    if n <= 0 || n > nodes.len() {
        Seq::empty()
    } else {
        rows_shown(nodes, n - 1, collapsed, is_root, parent) + node_rows(
            nodes[n - 1],
            n == nodes.len(),
            collapsed,
            is_root,
            parent,
        )
    }
}

/// The rows of a node: its own, and those below it unless it is collapsed.
pub open spec fn node_rows(
    node: Node,
    is_last: bool,
    collapsed: Set<Seq<char>>,
    is_root: bool,
    parent: Seq<char>,
) -> Seq<TreeRow>
    decreases node, 0int,
{
    let prefix = row_prefix(is_root, is_last, parent);
    match node {
        Node::Leaf { entry_idx } => seq![TreeRow::Leaf { entry_idx, prefix }],
        Node::Folder { path, children } => {
            let expanded = !collapsed.contains(path);
            let own = seq![TreeRow::Folder { path, expanded, prefix }];
            if expanded {
                own + rows_shown(
                    children,
                    children.len() as int,
                    collapsed,
                    false,
                    child_prefix(is_root, is_last, parent),
                )
            } else {
                own
            }
        },
    }
}

/// The rows that show a tree.
pub open spec fn tree_rows(nodes: Seq<Node>, collapsed: Set<Seq<char>>) -> Seq<TreeRow> {
    rows_shown(nodes, nodes.len() as int, collapsed, true, Seq::empty())
}

fn branch(is_root: bool, is_last: bool, parent: &str) -> (r: String)
    ensures
        r@ == row_prefix(is_root, is_last, parent@),
{
    if is_root {
        String::new()
    } else if is_last {
        concat2(parent, "└── ")
    } else {
        concat2(parent, "├── ")
    }
}

fn branch_below(is_root: bool, is_last: bool, parent: &str) -> (r: String)
    ensures
        r@ == child_prefix(is_root, is_last, parent@),
{
    if is_root {
        String::new()
    } else if is_last {
        concat2(parent, "    ")
    } else {
        concat2(parent, "│   ")
    }
}

fn emit_rows(
    nodes: &Vec<TreeNode>,
    collapsed: &StrSet,
    is_root: bool,
    parent_prefix: &str,
    rows: &mut Vec<VisibleRow>,
)
    ensures
        row_views(final(rows)@) == row_views(old(rows)@) + rows_shown(
            nodes_view(nodes@),
            nodes@.len() as int,
            collapsed@,
            is_root,
            parent_prefix@,
        ),
    decreases nodes,
{
    let ghost shown = nodes_view(nodes@);
    let ghost held = row_views(rows@);
    let mut i: usize = 0;
    proof {
        assert(held + rows_shown(shown, 0, collapsed@, is_root, parent_prefix@) =~= held);
    }
    while i < nodes.len()
        invariant
            i <= nodes.len(),
            shown == nodes_view(nodes@),
            row_views(rows@) == held + rows_shown(
                shown,
                i as int,
                collapsed@,
                is_root,
                parent_prefix@,
            ),
        decreases nodes.len() - i,
    {
        let is_last = i == nodes.len() - 1;
        let ghost before = row_views(rows@);
        let node = &nodes[i];
        proof {
            assert(shown[i as int] == node_view(nodes@[i as int]));
        }
        match node {
            TreeNode::Folder { path, children } => {
                let expanded = !collapsed.contains(path.as_str());
                let prefix = branch(is_root, is_last, parent_prefix);
                rows.push(VisibleRow::Folder { path: path.clone(), expanded, prefix });
                proof {
                    let own = TreeRow::Folder { path: path@, expanded, prefix: prefix@ };
                    assert(row_views(rows@) =~= before.push(own));
                    assert(row_views(rows@) =~= before + seq![own]);
                }
                let ghost own = seq![
                    TreeRow::Folder { path: path@, expanded, prefix: prefix@ },
                ];
                if expanded {
                    let below = branch_below(is_root, is_last, parent_prefix);
                    emit_rows(children, collapsed, false, below.as_str(), rows);
                    proof {
                        let inner = rows_shown(
                            nodes_view(children@),
                            children@.len() as int,
                            collapsed@,
                            false,
                            below@,
                        );
                        assert(row_views(rows@) =~= before + (own + inner));
                    }
                }
            },
            TreeNode::Leaf { entry_idx } => {
                let prefix = branch(is_root, is_last, parent_prefix);
                rows.push(VisibleRow::Leaf { entry_idx: *entry_idx, prefix });
                proof {
                    let own = TreeRow::Leaf { entry_idx: *entry_idx as nat, prefix: prefix@ };
                    assert(row_views(rows@) =~= before.push(own));
                    assert(row_views(rows@) =~= before + seq![own]);
                }
            },
        }
        proof {
            let part = node_rows(shown[i as int], is_last, collapsed@, is_root, parent_prefix@);
            assert(row_views(rows@) =~= before + part);
            assert(row_views(rows@) =~= held + rows_shown(
                shown,
                i + 1,
                collapsed@,
                is_root,
                parent_prefix@,
            ));
        }
        i = i + 1;
    }
}

/// The rows that show a tree, without those below a collapsed folder.
pub fn visible_rows(tree: &Vec<TreeNode>, collapsed: &StrSet) -> (r: Vec<VisibleRow>)
    ensures
        row_views(r@) == tree_rows(nodes_view(tree@), collapsed@),
{
    let mut rows: Vec<VisibleRow> = Vec::new();
    proof {
        reveal_strlit("");
        assert(""@ =~= Seq::<char>::empty());
        assert(row_views(rows@) =~= Seq::empty());
    }
    emit_rows(tree, collapsed, true, "", &mut rows);
    proof {
        assert(row_views(rows@) =~= tree_rows(nodes_view(tree@), collapsed@));
    }
    rows
}

/// The paths of the folders among the first `n` of some nodes, and below them.
pub open spec fn folders(nodes: Seq<Node>, n: int) -> Set<Seq<char>>
    decreases nodes, n,
{
    if n <= 0 || n > nodes.len() {
        Set::empty()
    } else {
        folders(nodes, n - 1).union(node_folders(nodes[n - 1]))
    }
}

/// The paths of the folders at and below a node.
pub open spec fn node_folders(node: Node) -> Set<Seq<char>>
    decreases node, 0int,
{
    match node {
        Node::Leaf { .. } => Set::empty(),
        Node::Folder { path, children } => folders(children, children.len() as int).insert(path),
    }
}

/// Adds the paths of all folders of a tree to a set.
pub fn collect_folder_paths(nodes: &Vec<TreeNode>, paths: &mut StrSet)
    ensures
        final(paths)@ == old(paths)@.union(folders(nodes_view(nodes@), nodes@.len() as int)),
    decreases nodes,
{
    let ghost shown = nodes_view(nodes@);
    let ghost held = paths@;
    let mut i: usize = 0;
    proof {
        assert(held.union(folders(shown, 0)) =~= held);
    }
    while i < nodes.len()
        invariant
            i <= nodes.len(),
            shown == nodes_view(nodes@),
            paths@ == held.union(folders(shown, i as int)),
        decreases nodes.len() - i,
    {
        proof {
            assert(shown[i as int] == node_view(nodes@[i as int]));
        }
        let ghost before = paths@;
        match &nodes[i] {
            TreeNode::Folder { path, children } => {
                paths.insert(path.clone());
                collect_folder_paths(children, paths);
                proof {
                    assert(paths@ =~= before.union(node_folders(shown[i as int])));
                }
            },
            TreeNode::Leaf { .. } => {
                proof {
                    assert(paths@ =~= before.union(node_folders(shown[i as int])));
                }
            },
        }
        proof {
            assert(paths@ =~= held.union(folders(shown, i + 1)));
        }
        i = i + 1;
    }
}

// ─── Laws ─────────────────────────────────────────────────────────────────────

/// How often an entry stands among the first `n` of some nodes and below them.
pub open spec fn leaves(nodes: Seq<Node>, n: int, idx: nat) -> nat
    decreases nodes, n,
{
    if n <= 0 || n > nodes.len() {
        0
    } else {
        leaves(nodes, n - 1, idx) + node_leaves(nodes[n - 1], idx)
    }
}

/// How often an entry stands at and below a node.
pub open spec fn node_leaves(node: Node, idx: nat) -> nat
    decreases node, 0int,
{
    match node {
        Node::Leaf { entry_idx } => if entry_idx == idx {
            1
        } else {
            0
        },
        Node::Folder { children, .. } => leaves(children, children.len() as int, idx),
    }
}

/// How often an entry stands in a tree.
pub open spec fn tree_leaves(nodes: Seq<Node>, idx: nat) -> nat {
    leaves(nodes, nodes.len() as int, idx)
}

proof fn lemma_leaves_prefix(a: Seq<Node>, b: Seq<Node>, n: int, idx: nat)
    requires
        0 <= n <= a.len(),
        n <= b.len(),
        forall|i: int| 0 <= i < n ==> a[i] == b[i],
    ensures
        leaves(a, n, idx) == leaves(b, n, idx),
    decreases n,
{
    if n > 0 {
        lemma_leaves_prefix(a, b, n - 1, idx);
    }
}

proof fn lemma_leaves_push(nodes: Seq<Node>, node: Node, idx: nat)
    ensures
        tree_leaves(nodes.push(node), idx) == tree_leaves(nodes, idx) + node_leaves(node, idx),
{
    lemma_leaves_prefix(nodes, nodes.push(node), nodes.len() as int, idx);
}

proof fn lemma_leaves_update(nodes: Seq<Node>, at: int, node: Node, n: int, idx: nat)
    requires
        0 <= at < nodes.len(),
        0 <= n <= nodes.len(),
    ensures
        leaves(nodes.update(at, node), n, idx) == leaves(nodes, n, idx) + (if at < n {
            node_leaves(node, idx) - node_leaves(nodes[at], idx)
        } else {
            0
        }),
    decreases n,
{
    if n > 0 {
        lemma_leaves_update(nodes, at, node, n - 1, idx);
    }
}

proof fn lemma_folder_from(nodes: Seq<Node>, path: Seq<char>, i: int)
    requires
        0 <= i <= nodes.len(),
    ensures
        i <= folder_from(nodes, path, i) <= nodes.len(),
        folder_from(nodes, path, i) < nodes.len() ==> nodes[folder_from(nodes, path, i)] is Folder
            && nodes[folder_from(nodes, path, i)]->path == path,
    decreases nodes.len() - i,
{
    if i < nodes.len() {
        lemma_folder_from(nodes, path, i + 1);
    }
}

/// Putting an entry in adds it once and disturbs no other.
pub proof fn law_growing_adds_one_leaf(
    nodes: Seq<Node>,
    name: Seq<char>,
    idx: nat,
    prefix: Seq<char>,
    k: nat,
)
    ensures
        tree_leaves(grown(nodes, name, idx, prefix), k) == tree_leaves(nodes, k) + if k == idx {
            1nat
        } else {
            0
        },
    decreases name.len(),
{
    lemma_char_from(name, '/', 0);
    let slash = char_from(name, '/', 0);
    if slash >= name.len() {
        lemma_leaves_push(nodes, Node::Leaf { entry_idx: idx }, k);
    } else {
        let path = folder_path(prefix, name.take(slash));
        let rest = name.skip(slash + 1);
        lemma_folder_from(nodes, path, 0);
        let at = folder_from(nodes, path, 0);
        if at < nodes.len() {
            let below = children_of(nodes[at]);
            law_growing_adds_one_leaf(below, rest, idx, path, k);
            let node = Node::Folder { path, children: grown(below, rest, idx, path) };
            assert(node_leaves(nodes[at], k) == tree_leaves(below, k));
            lemma_leaves_update(nodes, at, node, nodes.len() as int, k);
        } else {
            let none = Seq::<Node>::empty();
            law_growing_adds_one_leaf(none, rest, idx, path, k);
            assert(tree_leaves(none, k) == 0);
            lemma_leaves_push(
                nodes,
                Node::Folder { path, children: grown(none, rest, idx, path) },
                k,
            );
        }
    }
}

proof fn lemma_scope_leaves(
    names: Seq<(Seq<char>, bool)>,
    n: int,
    global: bool,
    prefix: Seq<char>,
    k: nat,
)
    requires
        0 <= n <= names.len(),
    ensures
        tree_leaves(scope_tree(names, n, global, prefix), k) == if k < n && names[k as int].1
            == global {
            1nat
        } else {
            0
        },
    decreases n,
{
    if n > 0 {
        lemma_scope_leaves(names, n - 1, global, prefix, k);
        if names[n - 1].1 == global {
            law_growing_adds_one_leaf(
                scope_tree(names, n - 1, global, prefix),
                names[n - 1].0,
                (n - 1) as nat,
                prefix,
                k,
            );
        }
    } else {
        assert(tree_leaves(Seq::<Node>::empty(), k) == 0);
    }
}

/// Every entry stands in the tree exactly once, and nothing else does.
pub proof fn law_every_entry_stands_in_the_tree_once(names: Seq<(Seq<char>, bool)>, k: nat)
    ensures
        tree_leaves(whole_tree(names), k) == if k < names.len() {
            1nat
        } else {
            0
        },
{
    let n = names.len() as int;
    lemma_scope_leaves(names, n, false, Seq::empty(), k);
    lemma_scope_leaves(names, n, true, "[global]"@, k);
    let root = scope_tree(names, n, false, Seq::empty());
    let below = scope_tree(names, n, true, "[global]"@);
    lemma_leaves_push(root, Node::Folder { path: "[global]"@, children: below }, k);
    if k < n && names[k as int].1 {
        assert(any_global(names));
    }
}

/// A collapsed folder is one row: nothing below it shows.
pub proof fn law_a_collapsed_folder_is_one_row(
    path: Seq<char>,
    children: Seq<Node>,
    is_last: bool,
    collapsed: Set<Seq<char>>,
    is_root: bool,
    parent: Seq<char>,
)
    requires
        collapsed.contains(path),
    ensures
        node_rows(Node::Folder { path, children }, is_last, collapsed, is_root, parent).len() == 1,
{
}

// ─── Icons ────────────────────────────────────────────────────────────────────

/// What the environment alone says about icons, where it says anything: the user's
/// word first, then what is known of the terminal.
pub open spec fn icons_by_env(env: Map<Seq<char>, Seq<char>>) -> Option<bool> {
    if env.dom().contains("ICHIGO_ICONS"@) {
        Some(env["ICHIGO_ICONS"@] == "1"@)
    } else if env.dom().contains("KITTY_WINDOW_ID"@) || env.dom().contains("WEZTERM_PANE"@)
        || env.dom().contains("WEZTERM_EXECUTABLE"@) {
        Some(true)
    } else if env.dom().contains("TERM_PROGRAM"@) && (env["TERM_PROGRAM"@] == "ghostty"@
        || env["TERM_PROGRAM"@] == "iTerm.app"@) {
        Some(true)
    } else if env.dom().contains("TERM"@) && (env["TERM"@] == "xterm-kitty"@ || env["TERM"@]
        == "xterm-ghostty"@) {
        Some(true)
    } else if env.dom().contains("TMUX"@) {
        None
    } else {
        Some(false)
    }
}

fn env_is(env: &StrMap, name: &str, value: &str) -> (r: bool)
    ensures
        r == (env@.dom().contains(name@) && env@[name@] == value@),
{
    match env.get(name) {
        Some(v) => str_eq(v.as_str(), value),
        None => false,
    }
}

/// Whether to draw icons, as far as the environment decides it; what is left is
/// whether tmux runs in a terminal that has them.
pub fn detect_nerd_fonts(env: &StrMap) -> (r: Option<bool>)
    ensures
        r == icons_by_env(env@),
{
    match env.get("ICHIGO_ICONS") {
        Some(v) => {
            return Some(str_eq(v.as_str(), "1"));
        },
        None => {},
    }
    if env.contains_key("KITTY_WINDOW_ID") || env.contains_key("WEZTERM_PANE") || env.contains_key(
        "WEZTERM_EXECUTABLE",
    ) {
        return Some(true);
    }
    if env_is(env, "TERM_PROGRAM", "ghostty") || env_is(env, "TERM_PROGRAM", "iTerm.app") {
        return Some(true);
    }
    if env_is(env, "TERM", "xterm-kitty") || env_is(env, "TERM", "xterm-ghostty") {
        return Some(true);
    }
    if env.contains_key("TMUX") {
        None
    } else {
        Some(false)
    }
}

/// `s` without the repeats of `pat` that it begins with.
pub open spec fn without_prefixes(s: Seq<char>, pat: Seq<char>) -> Seq<char>
    decreases s.len(),
{
    if pat.len() > 0 && pat.is_prefix_of(s) {
        without_prefixes(s.skip(pat.len() as int), pat)
    } else {
        s
    }
}

fn strip_prefixes(s: &str, pat: &str) -> (r: String)
    ensures
        r@ == without_prefixes(s@, pat@),
    decreases s@.len(),
{
    let n: usize = pat.unicode_len();
    if n > 0 && begins_with(s, pat) {
        let v = chars_of(s);
        let rest = slice_string(&v, n, v.len());
        proof {
            assert(v@.subrange(n as int, v@.len() as int) =~= s@.skip(n as int));
        }
        strip_prefixes(rest.as_str(), pat)
    } else {
        s.to_owned()
    }
}

/// tmux's answer to a question about a variable says that it is set, to one of the
/// values where there are any.
pub open spec fn tmux_says(answer: Seq<char>, var: Seq<char>, values: Seq<Seq<char>>) -> bool {
    let line = trimmed(answer);
    if line.len() > 0 && line[0] == '-' {
        false
    } else if values.len() == 0 {
        line.contains('=')
    } else {
        values.contains(without_prefixes(line, var + "="@))
    }
}

/// The texts of string slices.
pub open spec fn str_texts(v: Seq<&str>) -> Seq<Seq<char>> {
    v.map_values(|s: &str| s@)
}

/// Reads tmux's answer to a question about a variable. It writes one that is not
/// set with a dash before it.
pub fn tmux_env_matches(answer: &str, var: &str, values: &Vec<&str>) -> (r: bool)
    ensures
        r == tmux_says(answer@, var@, str_texts(values@)),
{
    let line = trim(answer);
    let v = chars_of(line.as_str());
    if v.len() > 0 && v[0] == '-' {
        return false;
    }
    if values.len() == 0 {
        return contains_char(line.as_str(), '=');
    }
    let set = concat2(var, "=");
    let value = strip_prefixes(line.as_str(), set.as_str());
    let ghost all = str_texts(values@);
    let mut i: usize = 0;
    while i < values.len()
        invariant
            i <= values.len(),
            all == str_texts(values@),
            line@ == trimmed(answer@),
            !(line@.len() > 0 && line@[0] == '-'),
            values@.len() > 0,
            value@ == without_prefixes(line@, var@ + "="@),
            forall|j: int| 0 <= j < i ==> #[trigger] all[j] != value@,
        decreases values.len() - i,
    {
        if str_eq(values[i], value.as_str()) {
            proof {
                assert(all[i as int] == value@);
            }
            return true;
        }
        i = i + 1;
    }
    false
}

/// The entry stands below the folders that its name spells out: each part before a slash
/// is a folder, whose path is that of the folder around it, a slash and the part.
pub open spec fn stands(nodes: Seq<Node>, name: Seq<char>, idx: nat, prefix: Seq<char>) -> bool
    decreases name.len(),
    via stands_shrinks
{
    if !name.contains('/') {
        nodes.contains(Node::Leaf { entry_idx: idx })
    } else {
        exists|i: int, slash: int| #[trigger]
            holds_below(nodes, name, prefix, i, slash) && stands(
                children_of(nodes[i]),
                name.skip(slash + 1),
                idx,
                below(prefix, name.take(slash)),
            )
    }
}

#[via_fn]
proof fn stands_shrinks(nodes: Seq<Node>, name: Seq<char>, idx: nat, prefix: Seq<char>) {
}

/// The path of a folder: its name, behind that of the folder around it and a slash.
pub open spec fn below(prefix: Seq<char>, part: Seq<char>) -> Seq<char> {
    if prefix.len() == 0 {
        part
    } else {
        prefix + seq!['/'] + part
    }
}

/// Node `i` is the folder of the first part of a name, which ends at its first slash.
pub open spec fn holds_below(
    nodes: Seq<Node>,
    name: Seq<char>,
    prefix: Seq<char>,
    i: int,
    slash: int,
) -> bool {
    &&& 0 <= i < nodes.len()
    &&& 0 <= slash < name.len() && name[slash] == '/' && !name.take(slash).contains('/')
    &&& nodes[i] matches Node::Folder { path, .. } && path == below(prefix, name.take(slash))
}

proof fn lemma_first_slash(name: Seq<char>)
    ensures
        ({
            let slash = char_from(name, '/', 0);
            &&& (slash < name.len()) == name.contains('/')
            &&& slash < name.len() ==> 0 <= slash && name[slash] == '/' && !name.take(slash).contains(
                '/',
            )
            &&& forall|s: int|
                0 <= s < name.len() && #[trigger] name[s] == '/' && !name.take(s).contains('/') ==> s
                    == slash
        }),
{
    lemma_char_from(name, '/', 0);
    let slash = char_from(name, '/', 0);
    if name.contains('/') {
        let k = choose|k: int| 0 <= k < name.len() && name[k] == '/';
        assert(slash < name.len());
    }
    if slash < name.len() {
        let head = name.take(slash);
        if head.contains('/') {
            let k = choose|k: int| 0 <= k < head.len() && head[k] == '/';
            assert(name[k] == '/');
        }
    }
    assert forall|s: int|
        0 <= s < name.len() && #[trigger] name[s] == '/' && !name.take(s).contains('/') implies s
        == slash by {
        if slash < s {
            assert(name.take(s)[slash] == '/');
        }
    }
}

proof fn lemma_below(prefix: Seq<char>, part: Seq<char>)
    ensures
        folder_path(prefix, part) == below(prefix, part),
{
    reveal_strlit("/");
    assert("/"@ =~= seq!['/']);
}

/// An entry put in stands where its name says.
proof fn lemma_grown_stands(nodes: Seq<Node>, name: Seq<char>, idx: nat, prefix: Seq<char>)
    ensures
        stands(grown(nodes, name, idx, prefix), name, idx, prefix),
    decreases name.len(),
{
    lemma_first_slash(name);
    lemma_char_from(name, '/', 0);
    let slash = char_from(name, '/', 0);
    let after = grown(nodes, name, idx, prefix);
    if slash >= name.len() {
        assert(after[nodes.len() as int] == Node::Leaf { entry_idx: idx });
    } else {
        let path = folder_path(prefix, name.take(slash));
        let rest = name.skip(slash + 1);
        lemma_below(prefix, name.take(slash));
        lemma_folder_from(nodes, path, 0);
        let at = folder_from(nodes, path, 0);
        if at < nodes.len() {
            lemma_grown_stands(children_of(nodes[at]), rest, idx, path);
            assert(holds_below(after, name, prefix, at, slash));
        } else {
            lemma_grown_stands(Seq::empty(), rest, idx, path);
            assert(holds_below(after, name, prefix, nodes.len() as int, slash));
        }
    }
}

/// An entry that is put in leaves the others where they stand.
proof fn lemma_grown_keeps(
    nodes: Seq<Node>,
    name: Seq<char>,
    idx: nat,
    prefix: Seq<char>,
    other: Seq<char>,
    k: nat,
)
    requires
        stands(nodes, other, k, prefix),
    ensures
        stands(grown(nodes, name, idx, prefix), other, k, prefix),
    decreases other.len(),
{
    lemma_char_from(name, '/', 0);
    let slash = char_from(name, '/', 0);
    let after = grown(nodes, name, idx, prefix);
    let path = folder_path(prefix, name.take(slash));
    let rest = name.skip(slash + 1);
    lemma_below(prefix, name.take(slash));
    lemma_folder_from(nodes, path, 0);
    let at = folder_from(nodes, path, 0);
    if !other.contains('/') {
        let leaf = Node::Leaf { entry_idx: k };
        let j = choose|j: int| 0 <= j < nodes.len() && nodes[j] == leaf;
        assert(after[j] == leaf);
    } else {
        let (i, s) = choose|i: int, s: int| #[trigger]
            holds_below(nodes, other, prefix, i, s) && stands(
                children_of(nodes[i]),
                other.skip(s + 1),
                k,
                below(prefix, other.take(s)),
            );
        assert(holds_below(nodes, other, prefix, i, s));
        if slash < name.len() && at < nodes.len() && at == i {
            assert(nodes[i]->path == path);
            lemma_grown_keeps(children_of(nodes[i]), rest, idx, path, other.skip(s + 1), k);
        }
        assert(holds_below(after, other, prefix, i, s));
    }
}

proof fn lemma_scope_stands(
    names: Seq<(Seq<char>, bool)>,
    n: int,
    global: bool,
    prefix: Seq<char>,
    k: nat,
)
    requires
        k < n <= names.len(),
        names[k as int].1 == global,
    ensures
        stands(scope_tree(names, n, global, prefix), names[k as int].0, k, prefix),
    decreases n,
{
    let before = scope_tree(names, n - 1, global, prefix);
    if k == n - 1 {
        lemma_grown_stands(before, names[n - 1].0, k, prefix);
    } else {
        lemma_scope_stands(names, n - 1, global, prefix, k);
        if names[n - 1].1 == global {
            lemma_grown_keeps(
                before,
                names[n - 1].0,
                (n - 1) as nat,
                prefix,
                names[k as int].0,
                k,
            );
        }
    }
}

proof fn lemma_push_stands(nodes: Seq<Node>, node: Node, name: Seq<char>, idx: nat, prefix: Seq<char>)
    requires
        stands(nodes, name, idx, prefix),
    ensures
        stands(nodes.push(node), name, idx, prefix),
{
    let after = nodes.push(node);
    if !name.contains('/') {
        let leaf = Node::Leaf { entry_idx: idx };
        let j = choose|j: int| 0 <= j < nodes.len() && nodes[j] == leaf;
        assert(after[j] == leaf);
    } else {
        let (i, s) = choose|i: int, s: int| #[trigger]
            holds_below(nodes, name, prefix, i, s) && stands(
                children_of(nodes[i]),
                name.skip(s + 1),
                idx,
                below(prefix, name.take(s)),
            );
        assert(holds_below(after, name, prefix, i, s));
    }
}

/// An entry of the project stands below the folders that its name spells out, from the
/// root; one of the user's, below those, in the folder `[global]` behind all the rest.
pub proof fn law_an_entry_stands_where_its_name_says(names: Seq<(Seq<char>, bool)>, k: nat)
    requires
        k < names.len(),
    ensures
        !names[k as int].1 ==> stands(whole_tree(names), names[k as int].0, k, Seq::empty()),
        names[k as int].1 ==> (whole_tree(names).last() matches Node::Folder { path, children } && path
            == "[global]"@ && stands(children, names[k as int].0, k, path)),
{
    let n = names.len() as int;
    let root = scope_tree(names, n, false, Seq::empty());
    let own = scope_tree(names, n, true, "[global]"@);
    if names[k as int].1 {
        assert(any_global(names));
        lemma_scope_stands(names, n, true, "[global]"@, k);
    } else {
        lemma_scope_stands(names, n, false, Seq::empty(), k);
        lemma_push_stands(
            root,
            Node::Folder { path: "[global]"@, children: own },
            names[k as int].0,
            k,
            Seq::empty(),
        );
    }
}

// ─── Rows ─────────────────────────────────────────────────────────────────────

/// How many of the rows are an entry's.
pub open spec fn rows_of_entry(rows: Seq<TreeRow>, idx: nat) -> nat
    decreases rows.len(),
{
    if rows.len() == 0 {
        0
    } else {
        rows_of_entry(rows.drop_last(), idx) + if rows.last() matches TreeRow::Leaf { entry_idx, .. }
            && entry_idx == idx {
            1nat
        } else {
            0
        }
    }
}

proof fn lemma_rows_join(a: Seq<TreeRow>, b: Seq<TreeRow>, idx: nat)
    ensures
        rows_of_entry(a + b, idx) == rows_of_entry(a, idx) + rows_of_entry(b, idx),
    decreases b.len(),
{
    if b.len() == 0 {
        assert(a + b =~= a);
    } else {
        lemma_rows_join(a, b.drop_last(), idx);
        assert((a + b).drop_last() =~= a + b.drop_last());
        assert((a + b).last() == b.last());
    }
}

proof fn lemma_rows_count(
    nodes: Seq<Node>,
    n: int,
    collapsed: Set<Seq<char>>,
    is_root: bool,
    parent: Seq<char>,
    idx: nat,
)
    requires
        0 <= n <= nodes.len(),
        collapsed == Set::<Seq<char>>::empty(),
    ensures
        rows_of_entry(rows_shown(nodes, n, collapsed, is_root, parent), idx) == leaves(nodes, n, idx),
    decreases nodes, n,
{
    if n > 0 {
        lemma_rows_count(nodes, n - 1, collapsed, is_root, parent, idx);
        let node = nodes[n - 1];
        let is_last = n == nodes.len();
        lemma_node_rows_count(node, is_last, collapsed, is_root, parent, idx);
        lemma_rows_join(
            rows_shown(nodes, n - 1, collapsed, is_root, parent),
            node_rows(node, is_last, collapsed, is_root, parent),
            idx,
        );
    }
}

proof fn lemma_node_rows_count(
    node: Node,
    is_last: bool,
    collapsed: Set<Seq<char>>,
    is_root: bool,
    parent: Seq<char>,
    idx: nat,
)
    requires
        collapsed == Set::<Seq<char>>::empty(),
    ensures
        rows_of_entry(node_rows(node, is_last, collapsed, is_root, parent), idx) == node_leaves(
            node,
            idx,
        ),
    decreases node, 0int,
{
    let prefix = row_prefix(is_root, is_last, parent);
    reveal_with_fuel(rows_of_entry, 2);
    match node {
        Node::Leaf { entry_idx } => {
            let own = seq![TreeRow::Leaf { entry_idx, prefix }];
            assert(own.drop_last() =~= Seq::<TreeRow>::empty());
            assert(own.last() == TreeRow::Leaf { entry_idx, prefix });
        },
        Node::Folder { path, children } => {
            let own = seq![TreeRow::Folder { path, expanded: true, prefix }];
            assert(own.drop_last() =~= Seq::<TreeRow>::empty());
            assert(own.last() == TreeRow::Folder { path, expanded: true, prefix });
            let deeper = child_prefix(is_root, is_last, parent);
            lemma_rows_count(children, children.len() as int, collapsed, false, deeper, idx);
            lemma_rows_join(
                own,
                rows_shown(children, children.len() as int, collapsed, false, deeper),
                idx,
            );
        },
    }
}

/// With every folder open, each entry has exactly one row.
pub proof fn law_every_entry_has_its_row(names: Seq<(Seq<char>, bool)>, k: nat)
    ensures
        rows_of_entry(tree_rows(whole_tree(names), Set::empty()), k) == if k < names.len() {
            1nat
        } else {
            0
        },
{
    let nodes = whole_tree(names);
    law_every_entry_stands_in_the_tree_once(names, k);
    lemma_rows_count(nodes, nodes.len() as int, Set::empty(), true, Seq::empty(), k);
}

/// An open folder is its own row, marked open, and right below it the rows of what it
/// holds, on branches that go on from its own; a closed one is its own row, marked closed.
pub proof fn law_a_folder_shows_what_it_holds(
    path: Seq<char>,
    children: Seq<Node>,
    is_last: bool,
    collapsed: Set<Seq<char>>,
    is_root: bool,
    parent: Seq<char>,
)
    ensures
        ({
            let rows = node_rows(Node::Folder { path, children }, is_last, collapsed, is_root, parent);
            &&& rows.len() > 0
            &&& rows[0] matches TreeRow::Folder { path: p, expanded, prefix } && p == path && expanded
                == !collapsed.contains(path) && prefix == row_prefix(is_root, is_last, parent)
            &&& !collapsed.contains(path) ==> rows.skip(1) == rows_shown(
                children,
                children.len() as int,
                collapsed,
                false,
                child_prefix(is_root, is_last, parent),
            )
            &&& collapsed.contains(path) ==> rows.len() == 1
        }),
{
    let rows = node_rows(Node::Folder { path, children }, is_last, collapsed, is_root, parent);
    let deeper = child_prefix(is_root, is_last, parent);
    let inner = rows_shown(children, children.len() as int, collapsed, false, deeper);
    if !collapsed.contains(path) {
        assert(rows.skip(1) =~= inner);
    }
}

/// The rows of some nodes are the rows of each, one after the other, and only the last of
/// them is drawn as the last.
pub proof fn law_nodes_follow_each_other(
    nodes: Seq<Node>,
    i: int,
    collapsed: Set<Seq<char>>,
    is_root: bool,
    parent: Seq<char>,
)
    requires
        0 <= i < nodes.len(),
    ensures
        ({
            let before = rows_shown(nodes, i, collapsed, is_root, parent);
            let own = node_rows(nodes[i], i == nodes.len() - 1, collapsed, is_root, parent);
            (before + own).is_prefix_of(
                rows_shown(nodes, nodes.len() as int, collapsed, is_root, parent),
            )
        }),
{
    lemma_rows_prefix(nodes, i + 1, nodes.len() as int, collapsed, is_root, parent);
}

proof fn lemma_rows_prefix(
    nodes: Seq<Node>,
    i: int,
    n: int,
    collapsed: Set<Seq<char>>,
    is_root: bool,
    parent: Seq<char>,
)
    requires
        0 <= i <= n <= nodes.len(),
    ensures
        rows_shown(nodes, i, collapsed, is_root, parent).is_prefix_of(
            rows_shown(nodes, n, collapsed, is_root, parent),
        ),
    decreases n - i,
{
    let a = rows_shown(nodes, i, collapsed, is_root, parent);
    let b = rows_shown(nodes, n, collapsed, is_root, parent);
    if i == n {
        assert(b.take(a.len() as int) =~= a);
    } else {
        lemma_rows_prefix(nodes, i, n - 1, collapsed, is_root, parent);
        let c = rows_shown(nodes, n - 1, collapsed, is_root, parent);
        assert(b.subrange(0, a.len() as int) =~= c.subrange(0, a.len() as int));
    }
}

/// Below the root each row hangs on a branch: a corner for the last of its level, a fork
/// for any other, and the rows below it carry a bar on past a fork and nothing past a
/// corner. At the root nothing stands before a row.
pub proof fn law_rows_hang_on_their_branches(is_last: bool, parent: Seq<char>)
    ensures
        row_prefix(true, is_last, parent).len() == 0,
        child_prefix(true, is_last, parent).len() == 0,
        row_prefix(false, is_last, parent) == parent + seq![
            if is_last {
                '└'
            } else {
                '├'
            },
            '─',
            '─',
            ' ',
        ],
        child_prefix(false, is_last, parent) == parent + seq![
            if is_last {
                ' '
            } else {
                '│'
            },
            ' ',
            ' ',
            ' ',
        ],
{
    reveal_strlit("└── ");
    reveal_strlit("├── ");
    reveal_strlit("    ");
    reveal_strlit("│   ");
    assert("└── "@ =~= seq!['└', '─', '─', ' ']);
    assert("├── "@ =~= seq!['├', '─', '─', ' ']);
    assert("    "@ =~= seq![' ', ' ', ' ', ' ']);
    assert("│   "@ =~= seq!['│', ' ', ' ', ' ']);
}

// ─── What the terminal says ───────────────────────────────────────────────────

/// The user's word on icons counts before anything that is known of the terminal.
pub proof fn law_the_user_decides_on_icons(env: Map<Seq<char>, Seq<char>>)
    requires
        env.dom().contains("ICHIGO_ICONS"@),
    ensures
        icons_by_env(env) == Some(env["ICHIGO_ICONS"@] == seq!['1']),
{
    reveal_strlit("1");
    assert("1"@ =~= seq!['1']);
}

/// Without the user's word a terminal that is known to draw icons gets them, whether it is
/// known by a variable of its own or by its name; inside tmux it is left open, and any
/// other gets none.
pub proof fn law_known_terminals_get_icons(env: Map<Seq<char>, Seq<char>>)
    requires
        !env.dom().contains("ICHIGO_ICONS"@),
    ensures
        ({
            let known = env.dom().contains("KITTY_WINDOW_ID"@) || env.dom().contains("WEZTERM_PANE"@)
                || env.dom().contains("WEZTERM_EXECUTABLE"@) || (env.dom().contains("TERM_PROGRAM"@) && (
            env["TERM_PROGRAM"@] == "ghostty"@ || env["TERM_PROGRAM"@] == "iTerm.app"@)) || (
            env.dom().contains("TERM"@) && (env["TERM"@] == "xterm-kitty"@ || env["TERM"@]
                == "xterm-ghostty"@));
            &&& known <==> icons_by_env(env) == Some(true)
            &&& !known ==> icons_by_env(env) == (if env.dom().contains("TMUX"@) {
                None
            } else {
                Some(false)
            })
        }),
{
}

/// tmux's line of a variable and its value says that the variable is set, and to that
/// value where the value is among those asked for; its line of an unset variable, with a
/// dash in front, says that it is not.
pub proof fn law_tmux_says_what_is_set(var: Seq<char>, value: Seq<char>, values: Seq<Seq<char>>)
    requires
        trimmed(var + seq!['='] + value) == var + seq!['='] + value,
        trimmed(seq!['-'] + var) == seq!['-'] + var,
        var.len() > 0 && var[0] != '-',
        !(var + seq!['=']).is_prefix_of(value),
    ensures
        values.len() > 0 ==> tmux_says(var + seq!['='] + value, var, values) == values.contains(value),
        values.len() == 0 ==> tmux_says(var + seq!['='] + value, var, values),
        !tmux_says(seq!['-'] + var, var, values),
{
    reveal_strlit("=");
    assert("="@ =~= seq!['=']);
    let pat = var + seq!['='];
    let line = pat + value;
    assert(line[var.len() as int] == '=');
    assert(line[0] == var[0]);
    assert(pat.is_prefix_of(line)) by {
        assert(line.take(pat.len() as int) =~= pat);
    }
    assert(line.skip(pat.len() as int) =~= value);
    reveal_with_fuel(without_prefixes, 3);
    assert((seq!['-'] + var)[0] == '-');
}

} // verus!
