use ichigo::strmap::StrMap;
use ichigo::strset::StrSet;
use ichigo::tree::{build_tree, visible_rows, Entry, EntryKind, TreeNode, VisibleRow};


fn leaf_entry(name: &str, global: bool) -> Entry {
    Entry {
        name: name.to_string(),
        global,
        kind: EntryKind::Request {
            method: "GET".to_string(),
            url: "http://example.com".to_string(),
            description: None,
            headers: StrMap::new(),
            query: StrMap::new(),
            body_data: None,
            profiles: vec![],
        },
    }
}

#[test]
fn tui_build_tree_flat_list() {
    let entries = vec![leaf_entry("login", false), leaf_entry("ping", false)];
    let tree = build_tree(&entries);
    assert_eq!(tree.len(), 2);
    assert!(matches!(tree[0], TreeNode::Leaf { entry_idx: 0 }));
    assert!(matches!(tree[1], TreeNode::Leaf { entry_idx: 1 }));
}

#[test]
fn tui_build_tree_nested() {
    let entries = vec![
        leaf_entry("auth/login", false),
        leaf_entry("auth/refresh", false),
        leaf_entry("ping", false),
    ];
    let tree = build_tree(&entries);
    assert_eq!(tree.len(), 2);
    match &tree[0] {
        TreeNode::Folder { path, children } => {
            assert_eq!(path, "auth");
            assert_eq!(children.len(), 2);
            assert!(matches!(children[0], TreeNode::Leaf { entry_idx: 0 }));
            assert!(matches!(children[1], TreeNode::Leaf { entry_idx: 1 }));
        }
        _ => panic!("expected folder node"),
    }
    assert!(matches!(tree[1], TreeNode::Leaf { entry_idx: 2 }));
}

#[test]
fn tui_build_tree_global_folder() {
    let entries = vec![leaf_entry("login", false), leaf_entry("global_req", true)];
    let tree = build_tree(&entries);
    assert_eq!(tree.len(), 2);
    assert!(matches!(tree[0], TreeNode::Leaf { entry_idx: 0 }));
    match &tree[1] {
        TreeNode::Folder { path, children } => {
            assert_eq!(path, "[global]");
            assert_eq!(children.len(), 1);
        }
        _ => panic!("expected [global] folder"),
    }
}

#[test]
fn tui_visible_rows_all_expanded() {
    let entries = vec![leaf_entry("auth/login", false), leaf_entry("auth/refresh", false)];
    let tree = build_tree(&entries);
    let collapsed = StrSet::new();
    let rows = visible_rows(&tree, &collapsed);
    assert_eq!(rows.len(), 3);
    assert!(matches!(&rows[0], VisibleRow::Folder { path, expanded: true, .. } if path == "auth"));
    assert!(matches!(&rows[1], VisibleRow::Leaf { entry_idx: 0, .. }));
    assert!(matches!(&rows[2], VisibleRow::Leaf { entry_idx: 1, .. }));
}

#[test]
fn tui_visible_rows_collapsed_hides_children() {
    let entries = vec![
        leaf_entry("auth/login", false),
        leaf_entry("auth/refresh", false),
        leaf_entry("ping", false),
    ];
    let tree = build_tree(&entries);
    let mut collapsed = StrSet::new();
    collapsed.insert("auth".to_string());
    let rows = visible_rows(&tree, &collapsed);
    assert_eq!(rows.len(), 2);
    assert!(matches!(&rows[0], VisibleRow::Folder { path, expanded: false, .. } if path == "auth"));
    assert!(matches!(&rows[1], VisibleRow::Leaf { entry_idx: 2, .. }));
}

#[test]
fn tui_visible_rows_tree_prefixes() {
    let entries = vec![leaf_entry("auth/login", false), leaf_entry("auth/refresh", false)];
    let tree = build_tree(&entries);
    let collapsed = StrSet::new();
    let rows = visible_rows(&tree, &collapsed);
    match &rows[0] {
        VisibleRow::Folder { prefix, .. } => assert!(prefix.is_empty()),
        _ => panic!(),
    }
    match &rows[1] {
        VisibleRow::Leaf { prefix, .. } => assert!(prefix.contains("├──")),
        _ => panic!(),
    }
    match &rows[2] {
        VisibleRow::Leaf { prefix, .. } => assert!(prefix.contains("└──")),
        _ => panic!(),
    }
}
