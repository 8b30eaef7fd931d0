//! Exact-output scenarios and behaviour the store promises: rendered
//! diagrams character for character, size arithmetic, traversal
//! bounds, and the orphaning of descendants on removal.

use rooted_tree::ChildWrap;
use rooted_tree::Config;
use rooted_tree::Error;
use rooted_tree::NodeImplementation;
use rooted_tree::RootedTree;

fn data_node(id: u64) -> NodeImplementation {
    NodeImplementation::new(id)
}

/// Three nodes in a line render in parent-to-leaf order, each one
/// connector level deeper than its parent.
#[test]
fn report_three_levels_exact() {
    let mut tree = RootedTree::new();
    tree.add_node(None, data_node(1)).unwrap();
    tree.add_node(Some(1), data_node(2)).unwrap();
    tree.add_node(Some(2), data_node(3)).unwrap();

    let out = tree.report(&Config::default()).unwrap();
    assert_eq!(out, "\n 1\n └── 1 ↜ 2\n     └── 2 ↜ 3\n");
}

/// Five children under a budget of two, bottom placement: the first
/// two stay, one elision marker follows, the rest are omitted.
#[test]
fn report_bottom_truncation_exact() {
    let mut tree = RootedTree::new();
    tree.add_node(None, data_node(1)).unwrap();
    for id in 2..=6 {
        tree.add_node(Some(1), data_node(id)).unwrap();
    }

    let mut config = Config::default();
    config.max_children = Some(2);
    config.child_wrap = ChildWrap::Bottom;

    let out = tree.report(&config).unwrap();
    assert_eq!(out, "\n 1\n ├── 1 ↜ 2\n ├── 1 ↜ 3\n ╎  \n");
    assert!(!out.contains('4'));
    assert!(!out.contains('5'));
    assert!(!out.contains('6'));
}

/// Top placement keeps the most recently added children within the
/// budget, with no elision marker before them.
#[test]
fn report_top_truncation_exact() {
    let mut tree = RootedTree::new();
    tree.add_node(None, data_node(1)).unwrap();
    for id in 2..=5 {
        tree.add_node(Some(1), data_node(id)).unwrap();
    }

    let mut config = Config::default();
    config.max_children = Some(2);
    config.child_wrap = ChildWrap::Top;

    let out = tree.report(&config).unwrap();
    assert_eq!(out, "\n 1\n ├── 1 ↜ 4\n └── 1 ↜ 5\n");
    assert!(!out.contains('╎'));
}

/// Inside a selection window, a node none of whose children lie on
/// the selection path falls back to the configured placement: under
/// `Top` it keeps its most recent children with no marker and no tail
/// cut.
#[test]
fn report_selection_fallback_honors_top() {
    let mut tree = RootedTree::new();
    tree.add_node(None, data_node(1)).unwrap();
    for id in 2..=6 {
        tree.add_node(Some(1), data_node(id)).unwrap();
    }
    for id in 7..=11 {
        tree.add_node(Some(2), data_node(id)).unwrap();
    }

    let mut config = Config::default();
    config.select_node = Some((2, 4));
    config.max_children = Some(2);
    config.child_wrap = ChildWrap::Top;

    let out = tree.report(&config).unwrap();
    assert_eq!(
        out,
        "\n 1\n ├── 1 ↜ 2\n │   ├── 2 ↜ 10\n │   └── 2 ↜ 11\n ├── 1 ↜ 3\n ╎  \n"
    );
}

/// Selecting child four with radius one: half the radius rounds down
/// to zero, so the window is the target alone.
#[test]
fn report_selection_radius_one_exact() {
    let mut tree = RootedTree::new();
    tree.add_node(None, data_node(1)).unwrap();
    for id in 2..=6 {
        tree.add_node(Some(1), data_node(id)).unwrap();
    }

    let mut config = Config::default();
    config.select_node = Some((4, 1));
    config.max_children = Some(2);

    let out = tree.report(&config).unwrap();
    assert!(out.contains("4"));
    assert_eq!(out, "\n ╎  \n 1 ↜ 4\n");
}

/// Selecting child four with radius two recenters the window: a
/// leading elision marker, the target's line kept, and the tail cut.
#[test]
fn report_selection_recenter_exact() {
    let mut tree = RootedTree::new();
    tree.add_node(None, data_node(1)).unwrap();
    for id in 2..=6 {
        tree.add_node(Some(1), data_node(id)).unwrap();
    }

    let mut config = Config::default();
    config.select_node = Some((4, 2));
    config.max_children = Some(2);

    let out = tree.report(&config).unwrap();
    assert_eq!(out, "\n 1\n ╎  \n ├── 1 ↜ 3\n ├── 1 ↜ 4\n ╎  \n");
}

/// A detached sub-tree renders with the dashed lead-in and its
/// external parent label.
#[test]
fn report_detached_subtree_exact() {
    let mut tree = RootedTree::new();
    let mut node = data_node(1);
    node.set_parent_id(0);
    tree.set_root_node(node);
    tree.add_node(Some(1), data_node(2)).unwrap();

    let out = tree.report(&Config::default()).unwrap();
    assert_eq!(out, "\n ╎  \n 0 ↜ 1\n ╎   └── 1 ↜ 2\n");
}

/// Child identifiers recorded but absent from the store render as
/// dashed lines without being entered.
#[test]
fn report_unresolved_children_exact() {
    let mut tree = RootedTree::new();
    tree.add_node(None, data_node(1)).unwrap();
    let mut node = data_node(2);
    node.add_child_id(3);
    node.add_child_id(4);
    node.add_child_id(5);
    tree.add_node(Some(1), node).unwrap();
    tree.add_node(Some(2), data_node(4)).unwrap();

    let out = tree.report(&Config::default()).unwrap();
    assert_eq!(
        out,
        "\n 1\n └── 1 ↜ 2\n     ├╌╌╌╌╌╌ 3\n     ├── 2 ↜ 4\n     └╌╌╌╌╌╌ 5\n"
    );
}

/// Connector columns pad to the display width of the parent label
/// above them.
#[test]
fn report_wide_labels_exact() {
    let mut tree = RootedTree::new();
    tree.add_node(None, data_node(10)).unwrap();
    tree.add_node(Some(10), data_node(20)).unwrap();
    tree.add_node(Some(20), data_node(30)).unwrap();

    let out = tree.report(&Config::default()).unwrap();
    assert_eq!(out, "\n 10\n └── 10 ↜ 20\n     └─── 20 ↜ 30\n");
}

/// The size is one for the root plus one per successfully inserted
/// child, and drops by one per removal.
#[test]
fn len_follows_insertions_and_removals() {
    let mut tree = RootedTree::new();
    assert_eq!(tree.len(), 0);
    tree.add_node(None, data_node(1)).unwrap();
    assert_eq!(tree.len(), 1);
    tree.add_node(Some(1), data_node(2)).unwrap();
    tree.add_node(Some(2), data_node(3)).unwrap();
    tree.add_node(Some(1), data_node(4)).unwrap();
    assert_eq!(tree.len(), 4);
    assert!(tree.add_node(Some(99), data_node(5)).is_err());
    assert_eq!(tree.len(), 4);
    tree.remove_node(&4).unwrap();
    assert_eq!(tree.len(), 3);
}

/// Removing an inner node keeps its descendants in the store; the
/// size drops by exactly one.
#[test]
fn remove_inner_node_keeps_descendants() {
    let mut tree = RootedTree::new();
    tree.add_node(None, data_node(1)).unwrap();
    tree.add_node(Some(1), data_node(2)).unwrap();
    tree.add_node(Some(2), data_node(3)).unwrap();
    tree.add_node(Some(3), data_node(4)).unwrap();
    assert_eq!(tree.len(), 4);

    let removed = tree.remove_node(&2).unwrap();
    assert_eq!(removed.id(), 2);
    assert_eq!(tree.len(), 3);
    // the former descendants are still registered, merely unreachable
    assert!(tree.get_node(&3).is_some());
    assert!(tree.get_node(&4).is_some());
    assert_eq!(tree.get_node(&1).unwrap().child_ids_vec(), vec![]);
}

/// Removing an unknown identifier removes nothing, not even the root.
#[test]
fn remove_unknown_id_is_none() {
    let mut tree = RootedTree::new();
    tree.add_node(None, data_node(1)).unwrap();
    tree.add_node(Some(1), data_node(2)).unwrap();
    assert!(tree.remove_node(&99).is_none());
    assert_eq!(tree.len(), 2);
}

/// A zero-hop downward traversal is empty; wider bounds collect
/// subsets of the unbounded traversal, which they reach at the depth.
#[test]
fn descendant_bounds() {
    let mut tree = RootedTree::new();
    tree.add_node(None, data_node(1)).unwrap();
    tree.add_node(Some(1), data_node(2)).unwrap();
    tree.add_node(Some(2), data_node(3)).unwrap();
    tree.add_node(Some(2), data_node(4)).unwrap();
    tree.add_node(Some(3), data_node(5)).unwrap();

    assert_eq!(tree.list_child_ids_with_lvl(&1, Some(0)), vec![]);
    let one = tree.list_child_ids_with_lvl(&1, Some(1));
    let two = tree.list_child_ids_with_lvl(&1, Some(2));
    let all = tree.list_child_ids(&1);
    assert_eq!(one, vec![2]);
    assert_eq!(two, vec![2, 3, 4]);
    assert_eq!(all, vec![2, 3, 5, 4]);
    assert!(one.iter().all(|id| all.contains(id)));
    assert!(two.iter().all(|id| all.contains(id)));
    assert_eq!(tree.list_child_ids_with_lvl(&1, Some(3)), all);
    assert_eq!(tree.list_child_ids_with_lvl(&1, Some(200)), all);
}

/// The windowed render never omits the target's line, whatever the
/// radius.
#[test]
fn windowed_render_keeps_target() {
    let mut tree = RootedTree::new();
    tree.add_node(None, data_node(1)).unwrap();
    tree.add_node(Some(1), data_node(2)).unwrap();
    tree.add_node(Some(2), data_node(3)).unwrap();
    tree.add_node(Some(2), data_node(4)).unwrap();
    tree.add_node(Some(2), data_node(5)).unwrap();
    tree.add_node(Some(2), data_node(6)).unwrap();
    tree.add_node(Some(4), data_node(7)).unwrap();

    for radius in 0u32..8 {
        let mut config = Config::default();
        config.select_node = Some((4, radius));
        config.max_children = Some(2);
        let out = tree.report(&config).unwrap();
        assert!(
            out.lines().any(|line| line.ends_with(" 4") || line == " 4"),
            "radius {}: {}",
            radius,
            out
        );
    }
}

/// Bulk construction fails on the same inputs as stepwise
/// registration, with the same error kinds.
#[test]
fn from_vec_error_kinds() {
    // a later node without a parent pointer
    let nodes = vec![data_node(1), data_node(2)];
    assert!(matches!(
        RootedTree::try_from(nodes),
        Err(Error::ChildNodeHasNoParent)
    ));

    // a later node naming an absent parent
    let mut child = data_node(2);
    child.set_parent_id(9);
    let nodes = vec![data_node(1), child];
    assert!(matches!(
        RootedTree::try_from(nodes),
        Err(Error::ParentNodeDoesNotExist)
    ));

    // a parent that does not list the child
    let mut child = data_node(2);
    child.set_parent_id(1);
    let nodes = vec![data_node(1), child];
    assert!(matches!(
        RootedTree::try_from(nodes),
        Err(Error::ParentNodeDoesNotContainChild)
    ));

    // the empty list builds the empty store
    let tree = RootedTree::try_from(vec![]).unwrap();
    assert_eq!(tree.len(), 0);
}

/// The report of an empty store is a single newline.
#[test]
fn report_empty_store() {
    let tree = RootedTree::new();
    let out = tree.report(&Config::default()).unwrap();
    assert_eq!(out, "\n");
    assert_eq!(tree.to_display_string(), "");
}
