//! The rooted-tree store: insertion, lookup, removal, traversal and
//! bulk registration.

use rooted_tree::Error;
use rooted_tree::NodeImplementation;
use rooted_tree::RootedTree;

fn data_node(id: u64) -> NodeImplementation {
    NodeImplementation::new(id)
}

#[test]
fn list_parent_from_end_child_with_lvl() {
    let mut tree = RootedTree::new();
    tree.add_node(None, data_node(1)).unwrap();
    tree.add_node(Some(1), data_node(2)).unwrap();
    tree.add_node(Some(2), data_node(3)).unwrap();

    let ids = tree.list_parent_ids_with_lvl(&3, Some(1));
    assert_eq!(ids, vec![2]);
    let ids = tree.list_parent_ids_with_lvl(&3, Some(2));
    assert_eq!(ids, vec![2, 1]);

    let ids = tree.list_parent_ids_with_lvl(&3, Some(3));
    assert_eq!(ids, vec![2, 1]);

    // From subtree
    tree.get_mut_node(&1).unwrap().set_parent_id(0);
    let ids = tree.list_parent_ids_with_lvl(&3, Some(2));
    assert_eq!(ids, vec![2, 1]);
    let ids = tree.list_parent_ids_with_lvl(&3, Some(3));
    assert_eq!(ids, vec![2, 1, 0]);

    let ids = tree.list_parent_ids_with_lvl(&3, Some(0));
    assert_eq!(ids, vec![]);
}

#[test]
fn list_parent_from_child_with_lvl() {
    let mut tree = RootedTree::new();
    tree.add_node(None, data_node(1)).unwrap();
    tree.add_node(Some(1), data_node(2)).unwrap();
    tree.add_node(Some(2), data_node(3)).unwrap();

    let ids = tree.list_parent_ids_with_lvl(&2, Some(1));
    assert_eq!(ids, vec![1]);

    // From subtree
    tree.get_mut_node(&1).unwrap().set_parent_id(0);

    let ids = tree.list_parent_ids_with_lvl(&2, Some(1));
    assert_eq!(ids, vec![1]);
    let ids = tree.list_parent_ids_with_lvl(&2, Some(2));
    assert_eq!(ids, vec![1, 0]);
}

#[test]
fn list_parent_from_root_with_lvl() {
    let mut tree = RootedTree::new();
    tree.add_node(None, data_node(1)).unwrap();
    tree.add_node(Some(1), data_node(2)).unwrap();
    tree.add_node(Some(2), data_node(3)).unwrap();

    let ids = tree.list_parent_ids_with_lvl(&1, Some(1));
    assert_eq!(ids, vec![]);

    // From subtree
    tree.get_mut_node(&1).unwrap().set_parent_id(0);

    let ids = tree.list_parent_ids_with_lvl(&1, Some(1));
    assert_eq!(ids, vec![0]);

    let ids = tree.list_parent_ids_with_lvl(&1, Some(0));
    assert_eq!(ids, vec![]);
}

#[test]
fn list_all_parent_from_end_child() {
    let mut tree = RootedTree::new();
    tree.add_node(None, data_node(1)).unwrap();
    tree.add_node(Some(1), data_node(2)).unwrap();
    tree.add_node(Some(2), data_node(3)).unwrap();

    let ids = tree.list_parent_ids(&3);
    assert_eq!(ids, vec![2, 1]);

    // From subtree
    tree.get_mut_node(&1).unwrap().set_parent_id(0);
    let ids = tree.list_parent_ids(&3);
    assert_eq!(ids, vec![2, 1, 0]);
}

#[test]
fn list_all_parent_from_child() {
    let mut tree = RootedTree::new();
    tree.add_node(None, data_node(1)).unwrap();
    tree.add_node(Some(1), data_node(2)).unwrap();
    tree.add_node(Some(2), data_node(3)).unwrap();

    let ids = tree.list_parent_ids(&2);
    assert_eq!(ids, vec![1]);

    // From subtree
    tree.get_mut_node(&1).unwrap().set_parent_id(0);
    let ids = tree.list_parent_ids(&2);
    assert_eq!(ids, vec![1, 0]);
}

#[test]
fn list_all_parent_from_root() {
    let mut tree = RootedTree::new();
    tree.add_node(None, data_node(1)).unwrap();
    tree.add_node(Some(1), data_node(2)).unwrap();
    tree.add_node(Some(2), data_node(3)).unwrap();

    let ids = tree.list_parent_ids(&1);
    assert_eq!(ids, vec![]);

    // From subtree
    tree.get_mut_node(&1).unwrap().set_parent_id(0);

    let ids = tree.list_parent_ids(&1);
    assert_eq!(ids, vec![0]);
}

#[test]
fn list_all_child_ids_from_root() {
    let mut tree = RootedTree::new();
    tree.add_node(None, data_node(1)).unwrap();
    tree.add_node(Some(1), data_node(2)).unwrap();
    tree.add_node(Some(2), data_node(3)).unwrap();

    let mut ids = tree.list_child_ids(&1);
    ids.sort();
    assert_eq!(ids, vec![2, 3]);
}

#[test]
fn list_all_child_ids_from_child() {
    let mut tree = RootedTree::new();
    tree.add_node(None, data_node(1)).unwrap();
    tree.add_node(Some(1), data_node(2)).unwrap();
    tree.add_node(Some(2), data_node(3)).unwrap();

    let ids = tree.list_child_ids(&2);
    assert_eq!(ids, vec![3]);
}

#[test]
fn list_all_child_ids_from_end_child() {
    let mut tree = RootedTree::new();
    tree.add_node(None, data_node(1)).unwrap();
    tree.add_node(Some(1), data_node(2)).unwrap();
    tree.add_node(Some(2), data_node(3)).unwrap();

    let ids = tree.list_child_ids(&3);
    assert_eq!(ids, vec![]);
}

#[test]
fn list_child_ids_with_lvl_from_root() {
    let mut tree = RootedTree::new();
    tree.add_node(None, data_node(1)).unwrap();
    tree.add_node(Some(1), data_node(2)).unwrap();
    tree.add_node(Some(2), data_node(3)).unwrap();

    let mut ids = tree.list_child_ids_with_lvl(&1, Some(1));
    ids.sort();
    assert_eq!(ids, vec![2]);
}

#[test]
fn list_child_ids_with_lvl_from_child() {
    let mut tree = RootedTree::new();
    tree.add_node(None, data_node(1)).unwrap();
    tree.add_node(Some(1), data_node(2)).unwrap();
    tree.add_node(Some(2), data_node(3)).unwrap();

    let mut ids = tree.list_child_ids_with_lvl(&2, Some(1));
    ids.sort();
    assert_eq!(ids, vec![3]);
}

#[test]
fn list_child_ids_with_lvl_from_end_child() {
    let mut tree = RootedTree::new();
    tree.add_node(None, data_node(1)).unwrap();
    tree.add_node(Some(1), data_node(2)).unwrap();
    tree.add_node(Some(2), data_node(3)).unwrap();

    let mut ids = tree.list_child_ids_with_lvl(&3, Some(1));
    ids.sort();
    assert_eq!(ids, vec![]);
}

#[test]
fn rooted_tree_add_root_node() {
    let mut r_tree = RootedTree::new();
    let node = data_node(1);
    r_tree.add_node(None, node).unwrap();
    assert_eq!(r_tree.len(), 1);

    let node = r_tree.get_node(&1).unwrap();
    assert_eq!(node.id(), 1);
    assert_eq!(node.parent_id(), None);
    assert_eq!(node.child_ids_vec(), vec![]);
}

#[test]
fn rooted_tree_add_child_to_a_root_node() {
    let mut r_tree = RootedTree::new();
    let node = data_node(1);
    r_tree.add_node(None, node).unwrap();
    let node = data_node(2);
    r_tree.add_node(Some(1), node).unwrap();
    assert_eq!(r_tree.len(), 2);

    let node_1 = r_tree.get_node(&1).unwrap();
    assert_eq!(node_1.id(), 1);
    assert_eq!(node_1.parent_id(), None);
    assert_eq!(node_1.child_ids_vec(), vec![2]);
    let node_2 = r_tree.get_node(&2).unwrap();
    assert_eq!(node_2.id(), 2);
    assert_eq!(node_2.parent_id(), Some(1));
    assert_eq!(node_2.child_ids_vec(), vec![]);
}

#[test]
fn rooted_tree_fail_to_add_2_root_nodes() {
    let mut r_tree = RootedTree::new();
    let node = data_node(1);
    r_tree.add_node(None, node).unwrap();
    let node = data_node(2);
    assert!(matches!(
        r_tree.add_node(None, node),
        Err(Error::RootNodeAlreadyExists)
    ));
}

#[test]
fn rooted_tree_fail_to_add_child_to_non_existent_parent() {
    let mut r_tree = RootedTree::new();
    let node = data_node(1);
    assert!(matches!(
        r_tree.add_node(Some(2), node),
        Err(Error::ParentNodeDoesNotExist)
    ));
}

#[test]
fn fail_to_set_root_with_an_parent_id() {
    let mut tree = RootedTree::new();
    let mut node = data_node(1);
    node.set_parent_id(0);
    assert!(matches!(
        tree.add_node(None, node),
        Err(Error::RootNodeHasParent)
    ));
}

#[test]
fn rooted_tree_remove_root_node() {
    let mut r_tree = RootedTree::new();
    let node = data_node(1);
    r_tree.add_node(None, node).unwrap();
    assert_eq!(r_tree.len(), 1);
    r_tree.remove_node(&1).unwrap();
    assert_eq!(r_tree.len(), 0);
}

#[test]
fn rooted_tree_remove_child_node() {
    let mut r_tree = RootedTree::new();
    let node = data_node(1);
    r_tree.add_node(None, node).unwrap();
    let node = data_node(2);
    r_tree.add_node(Some(1), node).unwrap();
    r_tree.remove_node(&2).unwrap();
    assert_eq!(r_tree.len(), 1);

    let node = r_tree.get_node(&1).unwrap();
    assert_eq!(node.id(), 1);
    assert_eq!(node.parent_id(), None);
    assert_eq!(node.child_ids_vec(), vec![]);
}

#[test]
fn is_subtree() {
    let mut r_tree = RootedTree::new();
    let node = data_node(1);
    r_tree.add_node(None, node).unwrap();
    assert_eq!(r_tree.is_subtree(), false);
    let mut r_tree = RootedTree::new();
    let mut node = data_node(1);
    node.set_parent_id(2);
    r_tree.set_root_node(node);
    assert_eq!(r_tree.is_subtree(), true);
}

#[test]
fn set_root_node() {
    let mut r_tree = RootedTree::new();
    let node = data_node(1);
    r_tree.set_root_node(node);
    assert_eq!(r_tree.len(), 1);
    let node = r_tree.get_node(&1).unwrap();
    assert_eq!(node.id(), 1);
    assert_eq!(node.parent_id(), None);
    assert_eq!(node.child_ids_vec(), vec![]);
}

#[test]
fn set_child_node() {
    let mut r_tree = RootedTree::new();
    let mut node = data_node(1);
    node.add_child_id(2);
    r_tree.set_root_node(node);
    let mut node = data_node(2);
    node.set_parent_id(1);
    r_tree.set_child_node(node).unwrap();
    assert_eq!(r_tree.len(), 2);
    let node = r_tree.get_node(&1).unwrap();
    assert_eq!(node.id(), 1);
    assert_eq!(node.parent_id(), None);
    assert_eq!(node.child_ids_vec(), vec![2]);
    let node = r_tree.get_node(&2).unwrap();
    assert_eq!(node.id(), 2);
    assert_eq!(node.parent_id(), Some(1));
    assert_eq!(node.child_ids_vec(), vec![]);
}

#[test]
fn fail_to_set_child_node_parent_node_does_not_contain_child() {
    let mut r_tree = RootedTree::new();
    let mut node = data_node(1);
    node.add_child_id(2);
    r_tree.set_root_node(node);
    let mut node = data_node(2);
    node.set_parent_id(3);
    assert!(matches!(
        r_tree.set_child_node(node),
        Err(Error::ParentNodeDoesNotExist)
    ));
}

#[test]
fn fail_to_set_child_node_parent_does_not_exist() {
    let mut r_tree = RootedTree::new();
    let mut node = data_node(1);
    node.add_child_id(2);
    r_tree.set_root_node(node);
    let mut node = data_node(2);
    node.set_parent_id(3);
    assert!(matches!(
        r_tree.set_child_node(node),
        Err(Error::ParentNodeDoesNotExist)
    ));
}

#[test]
fn fail_to_set_child_node_child_node_has_no_parent() {
    let mut r_tree = RootedTree::new();
    let mut node = data_node(1);
    node.add_child_id(2);
    r_tree.set_root_node(node);
    let node = data_node(2);
    assert!(matches!(
        r_tree.set_child_node(node),
        Err(Error::ChildNodeHasNoParent)
    ));
}

#[test]
fn eq() {
    let mut tree_1 = RootedTree::new();
    tree_1.add_node(None, data_node(1)).unwrap();

    let mut tree_2 = RootedTree::new();
    tree_2.add_node(None, data_node(1)).unwrap();

    assert!(tree_2 == tree_1);

    tree_2.add_node(Some(1), data_node(2)).unwrap();

    assert!(tree_2 != tree_1);
}
