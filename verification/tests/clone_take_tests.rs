//! Copies and detachments: whole-store clones, depth-bounded clones
//! from a node, destructive takes, and bulk construction.

use rooted_tree::Config;
use rooted_tree::NodeImplementation;
use rooted_tree::RootedTree;

fn data_node(id: u64) -> NodeImplementation {
    NodeImplementation::new(id)
}

#[test]
fn clone() {
    let mut tree = RootedTree::new();
    tree.add_node(None, data_node(1)).unwrap();

    let cloned_tree = tree.clone();

    assert!(tree == cloned_tree);
}

#[test]
fn clone_root() {
    let mut tree = RootedTree::new();
    tree.add_node(None, data_node(1)).unwrap();
    tree.add_node(Some(1), data_node(2)).unwrap();

    let sub_tree = tree.clone_from(1).unwrap();

    assert!(tree == sub_tree);
}

#[test]
fn clone_child() {
    let mut tree = RootedTree::new();
    tree.add_node(None, data_node(1)).unwrap();
    tree.add_node(Some(1), data_node(2)).unwrap();
    tree.add_node(Some(2), data_node(3)).unwrap();
    let _tree = tree.clone();

    let sub_tree = tree.clone_from(2).unwrap();

    assert!(_tree == tree);

    assert_eq!(tree.len(), 3);
    assert_eq!(sub_tree.get_node(&2).unwrap().parent_id(), Some(1));
    assert_eq!(sub_tree.get_node(&2).unwrap().child_ids_vec(), vec![3]);
    assert_eq!(sub_tree.get_node(&3).unwrap().parent_id(), Some(2));
    assert_eq!(sub_tree.get_node(&3).unwrap().child_ids_vec(), vec![]);
}

#[test]
fn clone_end_child() {
    let mut tree = RootedTree::new();
    tree.add_node(None, data_node(1)).unwrap();
    tree.add_node(Some(1), data_node(2)).unwrap();
    tree.add_node(Some(2), data_node(3)).unwrap();
    let _tree = tree.clone();

    let sub_tree = tree.clone_from(3).unwrap();

    assert!(_tree == tree);

    println!("{}", sub_tree.report(&Config::default()).unwrap());

    assert_eq!(sub_tree.len(), 1);
    assert_eq!(sub_tree.get_node(&3).unwrap().parent_id(), Some(2));
    assert_eq!(sub_tree.get_node(&3).unwrap().child_ids_vec(), vec![]);
}

#[test]
fn clone_with_lvl_from_root() {
    let mut tree = RootedTree::new();
    tree.add_node(None, data_node(1)).unwrap();
    tree.add_node(Some(1), data_node(2)).unwrap();
    tree.add_node(Some(2), data_node(3)).unwrap();

    let sub_tree = tree.clone_from_with_lvl(1, Some(1)).unwrap();

    assert!(tree != sub_tree);
    assert_eq!(sub_tree.len(), 2);
    assert_eq!(sub_tree.get_node(&1).unwrap().parent_id(), None);
    assert_eq!(sub_tree.get_node(&1).unwrap().child_ids_vec(), vec![2]);
    assert_eq!(sub_tree.get_node(&2).unwrap().parent_id(), Some(1));
    assert_eq!(sub_tree.get_node(&2).unwrap().child_ids_vec(), vec![3]);
}

#[test]
fn clone_with_lvl_from_child() {
    let mut tree = RootedTree::new();
    tree.add_node(None, data_node(1)).unwrap();
    tree.add_node(Some(1), data_node(2)).unwrap();
    tree.add_node(Some(2), data_node(3)).unwrap();

    let sub_tree = tree.clone_from_with_lvl(2, Some(1)).unwrap();

    assert!(tree != sub_tree);
    assert_eq!(sub_tree.len(), 2);
    assert_eq!(sub_tree.get_node(&2).unwrap().parent_id(), Some(1));
    assert_eq!(sub_tree.get_node(&2).unwrap().child_ids_vec(), vec![3]);
    assert_eq!(sub_tree.get_node(&3).unwrap().parent_id(), Some(2));
    assert_eq!(sub_tree.get_node(&3).unwrap().child_ids_vec(), vec![]);
}

#[test]
fn clone_with_lvl_from_end_child() {
    let mut tree = RootedTree::new();
    tree.add_node(None, data_node(1)).unwrap();
    tree.add_node(Some(1), data_node(2)).unwrap();
    tree.add_node(Some(2), data_node(3)).unwrap();

    let sub_tree = tree.clone_from_with_lvl(3, Some(1)).unwrap();

    assert!(tree != sub_tree);
    assert_eq!(sub_tree.len(), 1);
    assert_eq!(sub_tree.get_node(&3).unwrap().parent_id(), Some(2));
    assert_eq!(sub_tree.get_node(&3).unwrap().child_ids_vec(), vec![]);
}

#[test]
fn take_root() {
    let mut tree = RootedTree::new();
    tree.add_node(None, data_node(1)).unwrap();
    tree.add_node(Some(1), data_node(2)).unwrap();

    let sub_tree = tree.take(1).unwrap();

    assert_eq!(tree.len(), 0);

    assert_eq!(sub_tree.len(), 2);
    assert_eq!(sub_tree.get_node(&1).unwrap().parent_id(), None);
    assert_eq!(sub_tree.get_node(&1).unwrap().child_ids_vec(), vec![2]);
}

#[test]
fn take_child() {
    let mut tree = RootedTree::new();
    tree.add_node(None, data_node(1)).unwrap();
    tree.add_node(Some(1), data_node(2)).unwrap();
    tree.add_node(Some(2), data_node(3)).unwrap();

    let sub_tree = tree.take(2).unwrap();

    assert_eq!(tree.len(), 1);
    assert_eq!(tree.get_node(&1).unwrap().parent_id(), None);
    assert_eq!(tree.get_node(&1).unwrap().child_ids_vec(), vec![2]);

    assert_eq!(sub_tree.len(), 2);
    assert_eq!(sub_tree.get_node(&2).unwrap().parent_id(), Some(1));
    assert_eq!(sub_tree.get_node(&2).unwrap().child_ids_vec(), vec![3]);
    assert_eq!(sub_tree.get_node(&3).unwrap().parent_id(), Some(2));
    assert_eq!(sub_tree.get_node(&3).unwrap().child_ids_vec(), vec![]);
}

#[test]
fn take_end_child() {
    let mut tree = RootedTree::new();
    tree.add_node(None, data_node(1)).unwrap();
    tree.add_node(Some(1), data_node(2)).unwrap();
    tree.add_node(Some(2), data_node(3)).unwrap();

    let sub_tree = tree.take(3).unwrap();

    assert_eq!(tree.len(), 2);
    assert_eq!(tree.get_node(&1).unwrap().parent_id(), None);
    assert_eq!(tree.get_node(&1).unwrap().child_ids_vec(), vec![2]);
    assert_eq!(tree.get_node(&2).unwrap().parent_id(), Some(1));
    assert_eq!(tree.get_node(&2).unwrap().child_ids_vec(), vec![3]);

    assert_eq!(sub_tree.len(), 1);
    assert_eq!(sub_tree.get_node(&3).unwrap().parent_id(), Some(2));
    assert_eq!(sub_tree.get_node(&3).unwrap().child_ids_vec(), vec![]);
}

#[test]
fn from_vec() {
    let mut list_node = vec![];
    let mut node = data_node(1);
    node.add_child_id(2);
    list_node.push(node);

    let mut node = data_node(2);
    node.set_parent_id(1);
    list_node.push(node);

    let tree: RootedTree = RootedTree::try_from(list_node).unwrap();
    assert_eq!(tree.len(), 2);
}

#[test]
#[allow(unused)]
fn test_diff() {
    let mut tree1 = RootedTree::new();
    let node1 = data_node(1);
    let node2 = data_node(2);

    let mut tree2 = RootedTree::new();
    let node3 = data_node(1);
    let node4 = data_node(3);

    let mut expected_tree = RootedTree::new();
    let node5 = data_node(2);
}
