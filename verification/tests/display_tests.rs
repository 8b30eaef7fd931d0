//! Renders through the plain textual form of a store, as printing the
//! tree would show it.

use rooted_tree::NodeImplementation;
use rooted_tree::RootedTree;

fn data_node(id: u64) -> NodeImplementation {
    NodeImplementation::new(id)
}

#[test]
fn display_b_test_large_root_sub_tree_key() {
    let mut tree = RootedTree::new();
    let mut node = data_node(1);
    node.set_parent_id(2222222);
    tree.set_root_node(node);

    tree.add_node(Some(1), data_node(2)).unwrap();
    tree.add_node(Some(1), data_node(3)).unwrap();

    println!("{}", tree.to_display_string());
}

#[test]
fn display_b_test_large_root_key_partial() {
    let mut tree = RootedTree::new();
    tree.add_node(None, data_node(1111111111)).unwrap();
    let mut node = data_node(22222);
    node.add_child_id(3);
    node.add_child_id(4);
    node.add_child_id(5);
    tree.add_node(Some(1111111111), node).unwrap();

    tree.add_node(Some(22222), data_node(4)).unwrap();
    println!("{}", tree.to_display_string());
}

#[test]
fn display_b_test_large_root_key() {
    let mut tree = RootedTree::new();
    tree.add_node(None, data_node(1111111111)).unwrap();
    tree.add_node(Some(1111111111), data_node(22222)).unwrap();
    tree.add_node(Some(22222), data_node(3)).unwrap();
    tree.add_node(Some(22222), data_node(4)).unwrap();
    tree.add_node(Some(22222), data_node(5)).unwrap();
    println!("{}", tree.to_display_string());
}

#[test]
fn display_test_debug_one_child() {
    let mut tree = RootedTree::new();
    let mut node = data_node(1);
    node.add_child_id(2);
    tree.set_root_node(node);

    let mut node = data_node(2);
    node.set_parent_id(1);
    tree.set_child_node(node).unwrap();
    println!("{}", tree.to_display_string());
}

#[test]
fn display_test_debug_subtree() {
    let mut tree = RootedTree::new();
    let mut node = data_node(1);
    node.set_parent_id(0);
    tree.set_root_node(node);
    tree.add_node(Some(1), data_node(2)).unwrap();
    println!("{}", tree.to_display_string());
}

#[test]
fn partial_childs() {
    let mut tree = RootedTree::new();
    tree.add_node(None, data_node(1)).unwrap();
    let mut node = data_node(2);
    node.set_parent_id(1);
    node.add_child_id(3);
    node.add_child_id(4);
    node.add_child_id(5);
    tree.add_node(Some(1), node).unwrap();

    tree.add_node(Some(2), data_node(4)).unwrap();

    println!("{}", tree.to_display_string());
}

#[test]
fn test_two_childs() {
    let mut tree = RootedTree::new();
    let mut node = data_node(1);
    node.add_child_id(2);
    node.add_child_id(3);
    tree.set_root_node(node);

    let mut node = data_node(2);
    node.set_parent_id(1);
    tree.set_child_node(node).unwrap();

    let mut node = data_node(3);
    node.set_parent_id(1);
    tree.set_child_node(node).unwrap();

    println!("{}", tree.to_display_string());
}

#[test]
fn test_nested_childs() {
    let mut tree = RootedTree::new();
    tree.add_node(None, data_node(1)).unwrap();
    tree.add_node(Some(1), data_node(2)).unwrap();
    tree.add_node(Some(2), data_node(3)).unwrap();
    tree.add_node(Some(3), data_node(4)).unwrap();
    tree.add_node(Some(4), data_node(5)).unwrap();

    println!("{}", tree.to_display_string());
}

#[test]
fn test_nested_childs_2() {
    let mut tree = RootedTree::new();
    tree.add_node(None, data_node(1)).unwrap();
    tree.add_node(Some(1), data_node(2)).unwrap();
    tree.add_node(Some(1), data_node(3)).unwrap();
    tree.add_node(Some(1), data_node(4)).unwrap();

    tree.add_node(Some(2), data_node(5)).unwrap();
    tree.add_node(Some(2), data_node(6)).unwrap();
    tree.add_node(Some(2), data_node(7)).unwrap();

    tree.add_node(Some(6), data_node(8)).unwrap();
    tree.add_node(Some(6), data_node(9)).unwrap();
    tree.add_node(Some(6), data_node(10)).unwrap();

    tree.add_node(Some(4), data_node(11)).unwrap();
    tree.add_node(Some(4), data_node(12)).unwrap();
    tree.add_node(Some(4), data_node(13)).unwrap();

    tree.add_node(Some(10), data_node(14)).unwrap();
    tree.add_node(Some(10), data_node(15)).unwrap();
    tree.add_node(Some(10), data_node(16)).unwrap();

    println!("{}", tree.to_display_string());
}

#[test]
fn test_subrooted_tree_nested_childs_2() {
    let mut tree = RootedTree::new();
    let mut node = data_node(1);
    node.set_parent_id(0);
    tree.set_root_node(node);
    tree.add_node(Some(1), data_node(22)).unwrap();
    tree.add_node(Some(1), data_node(3)).unwrap();
    tree.add_node(Some(1), data_node(4)).unwrap();

    tree.add_node(Some(22), data_node(5)).unwrap();
    tree.add_node(Some(22), data_node(6)).unwrap();
    tree.add_node(Some(22), data_node(7)).unwrap();

    tree.add_node(Some(6), data_node(8)).unwrap();
    tree.add_node(Some(6), data_node(9)).unwrap();
    tree.add_node(Some(6), data_node(10)).unwrap();

    tree.add_node(Some(4), data_node(11)).unwrap();
    tree.add_node(Some(4), data_node(12)).unwrap();
    let mut node = data_node(13);
    node.add_child_id(17);
    node.add_child_id(18);
    tree.add_node(Some(4), node).unwrap();

    tree.add_node(Some(10), data_node(14)).unwrap();
    tree.add_node(Some(10), data_node(15)).unwrap();
    tree.add_node(Some(10), data_node(16)).unwrap();

    println!("{}", tree.to_display_string());
}
