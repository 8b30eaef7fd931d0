//! Bulk construction: builds a store from an ordered list of nodes.
//! The first node becomes the root; every later node is registered as a
//! child and must already be linked from its recorded parent.

use vstd::prelude::*;

use crate::implementation::NodeImplementation;
use crate::rooted_tree::set_child_spec;
use crate::rooted_tree::RootedTree;
use crate::rooted_tree::TreeView;
use crate::Error;

verus! {

/// The store that registering `nodes[i..]` one by one on top of `t`
/// produces, or the first error met.
pub open spec fn set_children_spec(t: TreeView, nodes: Seq<NodeImplementation>, i: int) -> Result<
    TreeView,
    Error,
>
    decreases nodes.len() - i,
{
    if i < 0 || i >= nodes.len() {
        Ok(t)
    } else {
        match set_child_spec(t, nodes[i]@) {
            Ok(t2) => set_children_spec(t2, nodes, i + 1),
            Err(e) => Err(e),
        }
    }
}

/// The store that bulk construction from `nodes` produces: the first
/// node becomes the root, the rest are registered as children in order.
pub open spec fn from_vec_spec(nodes: Seq<NodeImplementation>) -> Result<TreeView, Error> {
    if nodes.len() == 0 {
        Ok(TreeView::empty())
    } else {
        set_children_spec(TreeView { root: Some(nodes[0]@), ..TreeView::empty() }, nodes, 1)
    }
}

impl RootedTree {
    /// Builds a store from an ordered list of nodes.  The first becomes
    /// the root; each later one must carry a parent pointer naming a
    /// node already present whose child set contains it.
    pub fn try_from(list: Vec<NodeImplementation>) -> (r: Result<RootedTree, Error>)
        ensures
            match from_vec_spec(list@) {
                Ok(tv) => r is Ok && r->Ok_0@ == tv,
                Err(e) => r is Err && r->Err_0 == e,
            },
    {
        let mut rooted_tree = RootedTree::new();
        if list.len() == 0 {
            return Ok(rooted_tree);
        }
        rooted_tree.set_root_node(list[0].duplicate());
        let mut i: usize = 1;
        while i < list.len()
            invariant
                1 <= i <= list.len(),
                list.len() > 0,
                from_vec_spec(list@) == set_children_spec(rooted_tree@, list@, i as int),
            decreases list.len() - i,
        {
            match rooted_tree.set_child_node(list[i].duplicate()) {
                Ok(_) => {},
                Err(e) => {
                    return Err(e);
                },
            }
            i = i + 1;
        }
        Ok(rooted_tree)
    }
}

} // verus!
