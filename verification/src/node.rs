//! The node capability: the contract that any payload stored in a rooted
//! tree satisfies, and the mathematical view of one node.

use vstd::prelude::*;

verus! {

/// The mathematical content of one node: its identifier, its optional
/// parent identifier, and the ordered list of its child identifiers.
///
/// Children keep insertion order and hold no duplicates once built through
/// [`Node::add_child_id`], which appends an identifier only when absent.
pub ghost struct NodeView {
    pub id: u64,
    pub parent: Option<u64>,
    pub children: Seq<u64>,
}

/// The node capability.  A type stored in a rooted tree exposes its
/// identity, its optional parent identity and its ordered child
/// identifiers, plus the mutators the store needs for bookkeeping.
pub trait Node: Sized {
    /// The mathematical view of this node.
    spec fn node_view(&self) -> NodeView;

    /// This node's own identifier.
    fn id(&self) -> (r: u64)
        ensures
            r == self.node_view().id,
    ;

    /// The identifier of this node's parent, when one is recorded.
    fn parent_id(&self) -> (r: Option<u64>)
        ensures
            r == self.node_view().parent,
    ;

    /// The recorded child identifiers, in insertion order.
    fn child_ids_vec(&self) -> (r: Vec<u64>)
        ensures
            r@ == self.node_view().children,
    ;

    /// Records `parent` as this node's parent.
    fn set_parent_id(&mut self, parent: u64)
        ensures
            final(self).node_view() == (NodeView {
                parent: Some(parent),
                ..old(self).node_view()
            }),
    ;

    /// Appends `child_id` to the child list unless it is already there.
    fn add_child_id(&mut self, child_id: u64)
        ensures
            final(self).node_view() == (NodeView {
                children: child_list_with(old(self).node_view().children, child_id),
                ..old(self).node_view()
            }),
    ;

    /// Removes every occurrence of `child_id` from the child list.
    fn remove_child_id(&mut self, child_id: &u64)
        ensures
            final(self).node_view() == (NodeView {
                children: child_list_without(old(self).node_view().children, *child_id),
                ..old(self).node_view()
            }),
    ;
}

/// `children` with `child_id` appended, unless already present.
pub open spec fn child_list_with(children: Seq<u64>, child_id: u64) -> Seq<u64> {
    if children.contains(child_id) {
        children
    } else {
        children.push(child_id)
    }
}

/// `children` with every occurrence of `child_id` removed, order kept.
pub open spec fn child_list_without(children: Seq<u64>, child_id: u64) -> Seq<u64>
    decreases children.len(),
{
    if children.len() == 0 {
        children
    } else if children[0] == child_id {
        child_list_without(children.drop_first(), child_id)
    } else {
        seq![children[0]] + child_list_without(children.drop_first(), child_id)
    }
}

} // verus!
