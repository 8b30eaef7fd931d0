//! Non-destructive copies: the whole store, or a detached sub-tree
//! rooted at a chosen node, optionally depth-bounded.

use vstd::prelude::*;

use crate::rooted_tree::spec_descendants;
use crate::rooted_tree::RootedTree;
use crate::rooted_tree::TreeView;

verus! {

/// The store that a copy from `id` produces: the node answering to
/// `id` becomes the root, and the child map keeps exactly the
/// descendants the bounded traversal collects — entries unreachable
/// from `id` are left behind.
pub open spec fn clone_from_spec(t: TreeView, id: u64, lvl: Option<u32>) -> TreeView {
    let kept = spec_descendants(t, id, lvl).to_set();
    TreeView {
        root: if t.root is Some && t.root->0.id == id {
            t.root
        } else if t.nodes.contains_key(id) {
            Some(t.nodes[id])
        } else {
            None
        },
        nodes: t.nodes.restrict(kept),
    }
}

impl RootedTree {
    /// An independent copy of the sub-tree rooted at `id`, unbounded.
    pub fn clone_from(&self, id: u64) -> (r: Option<RootedTree>)
        requires
            self@.nodes.len() < usize::MAX,
        ensures
            r is Some && r->0@ == clone_from_spec(self@, id, None),
    {
        self.clone_from_with_lvl(id, None)
    }

    /// An independent copy of the sub-tree rooted at `id`, keeping the
    /// descendants within `lvl` hops when a level is given.
    pub fn clone_from_with_lvl(&self, id: u64, lvl: Option<u32>) -> (r: Option<RootedTree>)
        requires
            self@.nodes.len() < usize::MAX,
        ensures
            r is Some && r->0@ == clone_from_spec(self@, id, lvl),
    {
        let children = self.list_child_ids_with_lvl(&id, lvl);
        let mut sub_tree = RootedTree::new();
        if self.root_matches(&id) {
            if let Some(root) = self.root_ref() {
                sub_tree.set_root_node(root.duplicate());
            }
        } else {
            if let Some(node) = self.get_child_only(&id) {
                sub_tree.set_root_node(node.duplicate());
            }
        }
        let mut i: usize = 0;
        while i < children.len()
            invariant
                i <= children.len(),
                children@ == spec_descendants(self@, id, lvl),
                sub_tree@.root == clone_from_spec(self@, id, lvl).root,
                sub_tree@.nodes == self@.nodes.restrict(children@.take(i as int).to_set()),
            decreases children.len() - i,
        {
            if let Some(node) = self.get_child_only(&children[i]) {
                sub_tree.insert_child_at(children[i], node.duplicate());
            }
            proof {
                crate::rooted_tree::lemma_take_snoc_to_set(children@, i as int);
                assert(sub_tree@.nodes =~= self@.nodes.restrict(children@.take(i + 1).to_set()));
            }
            i = i + 1;
        }
        proof {
            assert(children@.take(children@.len() as int) =~= children@);
        }
        Some(sub_tree)
    }

}

/// Law: an unbounded copy from `id` is structurally equal to the part
/// of the store reachable from `id`: its child map holds exactly the
/// registered identifiers the traversal collects, each node kept as
/// it is — same identifier, same parent pointer, same child list —
/// and the node answering to `id` becomes its root.
pub proof fn lemma_clone_from_structure(t: TreeView, id: u64)
    ensures
        ({
            let copy = clone_from_spec(t, id, None);
            &&& copy.root == (if t.root is Some && t.root->0.id == id {
                t.root
            } else if t.nodes.contains_key(id) {
                Some(t.nodes[id])
            } else {
                None
            })
            &&& forall|k: u64|
                #[trigger] copy.nodes.contains_key(k) <==> (spec_descendants(
                    t,
                    id,
                    None,
                ).contains(k) && t.nodes.contains_key(k))
            &&& forall|k: u64|
                copy.nodes.contains_key(k) ==> #[trigger] copy.nodes[k] == t.nodes[k]
        }),
{
    broadcast use vstd::set::group_set_axioms;

}

impl Clone for RootedTree {
    /// An independent copy of the whole store, node by node.
    fn clone(&self) -> (r: Self)
        ensures
            r@ == self@,
    {
        self.deep_copy()
    }
}

} // verus!
