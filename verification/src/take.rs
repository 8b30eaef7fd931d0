//! Destructive detach: moves the sub-tree rooted at a chosen node out
//! of the store and hands it back as a store of its own.

use vstd::prelude::*;

use crate::rooted_tree::spec_descendants;
use crate::rooted_tree::RootedTree;
use crate::rooted_tree::TreeView;

verus! {

/// What taking `id` out of a store produces: the detached store and
/// the remainder.  The node answering to `id` becomes the detached
/// root and the collected descendants move with it; entries
/// unreachable from `id` stay behind, even when `id` is the root.
pub open spec fn take_spec(t: TreeView, id: u64) -> (TreeView, TreeView) {
    let kept = spec_descendants(t, id, None).to_set();
    if t.root is Some && t.root->0.id == id {
        (
            TreeView { root: t.root, nodes: t.nodes.restrict(kept) },
            TreeView { root: None, nodes: t.nodes.remove_keys(kept) },
        )
    } else {
        (
            TreeView {
                root: if t.nodes.contains_key(id) {
                    Some(t.nodes[id])
                } else {
                    None
                },
                nodes: t.nodes.remove(id).restrict(kept),
            },
            TreeView { root: t.root, nodes: t.nodes.remove(id).remove_keys(kept) },
        )
    }
}

impl RootedTree {
    /// Moves the sub-tree rooted at `id` out of this store.  The
    /// detached store is always returned, empty-rooted when `id` is
    /// unknown; what it holds is gone from this store.
    pub fn take(&mut self, id: u64) -> (r: Option<RootedTree>)
        requires
            old(self)@.nodes.len() < usize::MAX,
        ensures
            r is Some && r->0@ == take_spec(old(self)@, id).0 && final(self)@ == take_spec(
                old(self)@,
                id,
            ).1,
    {
        let children = self.list_child_ids(&id);
        let mut sub_tree = RootedTree::new();
        if self.root_matches(&id) {
            if let Some(root) = self.take_root_slot() {
                sub_tree.set_root_node(root);
            }
        } else {
            if let Some(node) = self.remove_child_raw(&id) {
                sub_tree.set_root_node(node);
            }
        }
        let ghost t1 = self@;
        proof {
            if !(old(self)@.root is Some && old(self)@.root->0.id == id) {
                assert(t1.nodes =~= old(self)@.nodes.remove(id));
            }
            assert(t1.nodes.restrict(children@.take(0).to_set()) =~= sub_tree@.nodes);
            assert(t1.nodes.remove_keys(children@.take(0).to_set()) =~= t1.nodes);
        }
        let mut i: usize = 0;
        while i < children.len()
            invariant
                i <= children.len(),
                children@ == spec_descendants(old(self)@, id, None),
                t1.root == take_spec(old(self)@, id).1.root,
                (old(self)@.root is Some && old(self)@.root->0.id == id) ==> t1.nodes == old(
                    self,
                )@.nodes,
                !(old(self)@.root is Some && old(self)@.root->0.id == id) ==> t1.nodes == old(
                    self,
                )@.nodes.remove(id),
                sub_tree@.root == take_spec(old(self)@, id).0.root,
                sub_tree@.nodes == t1.nodes.restrict(children@.take(i as int).to_set()),
                self@.root == t1.root,
                self@.nodes == t1.nodes.remove_keys(children@.take(i as int).to_set()),
            decreases children.len() - i,
        {
            if let Some(node) = self.remove_child_raw(&children[i]) {
                sub_tree.insert_child_at(children[i], node);
            }
            proof {
                crate::rooted_tree::lemma_take_snoc_to_set(children@, i as int);
                assert(sub_tree@.nodes =~= t1.nodes.restrict(children@.take(i + 1).to_set()));
                assert(self@.nodes =~= t1.nodes.remove_keys(children@.take(i + 1).to_set()));
            }
            i = i + 1;
        }
        proof {
            assert(children@.take(children@.len() as int) =~= children@);
        }
        Some(sub_tree)
    }
}

} // verus!
