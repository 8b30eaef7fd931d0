//! The rooted-tree store: at most one root node, plus a map from
//! identifier to every non-root node, with insertion, lookup, removal and
//! bounded traversal in both directions.

use vstd::prelude::*;

use std::collections::HashMap;

use crate::implementation::NodeImplementation;
use crate::node::child_list_with;
use crate::node::child_list_without;
use crate::node::NodeView;
use crate::Error;

verus! {

broadcast use vstd::std_specs::hash::group_hash_axioms;

/// The mathematical content of a store: the optional root node and the
/// map of non-root nodes, keyed by identifier.
pub ghost struct TreeView {
    pub root: Option<NodeView>,
    pub nodes: Map<u64, NodeView>,
}

impl TreeView {
    /// The node registered under `id`: the non-root map is consulted
    /// first, then the root.
    pub open spec fn lookup(self, id: u64) -> Option<NodeView> {
        if self.nodes.contains_key(id) {
            Some(self.nodes[id])
        } else if self.root is Some && self.root->0.id == id {
            self.root
        } else {
            None
        }
    }

    /// Whether some node answers to `id`.
    pub open spec fn contains_id(self, id: u64) -> bool {
        self.lookup(id) is Some
    }

    /// This view with the node that `lookup(id)` finds replaced by `n`.
    pub open spec fn update_at(self, id: u64, n: NodeView) -> TreeView {
        if self.nodes.contains_key(id) {
            TreeView { nodes: self.nodes.insert(id, n), ..self }
        } else {
            TreeView { root: Some(n), ..self }
        }
    }

    /// An empty store: no root, no other nodes.
    pub open spec fn empty() -> TreeView {
        TreeView { root: None, nodes: Map::empty() }
    }
}

/// The rooted-tree store.  The root node is owned directly; every other
/// node lives in the child map under its identifier.
#[derive(PartialEq)]
pub struct RootedTree {
    pub(crate) root_node: Option<NodeImplementation>,
    pub(crate) child_nodes: HashMap<u64, NodeImplementation>,
}

impl View for RootedTree {
    type V = TreeView;

    closed spec fn view(&self) -> TreeView {
        TreeView {
            root: match self.root_node {
                Some(n) => Some(n@),
                None => None,
            },
            nodes: views_of(self.child_nodes@),
        }
    }
}

/// The views of a map's nodes, entry by entry.
pub(crate) open spec fn views_of(m: Map<u64, NodeImplementation>) -> Map<u64, NodeView> {
    m.map_values(|n: NodeImplementation| n@)
}

/// Inserting a node and then taking views inserts the node's view.
pub(crate) proof fn lemma_views_of_insert(m: Map<u64, NodeImplementation>, k: u64, v: NodeImplementation)
    ensures
        views_of(m.insert(k, v)) == views_of(m).insert(k, v@),
{
    assert(views_of(m.insert(k, v)) =~= views_of(m).insert(k, v@));
}

/// Removing a key and then taking views removes the key.
pub(crate) proof fn lemma_views_of_remove(m: Map<u64, NodeImplementation>, k: u64)
    ensures
        views_of(m.remove(k)) == views_of(m).remove(k),
{
    assert(views_of(m.remove(k)) =~= views_of(m).remove(k));
}

impl RootedTree {
    /// An empty store.
    pub fn new() -> (r: Self)
        ensures
            r@ == TreeView::empty(),
    {
        let r = Self { root_node: None, child_nodes: HashMap::new() };
        proof {
            assert(r@.nodes =~= Map::<u64, NodeView>::empty());
        }
        r
    }

    /// The node registered under `id`, if any: the child map is consulted
    /// first, then the root.
    pub fn get_node(&self, id: &u64) -> (r: Option<&NodeImplementation>)
        ensures
            match r {
                Some(n) => self@.lookup(*id) == Some(n@),
                None => self@.lookup(*id) is None,
            },
    {
        if let Some(node) = self.child_nodes.get(id) {
            Some(node)
        } else if let Some(root_node) = &self.root_node {
            if root_node.id() == *id {
                Some(root_node)
            } else {
                None
            }
        } else {
            None
        }
    }

    /// How many nodes the store holds: zero when empty, else the child
    /// map's size plus one for the root.  A store with child nodes but no
    /// root is corrupt and has no size.
    pub fn len(&self) -> (r: usize)
        requires
            self@.root is None ==> self@.nodes.len() == 0,
            self@.nodes.len() < usize::MAX,
        ensures
            r == if self@.root is Some {
                self@.nodes.len() + 1
            } else {
                0nat
            },
    {
        proof {
            assert(self@.nodes.dom() =~= self.child_nodes@.dom());
        }
        if self.root_node.is_some() {
            self.child_nodes.len() + 1
        } else {
            0
        }
    }

    /// Whether this store is a detached sub-tree: its root carries a
    /// parent pointer that refers outside the store.
    pub fn is_subtree(&self) -> (r: bool)
        ensures
            r == (self@.root is Some && self@.root->0.parent is Some),
    {
        if let Some(root_node) = &self.root_node {
            root_node.parent_id().is_some()
        } else {
            false
        }
    }

    /// Installs `node` as the root, replacing any present root.
    pub fn set_root_node(&mut self, node: NodeImplementation)
        ensures
            final(self)@ == (TreeView { root: Some(node@), ..old(self)@ }),
    {
        self.root_node = Some(node);
    }

    /// A mutable borrow of the node registered under `id`, if any: the
    /// child map is consulted first, then the root.
    pub fn get_mut_node(&mut self, id: &u64) -> (r: Option<&mut NodeImplementation>)
        ensures
            match old(self)@.lookup(*id) {
                Some(nv) => r is Some && (*r.unwrap())@ == nv
                    && final(self)@ == old(self)@.update_at(*id, (*final(r.unwrap()))@),
                None => r is None && final(self)@ == old(self)@,
            },
    {
        if self.child_nodes.contains_key(id) {
            match self.child_nodes.entry(*id) {
                std::collections::hash_map::Entry::Occupied(e) => {
                    let node = e.into_mut();
                    proof {
                        lemma_views_of_insert(old(self).child_nodes@, *id, *final(node));
                    }
                    Some(node)
                },
                std::collections::hash_map::Entry::Vacant(_) => {
                    proof {
                        assert(false);
                    }
                    None
                },
            }
        } else {
            match &mut self.root_node {
                Some(root_node) => {
                    if root_node.id() == *id {
                        Some(root_node)
                    } else {
                        None
                    }
                },
                None => None,
            }
        }
    }

    /// Inserts `node`.  Without a parent identifier it becomes the root,
    /// refused when a root exists or when the node itself carries a
    /// parent pointer.  With one, the named parent must be present; its
    /// child set gains the new identifier, the node's parent pointer is
    /// set to match, and the node is stored under its identifier.
    pub fn add_node(&mut self, parent_id: Option<u64>, node: NodeImplementation) -> (r: Result<
        (),
        Error,
    >)
        ensures
            match parent_id {
                None => {
                    if old(self)@.root is Some {
                        r == Result::<(), Error>::Err(Error::RootNodeAlreadyExists) && final(self)@
                            == old(self)@
                    } else if node@.parent is Some {
                        r == Result::<(), Error>::Err(Error::RootNodeHasParent) && final(self)@
                            == old(self)@
                    } else {
                        r == Result::<(), Error>::Ok(()) && final(self)@ == (TreeView {
                            root: Some(node@),
                            ..old(self)@
                        })
                    }
                },
                Some(p) => {
                    if old(self)@.contains_id(p) {
                        r == Result::<(), Error>::Ok(()) && final(self)@ == add_under_parent(
                            old(self)@,
                            p,
                            node@,
                        )
                    } else {
                        r == Result::<(), Error>::Err(Error::ParentNodeDoesNotExist)
                            && final(self)@ == old(self)@
                    }
                },
            },
    {
        let ghost nv0 = node@;
        let mut node = node;
        if parent_id.is_none() && self.root_node.is_some() {
            return Err(Error::RootNodeAlreadyExists);
        }
        if let Some(parent_id) = parent_id {
            let node_id = node.id();
            if let Some(parent_node) = self.get_mut_node(&parent_id) {
                parent_node.add_child_id(node_id);
            } else {
                return Err(Error::ParentNodeDoesNotExist);
            }
            node.set_parent_id(parent_id);
            let ghost n2 = node;
            let ghost m1 = self.child_nodes@;
            self.child_nodes.insert(node_id, node);
            proof {
                lemma_views_of_insert(m1, node_id, n2);
                assert(self@.nodes =~= add_under_parent(old(self)@, parent_id, nv0).nodes);
            }
        } else {
            if node.parent_id().is_some() {
                return Err(Error::RootNodeHasParent);
            }
            self.root_node = Some(node);
        }
        Ok(())
    }

    /// Removes the node registered under `id` and hands it back.  A
    /// removed non-root node is unlinked from its parent's child set;
    /// its own descendants stay in the store.  Removing the root clears
    /// the root slot only.  An unknown identifier removes nothing.
    pub fn remove_node(&mut self, id: &u64) -> (r: Option<NodeImplementation>)
        ensures
            match remove_node_spec(old(self)@, *id) {
                Some((t2, removed)) => r is Some && r->0@ == removed && final(self)@ == t2,
                None => r is None && final(self)@ == old(self)@,
            },
    {
        if let Some(node) = self.child_nodes.remove(id) {
            proof {
                lemma_views_of_remove(old(self).child_nodes@, *id);
            }
            if let Some(parent_id) = node.parent_id() {
                if let Some(parent_node) = self.get_mut_node(&parent_id) {
                    parent_node.remove_child_id(id);
                }
            }
            Some(node)
        } else {
            proof {
                assert(old(self).child_nodes@.remove(*id) =~= old(self).child_nodes@);
                assert(self@.nodes =~= old(self)@.nodes);
            }
            let take_root = match &self.root_node {
                Some(root_node) => root_node.id() == *id,
                None => false,
            };
            if take_root {
                let mut taken: Option<NodeImplementation> = None;
                std::mem::swap(&mut self.root_node, &mut taken);
                taken
            } else {
                None
            }
        }
    }

    /// Registers `node` in the child map during bulk construction.  The
    /// node must carry a parent pointer, the parent must be present, and
    /// the parent's recorded child set must already contain the node.
    pub fn set_child_node(&mut self, node: NodeImplementation) -> (r: Result<(), Error>)
        ensures
            match set_child_spec(old(self)@, node@) {
                Ok(tv) => r is Ok && final(self)@ == tv,
                Err(e) => r == Result::<(), Error>::Err(e) && final(self)@ == old(self)@,
            },
    {
        if let Some(parent_id) = node.parent_id() {
            if let Some(parent_node) = self.get_node(&parent_id) {
                let kids = parent_node.child_ids_vec();
                if !vec_contains(&kids, node.id()) {
                    Err(Error::ParentNodeDoesNotContainChild)
                } else {
                    let node_id = node.id();
                    let ghost n2 = node;
                    let ghost m1 = self.child_nodes@;
                    self.child_nodes.insert(node_id, node);
                    proof {
                        lemma_views_of_insert(m1, node_id, n2);
                    }
                    Ok(())
                }
            } else {
                Err(Error::ParentNodeDoesNotExist)
            }
        } else {
            Err(Error::ChildNodeHasNoParent)
        }
    }
}

/// The store after a node is hung under the present parent `p`: the
/// parent's child set gains the node's identifier, the node's parent
/// pointer is set to `p`, and the node is stored under its identifier.
pub open spec fn add_under_parent(t: TreeView, p: u64, n: NodeView) -> TreeView {
    let parent = t.lookup(p)->0;
    let parent2 = NodeView { children: child_list_with(parent.children, n.id), ..parent };
    let t2 = t.update_at(p, parent2);
    TreeView { nodes: t2.nodes.insert(n.id, NodeView { parent: Some(p), ..n }), ..t2 }
}

/// What registering a node during bulk construction does: the node must
/// carry a parent pointer, the parent must be present, and the parent's
/// recorded child set must already contain the node; then the node is
/// stored under its identifier.
pub open spec fn set_child_spec(t: TreeView, n: NodeView) -> Result<TreeView, Error> {
    match n.parent {
        None => Err(Error::ChildNodeHasNoParent),
        Some(p) => match t.lookup(p) {
            None => Err(Error::ParentNodeDoesNotExist),
            Some(pn) => if pn.children.contains(n.id) {
                Ok(TreeView { nodes: t.nodes.insert(n.id, n), ..t })
            } else {
                Err(Error::ParentNodeDoesNotContainChild)
            },
        },
    }
}

/// What removing `id` from the child map does: `None` when the map has
/// no such entry; else the store after the entry is gone and unlinked
/// from its parent's child set, paired with the removed node.
pub open spec fn child_map_remove_spec(t: TreeView, id: u64) -> Option<(TreeView, NodeView)> {
    if t.nodes.contains_key(id) {
        let removed = t.nodes[id];
        let t1 = TreeView { nodes: t.nodes.remove(id), ..t };
        let t2 = match removed.parent {
            Some(p) => match t1.lookup(p) {
                Some(pn) => t1.update_at(
                    p,
                    NodeView { children: child_list_without(pn.children, id), ..pn },
                ),
                None => t1,
            },
            None => t1,
        };
        Some((t2, removed))
    } else {
        None
    }
}

/// What removing `id` does: `None` when no node answers to `id`; else
/// the store after the removal, paired with the removed node.
pub open spec fn remove_node_spec(t: TreeView, id: u64) -> Option<(TreeView, NodeView)> {
    match child_map_remove_spec(t, id) {
        Some(pair) => Some(pair),
        None => if t.root is Some && t.root->0.id == id {
            Some(((TreeView { root: None, ..t }), t.root->0))
        } else {
            None
        },
    }
}

/// The depth budget that a traversal level translates to: the level
/// itself when bounded, else one more than the store can be deep.
pub open spec fn level_budget(t: TreeView, lvl: Option<u32>) -> nat {
    match lvl {
        Some(l) => l as nat,
        None => t.nodes.len() + 1,
    }
}

/// The identifiers below `id`, in depth-first pre-order following each
/// node's child list, cut off after `budget` hops downward.
pub open spec fn descendants_upto(t: TreeView, id: u64, budget: nat) -> Seq<u64>
    decreases budget, 1int, 0int,
{
    if budget == 0 {
        Seq::empty()
    } else {
        match t.lookup(id) {
            Some(n) => descendants_from(t, n.children, 0, budget),
            None => Seq::empty(),
        }
    }
}

/// The pre-order expansion of the children `ids[i..]`: each child, then
/// everything below it with one hop of the budget spent.
pub open spec fn descendants_from(t: TreeView, ids: Seq<u64>, i: int, budget: nat) -> Seq<u64>
    decreases budget, 0int, ids.len() - i,
{
    if i < 0 || i >= ids.len() || budget == 0 {
        Seq::empty()
    } else {
        seq![ids[i]] + descendants_upto(t, ids[i], (budget - 1) as nat) + descendants_from(
            t,
            ids,
            i + 1,
            budget,
        )
    }
}

/// The bounded downward traversal that `list_child_ids_with_lvl`
/// performs: pre-order, stopping after `lvl` hops when given.
pub open spec fn spec_descendants(t: TreeView, id: u64, lvl: Option<u32>) -> Seq<u64> {
    descendants_upto(t, id, level_budget(t, lvl))
}

/// The chain of ancestor identifiers of `id`, nearest first, cut off
/// after `budget` steps.  When the chain reaches the store's root and
/// the root itself records a parent outside the store, that single
/// external identifier ends the chain.
pub open spec fn ancestors_upto(t: TreeView, id: u64, budget: nat) -> Seq<u64>
    decreases budget,
{
    if budget == 0 {
        Seq::empty()
    } else {
        let from_child = if t.nodes.contains_key(id) && t.nodes[id].parent is Some {
            seq![t.nodes[id].parent->0] + ancestors_upto(
                t,
                t.nodes[id].parent->0,
                (budget - 1) as nat,
            )
        } else {
            Seq::empty()
        };
        if t.root is Some && t.root->0.id == id {
            from_child + match t.root->0.parent {
                Some(q) => seq![q],
                None => Seq::<u64>::empty(),
            }
        } else {
            from_child
        }
    }
}

/// The bounded upward traversal that `list_parent_ids_with_lvl`
/// performs.
pub open spec fn spec_ancestors(t: TreeView, id: u64, lvl: Option<u32>) -> Seq<u64> {
    ancestors_upto(t, id, level_budget(t, lvl))
}

impl RootedTree {
    /// Every identifier below `id`, in depth-first pre-order.
    pub fn list_child_ids(&self, id: &u64) -> (r: Vec<u64>)
        requires
            self@.nodes.len() < usize::MAX,
        ensures
            r@ == spec_descendants(self@, *id, None),
    {
        self.list_child_ids_with_lvl(id, None)
    }

    /// The identifiers below `id`, in depth-first pre-order, stopping
    /// after `lvl` hops downward when a level is given.
    pub fn list_child_ids_with_lvl(&self, id: &u64, lvl: Option<u32>) -> (r: Vec<u64>)
        requires
            self@.nodes.len() < usize::MAX,
        ensures
            r@ == spec_descendants(self@, *id, lvl),
    {
        let budget: usize = match lvl {
            Some(l) => l as usize,
            None => {
                proof {
                    assert(self@.nodes.dom() =~= self.child_nodes@.dom());
                }
                self.child_nodes.len() + 1
            },
        };
        let mut out: Vec<u64> = Vec::new();
        self.collect_descendants(id, budget, &mut out);
        out
    }

    /// Appends the pre-order expansion below `id` to `out`, spending one
    /// budget hop per level.
    fn collect_descendants(&self, id: &u64, budget: usize, out: &mut Vec<u64>)
        ensures
            final(out)@ == old(out)@ + descendants_upto(self@, *id, budget as nat),
        decreases budget,
    {
        if budget == 0 {
            assert(old(out)@ + Seq::<u64>::empty() =~= old(out)@);
            return ;
        }
        match self.get_node(id) {
            None => {
                assert(old(out)@ + Seq::<u64>::empty() =~= old(out)@);
            },
            Some(node) => {
                let kids = node.child_ids_vec();
                let mut i: usize = 0;
                while i < kids.len()
                    invariant
                        i <= kids.len(),
                        budget >= 1,
                        kids@ == node@.children,
                        self@.lookup(*id) == Some(node@),
                        out@ + descendants_from(self@, kids@, i as int, budget as nat) == old(out)@
                            + descendants_from(self@, kids@, 0, budget as nat),
                    decreases kids.len() - i,
                {
                    let ghost before = out@;
                    out.push(kids[i]);
                    self.collect_descendants(&kids[i], budget - 1, out);
                    proof {
                        assert(out@ == before + seq![kids@[i as int]] + descendants_upto(
                            self@,
                            kids@[i as int],
                            (budget - 1) as nat,
                        ));
                        assert(out@ + descendants_from(self@, kids@, i + 1, budget as nat)
                            =~= before + descendants_from(self@, kids@, i as int, budget as nat));
                    }
                    i = i + 1;
                }
                assert(descendants_from(self@, kids@, kids@.len() as int, budget as nat)
                    == Seq::<u64>::empty());
                assert(out@ + Seq::<u64>::empty() =~= out@);
                assert(old(out)@ + descendants_from(self@, kids@, 0, budget as nat) =~= old(out)@
                    + descendants_upto(self@, *id, budget as nat));
            },
        }
    }

    /// Every ancestor identifier of `id`, nearest first.
    pub fn list_parent_ids(&self, id: &u64) -> (r: Vec<u64>)
        requires
            self@.nodes.len() < usize::MAX,
        ensures
            r@ == spec_ancestors(self@, *id, None),
    {
        self.list_parent_ids_with_lvl(id, None)
    }

    /// The ancestor identifiers of `id`, nearest first, stopping after
    /// `lvl` steps when a level is given.
    pub fn list_parent_ids_with_lvl(&self, id: &u64, lvl: Option<u32>) -> (r: Vec<u64>)
        requires
            self@.nodes.len() < usize::MAX,
        ensures
            r@ == spec_ancestors(self@, *id, lvl),
    {
        let budget: usize = match lvl {
            Some(l) => l as usize,
            None => {
                proof {
                    assert(self@.nodes.dom() =~= self.child_nodes@.dom());
                }
                self.child_nodes.len() + 1
            },
        };
        let mut out: Vec<u64> = Vec::new();
        self.collect_ancestors(id, budget, &mut out);
        out
    }

    /// Appends the ancestor chain of `id` to `out`, spending one budget
    /// step per parent followed.
    fn collect_ancestors(&self, id: &u64, budget: usize, out: &mut Vec<u64>)
        ensures
            final(out)@ == old(out)@ + ancestors_upto(self@, *id, budget as nat),
        decreases budget,
    {
        if budget == 0 {
            assert(old(out)@ + Seq::<u64>::empty() =~= old(out)@);
            return ;
        }
        if let Some(node) = self.child_nodes.get(id) {
            if let Some(parent_id) = node.parent_id() {
                out.push(parent_id);
                self.collect_ancestors(&parent_id, budget - 1, out);
            }
        }
        if let Some(root_node) = &self.root_node {
            if root_node.id() == *id {
                if let Some(parent_id) = root_node.parent_id() {
                    out.push(parent_id);
                }
            }
        }
        proof {
            assert(final(out)@ =~= old(out)@ + ancestors_upto(self@, *id, budget as nat));
        }
    }
}

impl RootedTree {
    /// The node in the child map under `id`, if any; the root is never
    /// consulted.
    pub(crate) fn get_child_only(&self, id: &u64) -> (r: Option<&NodeImplementation>)
        ensures
            match r {
                Some(n) => self@.nodes.contains_key(*id) && self@.nodes[*id] == n@,
                None => !self@.nodes.contains_key(*id),
            },
    {
        self.child_nodes.get(id)
    }

    /// Removes and returns the child-map entry under `id`, if any; the
    /// root is never touched.
    pub(crate) fn remove_child_raw(&mut self, id: &u64) -> (r: Option<NodeImplementation>)
        ensures
            match r {
                Some(n) => old(self)@.nodes.contains_key(*id) && old(self)@.nodes[*id] == n@
                    && final(self)@ == (TreeView {
                    nodes: old(self)@.nodes.remove(*id),
                    ..old(self)@
                }),
                None => !old(self)@.nodes.contains_key(*id) && final(self)@ == old(self)@,
            },
    {
        let r = self.child_nodes.remove(id);
        proof {
            if old(self).child_nodes@.contains_key(*id) {
                lemma_views_of_remove(old(self).child_nodes@, *id);
            } else {
                assert(old(self).child_nodes@.remove(*id) =~= old(self).child_nodes@);
                assert(self@.nodes =~= old(self)@.nodes);
            }
        }
        r
    }

    /// Stores `node` in the child map under `key`, replacing any entry
    /// there; no linkage bookkeeping is done.
    pub(crate) fn insert_child_at(&mut self, key: u64, node: NodeImplementation)
        ensures
            final(self)@ == (TreeView { nodes: old(self)@.nodes.insert(key, node@), ..old(self)@ }),
    {
        let ghost n2 = node;
        let ghost m1 = self.child_nodes@;
        self.child_nodes.insert(key, node);
        proof {
            lemma_views_of_insert(m1, key, n2);
        }
    }

    /// Whether the store's root answers to `id`.
    pub(crate) fn root_matches(&self, id: &u64) -> (r: bool)
        ensures
            r == (self@.root is Some && self@.root->0.id == *id),
    {
        match &self.root_node {
            Some(root_node) => root_node.id() == *id,
            None => false,
        }
    }

    /// A borrow of the root node, if one is present.
    pub(crate) fn root_ref(&self) -> (r: Option<&NodeImplementation>)
        ensures
            match r {
                Some(n) => self@.root == Some(n@),
                None => self@.root is None,
            },
    {
        match &self.root_node {
            Some(root_node) => Some(root_node),
            None => None,
        }
    }

    /// How many non-root nodes the store holds.  Unlike [`Self::len`]
    /// this is total: it counts the child map alone, whatever the
    /// root slot holds.
    pub fn child_count(&self) -> (r: usize)
        ensures
            r as nat == self@.nodes.len(),
    {
        proof {
            assert(self@.nodes.dom() =~= self.child_nodes@.dom());
        }
        self.child_nodes.len()
    }

    /// Empties the root slot and hands its node back; the child map is
    /// not touched.
    pub(crate) fn take_root_slot(&mut self) -> (r: Option<NodeImplementation>)
        ensures
            final(self)@ == (TreeView { root: None, ..old(self)@ }),
            match r {
                Some(n) => old(self)@.root == Some(n@),
                None => old(self)@.root is None,
            },
    {
        let mut taken: Option<NodeImplementation> = None;
        std::mem::swap(&mut self.root_node, &mut taken);
        taken
    }

    /// An independent copy of the whole store, node by node.
    pub(crate) fn deep_copy(&self) -> (r: Self)
        ensures
            r@ == self@,
    {
        let root_node = match &self.root_node {
            Some(n) => Some(n.duplicate()),
            None => None,
        };
        Self { root_node, child_nodes: self.child_nodes.clone() }
    }
}

/// Whether every downward path of resolved nodes from `id` visits at
/// most `d` nodes.  Every store grown by insertion under an existing
/// parent satisfies this for `d` its own size plus one.
pub open spec fn depth_bounded(t: TreeView, id: u64, d: nat) -> bool
    decreases d, 0int,
{
    match t.lookup(id) {
        None => true,
        Some(n) => d > 0 && depth_bounded_all(t, n.children, 0, (d - 1) as nat),
    }
}

/// Whether `depth_bounded(t, _, d)` holds of every child in `ids[i..]`.
pub open spec fn depth_bounded_all(t: TreeView, ids: Seq<u64>, i: int, d: nat) -> bool
    decreases d, 1int, ids.len() - i,
{
    if i < 0 || i >= ids.len() {
        true
    } else {
        depth_bounded(t, ids[i], d) && depth_bounded_all(t, ids, i + 1, d)
    }
}

/// Law: a downward traversal allowed no hops collects nothing.
pub proof fn lemma_descendants_zero(t: TreeView, id: u64)
    ensures
        spec_descendants(t, id, Some(0)) == Seq::<u64>::empty(),
{
}

/// A larger hop budget collects every identifier a smaller one does.
proof fn lemma_descendants_upto_mono(t: TreeView, id: u64, b1: nat, b2: nat)
    requires
        b1 <= b2,
    ensures
        forall|x: u64|
            descendants_upto(t, id, b1).contains(x) ==> descendants_upto(t, id, b2).contains(x),
    decreases b1, 1int, 0int,
{
    broadcast use vstd::seq_lib::group_seq_properties;

    if b1 > 0 {
        match t.lookup(id) {
            Some(n) => {
                lemma_descendants_from_mono(t, n.children, 0, b1, b2);
                assert forall|x: u64| descendants_upto(t, id, b1).contains(x) implies
                    descendants_upto(t, id, b2).contains(x) by {
                    assert(descendants_from(t, n.children, 0, b1).contains(x));
                    assert(descendants_from(t, n.children, 0, b2).contains(x));
                }
            },
            None => {},
        }
    }
}

/// A larger hop budget collects every identifier a smaller one does,
/// child list by child list.
proof fn lemma_descendants_from_mono(t: TreeView, ids: Seq<u64>, i: int, b1: nat, b2: nat)
    requires
        b1 <= b2,
    ensures
        forall|x: u64|
            descendants_from(t, ids, i, b1).contains(x) ==> descendants_from(
                t,
                ids,
                i,
                b2,
            ).contains(x),
    decreases b1, 0int, ids.len() - i,
{
    broadcast use vstd::seq_lib::group_seq_properties;

    if 0 <= i < ids.len() && b1 > 0 {
        lemma_descendants_upto_mono(t, ids[i], (b1 - 1) as nat, (b2 - 1) as nat);
        lemma_descendants_from_mono(t, ids, i + 1, b1, b2);
        assert forall|x: u64| descendants_from(t, ids, i, b1).contains(x) implies descendants_from(
            t,
            ids,
            i,
            b2,
        ).contains(x) by {
            if descendants_upto(t, ids[i], (b1 - 1) as nat).contains(x) {
                assert(descendants_upto(t, ids[i], (b2 - 1) as nat).contains(x));
            } else if descendants_from(t, ids, i + 1, b1).contains(x) {
                assert(descendants_from(t, ids, i + 1, b2).contains(x));
            } else {
                assert(x == ids[i]);
            }
        }
    }
}

/// On a depth-bounded store, every budget at least the bound collects
/// the same list.
proof fn lemma_descendants_upto_stable(t: TreeView, id: u64, d: nat, b1: nat, b2: nat)
    requires
        depth_bounded(t, id, d),
        d <= b1,
        d <= b2,
    ensures
        descendants_upto(t, id, b1) == descendants_upto(t, id, b2),
    decreases d, 1int, 0int,
{
    match t.lookup(id) {
        None => {},
        Some(n) => {
            lemma_descendants_from_stable(t, n.children, 0, (d - 1) as nat, b1, b2);
        },
    }
}

/// On depth-bounded children, every budget above the bound collects
/// the same list.
proof fn lemma_descendants_from_stable(t: TreeView, ids: Seq<u64>, i: int, dc: nat, b1: nat, b2: nat)
    requires
        depth_bounded_all(t, ids, i, dc),
        dc + 1 <= b1,
        dc + 1 <= b2,
    ensures
        descendants_from(t, ids, i, b1) == descendants_from(t, ids, i, b2),
    decreases dc + 1, 0int, ids.len() - i,
{
    if 0 <= i < ids.len() {
        lemma_descendants_upto_stable(t, ids[i], dc, (b1 - 1) as nat, (b2 - 1) as nat);
        lemma_descendants_from_stable(t, ids, i + 1, dc, b1, b2);
    }
}

/// Law: a depth-bounded downward traversal collects a subset of the
/// unbounded one.  The store must be depth-bounded below `id` by its
/// own size, which holds of every store grown by insertion under an
/// existing parent.
pub proof fn lemma_descendants_bounded_subset(t: TreeView, id: u64, n: u32)
    requires
        depth_bounded(t, id, t.nodes.len() + 1),
    ensures
        spec_descendants(t, id, Some(n)).to_set() <= spec_descendants(t, id, None).to_set(),
{
    let full: nat = t.nodes.len() + 1;
    if n as nat <= full {
        lemma_descendants_upto_mono(t, id, n as nat, full);
    } else {
        lemma_descendants_upto_stable(t, id, full, n as nat, full);
    }
    assert forall|x: u64| spec_descendants(t, id, Some(n)).to_set().contains(x) implies
        spec_descendants(t, id, None).to_set().contains(x) by {
        assert(descendants_upto(t, id, full).contains(x));
    }
}

/// Law: once the hop budget covers the whole depth below `id`, the
/// bounded and the unbounded traversal collect the same list.
pub proof fn lemma_descendants_depth_reached(t: TreeView, id: u64, d: nat, n: u32)
    requires
        depth_bounded(t, id, d),
        d <= n as nat,
        d <= t.nodes.len() + 1,
    ensures
        spec_descendants(t, id, Some(n)) == spec_descendants(t, id, None),
{
    lemma_descendants_upto_stable(t, id, d, n as nat, t.nodes.len() + 1);
}

/// A pre-order walk over `ids[i..]` lists each child, and everything
/// the walk below that child lists.
proof fn lemma_descendants_from_reaches(t: TreeView, ids: Seq<u64>, i: int, k: int, b: nat)
    requires
        0 <= i <= k < ids.len(),
        b >= 1,
    ensures
        descendants_from(t, ids, i, b).contains(ids[k]),
        forall|y: u64|
            descendants_upto(t, ids[k], (b - 1) as nat).contains(y) ==> descendants_from(
                t,
                ids,
                i,
                b,
            ).contains(y),
    decreases k - i,
{
    broadcast use vstd::seq_lib::group_seq_properties;

    if i == k {
        assert(seq![ids[i]].contains(ids[i]));
    } else {
        lemma_descendants_from_reaches(t, ids, i + 1, k, b);
    }
}

/// A bounded downward walk from `x` lists each child of `x`, and
/// everything its own walk with one hop less lists.
pub proof fn lemma_descendants_reach_child(t: TreeView, x: u64, c: u64, b: nat)
    requires
        t.lookup(x) is Some,
        t.lookup(x)->0.children.contains(c),
        b >= 1,
    ensures
        descendants_upto(t, x, b).contains(c),
        forall|y: u64|
            descendants_upto(t, c, (b - 1) as nat).contains(y) ==> descendants_upto(
                t,
                x,
                b,
            ).contains(y),
{
    let children = t.lookup(x)->0.children;
    let k = choose|k: int| 0 <= k < children.len() && children[k] == c;
    lemma_descendants_from_reaches(t, children, 0, k, b);
}

/// Law: hanging a node with a fresh identifier under a present parent
/// grows the store by exactly one entry and keeps the root present.
pub proof fn lemma_add_node_len(t: TreeView, p: u64, n: NodeView)
    requires
        t.contains_id(p),
        !t.nodes.contains_key(n.id),
        t.nodes.dom().finite(),
    ensures
        add_under_parent(t, p, n).nodes.len() == t.nodes.len() + 1,
        add_under_parent(t, p, n).root is Some <==> t.root is Some,
{
    broadcast use vstd::set::group_set_axioms;

    let t2 = add_under_parent(t, p, n);
    if t.nodes.contains_key(p) {
        assert(t.nodes.insert(p, t2.nodes[p]).dom() =~= t.nodes.dom());
    }
    assert(t2.nodes.dom() =~= t.nodes.dom().insert(n.id));
}

/// Law: removing a registered node keeps every other registered node
/// registered — descendants merely become unreachable — and shrinks
/// the store by exactly one entry; only the former parent's child list
/// changes.
pub proof fn lemma_remove_keeps_descendants(t: TreeView, id: u64)
    requires
        t.nodes.contains_key(id),
        t.nodes.dom().finite(),
    ensures
        remove_node_spec(t, id) is Some,
        ({
            let pair = remove_node_spec(t, id)->0;
            let after = pair.0;
            &&& forall|k: u64|
                k != id && t.nodes.contains_key(k) ==> #[trigger] after.nodes.contains_key(k)
            &&& forall|k: u64|
                k != id && t.nodes.contains_key(k) && Some(k) != t.nodes[id].parent
                    ==> #[trigger] after.nodes[k] == t.nodes[k]
            &&& after.nodes.len() == t.nodes.len() - 1
            &&& (after.root is Some <==> t.root is Some)
        }),
{
    broadcast use vstd::set::group_set_axioms;

    let pair = remove_node_spec(t, id)->0;
    let after = pair.0;
    let t1 = TreeView { nodes: t.nodes.remove(id), ..t };
    assert(t1.nodes.dom() =~= t.nodes.dom().remove(id));
    match t.nodes[id].parent {
        Some(p) => match t1.lookup(p) {
            Some(pn) => {
                if t1.nodes.contains_key(p) {
                    assert(after.nodes.dom() =~= t1.nodes.dom());
                } else {
                    assert(after.nodes == t1.nodes);
                }
            },
            None => {},
        },
        None => {},
    }
}

/// The node map of a store is always finite: it views a hash map.
pub proof fn lemma_nodes_finite(t: &RootedTree)
    ensures
        t@.nodes.dom().finite(),
{
    assert(t@.nodes.dom() =~= t.child_nodes@.dom());
}

/// Taking one more element of a sequence adds exactly that element to
/// the set of what was taken.
pub proof fn lemma_take_snoc_to_set(s: Seq<u64>, i: int)
    requires
        0 <= i < s.len(),
    ensures
        s.take(i + 1).to_set() == s.take(i).to_set().insert(s[i]),
{
    broadcast use vstd::seq_lib::group_seq_properties;
    broadcast use vstd::set_lib::group_set_properties;
    broadcast use vstd::set::group_set_axioms;
    broadcast use vstd::seq_lib::seq_to_set_is_finite;

    let t = s.take(i + 1);
    assert(t.drop_last() =~= s.take(i));
    assert(t.last() == s[i]);
    assert(t.drop_last().to_set().insert(t.last()) =~= t.to_set());
}

/// Whether `ids` holds `x`.
pub fn vec_contains(ids: &Vec<u64>, x: u64) -> (r: bool)
    ensures
        r == ids@.contains(x),
{
    let mut i: usize = 0;
    while i < ids.len()
        invariant
            i <= ids.len(),
            forall|j: int| 0 <= j < i ==> ids@[j] != x,
        decreases ids.len() - i,
    {
        if ids[i] == x {
            return true;
        }
        i = i + 1;
    }
    false
}

} // verus!
