//! A tree of nodes reached from one root, grown by insertion under a
//! present parent: insertion, lookup, removal and size.

use vstd::prelude::*;

use std::collections::HashMap;

use crate::implementation::NodeImplementation;
use crate::node::NodeView;
use crate::rooted_tree::add_under_parent;
use crate::rooted_tree::child_map_remove_spec;
use crate::rooted_tree::lemma_views_of_insert;
use crate::rooted_tree::lemma_views_of_remove;
use crate::rooted_tree::views_of;
use crate::rooted_tree::TreeView;
use crate::Error;

verus! {

broadcast use vstd::std_specs::hash::group_hash_axioms;

/// A tree of nodes keyed by identifier, with one distinguished root.
pub struct Dag {
    root_node: Option<NodeImplementation>,
    child_nodes: HashMap<u64, NodeImplementation>,
}

impl View for Dag {
    type V = TreeView;

    closed spec fn view(&self) -> TreeView {
        TreeView {
            root: match self.root_node {
                Some(n) => Some(n@),
                None => None,
            },
            nodes: views_of(self.child_nodes@),
        }
    }
}

impl Dag {
    /// An empty tree.
    pub fn new() -> (r: Self)
        ensures
            r@ == TreeView::empty(),
    {
        let r = Self { root_node: None, child_nodes: HashMap::new() };
        proof {
            assert(r@.nodes =~= Map::<u64, NodeView>::empty());
        }
        r
    }

    /// Inserts `node`: as the root when no parent is named and none
    /// exists yet, else under the named parent, which must be present.
    pub fn add_node(&mut self, parent_id: Option<u64>, node: NodeImplementation) -> (r: Result<
        (),
        Error,
    >)
        ensures
            match parent_id {
                None => {
                    if old(self)@.root is Some {
                        r == Result::<(), Error>::Err(Error::RootNodeAlreadyExists) && final(self)@
                            == old(self)@
                    } else {
                        r == Result::<(), Error>::Ok(()) && final(self)@ == (TreeView {
                            root: Some(node@),
                            ..old(self)@
                        })
                    }
                },
                Some(p) => {
                    if old(self)@.contains_id(p) {
                        r == Result::<(), Error>::Ok(()) && final(self)@ == add_under_parent(
                            old(self)@,
                            p,
                            node@,
                        )
                    } else {
                        r == Result::<(), Error>::Err(Error::ParentNodeDoesNotExist)
                            && final(self)@ == old(self)@
                    }
                },
            },
    {
        let ghost nv0 = node@;
        let mut node = node;
        if parent_id.is_none() && self.root_node.is_some() {
            return Err(Error::RootNodeAlreadyExists);
        }
        if let Some(parent_id) = parent_id {
            let node_id = node.id();
            if let Some(parent_node) = self.get_mut_node(&parent_id) {
                parent_node.add_child_id(node_id);
            } else {
                return Err(Error::ParentNodeDoesNotExist);
            }
            node.set_parent_id(parent_id);
            let ghost n2 = node;
            let ghost m1 = self.child_nodes@;
            self.child_nodes.insert(node_id, node);
            proof {
                lemma_views_of_insert(m1, node_id, n2);
                assert(self@.nodes =~= add_under_parent(old(self)@, parent_id, nv0).nodes);
            }
        } else {
            self.root_node = Some(node);
        }
        Ok(())
    }

    /// The node registered under `id`, if any: the child map is
    /// consulted first, then the root.
    pub fn get_node(&self, id: &u64) -> (r: Option<&NodeImplementation>)
        ensures
            match r {
                Some(n) => self@.lookup(*id) == Some(n@),
                None => self@.lookup(*id) is None,
            },
    {
        if let Some(node) = self.child_nodes.get(id) {
            Some(node)
        } else if let Some(root_node) = &self.root_node {
            if root_node.id() == *id {
                Some(root_node)
            } else {
                None
            }
        } else {
            None
        }
    }

    /// A mutable borrow of the node registered under `id`, if any.
    pub fn get_mut_node(&mut self, id: &u64) -> (r: Option<&mut NodeImplementation>)
        ensures
            match old(self)@.lookup(*id) {
                Some(nv) => r is Some && (*r.unwrap())@ == nv
                    && final(self)@ == old(self)@.update_at(*id, (*final(r.unwrap()))@),
                None => r is None && final(self)@ == old(self)@,
            },
    {
        if self.child_nodes.contains_key(id) {
            match self.child_nodes.entry(*id) {
                std::collections::hash_map::Entry::Occupied(e) => {
                    let node = e.into_mut();
                    proof {
                        lemma_views_of_insert(old(self).child_nodes@, *id, *final(node));
                    }
                    Some(node)
                },
                std::collections::hash_map::Entry::Vacant(_) => {
                    proof {
                        assert(false);
                    }
                    None
                },
            }
        } else {
            match &mut self.root_node {
                Some(root_node) => {
                    if root_node.id() == *id {
                        Some(root_node)
                    } else {
                        None
                    }
                },
                None => None,
            }
        }
    }

    /// Removes the node under `id` from the child map, unlinking it
    /// from its parent's child set; any other identifier takes the root
    /// out instead, whatever it is.
    pub fn remove_node(&mut self, id: &u64) -> (r: Option<NodeImplementation>)
        ensures
            match child_map_remove_spec(old(self)@, *id) {
                Some((t2, removed)) => r is Some && r->0@ == removed && final(self)@ == t2,
                None => {
                    match old(self)@.root {
                        Some(rv) => r is Some && r->0@ == rv && final(self)@ == (TreeView {
                            root: None,
                            ..old(self)@
                        }),
                        None => r is None && final(self)@ == old(self)@,
                    }
                },
            },
    {
        if let Some(node) = self.child_nodes.remove(id) {
            proof {
                lemma_views_of_remove(old(self).child_nodes@, *id);
            }
            if let Some(parent_id) = node.parent_id() {
                if let Some(parent_node) = self.get_mut_node(&parent_id) {
                    parent_node.remove_child_id(id);
                }
            }
            Some(node)
        } else {
            proof {
                assert(old(self).child_nodes@.remove(*id) =~= old(self).child_nodes@);
                assert(self@.nodes =~= old(self)@.nodes);
            }
            let mut taken: Option<NodeImplementation> = None;
            std::mem::swap(&mut self.root_node, &mut taken);
            taken
        }
    }

    /// How many nodes the tree holds: zero when empty, else the child
    /// map's size plus one for the root.  A tree with child nodes but
    /// no root is corrupt and has no size.
    pub fn len(&self) -> (r: usize)
        requires
            self@.root is None ==> self@.nodes.len() == 0,
            self@.nodes.len() < usize::MAX,
        ensures
            r == if self@.root is Some {
                self@.nodes.len() + 1
            } else {
                0nat
            },
    {
        proof {
            assert(self@.nodes.dom() =~= self.child_nodes@.dom());
        }
        if self.root_node.is_some() {
            self.child_nodes.len() + 1
        } else {
            0
        }
    }
}

} // verus!
