//! A ready-made node type that satisfies the node capability: it wraps a
//! payload that knows its own identifier and keeps the parent pointer and
//! the ordered child list beside it.

use vstd::prelude::*;

use crate::node::child_list_with;
use crate::node::child_list_without;
use crate::node::Node;
use crate::node::NodeView;

verus! {

/// A payload that can name itself with an identifier.
pub trait Id: Sized {
    /// The identifier this payload answers with.
    spec fn id_spec(&self) -> u64;

    /// Returns this payload's identifier.
    fn id(&self) -> (r: u64)
        ensures
            r == self.id_spec(),
    ;
}

impl Id for u64 {
    open spec fn id_spec(&self) -> u64 {
        *self
    }

    fn id(&self) -> (r: u64)
        ensures
            r == self.id_spec(),
    {
        *self
    }
}

/// A node that stores its payload inline: the payload's identifier is the
/// node's identifier, and parent and children are kept as plain fields.
#[derive(Debug, PartialEq, Eq)]
pub struct NodeImplementation {
    inner: u64,
    parent_id: Option<u64>,
    child_ids: Vec<u64>,
}

impl View for NodeImplementation {
    type V = NodeView;

    closed spec fn view(&self) -> NodeView {
        NodeView { id: self.inner, parent: self.parent_id, children: self.child_ids@ }
    }
}

impl NodeImplementation {
    /// A fresh node around `value`, with no parent and no children.
    pub fn new(value: u64) -> (r: Self)
        ensures
            r@ == (NodeView { id: value, parent: None, children: Seq::empty() }),
    {
        Self { inner: value, parent_id: None, child_ids: Vec::new() }
    }

    /// The identifier of this node's parent, when one is recorded.
    pub fn parent_id(&self) -> (r: Option<u64>)
        ensures
            r == self@.parent,
    {
        self.parent_id
    }

    /// The recorded child identifiers, in insertion order.
    pub fn child_ids(&self) -> (r: Vec<u64>)
        ensures
            r@ == self@.children,
    {
        self.child_ids_vec()
    }

    /// The recorded child identifiers, in insertion order.
    pub fn child_ids_vec(&self) -> (r: Vec<u64>)
        ensures
            r@ == self@.children,
    {
        let mut out: Vec<u64> = Vec::new();
        let mut i: usize = 0;
        while i < self.child_ids.len()
            invariant
                i <= self.child_ids.len(),
                out@ == self.child_ids@.take(i as int),
            decreases self.child_ids.len() - i,
        {
            out.push(self.child_ids[i]);
            i = i + 1;
        }
        assert(out@ == self.child_ids@.take(self.child_ids@.len() as int));
        assert(self.child_ids@.take(self.child_ids@.len() as int) =~= self.child_ids@);
        out
    }

    /// Records `parent` as this node's parent.
    pub fn set_parent_id(&mut self, parent: u64)
        ensures
            final(self)@ == (NodeView { parent: Some(parent), ..old(self)@ }),
    {
        self.parent_id = Some(parent);
    }

    /// Appends `child_id` to the child list unless it is already there.
    pub fn add_child_id(&mut self, child_id: u64)
        ensures
            final(self)@ == (NodeView {
                children: child_list_with(old(self)@.children, child_id),
                ..old(self)@
            }),
    {
        let mut i: usize = 0;
        while i < self.child_ids.len()
            invariant
                i <= self.child_ids.len(),
                forall|j: int| 0 <= j < i ==> self.child_ids@[j] != child_id,
                *self == *old(self),
            decreases self.child_ids.len() - i,
        {
            if self.child_ids[i] == child_id {
                assert(self.child_ids@.contains(child_id));
                return ;
            }
            i = i + 1;
        }
        assert(!self.child_ids@.contains(child_id));
        self.child_ids.push(child_id);
    }

    /// Removes every occurrence of `child_id` from the child list.
    pub fn remove_child_id(&mut self, child_id: &u64)
        ensures
            final(self)@ == (NodeView {
                children: child_list_without(old(self)@.children, *child_id),
                ..old(self)@
            }),
    {
        let mut kept: Vec<u64> = Vec::new();
        let mut i: usize = 0;
        while i < self.child_ids.len()
            invariant
                i <= self.child_ids.len(),
                kept@ == child_list_without(self.child_ids@.take(i as int), *child_id),
                *self == *old(self),
            decreases self.child_ids.len() - i,
        {
            proof {
                lemma_child_list_without_snoc(self.child_ids@.take(i + 1), *child_id);
                assert(self.child_ids@.take(i + 1).drop_last() =~= self.child_ids@.take(i as int));
                assert(self.child_ids@.take(i + 1).last() == self.child_ids@[i as int]);
            }
            if self.child_ids[i] != *child_id {
                kept.push(self.child_ids[i]);
            }
            i = i + 1;
        }
        assert(self.child_ids@.take(self.child_ids@.len() as int) =~= self.child_ids@);
        self.child_ids = kept;
    }

    /// A reference to the payload.
    pub fn inner(&self) -> (r: &u64)
        ensures
            *r == self@.id,
    {
        &self.inner
    }

    /// This node's own identifier: the payload's identifier.
    pub fn id(&self) -> (r: u64)
        ensures
            r == self@.id,
    {
        Id::id(&self.inner)
    }

    /// An independent copy of this node, field for field.
    pub fn duplicate(&self) -> (r: Self)
        ensures
            r@ == self@,
    {
        Self { inner: self.inner, parent_id: self.parent_id, child_ids: self.child_ids_vec() }
    }
}

impl Clone for NodeImplementation {
    /// An independent copy of this node, field for field.
    fn clone(&self) -> (r: Self)
        ensures
            r@ == self@,
    {
        self.duplicate()
    }
}

impl Node for NodeImplementation {
    open spec fn node_view(&self) -> NodeView {
        self@
    }

    fn id(&self) -> (r: u64) {
        NodeImplementation::id(self)
    }

    fn parent_id(&self) -> (r: Option<u64>) {
        NodeImplementation::parent_id(self)
    }

    fn child_ids_vec(&self) -> (r: Vec<u64>) {
        NodeImplementation::child_ids_vec(self)
    }

    fn set_parent_id(&mut self, parent: u64) {
        NodeImplementation::set_parent_id(self, parent)
    }

    fn add_child_id(&mut self, child_id: u64) {
        NodeImplementation::add_child_id(self, child_id)
    }

    fn remove_child_id(&mut self, child_id: &u64) {
        NodeImplementation::remove_child_id(self, child_id)
    }
}

/// Removing `x` from a list with a last element removes `x` from the front
/// part and then keeps or drops that last element.
proof fn lemma_child_list_without_snoc(children: Seq<u64>, x: u64)
    requires
        children.len() > 0,
    ensures
        child_list_without(children, x) == if children.last() == x {
            child_list_without(children.drop_last(), x)
        } else {
            child_list_without(children.drop_last(), x).push(children.last())
        },
    decreases children.len(),
{
    if children.len() == 1 {
        assert(children.drop_first() =~= Seq::<u64>::empty());
        assert(children.drop_last() =~= Seq::<u64>::empty());
        if children.last() != x {
            assert(seq![children[0]] + child_list_without(children.drop_first(), x)
                =~= child_list_without(children.drop_last(), x).push(children.last()));
        }
    } else {
        lemma_child_list_without_snoc(children.drop_first(), x);
        assert(children.drop_first().drop_last() =~= children.drop_last().drop_first());
        assert(children.drop_first().last() == children.last());
        assert(children.drop_last()[0] == children[0]);
        if children[0] == x {
            assert(child_list_without(children, x) == child_list_without(children.drop_first(), x));
        } else {
            if children.last() == x {
                assert(child_list_without(children, x)
                    == seq![children[0]] + child_list_without(children.drop_first().drop_last(), x));
                assert(child_list_without(children.drop_last(), x)
                    == seq![children.drop_last()[0]] + child_list_without(
                    children.drop_last().drop_first(), x));
            } else {
                assert(seq![children[0]] + child_list_without(children.drop_first().drop_last(),
                    x).push(children.last()) =~= (seq![children[0]] + child_list_without(
                    children.drop_first().drop_last(), x)).push(children.last()));
                assert(child_list_without(children.drop_last(), x)
                    == seq![children.drop_last()[0]] + child_list_without(
                    children.drop_last().drop_first(), x));
            }
        }
    }
}

} // verus!
