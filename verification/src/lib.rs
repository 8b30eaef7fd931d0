//! A rooted-tree container keyed by plain identifiers, together with a
//! text renderer that draws the tree as an indented diagram.
//!
//! The store owns at most one root node and a map from identifier to every
//! other node; nodes point at each other by identifier, never by reference.
//! The report engine walks the store and produces the diagram, optionally
//! truncating wide fan-outs and recentering the view around a selected node.
#![allow(unused_imports)]

use vstd::prelude::*;

pub mod dag;
pub mod implementation;
pub mod node;
pub mod report;
pub mod rooted_tree;
pub mod rtree;
pub mod store_clone;
pub mod take;
pub mod try_from;

pub use crate::implementation::Id;
pub use crate::implementation::NodeImplementation;
pub use crate::node::Node;
pub use crate::node::NodeView;
pub use crate::report::ChildWrap;
pub use crate::report::Config;
pub use crate::report::Meta;
pub use crate::rooted_tree::RootedTree;

verus! {

/// Everything that an operation on a rooted-tree store can report to its
/// caller.  Each variant is returned, never thrown.
#[derive(Debug, Clone, Copy, PartialEq, Eq)]
pub enum Error {
    /// A root-less node was inserted while a root already exists.
    RootNodeAlreadyExists,
    /// The named parent is not present in the store.
    ParentNodeDoesNotExist,
    /// The named node is not present in the store.
    NodeDoesNotExist,
    /// During bulk construction, a node names a parent whose recorded
    /// child set does not contain the node.
    ParentNodeDoesNotContainChild,
    /// During bulk construction, a non-root node carries no parent pointer.
    ChildNodeHasNoParent,
    /// A node carrying a parent pointer was inserted as a fresh root.
    RootNodeHasParent,
    /// The renderer could not format its output.
    ReportError(crate::report::Error),
}

} // verus!
