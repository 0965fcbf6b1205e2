//! The structural record of one entity: its parent and its children.

use crate::treecs::children::Children;
use crate::treecs::key::EntityKey;
use vstd::prelude::*;

verus! {

/// The mathematical content of a [`LinkData`]: the parent, if any, and
/// the children from left to right.
pub struct LinkView {
    pub parent: Option<EntityKey>,
    pub children: Seq<EntityKey>,
}

#[derive(Clone, Debug, PartialEq, Eq, PartialOrd)]
pub struct LinkData {
    parent: Option<EntityKey>,
    children: Children<EntityKey>,
}

impl View for LinkData {
    type V = LinkView;

    closed spec fn view(&self) -> LinkView {
        LinkView { parent: self.parent, children: self.children@ }
    }
}

impl LinkData {
    /// A record without parent and without children.
    pub fn new_empty() -> (r: Self)
        ensures
            r@ == (LinkView { parent: None, children: Seq::empty() }),
    {
        LinkData { parent: None, children: Children::NoChild }
    }

    /// A record without children under the given parent.
    pub fn new_with_parent(parent: EntityKey) -> (r: Self)
        ensures
            r@ == (LinkView { parent: Some(parent), children: Seq::empty() }),
    {
        LinkData { parent: Some(parent), children: Children::NoChild }
    }

    pub fn children(&self) -> (r: &Children<EntityKey>)
        ensures
            r@ == self@.children,
    {
        &self.children
    }

    pub fn children_mut(&mut self) -> (r: &mut Children<EntityKey>)
        ensures
            r@ == old(self)@.children,
            final(self)@ == (LinkView { parent: old(self)@.parent, children: final(r)@ }),
    {
        &mut self.children
    }

    pub fn parent(&self) -> (r: &Option<EntityKey>)
        ensures
            *r == self@.parent,
    {
        &self.parent
    }

    pub fn parent_mut(&mut self) -> (r: &mut Option<EntityKey>)
        ensures
            *r == old(self)@.parent,
            final(self)@ == (LinkView { parent: *final(r), children: old(self)@.children }),
    {
        &mut self.parent
    }
}

} // verus!
