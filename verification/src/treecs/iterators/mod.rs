//! Traversals of an arena, and what a query asks of a traversal.

use crate::treecs::arena::Treecs;
use crate::treecs::key::EntityKey;
use crate::treecs::query::QueryAble;
use vstd::prelude::*;

pub mod breadth;
pub mod order;
pub mod parent;

verus! {

/// What a traversal reports about an entity, and how a query combines it
/// with the data that it found for the entity.
pub trait InfoTransform<'world, Q: QueryAble>: Sized {
    /// What the query yields for one entity.
    type Output;

    /// The entity that the report is about.
    spec fn key_of(&self) -> EntityKey;

    /// Whether `out` is what this report and the data make together.
    spec fn makes(&self, data: &Q::Output<'world>, out: &Self::Output) -> bool;

    /// Combines the report with the data found for its entity.
    fn transform(self, data: Q::Output<'world>) -> (out: Self::Output)
        ensures
            self.makes(&data, &out),
    ;

    fn get_key(&self) -> (k: EntityKey)
        ensures
            k == self.key_of(),
    ;
}

impl<'world, Q: QueryAble> InfoTransform<'world, Q> for EntityKey {
    type Output = <Q as QueryAble>::Output<'world>;

    open spec fn key_of(&self) -> EntityKey {
        *self
    }

    open spec fn makes(
        &self,
        data: &<Q as QueryAble>::Output<'world>,
        out: &Self::Output,
    ) -> bool {
        *out == *data
    }

    fn transform(self, data: <Q as QueryAble>::Output<'world>) -> (out: Self::Output) {
        data
    }

    fn get_key(&self) -> (k: EntityKey) {
        *self
    }
}

impl<'world, T, Q: QueryAble> InfoTransform<'world, Q> for (T, EntityKey) {
    type Output = (T, <Q as QueryAble>::Output<'world>);

    open spec fn key_of(&self) -> EntityKey {
        self.1
    }

    open spec fn makes(
        &self,
        data: &<Q as QueryAble>::Output<'world>,
        out: &Self::Output,
    ) -> bool {
        *out == (self.0, *data)
    }

    fn transform(self, data: <Q as QueryAble>::Output<'world>) -> (out: Self::Output) {
        (self.0, data)
    }

    fn get_key(&self) -> (k: EntityKey) {
        self.1
    }
}

/// A traversal that a query can run on.
pub trait QueryIter<'world, Q: QueryAble>: Sized {
    type Info: InfoTransform<'world, Q>;

    /// The traversal runs over a tree and is in a consistent state.
    spec fn ready(&self) -> bool;

    /// The arena that is traversed.
    spec fn arena(&self) -> &'world Treecs;

    /// What the traversal still has to report, in order.
    spec fn pending(&self) -> Seq<Self::Info>;

    /// Reports the next entity of the traversal, if one is left.
    fn advance(&mut self) -> (r: Option<Self::Info>)
        requires
            old(self).ready(),
        ensures
            final(self).ready(),
            final(self).arena() == old(self).arena(),
            old(self).pending().len() == 0 ==> r is None && final(self).pending() == old(self).pending(),
            old(self).pending().len() > 0 ==> r == Some(old(self).pending()[0]) && final(
                self
            ).pending() == old(self).pending().drop_first(),
    ;

    /// Fetches, from the arena of the traversal, what the query asks for
    /// about the entity.
    fn transform(&self, key: EntityKey) -> (r: Option<Q::Output<'world>>)
        ensures
            call_ensures(Q::get, (self.arena(), key), r),
    ;
}

/// A traversal that can be created from the arena alone.
pub trait WorldIter<'world, Q: QueryAble>: QueryIter<'world, Q> {
    /// What a traversal of the whole arena reports, in order.
    spec fn whole(world: &'world Treecs) -> Seq<Self::Info>;

    /// A traversal of the whole arena.
    fn new(world: &'world Treecs) -> (r: Self)
        requires
            world.wf(),
        ensures
            r.ready(),
            r.arena() == world,
            r.pending() == Self::whole(world),
    ;

    /// The traversal of the same arena from its start.
    fn restart(self) -> (r: Self)
        requires
            self.ready(),
        ensures
            r.ready(),
            r.arena() == self.arena(),
            r.pending() == Self::whole(self.arena()),
    ;
}

} // verus!
