//! Typed queries: a traversal paired with a description of the component
//! data to fetch for every visited entity.

use crate::treecs::arena::Treecs;
use crate::treecs::component::{slot_probed, Component, ComponentEntry};
use crate::treecs::iterators::breadth::{walk, BreadthIter, Forward, Reversed};
use crate::treecs::iterators::parent::{chain, ParentIter};
use crate::treecs::iterators::{InfoTransform, QueryIter, WorldIter};
use crate::treecs::key::EntityKey;
use std::marker::PhantomData;
use vstd::prelude::*;

verus! {

/// A description of the data that a query fetches per entity.
pub trait QueryAble {
    type Output<'world>;

    /// Fetches the data for one entity. The result is empty where the
    /// entity lacks something that the description requires.
    fn get<'world>(world: &'world Treecs, entity: EntityKey) -> Option<Self::Output<'world>>;
}

/// A required component.
impl<T: Component> QueryAble for &T {
    type Output<'world> = ComponentEntry<'world, T>;

    fn get<'world>(world: &'world Treecs, entity: EntityKey) -> (r: Option<
        Self::Output<'world>,
    >)
        ensures
            slot_probed(world.slots(), entity, r is Some),
    {
        world.get_component(entity)
    }
}

/// An optional component: an entity without it is not skipped.
impl<T: Component> QueryAble for Option<&T> {
    type Output<'world> = Option<ComponentEntry<'world, T>>;

    fn get<'world>(world: &'world Treecs, entity: EntityKey) -> (r: Option<
        Self::Output<'world>,
    >)
        ensures
            r is Some,
            slot_probed(world.slots(), entity, r.unwrap() is Some),
    {
        Some(world.get_component(entity))
    }
}

impl<A: QueryAble> QueryAble for (A,) {
    type Output<'world> = (A::Output<'world>,);

    /// The data is there exactly if the one part is there.
    fn get<'world>(world: &'world Treecs, entity: EntityKey) -> (r: Option<
        Self::Output<'world>,
    >)
        ensures
            r is Some ==> call_ensures(A::get, (world, entity), Some(r.unwrap().0)),
            r is None ==> call_ensures(A::get, (world, entity), None::<A::Output<'world>>),
    {
        match A::get(world, entity) {
            Some(a) => Some((a,)),
            None => None,
        }
    }
}

impl<A: QueryAble, B: QueryAble> QueryAble for (A, B) {
    type Output<'world> = (A::Output<'world>, B::Output<'world>);

    /// The data is there exactly if both parts are there. The second
    /// part is not asked for where the first is missing.
    fn get<'world>(world: &'world Treecs, entity: EntityKey) -> (r: Option<
        Self::Output<'world>,
    >)
        ensures
            r is Some ==> call_ensures(A::get, (world, entity), Some(r.unwrap().0))
                && call_ensures(B::get, (world, entity), Some(r.unwrap().1)),
            r is None ==> call_ensures(A::get, (world, entity), None::<A::Output<'world>>)
                || call_ensures(B::get, (world, entity), None::<B::Output<'world>>),
    {
        let a = match A::get(world, entity) {
            Some(a) => a,
            None => {
                return None;
            },
        };
        let b = match B::get(world, entity) {
            Some(b) => b,
            None => {
                return None;
            },
        };
        Some((a, b))
    }
}

/// A traversal paired with a description of the data to fetch. A query
/// yields, in the order of the traversal, what it could fetch; entities
/// for which the fetch comes back empty are passed over.
pub struct Query<'world, Q: QueryAble, I: QueryIter<'world, Q> = BreadthIter<'world>> {
    iter: I,
    _ph: PhantomData<&'world Q>,
}

impl<'world, Q: QueryAble, I: QueryIter<'world, Q>> Query<'world, Q, I> {
    /// The traversal that the query runs on.
    pub closed spec fn iter(&self) -> I {
        self.iter
    }

    /// The traversal is ready to go on.
    pub open spec fn ready(&self) -> bool {
        self.iter().ready()
    }

    /// What the traversal still has to report, in order.
    pub open spec fn pending(&self) -> Seq<I::Info> {
        self.iter().pending()
    }

    /// The arena that the query runs over.
    pub open spec fn arena(&self) -> &'world Treecs {
        self.iter().arena()
    }

    /// The fetch for the entity of the `n`-th pending report came back
    /// empty.
    pub open spec fn passed_over(&self, n: int) -> bool {
        exists|it: I|
            #[trigger] call_ensures(
                I::transform,
                (&it, self.pending()[n].key_of()),
                None::<Q::Output<'world>>,
            ) && it.arena() == self.arena()
    }

    /// The result `out` was made from the `n`-th pending report and from
    /// what the fetch for its entity found.
    pub open spec fn made_from(
        &self,
        n: int,
        out: <I::Info as InfoTransform<'world, Q>>::Output,
    ) -> bool {
        exists|it: I, data: Q::Output<'world>|
            #[trigger] call_ensures(I::transform, (&it, self.pending()[n].key_of()), Some(data))
                && it.arena() == self.arena() && self.pending()[n].makes(&data, &out)
    }

    /// Yields the next result: the traversal goes on up to the first
    /// entity for which the fetch succeeds. The result is made from that
    /// entity's report and from what was fetched; the reports before it
    /// are passed over because their fetch came back empty. Without such
    /// an entity the traversal is used up.
    pub fn next(&mut self) -> (r: Option<<I::Info as InfoTransform<'world, Q>>::Output>)
        requires
            old(self).ready(),
        ensures
            final(self).ready(),
            final(self).arena() == old(self).arena(),
            r is None ==> final(self).pending().len() == 0 && forall|m: int|
                0 <= m < old(self).pending().len() ==> #[trigger] old(self).passed_over(m),
            r is Some ==> exists|n: int|
                #![trigger old(self).pending()[n]]
                0 <= n < old(self).pending().len() && final(self).pending() == old(
                    self
                ).pending().skip(n + 1) && old(self).made_from(n, r.unwrap()) && forall|m: int|
                    0 <= m < n ==> #[trigger] old(self).passed_over(m),
    {
        let ghost all = self.iter.pending();
        let ghost mut n: int = 0;
        loop
            invariant
                self.iter.ready(),
                0 <= n <= all.len(),
                self.iter.pending() == all.skip(n),
                all == old(self).pending(),
                self.iter.arena() == old(self).arena(),
                forall|m: int| 0 <= m < n ==> #[trigger] old(self).passed_over(m),
            decreases all.len() - n,
        {
            let key = match self.iter.advance() {
                Some(key) => key,
                None => {
                    return None;
                },
            };
            proof {
                assert(all.skip(n).drop_first() =~= all.skip(n + 1));
                assert(key == all[n]);
            }
            let ghost it = self.iter;
            let x = self.iter.transform(key.get_key());
            match x {
                Some(x) => {
                    let ghost data = x;
                    let out = key.transform(x);
                    proof {
                        assert(call_ensures(I::transform, (&it, all[n].key_of()), Some(data)));
                        assert(all[n].makes(&data, &out));
                        assert(old(self).made_from(n, out));
                    }
                    return Some(out);
                },
                None => {
                    proof {
                        assert(call_ensures(
                            I::transform,
                            (&it, all[n].key_of()),
                            None::<Q::Output<'world>>,
                        ));
                        assert(old(self).passed_over(n));
                        n = n + 1;
                    }
                },
            }
        }
    }
}

impl<'world, Q: QueryAble, I: WorldIter<'world, Q>> Query<'world, Q, I> {
    /// A query over the whole arena.
    pub fn new(world: &'world Treecs) -> (r: Self)
        requires
            world.wf(),
        ensures
            r.ready(),
            r.arena() == world,
            r.pending() == I::whole(world),
    {
        Query { _ph: PhantomData, iter: I::new(world) }
    }

    /// The same query from the start of its traversal.
    pub fn restart(self) -> (r: Self)
        requires
            self.ready(),
        ensures
            r.ready(),
            r.arena() == self.arena(),
            r.pending() == I::whole(self.arena()),
    {
        Query { iter: self.iter.restart(), _ph: PhantomData }
    }
}

impl<'world, Q: QueryAble> Query<'world, Q, ParentIter<'world>> {
    /// A query over the ancestors of `key`, `key` itself first.
    pub fn new_parent(world: &'world Treecs, key: EntityKey) -> (r: Self)
        requires
            world.wf(),
        ensures
            r.ready(),
            r.iter().world() == world,
            r.iter().current() == Some(key),
            r.iter().remaining() == chain(world.shape(), key),
    {
        Query { _ph: PhantomData, iter: ParentIter::new(world, key) }
    }
}

impl<'world, Q: QueryAble> Query<'world, Q, BreadthIter<'world, Forward>> {
    /// The same query from the start, children from right to left.
    pub fn reverse(self) -> (r: Query<'world, Q, BreadthIter<'world, Reversed>>)
        requires
            self.ready(),
        ensures
            r.ready(),
            r.iter().world() == self.iter().world(),
            r.iter().events() == walk(
                self.iter().world().shape(),
                self.iter().world().root_key(),
                true,
            ),
    {
        Query { iter: self.iter.reverse(), _ph: PhantomData }
    }
}

impl<'world, Q: QueryAble> Query<'world, Q, BreadthIter<'world, Reversed>> {
    /// The same query from the start, children from left to right.
    pub fn reverse(self) -> (r: Query<'world, Q, BreadthIter<'world, Forward>>)
        requires
            self.ready(),
        ensures
            r.ready(),
            r.iter().world() == self.iter().world(),
            r.iter().events() == walk(
                self.iter().world().shape(),
                self.iter().world().root_key(),
                false,
            ),
    {
        Query { iter: self.iter.reverse(), _ph: PhantomData }
    }
}

} // verus!
