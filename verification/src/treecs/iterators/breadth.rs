//! The enter/leave traversal: a depth-first walk that reports every
//! entity twice, once before and once after its descendants.

use crate::treecs::arena::Treecs;
use crate::treecs::iterators::{QueryIter, WorldIter};
use crate::treecs::key::EntityKey;
use crate::treecs::query::QueryAble;
use crate::treecs::shape::{child_ok, node_ok, Shape};
use std::collections::VecDeque;
use std::marker::PhantomData;
use vstd::prelude::*;

verus! {

/// The kind of a traversal event.
#[derive(Debug, PartialEq, Eq, PartialOrd, Ord)]
pub enum BreadthInfo {
    /// The traversal leaves an entity: all its descendants were visited.
    MoveUp,
    /// The traversal enters an entity.
    Other,
}

/// The order in which a traversal visits the children of an entity.
pub trait Dir {

}

/// Children are visited from left to right.
pub struct Forward;

impl Dir for Forward {

}

/// Children are visited from right to left.
pub struct Reversed;

impl Dir for Reversed {

}

/// The events of the traversal of the subtree under `k`: the entering of
/// `k`, the events of the subtrees under its children, one child after
/// the other, and the leaving of `k`. With `rev` the children are taken
/// from right to left.
pub open spec fn walk(s: Shape, k: EntityKey, rev: bool) -> Seq<(BreadthInfo, EntityKey)>
    decreases s.bound - s.depth[k], 1nat, 0nat,
{
    seq![(BreadthInfo::Other, k)] + walk_kids(s, k, s.children(k), rev) + seq![
        (BreadthInfo::MoveUp, k),
    ]
}

/// The events of the subtrees under `kids`, which are children of
/// `parent`, in the order of the traversal.
pub open spec fn walk_kids(s: Shape, parent: EntityKey, kids: Seq<EntityKey>, rev: bool) -> Seq<
    (BreadthInfo, EntityKey),
>
    decreases s.bound - s.depth[parent], 0nat, kids.len(),
{
    if kids.len() == 0 {
        Seq::empty()
    } else {
        let c = if rev {
            kids.last()
        } else {
            kids.first()
        };
        let others = if rev {
            kids.drop_last()
        } else {
            kids.drop_first()
        };
        let head = if s.depth[c] == s.depth[parent] + 1 && s.depth[c] <= s.bound {
            walk(s, c, rev)
        } else {
            Seq::empty()
        };
        head + walk_kids(s, parent, others, rev)
    }
}

/// The events that a traversal still has to report when `stack` holds
/// its pending work, the next piece of work last: a pending entering
/// stands for the whole traversal of a subtree, a pending leaving for
/// itself.
pub open spec fn pending_events(s: Shape, stack: Seq<(BreadthInfo, EntityKey)>, rev: bool) -> Seq<
    (BreadthInfo, EntityKey),
>
    decreases stack.len(),
{
    if stack.len() == 0 {
        Seq::empty()
    } else {
        let head = match stack.last().0 {
            BreadthInfo::Other => walk(s, stack.last().1, rev),
            BreadthInfo::MoveUp => seq![(BreadthInfo::MoveUp, stack.last().1)],
        };
        head + pending_events(s, stack.drop_last(), rev)
    }
}

/// Pending work always stands for at least one event.
pub proof fn lemma_pending_nonempty(s: Shape, stack: Seq<(BreadthInfo, EntityKey)>, rev: bool)
    ensures
        pending_events(s, stack, rev).len() == 0 <==> stack.len() == 0,
{
}

/// The enter/leave traversal of an arena.
pub struct BreadthIter<'world, D: Dir = Forward> {
    world: &'world Treecs,
    entity_stack: VecDeque<(BreadthInfo, EntityKey)>,
    dir: PhantomData<D>,
}

impl<'world, D: Dir> BreadthIter<'world, D> {
    /// The arena that is traversed.
    pub closed spec fn world(&self) -> &'world Treecs {
        self.world
    }

    /// The pending work, the next piece of work last.
    pub closed spec fn stack(&self) -> Seq<(BreadthInfo, EntityKey)> {
        self.entity_stack@
    }

    /// The arena is a tree and all pending work concerns live entities.
    pub open spec fn wf(&self) -> bool {
        &&& self.world().wf()
        &&& forall|i: int|
            0 <= i < self.stack().len() ==> self.world().live(#[trigger] self.stack()[i].1)
    }

    fn start(world: &'world Treecs) -> (r: Self)
        ensures
            r.world() == world,
            r.stack() == seq![(BreadthInfo::Other, world.root_key())],
            world.wf() ==> r.wf(),
    {
        let mut entity_stack = VecDeque::new();
        entity_stack.push_back((BreadthInfo::Other, world.root()));
        proof {
            assert(entity_stack@ =~= seq![(BreadthInfo::Other, world.root_key())]);
            if world.wf() {
                assert(world.shape().live(world.shape().root));
            }
        }
        BreadthIter { world, entity_stack, dir: PhantomData }
    }

    /// Takes the next piece of work. For an entering, the leaving of the
    /// same entity and the entering of its children become pending, the
    /// child that is to be visited first on top.
    fn step(&mut self, rev: bool) -> (r: Option<(BreadthInfo, EntityKey)>)
        ensures
            final(self).world() == old(self).world(),
            old(self).wf() ==> final(self).wf(),
            old(self).wf() && old(self).stack().len() == 0 ==> r is None && final(self).stack()
                == old(self).stack(),
            old(self).wf() && old(self).stack().len() > 0 ==> r == Some(
                pending_events(old(self).world().shape(), old(self).stack(), rev)[0],
            ) && pending_events(final(self).world().shape(), final(self).stack(), rev)
                == pending_events(old(self).world().shape(), old(self).stack(), rev).drop_first(),
    {
        let ghost s = self.world.shape();
        let ghost before = self.entity_stack@;
        let (info, key) = match self.entity_stack.pop_back() {
            Some(x) => x,
            None => {
                return None;
            },
        };
        let ghost rest = self.entity_stack@;
        proof {
            assert(before.last() == (info, key));
            assert(rest =~= before.drop_last());
            if old(self).wf() {
                assert(old(self).world().live(before[before.len() - 1].1));
            }
        }
        match info {
            BreadthInfo::Other => {
                self.entity_stack.push_back((BreadthInfo::MoveUp, key));
                let ghost base = self.entity_stack@;
                let linkdata = match self.world.linkdata(key) {
                    Some(l) => l,
                    None => {
                        return None;
                    },
                };
                let kids = linkdata.children();
                let n = kids.len();
                proof {
                    assert(base.drop_last() =~= rest);
                    if old(self).wf() {
                        assert(s.live(key));
                        assert(kids@ == s.children(key));
                        assert(kids@.subrange(0, 0) =~= Seq::<EntityKey>::empty());
                        assert(kids@.subrange(n as int, n as int) =~= Seq::<EntityKey>::empty());
                    }
                }
                if rev {
                    let mut i: usize = 0;
                    while i < n
                        invariant
                            i <= n,
                            n == kids@.len(),
                            self.world == old(self).world,
                            s == self.world.shape(),
                            old(self).wf() ==> kids@ == s.children(key) && s.live(key),
                            old(self).wf() ==> self.wf(),
                            old(self).wf() ==> pending_events(s, self.entity_stack@, true)
                                == walk_kids(s, key, kids@.subrange(0, i as int), true)
                                + pending_events(s, base, true),
                        decreases n - i,
                    {
                        let ghost stack_now = self.stack();
                        match kids.get_child(i) {
                            Some(c) => {
                                self.entity_stack.push_back((BreadthInfo::Other, *c));
                                proof {
                                    if old(self).wf() {
                                        let sub = kids@.subrange(0, i + 1);
                                        assert(child_ok(s, key, i as int));
                                        assert(s.live(*c));
                                        assert(node_ok(s, *c));
                                        assert(sub.last() == *c);
                                        assert(sub.drop_last() =~= kids@.subrange(0, i as int));
                                        assert(self.entity_stack@.drop_last() =~= stack_now);
                                        assert(self.world.live(*c));
                                        assert forall|j: int|
                                            0 <= j < self.stack().len() implies self.world().live(
                                            #[trigger] self.stack()[j].1,
                                        ) by {
                                            if j < stack_now.len() {
                                                assert(self.stack()[j] == stack_now[j]);
                                                assert(self.world().live(stack_now[j].1));
                                            } else {
                                                assert(self.stack()[j] == (BreadthInfo::Other, *c));
                                            }
                                        }
                                        assert(self.entity_stack@.last() == (
                                            BreadthInfo::Other,
                                            *c,
                                        ));
                                    }
                                }
                            },
                            None => {},
                        }
                        i += 1;
                    }
                    proof {
                        assert(kids@.subrange(0, n as int) =~= kids@);
                    }
                } else {
                    let mut i: usize = n;
                    while i > 0
                        invariant
                            i <= n,
                            n == kids@.len(),
                            self.world == old(self).world,
                            s == self.world.shape(),
                            old(self).wf() ==> kids@ == s.children(key) && s.live(key),
                            old(self).wf() ==> self.wf(),
                            old(self).wf() ==> pending_events(s, self.entity_stack@, false)
                                == walk_kids(s, key, kids@.subrange(i as int, n as int), false)
                                + pending_events(s, base, false),
                        decreases i,
                    {
                        i -= 1;
                        let ghost stack_now = self.stack();
                        match kids.get_child(i) {
                            Some(c) => {
                                self.entity_stack.push_back((BreadthInfo::Other, *c));
                                proof {
                                    if old(self).wf() {
                                        let sub = kids@.subrange(i as int, n as int);
                                        assert(child_ok(s, key, i as int));
                                        assert(s.live(*c));
                                        assert(node_ok(s, *c));
                                        assert(sub.first() == *c);
                                        assert(sub.drop_first() =~= kids@.subrange(
                                            i + 1,
                                            n as int,
                                        ));
                                        assert(self.entity_stack@.drop_last() =~= stack_now);
                                        assert(self.world.live(*c));
                                        assert forall|j: int|
                                            0 <= j < self.stack().len() implies self.world().live(
                                            #[trigger] self.stack()[j].1,
                                        ) by {
                                            if j < stack_now.len() {
                                                assert(self.stack()[j] == stack_now[j]);
                                                assert(self.world().live(stack_now[j].1));
                                            } else {
                                                assert(self.stack()[j] == (BreadthInfo::Other, *c));
                                            }
                                        }
                                        assert(self.entity_stack@.last() == (
                                            BreadthInfo::Other,
                                            *c,
                                        ));
                                    }
                                }
                            },
                            None => {},
                        }
                    }
                    proof {
                        assert(kids@.subrange(0, n as int) =~= kids@);
                    }
                }
                proof {
                    if old(self).wf() {
                        let w = walk(s, key, rev);
                        let tail = pending_events(s, rest, rev);
                        assert(pending_events(s, base, rev) == seq![(BreadthInfo::MoveUp, key)]
                            + tail);
                        assert(pending_events(s, before, rev) == w + tail);
                        assert((w + tail).drop_first() =~= walk_kids(s, key, kids@, rev) + (seq![
                            (BreadthInfo::MoveUp, key),
                        ] + tail));
                    }
                }
                Some((BreadthInfo::Other, key))
            },
            BreadthInfo::MoveUp => {
                proof {
                    if old(self).wf() {
                        let tail = pending_events(s, rest, rev);
                        assert((seq![(BreadthInfo::MoveUp, key)] + tail).drop_first() =~= tail);
                    }
                }
                Some((BreadthInfo::MoveUp, key))
            },
        }
    }
}

impl<'world> BreadthIter<'world, Forward> {
    /// The events that the traversal still has to report, in order.
    pub open spec fn events(&self) -> Seq<(BreadthInfo, EntityKey)> {
        pending_events(self.world().shape(), self.stack(), false)
    }

    /// A traversal of the whole arena, children from left to right.
    pub fn new(world: &'world Treecs) -> (r: Self)
        ensures
            r.world() == world,
            world.wf() ==> r.wf() && r.events() == walk(world.shape(), world.root_key(), false),
    {
        let r = Self::start(world);
        proof {
            lemma_pending_single(world.shape(), world.root_key(), false);
        }
        r
    }

    /// Reports the next event of the traversal, if one is left.
    pub fn next(&mut self) -> (r: Option<(BreadthInfo, EntityKey)>)
        ensures
            final(self).world() == old(self).world(),
            old(self).wf() ==> final(self).wf(),
            old(self).wf() && old(self).events().len() == 0 ==> r is None && final(self).events()
                == old(self).events(),
            old(self).wf() && old(self).events().len() > 0 ==> r == Some(old(self).events()[0])
                && final(self).events() == old(self).events().drop_first(),
    {
        proof {
            lemma_pending_nonempty(self.world().shape(), self.stack(), false);
        }
        self.step(false)
    }

    /// The traversal of the same arena from its start.
    pub fn restart(self) -> (r: Self)
        ensures
            r.world() == self.world(),
            self.world().wf() ==> r.wf() && r.events() == walk(
                self.world().shape(),
                self.world().root_key(),
                false,
            ),
    {
        Self::new(self.world)
    }

    /// The traversal of the same arena from its start, children from
    /// right to left.
    pub fn reverse(self) -> (r: BreadthIter<'world, Reversed>)
        ensures
            r.world() == self.world(),
            self.world().wf() ==> r.wf() && r.events() == walk(
                self.world().shape(),
                self.world().root_key(),
                true,
            ),
    {
        BreadthIter::<'world, Reversed>::new(self.world)
    }
}

impl<'world> BreadthIter<'world, Reversed> {
    /// The events that the traversal still has to report, in order.
    pub open spec fn events(&self) -> Seq<(BreadthInfo, EntityKey)> {
        pending_events(self.world().shape(), self.stack(), true)
    }

    /// A traversal of the whole arena, children from right to left.
    pub fn new(world: &'world Treecs) -> (r: Self)
        ensures
            r.world() == world,
            world.wf() ==> r.wf() && r.events() == walk(world.shape(), world.root_key(), true),
    {
        let r = Self::start(world);
        proof {
            lemma_pending_single(world.shape(), world.root_key(), true);
        }
        r
    }

    /// Reports the next event of the traversal, if one is left.
    pub fn next(&mut self) -> (r: Option<(BreadthInfo, EntityKey)>)
        ensures
            final(self).world() == old(self).world(),
            old(self).wf() ==> final(self).wf(),
            old(self).wf() && old(self).events().len() == 0 ==> r is None && final(self).events()
                == old(self).events(),
            old(self).wf() && old(self).events().len() > 0 ==> r == Some(old(self).events()[0])
                && final(self).events() == old(self).events().drop_first(),
    {
        proof {
            lemma_pending_nonempty(self.world().shape(), self.stack(), true);
        }
        self.step(true)
    }

    /// The traversal of the same arena from its start.
    pub fn restart(self) -> (r: Self)
        ensures
            r.world() == self.world(),
            self.world().wf() ==> r.wf() && r.events() == walk(
                self.world().shape(),
                self.world().root_key(),
                true,
            ),
    {
        Self::new(self.world)
    }

    /// The traversal of the same arena from its start, children from
    /// left to right.
    pub fn reverse(self) -> (r: BreadthIter<'world, Forward>)
        ensures
            r.world() == self.world(),
            self.world().wf() ==> r.wf() && r.events() == walk(
                self.world().shape(),
                self.world().root_key(),
                false,
            ),
    {
        BreadthIter::<'world, Forward>::new(self.world)
    }
}

impl<'world, Q: QueryAble> QueryIter<'world, Q> for BreadthIter<'world, Forward> {
    type Info = (BreadthInfo, EntityKey);

    open spec fn ready(&self) -> bool {
        self.wf()
    }

    open spec fn arena(&self) -> &'world Treecs {
        self.world()
    }

    open spec fn pending(&self) -> Seq<(BreadthInfo, EntityKey)> {
        self.events()
    }

    fn advance(&mut self) -> (r: Option<(BreadthInfo, EntityKey)>) {
        self.next()
    }

    fn transform(&self, key: EntityKey) -> (r: Option<Q::Output<'world>>) {
        Q::get(self.world, key)
    }
}

impl<'world, Q: QueryAble> WorldIter<'world, Q> for BreadthIter<'world, Forward> {
    open spec fn whole(world: &'world Treecs) -> Seq<(BreadthInfo, EntityKey)> {
        walk(world.shape(), world.root_key(), false)
    }

    fn new(world: &'world Treecs) -> (r: Self) {
        BreadthIter::<'world, Forward>::new(world)
    }

    fn restart(self) -> (r: Self) {
        BreadthIter::<'world, Forward>::new(self.world)
    }
}

impl<'world, Q: QueryAble> QueryIter<'world, Q> for BreadthIter<'world, Reversed> {
    type Info = (BreadthInfo, EntityKey);

    open spec fn ready(&self) -> bool {
        self.wf()
    }

    open spec fn arena(&self) -> &'world Treecs {
        self.world()
    }

    open spec fn pending(&self) -> Seq<(BreadthInfo, EntityKey)> {
        self.events()
    }

    fn advance(&mut self) -> (r: Option<(BreadthInfo, EntityKey)>) {
        self.next()
    }

    fn transform(&self, key: EntityKey) -> (r: Option<Q::Output<'world>>) {
        Q::get(self.world, key)
    }
}

impl<'world, Q: QueryAble> WorldIter<'world, Q> for BreadthIter<'world, Reversed> {
    open spec fn whole(world: &'world Treecs) -> Seq<(BreadthInfo, EntityKey)> {
        walk(world.shape(), world.root_key(), true)
    }

    fn new(world: &'world Treecs) -> (r: Self) {
        BreadthIter::<'world, Reversed>::new(world)
    }

    fn restart(self) -> (r: Self) {
        BreadthIter::<'world, Reversed>::new(self.world)
    }
}

/// When only the entering of `k` is pending, the traversal of the subtree
/// under `k` is what is left.
pub proof fn lemma_pending_single(s: Shape, k: EntityKey, rev: bool)
    ensures
        pending_events(s, seq![(BreadthInfo::Other, k)], rev) == walk(s, k, rev),
{
    let stack = seq![(BreadthInfo::Other, k)];
    assert(stack.drop_last() =~= Seq::<(BreadthInfo, EntityKey)>::empty());
    assert(pending_events(s, stack.drop_last(), rev) =~= Seq::<(BreadthInfo, EntityKey)>::empty());
    assert(walk(s, k, rev) + Seq::<(BreadthInfo, EntityKey)>::empty() =~= walk(s, k, rev));
}

} // verus!
