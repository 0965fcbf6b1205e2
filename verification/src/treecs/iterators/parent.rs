//! The ancestor traversal: from an entity up to the root.

use crate::treecs::arena::Treecs;
use crate::treecs::iterators::QueryIter;
use crate::treecs::key::EntityKey;
use crate::treecs::query::QueryAble;
use crate::treecs::shape::{lemma_ancestor_depth, node_ok, Shape};
use vstd::prelude::*;

verus! {

/// The entities from `k` up to the root: `k`, its parent, the parent of
/// its parent and so on.
pub open spec fn chain(s: Shape, k: EntityKey) -> Seq<EntityKey>
    decreases s.depth[k],
{
    if !s.live(k) {
        Seq::empty()
    } else {
        match s.parent(k) {
            Some(p) => if s.depth[k] == s.depth[p] + 1 {
                seq![k] + chain(s, p)
            } else {
                seq![k]
            },
            None => seq![k],
        }
    }
}

/// The way from a live entity up to the root is finite: it has one entry
/// for each level from the entity's own up to the root's. It starts with
/// the entity, ends with the root, holds at position `i` the ancestor
/// that is `i` steps away, and so visits every entity whose subtree holds
/// the start exactly once.
pub proof fn lemma_chain_reaches_root(s: Shape, k: EntityKey)
    requires
        s.wf(),
        s.live(k),
    ensures
        chain(s, k).len() == s.depth[k] + 1,
        chain(s, k).first() == k,
        chain(s, k).last() == s.root,
        forall|i: int|
            0 <= i < chain(s, k).len() ==> s.ancestor(k, i as nat) == Some(
                #[trigger] chain(s, k)[i],
            ),
        chain(s, k).no_duplicates(),
        forall|a: EntityKey| #[trigger] chain(s, k).contains(a) <==> s.in_subtree(a, k),
    decreases s.depth[k],
{
    let c = chain(s, k);
    assert(node_ok(s, k));
    match s.parent(k) {
        Some(p) => {
            let up = chain(s, p);
            lemma_chain_reaches_root(s, p);
            assert(c == seq![k] + up);
            assert(c.last() == up.last());
            assert forall|i: int| 0 <= i < c.len() implies s.ancestor(k, i as nat) == Some(
                #[trigger] c[i],
            ) by {
                if i > 0 {
                    assert(c[i] == up[i - 1]);
                    assert(s.ancestor(p, (i - 1) as nat) == Some(up[i - 1]));
                }
            }
        },
        None => {
            assert(c == seq![k]);
        },
    }
    assert forall|i: int, j: int| 0 <= i < c.len() && 0 <= j < c.len() && i != j implies c[i]
        != c[j] by {
        lemma_ancestor_depth(s, k, i as nat, c[i]);
        lemma_ancestor_depth(s, k, j as nat, c[j]);
    }
    assert forall|a: EntityKey| #[trigger] c.contains(a) <==> s.in_subtree(a, k) by {
        if c.contains(a) {
            let i = choose|i: int| 0 <= i < c.len() && c[i] == a;
            assert(s.ancestor(k, i as nat) == Some(a));
        }
        if s.in_subtree(a, k) {
            let n = choose|n: nat| s.ancestor(k, n) == Some(a);
            lemma_ancestor_depth(s, k, n, a);
            assert(s.ancestor(k, n) == Some(c[n as int]));
        }
    }
}

/// The traversal of the ancestors of an entity, the entity itself first.
pub struct ParentIter<'world> {
    world: &'world Treecs,
    current_key: Option<EntityKey>,
}

impl<'world> ParentIter<'world> {
    /// The arena that is traversed.
    pub closed spec fn world(&self) -> &'world Treecs {
        self.world
    }

    /// The entity that is reported next.
    pub closed spec fn current(&self) -> Option<EntityKey> {
        self.current_key
    }

    /// The entities that the traversal still has to report, in order.
    pub open spec fn remaining(&self) -> Seq<EntityKey> {
        match self.current() {
            Some(k) => chain(self.world().shape(), k),
            None => Seq::empty(),
        }
    }

    /// A traversal that starts at `start`.
    pub fn new(world: &'world Treecs, start: EntityKey) -> (r: Self)
        ensures
            r.world() == world,
            r.current() == Some(start),
    {
        ParentIter { world, current_key: Some(start) }
    }

    /// Reports the next entity on the way up, if one is left.
    pub fn next(&mut self) -> (r: Option<EntityKey>)
        ensures
            final(self).world() == old(self).world(),
            old(self).world().wf() && old(self).remaining().len() == 0 ==> r is None && final(
                self
            ).remaining() == old(self).remaining(),
            old(self).world().wf() && old(self).remaining().len() > 0 ==> r == Some(
                old(self).remaining()[0],
            ) && final(self).remaining() == old(self).remaining().drop_first(),
    {
        let curr_key = match self.current_key {
            Some(k) => k,
            None => {
                return None;
            },
        };
        let linkdata = match self.world.linkdata(curr_key) {
            Some(l) => l,
            None => {
                return None;
            },
        };
        self.current_key = *linkdata.parent();
        proof {
            let s = self.world.shape();
            if self.world.wf() {
                assert(s.live(curr_key));
                assert(node_ok(s, curr_key));
                match s.parent(curr_key) {
                    Some(p) => {
                        assert((seq![curr_key] + chain(s, p)).drop_first() =~= chain(s, p));
                    },
                    None => {
                        assert(seq![curr_key].drop_first() =~= Seq::<EntityKey>::empty());
                    },
                }
            }
        }
        Some(curr_key)
    }
}

impl<'world, Q: QueryAble> QueryIter<'world, Q> for ParentIter<'world> {
    type Info = EntityKey;

    open spec fn ready(&self) -> bool {
        self.world().wf()
    }

    open spec fn arena(&self) -> &'world Treecs {
        self.world()
    }

    open spec fn pending(&self) -> Seq<EntityKey> {
        self.remaining()
    }

    fn advance(&mut self) -> (r: Option<EntityKey>) {
        self.next()
    }

    fn transform(&self, key: EntityKey) -> (r: Option<Q::Output<'world>>) {
        Q::get(self.world, key)
    }
}

} // verus!
