//! The mathematical shape of an arena: which entities are live, how they
//! are linked, and what it means for the links to form a tree.

use crate::treecs::key::EntityKey;
use crate::treecs::linkdata::LinkView;
use vstd::prelude::*;
use vstd::set_lib::lemma_len_subset;

verus! {

/// The links of an arena together with the depth of every entity.
pub struct Shape {
    /// The structural record of every live entity.
    pub links: Map<EntityKey, LinkView>,
    /// The root entity.
    pub root: EntityKey,
    /// The number of steps from each entity up to the root.
    pub depth: Map<EntityKey, nat>,
    /// A number that no depth exceeds.
    pub bound: nat,
}

impl Shape {
    pub open spec fn live(self, k: EntityKey) -> bool {
        self.links.contains_key(k)
    }

    pub open spec fn parent(self, k: EntityKey) -> Option<EntityKey> {
        self.links[k].parent
    }

    pub open spec fn children(self, k: EntityKey) -> Seq<EntityKey> {
        self.links[k].children
    }

    /// The links form a tree under the root: parent and child records
    /// agree with each other, no entity occurs twice among the children of
    /// its parent, and every live entity descends from the root.
    pub open spec fn wf(self) -> bool {
        &&& self.links.dom().finite()
        &&& self.live(self.root)
        &&& self.parent(self.root) is None
        &&& self.depth[self.root] == 0
        &&& forall|k: EntityKey| #[trigger] self.live(k) ==> node_ok(self, k)
        &&& forall|k: EntityKey, i: int|
            self.live(k) && 0 <= i < self.children(k).len() ==> #[trigger] child_ok(self, k, i)
    }

    /// The entity that is reached from `k` by `n` steps to the parent, if
    /// the chain of parents is that long.
    pub open spec fn ancestor(self, k: EntityKey, n: nat) -> Option<EntityKey>
        decreases n,
    {
        if !self.live(k) {
            None
        } else if n == 0 {
            Some(k)
        } else {
            match self.parent(k) {
                Some(p) => self.ancestor(p, (n - 1) as nat),
                None => None,
            }
        }
    }

    /// `k` is `a` itself or one of its descendants.
    pub open spec fn in_subtree(self, a: EntityKey, k: EntityKey) -> bool {
        exists|n: nat| self.ancestor(k, n) == Some(a)
    }

    /// The entity `a` together with all its descendants.
    pub open spec fn subtree(self, a: EntityKey) -> Set<EntityKey> {
        Set::new(|k: EntityKey| self.in_subtree(a, k))
    }

    /// The links that are left when the subtree under `entity`, which is
    /// not the root, is cut off: the entities of the subtree are gone, and
    /// `entity` no longer stands among the children of its parent.
    pub open spec fn subtree_cut(self, entity: EntityKey) -> Map<EntityKey, LinkView> {
        let p = self.parent(entity)->0;
        let i = self.children(p).index_of(entity);
        self.links.remove_keys(self.subtree(entity)).insert(
            p,
            LinkView { parent: self.parent(p), children: self.children(p).remove(i) },
        )
    }
}

/// The links after `child` was created as the rightmost child of
/// `parent`.
pub open spec fn child_added(
    links: Map<EntityKey, LinkView>,
    parent: EntityKey,
    child: EntityKey,
) -> Map<EntityKey, LinkView> {
    links.insert(child, LinkView { parent: Some(parent), children: Seq::empty() }).insert(
        parent,
        LinkView { parent: links[parent].parent, children: links[parent].children.push(child) },
    )
}

/// A tree stays a tree when a fresh entity becomes the rightmost child
/// of a live one.
pub proof fn lemma_child_added_wf(s: Shape, parent: EntityKey, child: EntityKey)
    requires
        s.wf(),
        s.live(parent),
        !s.live(child),
    ensures
        (Shape {
            links: child_added(s.links, parent, child),
            root: s.root,
            depth: s.depth.insert(child, s.depth[parent] + 1),
            bound: s.bound + 1,
        }).wf(),
{
    let t = Shape {
        links: child_added(s.links, parent, child),
        root: s.root,
        depth: s.depth.insert(child, s.depth[parent] + 1),
        bound: s.bound + 1,
    };
    assert(s.live(s.root));
    assert(forall|k: EntityKey| t.live(k) <==> (s.live(k) || k == child));
    assert forall|k: EntityKey| #[trigger] t.live(k) implies node_ok(t, k) by {
        if k == child {
            assert(s.live(parent));
            assert(t.children(parent).last() == child);
        } else {
            assert(s.live(k));
            assert(node_ok(s, k));
            if k == parent {
                assert forall|i: int, j: int|
                    0 <= i < t.children(k).len() && 0 <= j < t.children(k).len() && i
                        != j implies t.children(k)[i] != t.children(k)[j] by {
                    if i == s.children(k).len() {
                        assert(child_ok(s, k, j));
                    } else if j == s.children(k).len() {
                        assert(child_ok(s, k, i));
                    }
                }
            }
            match s.parent(k) {
                Some(p) => {
                    assert(s.live(p));
                    let i = choose|i: int| 0 <= i < s.children(p).len() && s.children(p)[i] == k;
                    assert(t.children(p)[i] == k);
                },
                None => {},
            }
        }
    }
    assert forall|k: EntityKey, i: int|
        t.live(k) && 0 <= i < t.children(k).len() implies #[trigger] child_ok(t, k, i) by {
        if k == child {
        } else if k == parent && i == s.children(k).len() {
        } else {
            assert(child_ok(s, k, i));
            assert(s.children(k)[i] != child);
        }
    }
}

/// An ancestor lies as many levels higher as steps lead to it.
pub proof fn lemma_ancestor_depth(s: Shape, k: EntityKey, n: nat, a: EntityKey)
    requires
        s.wf(),
        s.ancestor(k, n) == Some(a),
    ensures
        s.live(k),
        s.live(a),
        s.depth[k] == s.depth[a] + n,
    decreases n,
{
    if n > 0 {
        lemma_ancestor_depth(s, s.parent(k)->0, (n - 1) as nat, a);
    }
}

/// One more step leads from an ancestor to that ancestor's parent.
pub proof fn lemma_ancestor_up(s: Shape, k: EntityKey, n: nat, a: EntityKey, b: EntityKey)
    requires
        s.wf(),
        s.ancestor(k, n) == Some(a),
        s.parent(a) == Some(b),
    ensures
        s.ancestor(k, n + 1) == Some(b),
    decreases n,
{
    lemma_ancestor_depth(s, k, n, a);
    if n == 0 {
        assert(s.live(b));
        assert(s.ancestor(b, 0) == Some(b));
    } else {
        lemma_ancestor_up(s, s.parent(k)->0, (n - 1) as nat, a, b);
    }
}

/// The last step to an ancestor starts at one of its children.
pub proof fn lemma_ancestor_split(s: Shape, k: EntityKey, n: nat, a: EntityKey) -> (c: EntityKey)
    requires
        s.wf(),
        s.ancestor(k, n) == Some(a),
        n > 0,
    ensures
        s.ancestor(k, (n - 1) as nat) == Some(c),
        s.parent(c) == Some(a),
        s.live(c),
    decreases n,
{
    let p = s.parent(k)->0;
    if n == 1 {
        assert(s.ancestor(p, 0) == Some(a));
        k
    } else {
        lemma_ancestor_split(s, p, (n - 1) as nat, a)
    }
}

/// Every live entity lies in its own subtree.
pub proof fn lemma_subtree_self(s: Shape, a: EntityKey)
    requires
        s.live(a),
    ensures
        s.in_subtree(a, a),
{
    assert(s.ancestor(a, 0) == Some(a));
}

/// Whatever lies in a subtree is live and lies at least as deep as the
/// top of the subtree; only the top itself lies as high as the top.
pub proof fn lemma_subtree_depth(s: Shape, a: EntityKey, k: EntityKey)
    requires
        s.wf(),
        s.in_subtree(a, k),
    ensures
        s.live(a),
        s.live(k),
        s.depth[k] >= s.depth[a],
        s.depth[k] == s.depth[a] ==> k == a,
{
    let n = choose|n: nat| s.ancestor(k, n) == Some(a);
    lemma_ancestor_depth(s, k, n, a);
}

/// A child of a member of a subtree is a member too.
pub proof fn lemma_subtree_child(s: Shape, a: EntityKey, x: EntityKey, c: EntityKey)
    requires
        s.wf(),
        s.in_subtree(a, x),
        s.live(c),
        s.parent(c) == Some(x),
    ensures
        s.in_subtree(a, c),
{
    let n = choose|n: nat| s.ancestor(x, n) == Some(a);
    assert(s.ancestor(c, n + 1) == Some(a));
}

/// The parent of a member of a subtree, other than the top, is a member
/// too.
pub proof fn lemma_subtree_parent(s: Shape, a: EntityKey, c: EntityKey)
    requires
        s.wf(),
        s.in_subtree(a, c),
        c != a,
    ensures
        s.parent(c) is Some,
        s.in_subtree(a, s.parent(c)->0),
{
    let n = choose|n: nat| s.ancestor(c, n) == Some(a);
    assert(n > 0);
    assert(s.ancestor(s.parent(c)->0, (n - 1) as nat) == Some(a));
}

/// Subtrees nest: a member of a subtree whose top is a member of a
/// second subtree is a member of the second one.
pub proof fn lemma_subtree_trans(s: Shape, a: EntityKey, b: EntityKey, k: EntityKey)
    requires
        s.wf(),
        s.in_subtree(a, b),
        s.in_subtree(b, k),
    ensures
        s.in_subtree(a, k),
    decreases s.depth[k],
{
    if k != b {
        lemma_subtree_parent(s, b, k);
        let p = s.parent(k)->0;
        lemma_subtree_depth(s, b, k);
        assert(s.live(k));
        lemma_subtree_trans(s, a, b, p);
        lemma_subtree_child(s, a, p, k);
    }
}

/// A member of a subtree, other than the top, lies in the subtree of one
/// of the top's children.
pub proof fn lemma_subtree_decompose(s: Shape, a: EntityKey, k: EntityKey) -> (i: int)
    requires
        s.wf(),
        s.in_subtree(a, k),
        k != a,
    ensures
        0 <= i < s.children(a).len(),
        s.in_subtree(s.children(a)[i], k),
{
    let n = choose|n: nat| s.ancestor(k, n) == Some(a);
    assert(n > 0);
    let c = lemma_ancestor_split(s, k, n, a);
    assert(s.children(a).contains(c));
    let i = choose|i: int| 0 <= i < s.children(a).len() && s.children(a)[i] == c;
    i
}

/// Every live entity descends from the root.
pub proof fn lemma_all_under_root(s: Shape, k: EntityKey)
    requires
        s.wf(),
        s.live(k),
    ensures
        s.in_subtree(s.root, k),
    decreases s.depth[k],
{
    match s.parent(k) {
        None => {
            lemma_subtree_self(s, k);
        },
        Some(p) => {
            lemma_all_under_root(s, p);
            lemma_subtree_child(s, s.root, p, k);
        },
    }
}

/// What a sweep over a subtree has to keep: the entities removed so far
/// and the subtrees under the pending entities make up the subtree under
/// `entity`, without overlap.
pub open spec fn sweep_inv(
    s: Shape,
    entity: EntityKey,
    pending: Seq<EntityKey>,
    removed: Set<EntityKey>,
) -> bool {
    &&& forall|k: EntityKey| removed.contains(k) ==> s.in_subtree(entity, k)
    &&& forall|i: int|
        0 <= i < pending.len() ==> s.in_subtree(entity, #[trigger] pending[i])
            && !removed.contains(pending[i])
    &&& forall|i: int, j: int|
        0 <= i < pending.len() && 0 <= j < pending.len() && i != j ==> !s.in_subtree(
            #[trigger] pending[i],
            #[trigger] pending[j],
        )
    &&& forall|k: EntityKey| #[trigger]
        s.in_subtree(entity, k) ==> removed.contains(k) || exists|i: int|
            0 <= i < pending.len() && s.in_subtree(#[trigger] pending[i], k)
    &&& forall|k: EntityKey, i: int|
        removed.contains(k) && 0 <= i < pending.len() ==> !#[trigger] s.in_subtree(pending[i], k)
}

/// A sweep starts with the top of the subtree pending and nothing
/// removed.
pub proof fn lemma_sweep_init(s: Shape, entity: EntityKey)
    requires
        s.wf(),
        s.live(entity),
    ensures
        sweep_inv(s, entity, seq![entity], Set::empty()),
{
    lemma_subtree_self(s, entity);
    let pending = seq![entity];
    assert forall|k: EntityKey| #[trigger] s.in_subtree(entity, k) implies exists|i: int|
        0 <= i < pending.len() && s.in_subtree(#[trigger] pending[i], k) by {
        assert(s.in_subtree(pending[0], k));
    }
}

/// A sweep goes on by removing the last pending entity and taking its
/// children in its place.
pub proof fn lemma_sweep_step(
    s: Shape,
    entity: EntityKey,
    pending: Seq<EntityKey>,
    removed: Set<EntityKey>,
)
    requires
        s.wf(),
        sweep_inv(s, entity, pending, removed),
        pending.len() > 0,
    ensures
        sweep_inv(
            s,
            entity,
            pending.drop_last() + s.children(pending.last()),
            removed.insert(pending.last()),
        ),
{
    let x = pending.last();
    let rest = pending.drop_last();
    let kids = s.children(x);
    let next = rest + kids;
    let gone = removed.insert(x);
    let last = pending.len() - 1;
    assert(pending[last] == x);
    lemma_subtree_depth(s, entity, x);
    assert forall|i: int| 0 <= i < kids.len() implies s.live(#[trigger] kids[i]) && s.parent(
        kids[i],
    ) == Some(x) && s.in_subtree(x, kids[i]) && s.in_subtree(entity, kids[i]) && s.depth[kids[i]]
        == s.depth[x] + 1 by {
        assert(child_ok(s, x, i));
        assert(node_ok(s, kids[i]));
        lemma_subtree_self(s, x);
        lemma_subtree_child(s, x, x, kids[i]);
        lemma_subtree_child(s, entity, x, kids[i]);
    }
    assert forall|i: int| 0 <= i < next.len() implies s.in_subtree(entity, #[trigger] next[i])
        && !gone.contains(next[i]) by {
        if i < rest.len() {
            assert(next[i] == pending[i]);
            lemma_subtree_self(s, x);
            assert(!s.in_subtree(pending[i], pending[last]));
            lemma_subtree_depth(s, entity, pending[i]);
            lemma_subtree_self(s, pending[i]);
        } else {
            let c = kids[i - rest.len()];
            assert(next[i] == c);
            assert(s.in_subtree(pending[last], c));
        }
    }
    assert forall|i: int, j: int|
        0 <= i < next.len() && 0 <= j < next.len() && i != j implies !s.in_subtree(
        #[trigger] next[i],
        #[trigger] next[j],
    ) by {
        if s.in_subtree(next[i], next[j]) {
            if i < rest.len() && j < rest.len() {
                assert(next[i] == pending[i] && next[j] == pending[j]);
            } else if i < rest.len() {
                let c = kids[j - rest.len()];
                assert(next[i] == pending[i] && next[j] == c);
                if c == pending[i] {
                    assert(s.in_subtree(pending[last], pending[i]));
                } else {
                    lemma_subtree_parent(s, pending[i], c);
                    assert(s.in_subtree(pending[i], pending[last]));
                }
            } else if j < rest.len() {
                let c = kids[i - rest.len()];
                assert(next[i] == c && next[j] == pending[j]);
                lemma_subtree_trans(s, x, c, pending[j]);
                assert(s.in_subtree(pending[last], pending[j]));
            } else {
                let c = kids[i - rest.len()];
                let d = kids[j - rest.len()];
                assert(next[i] == c && next[j] == d);
                lemma_subtree_depth(s, c, d);
            }
        }
    }
    assert forall|k: EntityKey| #[trigger] s.in_subtree(entity, k) implies gone.contains(k)
        || exists|i: int| 0 <= i < next.len() && s.in_subtree(#[trigger] next[i], k) by {
        if !removed.contains(k) && k != x {
            let i = choose|i: int| 0 <= i < pending.len() && s.in_subtree(#[trigger] pending[i], k);
            if i < rest.len() {
                assert(next[i] == pending[i]);
            } else {
                let j = lemma_subtree_decompose(s, x, k);
                assert(next[rest.len() + j] == kids[j]);
            }
        }
    }
    assert forall|k: EntityKey, i: int|
        gone.contains(k) && 0 <= i < next.len() implies !#[trigger] s.in_subtree(next[i], k) by {
        if s.in_subtree(next[i], k) {
            if i < rest.len() {
                assert(next[i] == pending[i]);
                if k == x {
                    assert(s.in_subtree(pending[i], pending[last]));
                }
            } else {
                let c = kids[i - rest.len()];
                assert(next[i] == c);
                if k == x {
                    lemma_subtree_depth(s, c, x);
                } else {
                    lemma_subtree_trans(s, x, c, k);
                    assert(s.in_subtree(pending[last], k));
                }
            }
        }
    }
    assert forall|k: EntityKey| gone.contains(k) implies s.in_subtree(entity, k) by {}
}

/// A sweep ends when nothing is pending: what was removed is the subtree.
pub proof fn lemma_sweep_done(s: Shape, entity: EntityKey, removed: Set<EntityKey>)
    requires
        sweep_inv(s, entity, Seq::empty(), removed),
    ensures
        removed == s.subtree(entity),
{
    assert forall|k: EntityKey| removed.contains(k) <==> s.subtree(entity).contains(k) by {
        if s.in_subtree(entity, k) {
            assert(removed.contains(k));
        }
    }
    assert(removed =~= s.subtree(entity));
}

/// The shape that is left when the subtree under `entity` is cut off.
pub open spec fn cut_shape(s: Shape, entity: EntityKey) -> Shape {
    Shape { links: s.subtree_cut(entity), root: s.root, depth: s.depth, bound: s.bound }
}

/// What an entity's record must satisfy in a tree.
pub open spec fn node_ok(s: Shape, k: EntityKey) -> bool {
    &&& s.depth.contains_key(k)
    &&& s.depth[k] <= s.bound
    &&& s.children(k).no_duplicates()
    &&& (s.parent(k) is None ==> k == s.root)
    &&& (s.parent(k) matches Some(p) ==> s.live(p) && s.depth[k] == s.depth[p] + 1
        && s.children(p).contains(k))
}

/// What the `i`-th child of an entity must satisfy in a tree.
pub open spec fn child_ok(s: Shape, k: EntityKey, i: int) -> bool {
    s.live(s.children(k)[i]) && s.parent(s.children(k)[i]) == Some(k)
}

/// The records that are left after a cut, entity by entity.
proof fn lemma_cut_links(s: Shape, entity: EntityKey)
    requires
        s.wf(),
        s.live(entity),
        entity != s.root,
    ensures
        s.parent(entity) is Some,
        s.live(s.parent(entity)->0),
        !s.in_subtree(entity, s.parent(entity)->0),
        !s.in_subtree(entity, s.root),
        s.in_subtree(entity, entity),
        0 <= s.children(s.parent(entity)->0).index_of(entity) < s.children(
            s.parent(entity)->0,
        ).len(),
        s.children(s.parent(entity)->0)[s.children(s.parent(entity)->0).index_of(entity)]
            == entity,
        forall|k: EntityKey|
            cut_shape(s, entity).live(k) <==> (s.live(k) && !s.in_subtree(entity, k)),
        forall|k: EntityKey|
            cut_shape(s, entity).live(k) && k != s.parent(entity)->0 ==> cut_shape(
                s,
                entity,
            ).links[k] == s.links[k],
        cut_shape(s, entity).parent(s.parent(entity)->0) == s.parent(s.parent(entity)->0),
        cut_shape(s, entity).children(s.parent(entity)->0) == s.children(
            s.parent(entity)->0,
        ).remove(s.children(s.parent(entity)->0).index_of(entity)),
{
    let p0 = s.parent(entity)->0;
    let kids0 = s.children(p0);
    assert(s.parent(entity) is Some);
    assert(s.live(p0) && kids0.contains(entity));
    lemma_subtree_self(s, entity);
    if s.in_subtree(entity, p0) {
        lemma_subtree_depth(s, entity, p0);
    }
    if s.in_subtree(entity, s.root) {
        lemma_subtree_depth(s, entity, s.root);
        lemma_all_under_root(s, entity);
        lemma_subtree_depth(s, s.root, entity);
    }
}

/// The children of an entity after a cut are children of it before the
/// cut, and the top of the cut subtree is not among them.
proof fn lemma_cut_children(s: Shape, entity: EntityKey, k: EntityKey, j: int) -> (jj: int)
    requires
        s.wf(),
        s.live(entity),
        entity != s.root,
        cut_shape(s, entity).live(k),
        0 <= j < cut_shape(s, entity).children(k).len(),
    ensures
        0 <= jj < s.children(k).len(),
        s.children(k)[jj] == cut_shape(s, entity).children(k)[j],
        cut_shape(s, entity).children(k)[j] != entity,
        k == s.parent(entity)->0 ==> jj == (if j < s.children(k).index_of(entity) {
            j
        } else {
            j + 1
        }),
        k != s.parent(entity)->0 ==> jj == j,
{
    lemma_cut_links(s, entity);
    let p0 = s.parent(entity)->0;
    let i0 = s.children(p0).index_of(entity);
    if k == p0 {
        let jj = if j < i0 {
            j
        } else {
            j + 1
        };
        assert(s.children(k)[jj] != s.children(k)[i0]);
        jj
    } else {
        assert(s.live(k));
        assert(child_ok(s, k, j));
        j
    }
}

proof fn lemma_cut_node(s: Shape, entity: EntityKey, k: EntityKey)
    requires
        s.wf(),
        s.live(entity),
        entity != s.root,
        cut_shape(s, entity).live(k),
    ensures
        node_ok(cut_shape(s, entity), k),
{
    let t = cut_shape(s, entity);
    lemma_cut_links(s, entity);
    let p0 = s.parent(entity)->0;
    let i0 = s.children(p0).index_of(entity);
    assert(s.live(k));
    assert forall|i: int, j: int|
        0 <= i < t.children(k).len() && 0 <= j < t.children(k).len() && i != j implies t.children(
        k,
    )[i] != t.children(k)[j] by {
        let ii = lemma_cut_children(s, entity, k, i);
        let jj = lemma_cut_children(s, entity, k, j);
    }
    match s.parent(k) {
        Some(p) => {
            assert(s.live(p));
            if s.in_subtree(entity, p) {
                lemma_subtree_child(s, entity, p, k);
            }
            let j = choose|j: int| 0 <= j < s.children(p).len() && s.children(p)[j] == k;
            if p == p0 {
                if j < i0 {
                    assert(t.children(p)[j] == k);
                } else {
                    assert(j != i0);
                    assert(t.children(p)[j - 1] == k);
                }
            } else {
                assert(t.children(p)[j] == k);
            }
        },
        None => {},
    }
}

proof fn lemma_cut_child(s: Shape, entity: EntityKey, k: EntityKey, i: int)
    requires
        s.wf(),
        s.live(entity),
        entity != s.root,
        cut_shape(s, entity).live(k),
        0 <= i < cut_shape(s, entity).children(k).len(),
    ensures
        child_ok(cut_shape(s, entity), k, i),
{
    let t = cut_shape(s, entity);
    lemma_cut_links(s, entity);
    let p0 = s.parent(entity)->0;
    let c = t.children(k)[i];
    let j = lemma_cut_children(s, entity, k, i);
    assert(s.live(k));
    assert(child_ok(s, k, j));
    assert(s.parent(c) == Some(k));
    if s.in_subtree(entity, c) {
        lemma_subtree_parent(s, entity, c);
    }
    if c == p0 {
        lemma_subtree_self(s, k);
        lemma_subtree_child(s, k, k, c);
        lemma_subtree_depth(s, k, c);
    }
}

/// A tree stays a tree when the subtree under an entity other than the
/// root is cut off.
pub proof fn lemma_cut_wf(s: Shape, entity: EntityKey)
    requires
        s.wf(),
        s.live(entity),
        entity != s.root,
    ensures
        cut_shape(s, entity).wf(),
        !cut_shape(s, entity).live(entity),
{
    let t = cut_shape(s, entity);
    lemma_cut_links(s, entity);
    assert(t.links.dom().subset_of(s.links.dom()));
    lemma_len_subset(t.links.dom(), s.links.dom());
    assert forall|k: EntityKey| #[trigger] t.live(k) implies node_ok(t, k) by {
        lemma_cut_node(s, entity, k);
    }
    assert forall|k: EntityKey, i: int|
        t.live(k) && 0 <= i < t.children(k).len() implies #[trigger] child_ok(t, k, i) by {
        lemma_cut_child(s, entity, k, i);
    }
    assert(t.live(t.root));
    assert(t.parent(t.root) is None);
}

/// The links that are left when the root is removed: a fresh root and
/// nothing else.
pub open spec fn fresh_root(root: EntityKey) -> Map<EntityKey, LinkView> {
    Map::<EntityKey, LinkView>::empty().insert(
        root,
        LinkView { parent: None, children: Seq::empty() },
    )
}

/// A root without children is a tree.
pub proof fn lemma_fresh_root_wf(root: EntityKey, depth: Map<EntityKey, nat>, bound: nat)
    requires
        depth.contains_key(root),
        depth[root] == 0,
    ensures
        (Shape { links: fresh_root(root), root, depth, bound }).wf(),
{
}

} // verus!
