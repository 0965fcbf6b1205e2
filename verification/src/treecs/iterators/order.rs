//! What holds of the order of the events of the enter/leave traversal.

use crate::treecs::iterators::breadth::{walk, walk_kids, BreadthInfo};
use crate::treecs::key::EntityKey;
use crate::treecs::shape::{
    child_ok, lemma_ancestor_depth, lemma_subtree_child,
    lemma_subtree_depth, lemma_subtree_self, node_ok, Shape,
};
use vstd::prelude::*;
use vstd::relations::injective_on;
use vstd::seq_lib::lemma_no_dup_in_concat;
use vstd::set_lib::{lemma_map_size, lemma_set_disjoint_lens};

verus! {

/// `kids` are children of `parent`, none of them twice.
pub open spec fn kids_of(s: Shape, parent: EntityKey, kids: Seq<EntityKey>) -> bool {
    &&& s.live(parent)
    &&& kids.no_duplicates()
    &&& forall|j: int|
        0 <= j < kids.len() ==> s.live(#[trigger] kids[j]) && s.parent(kids[j]) == Some(parent)
}

/// The child that the traversal visits first.
pub open spec fn next_kid(kids: Seq<EntityKey>, rev: bool) -> EntityKey {
    if rev {
        kids.last()
    } else {
        kids.first()
    }
}

/// The children that the traversal visits after the first one.
pub open spec fn rest_kids(kids: Seq<EntityKey>, rev: bool) -> Seq<EntityKey> {
    if rev {
        kids.drop_last()
    } else {
        kids.drop_first()
    }
}

/// The children of a live entity are children of it, none of them twice.
pub proof fn lemma_children_kids_of(s: Shape, k: EntityKey)
    requires
        s.wf(),
        s.live(k),
    ensures
        kids_of(s, k, s.children(k)),
{
    assert(node_ok(s, k));
    assert forall|j: int| 0 <= j < s.children(k).len() implies s.live(#[trigger] s.children(k)[j])
        && s.parent(s.children(k)[j]) == Some(k) by {
        assert(child_ok(s, k, j));
    }
}

/// The traversal of some children is the traversal of the first of them
/// followed by the traversal of the others.
pub proof fn lemma_kids_step(s: Shape, parent: EntityKey, kids: Seq<EntityKey>, rev: bool)
    requires
        s.wf(),
        kids_of(s, parent, kids),
        kids.len() > 0,
    ensures
        kids_of(s, parent, rest_kids(kids, rev)),
        rest_kids(kids, rev).len() == kids.len() - 1,
        s.live(next_kid(kids, rev)),
        s.parent(next_kid(kids, rev)) == Some(parent),
        s.depth[next_kid(kids, rev)] == s.depth[parent] + 1,
        s.depth[next_kid(kids, rev)] <= s.bound,
        !rest_kids(kids, rev).contains(next_kid(kids, rev)),
        walk_kids(s, parent, kids, rev) == walk(s, next_kid(kids, rev), rev) + walk_kids(
            s,
            parent,
            rest_kids(kids, rev),
            rev,
        ),
{
    let c = next_kid(kids, rev);
    let rest = rest_kids(kids, rev);
    if rev {
        assert(c == kids[kids.len() - 1]);
        assert forall|j: int| 0 <= j < rest.len() implies rest[j] == kids[j] by {}
    } else {
        assert(c == kids[0]);
        assert forall|j: int| 0 <= j < rest.len() implies rest[j] == kids[j + 1] by {}
    }
    assert(s.live(c));
    assert(node_ok(s, c));
    assert forall|j: int| 0 <= j < rest.len() implies s.live(#[trigger] rest[j]) && s.parent(
        rest[j],
    ) == Some(parent) by {
        if rev {
            assert(rest[j] == kids[j]);
        } else {
            assert(rest[j] == kids[j + 1]);
        }
    }
}

/// An entity cannot descend from two different entities of the same
/// depth.
pub proof fn lemma_same_depth_disjoint(s: Shape, c: EntityKey, d: EntityKey, x: EntityKey)
    requires
        s.wf(),
        s.in_subtree(c, x),
        s.in_subtree(d, x),
        s.depth[c] == s.depth[d],
    ensures
        c == d,
{
    let n = choose|n: nat| s.ancestor(x, n) == Some(c);
    let m = choose|m: nat| s.ancestor(x, m) == Some(d);
    lemma_ancestor_depth(s, x, n, c);
    lemma_ancestor_depth(s, x, m, d);
}

/// Every event of the traversal of a subtree is about an entity of the
/// subtree, and no event occurs twice.
pub proof fn lemma_walk_keys(s: Shape, k: EntityKey, rev: bool)
    requires
        s.wf(),
        s.live(k),
    ensures
        forall|i: int|
            0 <= i < walk(s, k, rev).len() ==> s.in_subtree(k, (#[trigger] walk(s, k, rev)[i]).1),
        walk(s, k, rev).no_duplicates(),
    decreases s.bound - s.depth[k], 1nat, 0nat,
{
    let kids = s.children(k);
    let inner = walk_kids(s, k, kids, rev);
    let w = walk(s, k, rev);
    lemma_children_kids_of(s, k);
    lemma_walk_kids_keys(s, k, kids, rev);
    lemma_subtree_self(s, k);
    assert(node_ok(s, k));
    assert forall|i: int| 0 <= i < inner.len() implies s.in_subtree(k, (#[trigger] inner[i]).1)
        && inner[i].1 != k by {
        let j = choose|j: int| 0 <= j < kids.len() && s.in_subtree(kids[j], inner[i].1);
        lemma_subtree_depth(s, kids[j], inner[i].1);
        assert(node_ok(s, kids[j]));
        lemma_subtree_child(s, k, k, kids[j]);
        crate::treecs::shape::lemma_subtree_trans(s, k, kids[j], inner[i].1);
    }
    assert forall|i: int| 0 <= i < w.len() implies s.in_subtree(k, (#[trigger] w[i]).1) by {
        if 1 <= i <= inner.len() {
            assert(w[i] == inner[i - 1]);
        }
    }
    assert forall|i: int, j: int| 0 <= i < w.len() && 0 <= j < w.len() && i != j implies w[i]
        != w[j] by {
        if 1 <= i <= inner.len() {
            assert(w[i] == inner[i - 1]);
        }
        if 1 <= j <= inner.len() {
            assert(w[j] == inner[j - 1]);
        }
    }
}

/// Every event of the traversal of some children is about an entity of
/// the subtree of one of them, and no event occurs twice.
pub proof fn lemma_walk_kids_keys(s: Shape, parent: EntityKey, kids: Seq<EntityKey>, rev: bool)
    requires
        s.wf(),
        kids_of(s, parent, kids),
    ensures
        forall|i: int|
            0 <= i < walk_kids(s, parent, kids, rev).len() ==> exists|j: int|
                0 <= j < kids.len() && s.in_subtree(
                    kids[j],
                    (#[trigger] walk_kids(s, parent, kids, rev)[i]).1,
                ),
        walk_kids(s, parent, kids, rev).no_duplicates(),
    decreases s.bound - s.depth[parent], 0nat, kids.len(),
{
    if kids.len() > 0 {
        let c = next_kid(kids, rev);
        let rest = rest_kids(kids, rev);
        let head = walk(s, c, rev);
        let tail = walk_kids(s, parent, rest, rev);
        let all = walk_kids(s, parent, kids, rev);
        lemma_kids_step(s, parent, kids, rev);
        lemma_walk_keys(s, c, rev);
        lemma_walk_kids_keys(s, parent, rest, rev);
        assert(all == head + tail);
        assert forall|i: int| 0 <= i < all.len() implies exists|j: int|
            0 <= j < kids.len() && s.in_subtree(kids[j], (#[trigger] all[i]).1) by {
            if i < head.len() {
                assert(all[i] == head[i]);
                if rev {
                    assert(s.in_subtree(kids[kids.len() - 1], all[i].1));
                } else {
                    assert(s.in_subtree(kids[0], all[i].1));
                }
            } else {
                assert(all[i] == tail[i - head.len()]);
                let j = choose|j: int|
                    0 <= j < rest.len() && s.in_subtree(rest[j], tail[i - head.len()].1);
                if rev {
                    assert(rest[j] == kids[j]);
                } else {
                    assert(rest[j] == kids[j + 1]);
                }
            }
        }
        assert forall|i: int, j: int| 0 <= i < head.len() && 0 <= j < tail.len() implies head[i]
            != tail[j] by {
            if head[i] == tail[j] {
                let m = choose|m: int| 0 <= m < rest.len() && s.in_subtree(rest[m], tail[j].1);
                assert(s.in_subtree(c, head[i].1));
                assert(node_ok(s, rest[m]));
                lemma_same_depth_disjoint(s, c, rest[m], head[i].1);
                assert(rest.contains(c));
            }
        }
        lemma_no_dup_in_concat(head, tail);
    }
}

/// Whether the child at position `j` is the one that the traversal
/// visits first.
pub open spec fn is_next(kids: Seq<EntityKey>, rev: bool, j: int) -> bool {
    if rev {
        j == kids.len() - 1
    } else {
        j == 0
    }
}

/// The position of `kids[j]` among the children that are visited after
/// the first one.
pub open spec fn rest_index(rev: bool, j: int) -> int {
    if rev {
        j
    } else {
        j - 1
    }
}

/// The number of events that the traversal of `kids` reports before it
/// enters `kids[j]`.
pub open spec fn kid_start(
    s: Shape,
    parent: EntityKey,
    kids: Seq<EntityKey>,
    rev: bool,
    j: int,
) -> int
    decreases kids.len(),
{
    if kids.len() == 0 || is_next(kids, rev, j) {
        0
    } else {
        walk(s, next_kid(kids, rev), rev).len() + kid_start(
            s,
            parent,
            rest_kids(kids, rev),
            rev,
            rest_index(rev, j),
        )
    }
}

/// The traversal of a child is one piece of the traversal of all
/// children, and it starts where [`kid_start`] says.
pub proof fn lemma_kid_segment(
    s: Shape,
    parent: EntityKey,
    kids: Seq<EntityKey>,
    rev: bool,
    j: int,
)
    requires
        s.wf(),
        kids_of(s, parent, kids),
        0 <= j < kids.len(),
    ensures
        0 <= kid_start(s, parent, kids, rev, j),
        kid_start(s, parent, kids, rev, j) + walk(s, kids[j], rev).len() <= walk_kids(
            s,
            parent,
            kids,
            rev,
        ).len(),
        walk_kids(s, parent, kids, rev).subrange(
            kid_start(s, parent, kids, rev, j),
            kid_start(s, parent, kids, rev, j) + walk(s, kids[j], rev).len(),
        ) == walk(s, kids[j], rev),
    decreases kids.len(),
{
    let c = next_kid(kids, rev);
    let rest = rest_kids(kids, rev);
    let head = walk(s, c, rev);
    let tail = walk_kids(s, parent, rest, rev);
    lemma_kids_step(s, parent, kids, rev);
    if is_next(kids, rev, j) {
        assert(kids[j] == c);
        assert((head + tail).subrange(0, head.len() as int) =~= head);
    } else {
        let jr = rest_index(rev, j);
        assert(rest[jr] == kids[j]);
        lemma_kid_segment(s, parent, rest, rev, jr);
        let o = kid_start(s, parent, rest, rev, jr);
        let n = walk(s, kids[j], rev).len();
        assert((head + tail).subrange(head.len() + o, head.len() + o + n) =~= tail.subrange(
            o,
            o + n,
        ));
    }
}

/// Of two children, the one that the traversal visits first is left
/// before the other is entered.
pub proof fn lemma_kid_order(
    s: Shape,
    parent: EntityKey,
    kids: Seq<EntityKey>,
    rev: bool,
    i: int,
    j: int,
)
    requires
        s.wf(),
        kids_of(s, parent, kids),
        0 <= i < kids.len(),
        0 <= j < kids.len(),
        if rev {
            j < i
        } else {
            i < j
        },
    ensures
        kid_start(s, parent, kids, rev, i) + walk(s, kids[i], rev).len() <= kid_start(
            s,
            parent,
            kids,
            rev,
            j,
        ),
    decreases kids.len(),
{
    let rest = rest_kids(kids, rev);
    lemma_kids_step(s, parent, kids, rev);
    if is_next(kids, rev, i) {
        assert(kids[i] == next_kid(kids, rev));
        lemma_kid_segment(s, parent, rest, rev, rest_index(rev, j));
    } else {
        assert(rest[rest_index(rev, i)] == kids[i]);
        assert(rest[rest_index(rev, j)] == kids[j]);
        lemma_kid_order(s, parent, rest, rev, rest_index(rev, i), rest_index(rev, j));
    }
}

/// The position, in the traversal of the whole tree, of the event that
/// enters `x`.
pub open spec fn enter_pos(s: Shape, x: EntityKey, rev: bool) -> int
    decreases s.depth[x],
{
    match s.parent(x) {
        Some(p) => if s.live(x) && s.depth[x] == s.depth[p] + 1 {
            enter_pos(s, p, rev) + 1 + kid_start(
                s,
                p,
                s.children(p),
                rev,
                s.children(p).index_of(x),
            )
        } else {
            0
        },
        None => 0,
    }
}

/// The position, in the traversal of the whole tree, of the event that
/// leaves `x`.
pub open spec fn leave_pos(s: Shape, x: EntityKey, rev: bool) -> int {
    enter_pos(s, x, rev) + walk(s, x, rev).len() - 1
}

/// The traversal of the subtree under `x` is one piece of the traversal
/// of the whole tree: the piece from the entering of `x` to its leaving.
pub proof fn lemma_walk_segment(s: Shape, x: EntityKey, rev: bool)
    requires
        s.wf(),
        s.live(x),
    ensures
        0 <= enter_pos(s, x, rev),
        leave_pos(s, x, rev) < walk(s, s.root, rev).len(),
        walk(s, s.root, rev).subrange(enter_pos(s, x, rev), leave_pos(s, x, rev) + 1) == walk(
            s,
            x,
            rev,
        ),
    decreases s.depth[x],
{
    let w = walk(s, s.root, rev);
    assert(node_ok(s, x));
    match s.parent(x) {
        Some(p) => {
            let kids = s.children(p);
            let j = kids.index_of(x);
            assert(kids.contains(x));
            assert(kids[j] == x);
            lemma_walk_segment(s, p, rev);
            lemma_children_kids_of(s, p);
            lemma_kid_segment(s, p, kids, rev, j);
            let a = enter_pos(s, p, rev);
            let o = kid_start(s, p, kids, rev, j);
            let n = walk(s, x, rev).len();
            let wp = walk(s, p, rev);
            let inner = walk_kids(s, p, kids, rev);
            assert(wp.subrange(1 + o, 1 + o + n) =~= inner.subrange(o, o + n));
            assert(w.subrange(a + 1 + o, a + 1 + o + n) =~= w.subrange(
                a,
                a + wp.len(),
            ).subrange(1 + o, 1 + o + n));
        },
        None => {
            assert(x == s.root);
            assert(w.subrange(0, w.len() as int) =~= w);
        },
    }
}

/// Every live entity is entered exactly once and left exactly once, and
/// it is left after it was entered. Between the two events lies the
/// traversal of its descendants and nothing else.
pub proof fn lemma_enter_before_leave(s: Shape, x: EntityKey, rev: bool)
    requires
        s.wf(),
        s.live(x),
    ensures
        0 <= enter_pos(s, x, rev) < leave_pos(s, x, rev) < walk(s, s.root, rev).len(),
        walk(s, s.root, rev)[enter_pos(s, x, rev)] == (BreadthInfo::Other, x),
        walk(s, s.root, rev)[leave_pos(s, x, rev)] == (BreadthInfo::MoveUp, x),
        forall|i: int|
            0 <= i < walk(s, s.root, rev).len() && #[trigger] walk(s, s.root, rev)[i] == (
                BreadthInfo::Other,
                x,
            ) ==> i == enter_pos(s, x, rev),
        forall|i: int|
            0 <= i < walk(s, s.root, rev).len() && #[trigger] walk(s, s.root, rev)[i] == (
                BreadthInfo::MoveUp,
                x,
            ) ==> i == leave_pos(s, x, rev),
        walk(s, s.root, rev).subrange(enter_pos(s, x, rev), leave_pos(s, x, rev) + 1) == walk(
            s,
            x,
            rev,
        ),
{
    let w = walk(s, s.root, rev);
    let a = enter_pos(s, x, rev);
    let b = leave_pos(s, x, rev);
    let wx = walk(s, x, rev);
    lemma_walk_segment(s, x, rev);
    lemma_walk_keys(s, s.root, rev);
    assert(wx[0] == (BreadthInfo::Other, x));
    assert(wx[wx.len() - 1] == (BreadthInfo::MoveUp, x));
    assert(w.subrange(a, b + 1)[0] == w[a]);
    assert(w.subrange(a, b + 1)[wx.len() - 1] == w[b]);
}

/// A child is entered after its parent, and left before its parent.
pub proof fn lemma_child_within_parent(s: Shape, x: EntityKey, j: int, rev: bool)
    requires
        s.wf(),
        s.live(x),
        0 <= j < s.children(x).len(),
    ensures
        enter_pos(s, x, rev) < enter_pos(s, s.children(x)[j], rev),
        leave_pos(s, s.children(x)[j], rev) < leave_pos(s, x, rev),
{
    let kids = s.children(x);
    let c = kids[j];
    assert(child_ok(s, x, j));
    assert(node_ok(s, c));
    assert(node_ok(s, x));
    lemma_children_kids_of(s, x);
    assert(kids.index_of(c) == j) by {
        let m = kids.index_of(c);
        assert(kids.contains(c));
        assert(kids[m] == c);
    }
    lemma_kid_segment(s, x, kids, rev, j);
}

/// Siblings are visited one after the other: from left to right, or,
/// in the mirrored traversal, from right to left. The one that comes
/// first is left before the other is entered.
pub proof fn lemma_siblings_in_order(s: Shape, x: EntityKey, i: int, j: int, rev: bool)
    requires
        s.wf(),
        s.live(x),
        0 <= i < j < s.children(x).len(),
    ensures
        !rev ==> leave_pos(s, s.children(x)[i], rev) < enter_pos(s, s.children(x)[j], rev),
        rev ==> leave_pos(s, s.children(x)[j], rev) < enter_pos(s, s.children(x)[i], rev),
{
    let kids = s.children(x);
    assert(child_ok(s, x, i));
    assert(child_ok(s, x, j));
    assert(node_ok(s, kids[i]));
    assert(node_ok(s, kids[j]));
    assert(node_ok(s, x));
    lemma_children_kids_of(s, x);
    assert(kids.index_of(kids[i]) == i) by {
        assert(kids.contains(kids[i]));
    }
    assert(kids.index_of(kids[j]) == j) by {
        assert(kids.contains(kids[j]));
    }
    if rev {
        lemma_kid_order(s, x, kids, rev, j, i);
    } else {
        lemma_kid_order(s, x, kids, rev, i, j);
    }
}

/// The number of events of one kind among `w`.
pub open spec fn count_kind(w: Seq<(BreadthInfo, EntityKey)>, entering: bool) -> nat
    decreases w.len(),
{
    if w.len() == 0 {
        0
    } else {
        let hit: nat = if (w.last().0 is Other) == entering {
            1
        } else {
            0
        };
        count_kind(w.drop_last(), entering) + hit
    }
}

/// The events of one kind among two sequences are those of the first and
/// those of the second.
pub proof fn lemma_count_add(
    a: Seq<(BreadthInfo, EntityKey)>,
    b: Seq<(BreadthInfo, EntityKey)>,
    entering: bool,
)
    ensures
        count_kind(a + b, entering) == count_kind(a, entering) + count_kind(b, entering),
    decreases b.len(),
{
    if b.len() == 0 {
        assert(a + b =~= a);
    } else {
        assert((a + b).drop_last() =~= a + b.drop_last());
        lemma_count_add(a, b.drop_last(), entering);
    }
}

/// Every event either enters or leaves.
pub proof fn lemma_count_total(w: Seq<(BreadthInfo, EntityKey)>)
    ensures
        count_kind(w, true) + count_kind(w, false) == w.len(),
    decreases w.len(),
{
    if w.len() > 0 {
        lemma_count_total(w.drop_last());
    }
}

proof fn lemma_count_single(e: (BreadthInfo, EntityKey), entering: bool)
    ensures
        count_kind(seq![e], entering) == (if (e.0 is Other) == entering {
            1nat
        } else {
            0nat
        }),
{
    assert(seq![e].drop_last() =~= Seq::<(BreadthInfo, EntityKey)>::empty());
    assert(count_kind(seq![e].drop_last(), entering) == 0);
}

/// A traversal enters as often as it leaves.
pub proof fn lemma_walk_balanced(s: Shape, k: EntityKey, rev: bool)
    ensures
        count_kind(walk(s, k, rev), true) == count_kind(walk(s, k, rev), false),
    decreases s.bound - s.depth[k], 1nat, 0nat,
{
    let inner = walk_kids(s, k, s.children(k), rev);
    let e = seq![(BreadthInfo::Other, k)];
    let l = seq![(BreadthInfo::MoveUp, k)];
    lemma_walk_kids_balanced(s, k, s.children(k), rev);
    lemma_count_add(e + inner, l, true);
    lemma_count_add(e + inner, l, false);
    lemma_count_add(e, inner, true);
    lemma_count_add(e, inner, false);
    lemma_count_single((BreadthInfo::Other, k), true);
    lemma_count_single((BreadthInfo::Other, k), false);
    lemma_count_single((BreadthInfo::MoveUp, k), true);
    lemma_count_single((BreadthInfo::MoveUp, k), false);
}

proof fn lemma_walk_kids_balanced(s: Shape, parent: EntityKey, kids: Seq<EntityKey>, rev: bool)
    ensures
        count_kind(walk_kids(s, parent, kids, rev), true) == count_kind(
            walk_kids(s, parent, kids, rev),
            false,
        ),
    decreases s.bound - s.depth[parent], 0nat, kids.len(),
{
    if kids.len() > 0 {
        let c = next_kid(kids, rev);
        let rest = rest_kids(kids, rev);
        let head = if s.depth[c] == s.depth[parent] + 1 && s.depth[c] <= s.bound {
            walk(s, c, rev)
        } else {
            Seq::empty()
        };
        if s.depth[c] == s.depth[parent] + 1 && s.depth[c] <= s.bound {
            lemma_walk_balanced(s, c, rev);
        }
        lemma_walk_kids_balanced(s, parent, rest, rev);
        let tail = walk_kids(s, parent, rest, rev);
        lemma_count_add(head, tail, true);
        lemma_count_add(head, tail, false);
    }
}

/// The traversal of a tree of `N` entities reports `2N` events: `N`
/// that enter and `N` that leave.
pub proof fn lemma_event_count(s: Shape, rev: bool)
    requires
        s.wf(),
    ensures
        walk(s, s.root, rev).len() == 2 * s.links.dom().len(),
        count_kind(walk(s, s.root, rev), true) == s.links.dom().len(),
        count_kind(walk(s, s.root, rev), false) == s.links.dom().len(),
{
    let w = walk(s, s.root, rev);
    let dom = s.links.dom();
    let enter = |x: EntityKey| (BreadthInfo::Other, x);
    let leave = |x: EntityKey| (BreadthInfo::MoveUp, x);
    let entered = dom.map(enter);
    let left = dom.map(leave);
    lemma_walk_keys(s, s.root, rev);
    assert(injective_on(enter, dom));
    assert(injective_on(leave, dom));
    lemma_map_size(dom, entered, enter);
    lemma_map_size(dom, left, leave);
    assert(entered.disjoint(left));
    lemma_set_disjoint_lens(entered, left);
    assert forall|e: (BreadthInfo, EntityKey)| w.to_set().contains(e) <==> (entered + left).contains(
        e,
    ) by {
        if w.contains(e) {
            let i = choose|i: int| 0 <= i < w.len() && w[i] == e;
            lemma_subtree_depth(s, s.root, w[i].1);
            match e.0 {
                BreadthInfo::Other => {
                    assert(e == enter(e.1));
                },
                BreadthInfo::MoveUp => {
                    assert(e == leave(e.1));
                },
            }
        }
        if entered.contains(e) {
            let x = choose|x: EntityKey| dom.contains(x) && e == enter(x);
            lemma_enter_before_leave(s, x, rev);
            assert(w[enter_pos(s, x, rev)] == e);
        }
        if left.contains(e) {
            let x = choose|x: EntityKey| dom.contains(x) && e == leave(x);
            lemma_enter_before_leave(s, x, rev);
            assert(w[leave_pos(s, x, rev)] == e);
        }
    }
    assert(w.to_set() =~= entered + left);
    w.unique_seq_to_set();
    lemma_walk_balanced(s, s.root, rev);
    lemma_count_total(w);
}

} // verus!
