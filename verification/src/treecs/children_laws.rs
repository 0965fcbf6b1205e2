//! What holds of [`Children`] over whole series of calls, and across its
//! representations.

use crate::treecs::children::Children;
use vstd::prelude::*;
use vstd::std_specs::cmp::{PartialEqSpec, PartialOrdSpec};

verus! {

/// One call that adds or takes an item at one end of a container.
pub enum Step<T> {
    PushLeft(T),
    PushRight(T),
    PopLeft,
    PopRight,
}

impl<T> Step<T> {
    /// Whether the call adds an item.
    pub open spec fn pushes(self) -> bool {
        self is PushLeft || self is PushRight
    }

    /// The items after the call, given the items before it.
    pub open spec fn apply(self, items: Seq<T>) -> Seq<T> {
        match self {
            Step::PushLeft(x) => seq![x] + items,
            Step::PushRight(x) => items.push(x),
            Step::PopLeft => if items.len() > 0 {
                items.drop_first()
            } else {
                items
            },
            Step::PopRight => if items.len() > 0 {
                items.drop_last()
            } else {
                items
            },
        }
    }
}

/// The items after a series of calls, given the items before it.
pub open spec fn after<T>(items: Seq<T>, steps: Seq<Step<T>>) -> Seq<T>
    decreases steps.len(),
{
    if steps.len() == 0 {
        items
    } else {
        steps.last().apply(after(items, steps.drop_last()))
    }
}

/// The number of calls of a series that add an item.
pub open spec fn pushed<T>(steps: Seq<Step<T>>) -> nat
    decreases steps.len(),
{
    if steps.len() == 0 {
        0
    } else {
        let hit: nat = if steps.last().pushes() {
            1
        } else {
            0
        };
        pushed(steps.drop_last()) + hit
    }
}

/// The number of calls of a series that take an item: a pop from an
/// empty container takes nothing.
pub open spec fn popped<T>(items: Seq<T>, steps: Seq<Step<T>>) -> nat
    decreases steps.len(),
{
    if steps.len() == 0 {
        0
    } else {
        let hit: nat = if !steps.last().pushes() && after(items, steps.drop_last()).len() > 0 {
            1
        } else {
            0
        };
        popped(items, steps.drop_last()) + hit
    }
}

/// After any series of pushes and pops at either end, the number of
/// items is the number before it, plus the items that were added, minus
/// the items that were taken.
pub proof fn lemma_count_follows_steps<T>(items: Seq<T>, steps: Seq<Step<T>>)
    ensures
        after(items, steps).len() == items.len() + pushed(steps) - popped(items, steps),
    decreases steps.len(),
{
    if steps.len() > 0 {
        lemma_count_follows_steps(items, steps.drop_last());
    }
}

/// After a push the pushed item stands at the end where it was pushed,
/// and the other end is what it was, unless the container was empty.
pub proof fn lemma_push_sets_end<T>(items: Seq<T>, x: T)
    ensures
        Step::PushLeft(x).apply(items).first() == x,
        Step::PushRight(x).apply(items).last() == x,
        items.len() > 0 ==> Step::PushLeft(x).apply(items).last() == items.last(),
        items.len() > 0 ==> Step::PushRight(x).apply(items).first() == items.first(),
{
}

/// Equality and order look at the items only: containers with the same
/// items compare alike, whatever their representations.
pub proof fn lemma_compare_ignores_repr<T: PartialOrd>(
    a: Children<T>,
    b: Children<T>,
    c: Children<T>,
    d: Children<T>,
)
    requires
        a@ == c@,
        b@ == d@,
    ensures
        a.eq_spec(&b) == c.eq_spec(&d),
        a.partial_cmp_spec(&b) == c.partial_cmp_spec(&d),
{
}

/// Where `==` of the items is reflexive, a container equals every
/// container with the same items.
pub proof fn lemma_same_items_equal<T: PartialEq>(a: Children<T>, b: Children<T>)
    requires
        a@ == b@,
        forall|x: T| #[trigger] x.eq_spec(&x),
    ensures
        a.eq_spec(&b),
{
}

} // verus!
