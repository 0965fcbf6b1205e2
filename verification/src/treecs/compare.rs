//! Equality and ordering of [`Children`], item by item and independent of
//! the representation.

use crate::treecs::children::Children;
use std::cmp::Ordering;
use vstd::prelude::*;
use vstd::std_specs::cmp::{OrdSpec, PartialEqSpec, PartialEqSpecImpl, PartialOrdSpec, PartialOrdSpecImpl};

verus! {

/// Two sequences have the same length and equal items at every position.
pub open spec fn items_equal<T: PartialEq>(a: Seq<T>, b: Seq<T>) -> bool {
    &&& a.len() == b.len()
    &&& forall|i: int| 0 <= i < a.len() ==> (#[trigger] a[i]).eq_spec(&b[i])
}

/// The items of `s` from position `i` on.
pub open spec fn items_from<T>(s: Seq<T>, i: usize) -> Seq<T> {
    s.skip(i as int)
}

/// Lexicographic comparison: the first position at which the items are
/// not equal decides; if one sequence ends first, it is the smaller one.
/// Where two items at the deciding position cannot be compared, the
/// sequences cannot be compared.
pub open spec fn lex_partial<T: PartialOrd>(a: Seq<T>, b: Seq<T>) -> Option<Ordering>
    decreases a.len(),
{
    if a.len() == 0 && b.len() == 0 {
        Some(Ordering::Equal)
    } else if a.len() == 0 {
        Some(Ordering::Less)
    } else if b.len() == 0 {
        Some(Ordering::Greater)
    } else {
        match a[0].partial_cmp_spec(&b[0]) {
            Some(Ordering::Equal) => lex_partial(a.drop_first(), b.drop_first()),
            o => o,
        }
    }
}

/// Lexicographic comparison under a total order of the items.
pub open spec fn lex_total<T: Ord>(a: Seq<T>, b: Seq<T>) -> Ordering
    decreases a.len(),
{
    if a.len() == 0 && b.len() == 0 {
        Ordering::Equal
    } else if a.len() == 0 {
        Ordering::Less
    } else if b.len() == 0 {
        Ordering::Greater
    } else {
        match a[0].cmp_spec(&b[0]) {
            Ordering::Equal => lex_total(a.drop_first(), b.drop_first()),
            o => o,
        }
    }
}

proof fn lemma_skip_step<T>(s: Seq<T>, i: usize)
    requires
        i < s.len(),
        i < usize::MAX,
    ensures
        items_from(s, i).len() > 0,
        items_from(s, i)[0] == s[i as int],
        items_from(s, i).drop_first() == items_from(s, (i + 1) as usize),
{
    assert(items_from(s, i).drop_first() =~= items_from(s, (i + 1) as usize));
}

impl<T: PartialEq> PartialEq for Children<T> {
    fn eq(&self, other: &Self) -> (r: bool) {
        let n = self.len();
        if n != other.len() {
            return false;
        }
        let mut i: usize = 0;
        while i < n
            invariant
                i <= n,
                n == self@.len(),
                n == other@.len(),
                T::obeys_eq_spec() ==> forall|j: int|
                    0 <= j < i ==> (#[trigger] self@[j]).eq_spec(&other@[j]),
            decreases n - i,
        {
            match (self.get_child(i), other.get_child(i)) {
                (Some(a), Some(b)) => {
                    if !(*a == *b) {
                        return false;
                    }
                },
                _ => {
                    return false;
                },
            }
            i += 1;
        }
        true
    }
}

impl<T: PartialEq> PartialEqSpecImpl for Children<T> {
    open spec fn obeys_eq_spec() -> bool {
        T::obeys_eq_spec()
    }

    open spec fn eq_spec(&self, other: &Self) -> bool {
        items_equal(self@, other@)
    }
}

impl<T: Eq> Eq for Children<T> {

}

impl<T: PartialOrd> PartialOrd for Children<T> {
    fn partial_cmp(&self, other: &Self) -> (r: Option<Ordering>) {
        let n = self.len();
        let m = other.len();
        let mut i: usize = 0;
        proof {
            assert(items_from(self@, 0) =~= self@);
            assert(items_from(other@, 0) =~= other@);
        }
        loop
            invariant
                n == self@.len(),
                m == other@.len(),
                i <= n,
                i <= m,
                T::obeys_partial_cmp_spec() ==> lex_partial(self@, other@) == lex_partial(
                    items_from(self@, i),
                    items_from(other@, i),
                ),
            decreases self@.len() - i,
        {
            proof {
                if i < self@.len() {
                    lemma_skip_step(self@, i);
                }
                if i < other@.len() {
                    lemma_skip_step(other@, i);
                }
            }
            match (self.get_child(i), other.get_child(i)) {
                (Some(x), Some(y)) => {
                    match x.partial_cmp(y) {
                        Some(Ordering::Equal) => {},
                        o => {
                            return o;
                        },
                    }
                },
                (Some(_), None) => {
                    return Some(Ordering::Greater);
                },
                (None, Some(_)) => {
                    return Some(Ordering::Less);
                },
                (None, None) => {
                    return Some(Ordering::Equal);
                },
            }
            i += 1;
        }
    }
}

impl<T: PartialOrd> PartialOrdSpecImpl for Children<T> {
    open spec fn obeys_partial_cmp_spec() -> bool {
        T::obeys_partial_cmp_spec()
    }

    open spec fn partial_cmp_spec(&self, other: &Self) -> Option<Ordering> {
        lex_partial(self@, other@)
    }
}

impl<T: Ord> Children<T> {
    /// The total order of two containers: lexicographic by their items.
    pub fn cmp(&self, other: &Self) -> (r: Ordering)
        ensures
            T::obeys_cmp_spec() ==> r == lex_total(self@, other@),
    {
        let n = self.len();
        let m = other.len();
        let mut i: usize = 0;
        proof {
            assert(items_from(self@, 0) =~= self@);
            assert(items_from(other@, 0) =~= other@);
        }
        loop
            invariant
                n == self@.len(),
                m == other@.len(),
                i <= n,
                i <= m,
                T::obeys_cmp_spec() ==> lex_total(self@, other@) == lex_total(
                    items_from(self@, i),
                    items_from(other@, i),
                ),
            decreases self@.len() - i,
        {
            proof {
                if i < self@.len() {
                    lemma_skip_step(self@, i);
                }
                if i < other@.len() {
                    lemma_skip_step(other@, i);
                }
            }
            match (self.get_child(i), other.get_child(i)) {
                (Some(x), Some(y)) => {
                    match x.cmp(y) {
                        Ordering::Equal => {},
                        o => {
                            return o;
                        },
                    }
                },
                (Some(_), None) => {
                    return Ordering::Greater;
                },
                (None, Some(_)) => {
                    return Ordering::Less;
                },
                (None, None) => {
                    return Ordering::Equal;
                },
            }
            i += 1;
        }
    }
}

} // verus!
