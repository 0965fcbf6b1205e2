//! Iteration over [`Children`] and access by position.

use crate::treecs::children::Children;
use std::ops::Index;
use vstd::prelude::*;

verus! {

/// Hands out the items of a container from left to right, consuming the
/// container.
pub struct IntoIter<T> {
    data: Children<T>,
}

impl<T> IntoIter<T> {
    /// The items that are still to come, in order.
    pub closed spec fn remaining(&self) -> Seq<T> {
        self.data@
    }

    /// The next item, if one is left.
    pub fn next(&mut self) -> (r: Option<T>)
        ensures
            old(self).remaining().len() == 0 ==> r is None && final(self).remaining() == old(
                self
            ).remaining(),
            old(self).remaining().len() > 0 ==> r == Some(old(self).remaining().first())
                && final(self).remaining() == old(self).remaining().drop_first(),
    {
        self.data.pop_left()
    }
}

/// Visits the items of a container from either end.
pub struct Iter<'a, T> {
    data: &'a Children<T>,
    index: usize,
    /// One more than the position of the last item that is still to
    /// come.
    back_index: usize,
}

impl<'a, T> Iter<'a, T> {
    #[verifier::type_invariant]
    spec fn inv(self) -> bool {
        self.index <= self.back_index <= self.data@.len()
    }

    /// All items of the container that is visited.
    pub closed spec fn items(&self) -> Seq<T> {
        self.data@
    }

    /// The items that are still to come, from left to right.
    pub closed spec fn remaining(&self) -> Seq<T> {
        self.data@.subrange(self.index as int, self.back_index as int)
    }

    /// The next item from the left, if one is left.
    pub fn next(&mut self) -> (r: Option<&'a T>)
        ensures
            final(self).items() == old(self).items(),
            old(self).remaining().len() == 0 ==> r is None && final(self).remaining() == old(
                self
            ).remaining(),
            old(self).remaining().len() > 0 ==> r == Some(&old(self).remaining().first())
                && final(self).remaining() == old(self).remaining().drop_first(),
    {
        proof {
            use_type_invariant(&*self);
        }
        if self.index == self.back_index {
            return None;
        }
        let item = match self.data.get_child(self.index) {
            Some(item) => item,
            None => {
                return None;
            },
        };
        self.index += 1;
        proof {
            assert(self.remaining() =~= old(self).remaining().drop_first());
        }
        Some(item)
    }

    /// The number of items of the whole container, as lower and as upper
    /// bound.
    pub fn size_hint(&self) -> (r: (usize, Option<usize>))
        ensures
            r.0 == self.items().len(),
            r.1 == Some(r.0),
    {
        let len = self.data.len();
        (len, Some(len))
    }

    /// The next item from the right, if one is left.
    pub fn next_back(&mut self) -> (r: Option<&'a T>)
        ensures
            final(self).items() == old(self).items(),
            old(self).remaining().len() == 0 ==> r is None && final(self).remaining() == old(
                self
            ).remaining(),
            old(self).remaining().len() > 0 ==> r == Some(&old(self).remaining().last())
                && final(self).remaining() == old(self).remaining().drop_last(),
    {
        proof {
            use_type_invariant(&*self);
        }
        if self.index == self.back_index {
            return None;
        }
        if self.back_index == 0 {
            return None;
        }
        self.back_index -= 1;
        proof {
            assert(self.remaining() =~= old(self).remaining().drop_last());
        }
        self.data.get_child(self.back_index)
    }
}

impl<T> Children<T> {
    /// An iterator that consumes the container.
    pub fn into_iter(self) -> (r: IntoIter<T>)
        ensures
            r.remaining() == self@,
    {
        IntoIter { data: self }
    }

    /// An iterator over the items.
    pub fn iter(&self) -> (r: Iter<'_, T>)
        ensures
            r.items() == self@,
            r.remaining() == self@,
    {
        let n = self.len();
        proof {
            assert(self@.subrange(0, n as int) =~= self@);
        }
        Iter { data: self, index: 0, back_index: n }
    }
}

impl<T> vstd::std_specs::core::IndexSpecImpl<usize> for Children<T> {
    open spec fn index_req(&self, index: &usize) -> bool {
        *index < self@.len()
    }
}

impl<T> Index<usize> for Children<T> {
    type Output = T;

    fn index(&self, index: usize) -> (r: &T)
        ensures
            *r == self@[index as int],
    {
        match self.get_child(index) {
            Some(x) => x,
            None => vstd::pervasive::unreached(),
        }
    }
}

/// Visits the items of a container from left to right, for writing.
pub struct IterMut<'a, T> {
    data: &'a mut Children<T>,
    index: usize,
}

impl<'a, T> IterMut<'a, T> {
    /// All items of the container that is visited, as they are now.
    pub closed spec fn items(&self) -> Seq<T> {
        (*self.data)@
    }

    /// The number of items that were visited.
    pub closed spec fn position(&self) -> nat {
        self.index as nat
    }

    /// The next item, if one is left. Every item is handed out once.
    pub fn next(&mut self) -> (r: Option<&mut T>)
        ensures
            old(self).position() >= old(self).items().len() ==> r is None && final(self).items()
                == old(self).items() && final(self).position() == old(self).position(),
            old(self).position() < old(self).items().len() ==> r is Some && *r.unwrap() == old(
                self
            ).items()[old(self).position() as int] && final(self).position() == old(
                self
            ).position() + 1 && final(self).items() == old(self).items().update(
                old(self).position() as int,
                *final(r.unwrap()),
            ),
    {
        let n = self.data.len();
        if self.index < n {
            let r = self.data.get_child_mut(self.index);
            self.index += 1;
            r
        } else {
            None
        }
    }
}

impl<T> Children<T> {
    /// An iterator over the items, for writing.
    pub fn iter_mut(&mut self) -> (r: IterMut<'_, T>)
        ensures
            r.items() == old(self)@,
            r.position() == 0,
    {
        IterMut { data: self, index: 0 }
    }
}

} // verus!
