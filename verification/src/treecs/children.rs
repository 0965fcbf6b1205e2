//! A small ordered container specialised for zero, one or two items.

use std::collections::VecDeque;
use vstd::prelude::*;
use vstd::std_specs::cmp::PartialEqSpec;

verus! {

/// An ordered sequence of items with dedicated representations for the
/// common cases of zero, one and two items.
///
/// The mathematical model of a container is the sequence of its items,
/// first (leftmost) item at index zero; it is available as `c@`.
#[derive(Clone, Debug, Hash)]
pub enum Children<T> {
    NoChild,
    SingleChild(T),
    DoubleChild(T, T),
    /// The general representation. It may hold any number of items,
    /// including fewer than three: a container never shrinks back out of
    /// this representation.
    Other(VecDeque<T>),
}

impl<T> View for Children<T> {
    type V = Seq<T>;

    open spec fn view(&self) -> Seq<T> {
        match self {
            Children::NoChild => Seq::empty(),
            Children::SingleChild(a) => seq![*a],
            Children::DoubleChild(a, b) => seq![*a, *b],
            Children::Other(x) => x@,
        }
    }
}

/// `i` is the position of the first item of `s` that equals `item`.
pub open spec fn is_first_match<T: PartialEq>(s: Seq<T>, item: T, i: int) -> bool {
    &&& 0 <= i < s.len()
    &&& s[i].eq_spec(&item)
    &&& forall|j: int| 0 <= j < i ==> !(#[trigger] s[j]).eq_spec(&item)
}

/// No item of `s` equals `item`.
pub open spec fn no_match<T: PartialEq>(s: Seq<T>, item: T) -> bool {
    forall|j: int| 0 <= j < s.len() ==> !(#[trigger] s[j]).eq_spec(&item)
}

/// `std::collections::VecDeque::get_mut`: a mutable reference to the item
/// at `index`, counted from the front, or nothing when `index` is out of
/// range. No other item is touched.
#[verifier::external_body]
fn deque_get_mut<T>(v: &mut VecDeque<T>, index: usize) -> (r: Option<&mut T>)
    ensures
        index < old(v)@.len() ==> r is Some && *r.unwrap() == old(v)@[index as int] && final(v)@
            == old(v)@.update(index as int, *final(r.unwrap())),
        index >= old(v)@.len() ==> r is None && final(v)@ == old(v)@,
{
    v.get_mut(index)
}

/// `VecDeque::from` for an array: the items of the array, in the array's
/// order, front first.
#[verifier::external_body]
fn deque_from_array<T, const N: usize>(data: [T; N]) -> (items: VecDeque<T>)
    ensures
        items@ == data@,
{
    VecDeque::from(data)
}

impl<T> Children<T> {
    /// The representation is the smallest one that holds the items:
    /// none, one or two items have their own representation, and only
    /// three or more use the general one.
    pub open spec fn is_compact(&self) -> bool {
        match self {
            Children::NoChild => self@.len() == 0,
            Children::SingleChild(_) => self@.len() == 1,
            Children::DoubleChild(_, _) => self@.len() == 2,
            Children::Other(x) => x@.len() > 2,
        }
    }

    pub fn new() -> (r: Self)
        ensures
            r is NoChild,
            r@ == Seq::<T>::empty(),
    {
        Children::NoChild
    }

    pub fn len(&self) -> (n: usize)
        ensures
            n == self@.len(),
    {
        match self {
            Children::NoChild => 0,
            Children::SingleChild(_) => 1,
            Children::DoubleChild(_, _) => 2,
            Children::Other(x) => x.len(),
        }
    }

    /// Builds a container from the items of a double-ended queue, in the
    /// smallest representation that holds them.
    pub fn from_deque(items: VecDeque<T>) -> (r: Self)
        ensures
            r@ == items@,
            r.is_compact(),
    {
        let mut items = items;
        let ghost all = items@;
        if items.len() > 2 {
            return Children::Other(items);
        }
        match items.pop_front() {
            None => Children::NoChild,
            Some(a) => match items.pop_front() {
                None => {
                    assert(seq![a] =~= all);
                    Children::SingleChild(a)
                },
                Some(b) => {
                    assert(seq![a, b] =~= all);
                    Children::DoubleChild(a, b)
                },
            },
        }
    }

    /// Builds a container from the items of an array, in the array's
    /// order and in the smallest representation that holds them.
    pub fn new_from<const N: usize>(data: [T; N]) -> (r: Self)
        ensures
            r@ == data@,
            r.is_compact(),
    {
        Self::from_deque(deque_from_array(data))
    }

    pub fn get_child_count(&self) -> (n: usize)
        ensures
            n == self@.len(),
    {
        match self {
            Children::NoChild => 0,
            Children::SingleChild(_) => 1,
            Children::DoubleChild(_, _) => 2,
            Children::Other(x) => x.len(),
        }
    }

    pub fn get_child(&self, idx: usize) -> (r: Option<&T>)
        ensures
            idx < self@.len() ==> r == Some(&self@[idx as int]),
            idx >= self@.len() ==> r is None,
    {
        match self {
            Children::NoChild => None,
            Children::SingleChild(a) => if idx == 0 {
                Some(a)
            } else {
                None
            },
            Children::DoubleChild(a, b) => if idx == 0 {
                Some(a)
            } else if idx == 1 {
                Some(b)
            } else {
                None
            },
            Children::Other(x) => if idx < x.len() {
                Some(&x[idx])
            } else {
                None
            },
        }
    }

    pub fn get_child_mut(&mut self, idx: usize) -> (r: Option<&mut T>)
        ensures
            idx < old(self)@.len() ==> r is Some && *r.unwrap() == old(self)@[idx as int]
                && final(self)@ == old(self)@.update(idx as int, *final(r.unwrap())),
            idx >= old(self)@.len() ==> r is None && final(self)@ == old(self)@,
            final(self).same_repr(*old(self)),
    {
        match self {
            Children::NoChild => None,
            Children::SingleChild(a) => if idx == 0 {
                Some(a)
            } else {
                None
            },
            Children::DoubleChild(a, b) => if idx == 0 {
                Some(a)
            } else if idx == 1 {
                Some(b)
            } else {
                None
            },
            Children::Other(x) => deque_get_mut(x, idx),
        }
    }

    /// Both containers use the same one of the four representations.
    pub open spec fn same_repr(&self, other: Self) -> bool {
        match (self, other) {
            (Children::NoChild, Children::NoChild) => true,
            (Children::SingleChild(_), Children::SingleChild(_)) => true,
            (Children::DoubleChild(_, _), Children::DoubleChild(_, _)) => true,
            (Children::Other(_), Children::Other(_)) => true,
            _ => false,
        }
    }

    pub fn get_left(&self) -> (r: Option<&T>)
        ensures
            self@.len() > 0 ==> r == Some(&self@.first()),
            self@.len() == 0 ==> r is None,
    {
        self.get_child(0)
    }

    pub fn get_left_mut(&mut self) -> (r: Option<&mut T>)
        ensures
            old(self)@.len() > 0 ==> r is Some && *r.unwrap() == old(self)@.first() && final(
                self
            )@ == old(self)@.update(0, *final(r.unwrap())),
            old(self)@.len() == 0 ==> r is None && final(self)@ == old(self)@,
            final(self).same_repr(*old(self)),
    {
        self.get_child_mut(0)
    }

    pub fn get_right(&self) -> (r: Option<&T>)
        ensures
            self@.len() > 0 ==> r == Some(&self@.last()),
            self@.len() == 0 ==> r is None,
    {
        let n = self.len();
        if n == 0 {
            None
        } else {
            self.get_child(n - 1)
        }
    }

    pub fn get_right_mut(&mut self) -> (r: Option<&mut T>)
        ensures
            old(self)@.len() > 0 ==> r is Some && *r.unwrap() == old(self)@.last() && final(self)@
                == old(self)@.update(old(self)@.len() - 1, *final(r.unwrap())),
            old(self)@.len() == 0 ==> r is None && final(self)@ == old(self)@,
            final(self).same_repr(*old(self)),
    {
        let n = self.len();
        if n == 0 {
            None
        } else {
            self.get_child_mut(n - 1)
        }
    }

    /// The representation that a container has after one more item was
    /// pushed onto `before`: the next larger one, never a smaller one.
    pub open spec fn grown_from(&self, before: Self) -> bool {
        match before {
            Children::NoChild => self is SingleChild,
            Children::SingleChild(_) => self is DoubleChild,
            Children::DoubleChild(_, _) => self is Other,
            Children::Other(_) => self is Other,
        }
    }

    /// The representation that a container has after a pop from `before`:
    /// the next smaller one, except that the general representation is
    /// kept.
    pub open spec fn shrunk_from(&self, before: Self) -> bool {
        match before {
            Children::NoChild => self is NoChild,
            Children::SingleChild(_) => self is NoChild,
            Children::DoubleChild(_, _) => self is SingleChild,
            Children::Other(_) => self is Other,
        }
    }

    pub fn push_right(&mut self, data: T)
        ensures
            final(self)@ == old(self)@.push(data),
            final(self).grown_from(*old(self)),
    {
        let mut old_data = Children::NoChild;
        std::mem::swap(self, &mut old_data);
        let new_data = match old_data {
            Children::NoChild => Children::SingleChild(data),
            Children::SingleChild(a) => Children::DoubleChild(a, data),
            Children::DoubleChild(a, b) => {
                let mut x = VecDeque::new();
                x.push_back(a);
                x.push_back(b);
                x.push_back(data);
                Children::Other(x)
            },
            Children::Other(mut x) => {
                x.push_back(data);
                Children::Other(x)
            },
        };
        *self = new_data;
    }

    pub fn push_left(&mut self, data: T)
        ensures
            final(self)@ == seq![data] + old(self)@,
            final(self).grown_from(*old(self)),
    {
        let mut old_data = Children::NoChild;
        std::mem::swap(self, &mut old_data);
        let new_data = match old_data {
            Children::NoChild => Children::SingleChild(data),
            Children::SingleChild(a) => Children::DoubleChild(data, a),
            Children::DoubleChild(a, b) => {
                let mut x = VecDeque::new();
                x.push_back(data);
                x.push_back(a);
                x.push_back(b);
                Children::Other(x)
            },
            Children::Other(mut x) => {
                x.push_front(data);
                Children::Other(x)
            },
        };
        *self = new_data;
    }

    pub fn pop_left(&mut self) -> (r: Option<T>)
        ensures
            old(self)@.len() == 0 ==> r is None && final(self)@ == old(self)@,
            old(self)@.len() > 0 ==> r == Some(old(self)@.first()) && final(self)@ == old(
                self
            )@.drop_first(),
            final(self).shrunk_from(*old(self)),
    {
        let mut old_data = Children::NoChild;
        std::mem::swap(self, &mut old_data);
        let (new_data, to_return) = match old_data {
            Children::NoChild => (Children::NoChild, None),
            Children::SingleChild(a) => (Children::NoChild, Some(a)),
            Children::DoubleChild(a, b) => (Children::SingleChild(b), Some(a)),
            Children::Other(mut x) => {
                let to_return = x.pop_front();
                (Children::Other(x), to_return)
            },
        };
        *self = new_data;
        to_return
    }

    pub fn pop_right(&mut self) -> (r: Option<T>)
        ensures
            old(self)@.len() == 0 ==> r is None && final(self)@ == old(self)@,
            old(self)@.len() > 0 ==> r == Some(old(self)@.last()) && final(self)@ == old(
                self
            )@.drop_last(),
            final(self).shrunk_from(*old(self)),
    {
        let mut old_data = Children::NoChild;
        std::mem::swap(self, &mut old_data);
        let (new_data, to_return) = match old_data {
            Children::NoChild => (Children::NoChild, None),
            Children::SingleChild(a) => (Children::NoChild, Some(a)),
            Children::DoubleChild(a, b) => (Children::SingleChild(a), Some(b)),
            Children::Other(mut x) => {
                let to_return = x.pop_back();
                (Children::Other(x), to_return)
            },
        };
        *self = new_data;
        to_return
    }
}

impl<T: Eq> Children<T> {
    /// Removes the first item that equals `item`, if there is one, and
    /// hands it back. The representation shrinks as for a pop.
    ///
    /// What "equals" means is known for the item types whose `==` has a
    /// specification (`T::obeys_eq_spec()`); for the others the contract
    /// still says that at most one item left and which one it was.
    pub fn remove(&mut self, item: T) -> (r: Option<T>)
        ensures
            match r {
                Some(x) => exists|i: int|
                    0 <= i < old(self)@.len() && x == #[trigger] old(self)@[i] && final(self)@
                        == old(self)@.remove(i) && (T::obeys_eq_spec() ==> is_first_match(
                        old(self)@,
                        item,
                        i,
                    )),
                None => final(self)@ == old(self)@ && (T::obeys_eq_spec() ==> no_match(
                    old(self)@,
                    item,
                )),
            },
            r is Some ==> final(self).shrunk_from(*old(self)),
            r is None ==> final(self).same_repr(*old(self)),
    {
        let mut old_self = Children::NoChild;
        std::mem::swap(self, &mut old_self);
        let ghost before = old_self@;
        let (new_self, to_return) = match old_self {
            Children::NoChild => (Children::NoChild, None),
            Children::SingleChild(a) => {
                if a == item {
                    assert(before.remove(0) =~= Seq::<T>::empty());
                    assert(a == before[0]);
                    (Children::NoChild, Some(a))
                } else {
                    (Children::SingleChild(a), None)
                }
            },
            Children::DoubleChild(a, b) => {
                if a == item {
                    assert(before.remove(0) =~= seq![b]);
                    assert(a == before[0]);
                    (Children::SingleChild(b), Some(a))
                } else if b == item {
                    assert(before.remove(1) =~= seq![a]);
                    assert(b == before[1]);
                    (Children::SingleChild(a), Some(b))
                } else {
                    (Children::DoubleChild(a, b), None)
                }
            },
            Children::Other(mut x) => {
                let n = x.len();
                let mut i: usize = 0;
                let mut found = false;
                while i < n
                    invariant_except_break
                        !found,
                    invariant
                        i <= n,
                        n == x@.len(),
                        x@ == before,
                        T::obeys_eq_spec() ==> forall|j: int|
                            0 <= j < i ==> !(#[trigger] x@[j]).eq_spec(&item),
                    ensures
                        found ==> i < n && (T::obeys_eq_spec() ==> x@[i as int].eq_spec(&item)),
                        !found ==> i == n,
                    decreases n - i,
                {
                    if x[i] == item {
                        found = true;
                        break ;
                    }
                    i += 1;
                }
                if found {
                    let removed = x.remove(i);
                    assert(removed == Some(before[i as int]));
                    (Children::Other(x), removed)
                } else {
                    (Children::Other(x), None)
                }
            },
        };
        *self = new_self;
        to_return
    }
}

} // verus!
