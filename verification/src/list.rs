//! Finite sequences as plain values.
//!
//! Every datatype of this crate is a finite tree: two values are equal in the
//! logic exactly when they are built alike.  Sequences are therefore kept as
//! [`List`] rather than as vectors, and [`Value`] ties copying and comparing
//! at run time to equality in the logic.
use vstd::prelude::*;

verus! {

/// A datatype whose run-time copy and comparison agree with equality.
pub trait Value: Sized {
    /// A copy of the value.
    fn dup(&self) -> (copy: Self)
        ensures
            copy == *self,
    ;

    /// Whether two values are equal.
    fn same(&self, other: &Self) -> (answer: bool)
        ensures
            answer == (*self == *other),
    ;
}

/// A datatype with a strict weak order that is decided at run time: values of
/// which neither is below the other count as the same for the order.
pub trait Ordered: Value {
    /// The strict order.
    spec fn below(self, other: Self) -> bool;

    /// Decides the strict order.
    fn is_below(&self, other: &Self) -> (answer: bool)
        ensures
            answer == self.below(*other),
    ;

    /// Of two values at most one is below the other.
    proof fn lemma_asymmetric(self, other: Self)
        ensures
            !(self.below(other) && other.below(self)),
    ;

    /// A third value is above the smaller or below the larger of two values.
    proof fn lemma_cotransitive(self, mid: Self, other: Self)
        requires
            self.below(other),
        ensures
            self.below(mid) || mid.below(other),
    ;
}

/// A datatype whose order is total.
pub trait Total: Ordered {
    /// Of two different values one is below the other.
    proof fn lemma_total(self, other: Self)
        ensures
            self.below(other) || other.below(self) || self == other,
    ;
}

/// A finite sequence.
#[derive(Debug, PartialEq, Eq)]
pub enum List<T> {
    Nil,
    Cons(T, Box<List<T>>),
}

impl<T> List<T> {
    /// The elements in order.
    pub open spec fn view(self) -> Seq<T>
        decreases self,
    {
        match self {
            List::Nil => Seq::empty(),
            List::Cons(head, tail) => seq![head] + tail.view(),
        }
    }

    /// The number of elements.
    pub open spec fn size(self) -> nat
        decreases self,
    {
        match self {
            List::Nil => 0,
            List::Cons(_, tail) => 1 + tail.size(),
        }
    }

    /// The list that holds `x` alone.
    pub open spec fn one(x: T) -> List<T> {
        List::Cons(x, Box::new(List::Nil))
    }

    /// The list that holds `x` alone.
    pub fn single(x: T) -> (r: List<T>)
        ensures
            r == List::one(x),
    {
        List::Cons(x, Box::new(List::Nil))
    }

    /// The elements of `self` followed by those of `other`.
    pub open spec fn then_all(self, other: List<T>) -> List<T>
        decreases self,
    {
        match self {
            List::Nil => other,
            List::Cons(head, tail) => List::Cons(head, Box::new(tail.then_all(other))),
        }
    }

    /// The elements of `self` followed by `last`.
    pub open spec fn snoc(self, last: T) -> List<T>
        decreases self,
    {
        match self {
            List::Nil => List::Cons(last, Box::new(List::Nil)),
            List::Cons(head, tail) => List::Cons(head, Box::new(tail.snoc(last))),
        }
    }

    /// Whether `x` is one of the elements.
    pub open spec fn has(self, x: T) -> bool
        decreases self,
    {
        match self {
            List::Nil => false,
            List::Cons(head, tail) => head == x || tail.has(x),
        }
    }

    /// The element of a list of one element.
    pub open spec fn only(self) -> Option<T> {
        match self {
            List::Cons(x, rest) => match *rest {
                List::Nil => Some(x),
                List::Cons(_, _) => None,
            },
            List::Nil => None,
        }
    }

    /// The element at position `i`, if there is one.
    pub open spec fn nth(self, i: nat) -> Option<T>
        decreases self,
    {
        match self {
            List::Nil => None,
            List::Cons(head, tail) => if i == 0 {
                Some(head)
            } else {
                tail.nth((i - 1) as nat)
            },
        }
    }

    /// The first occurrence of every element, in order.
    pub open spec fn nub(self) -> List<T>
        decreases self.size(),
    {
        match self {
            List::Nil => List::Nil,
            List::Cons(head, tail) => {
                proof {
                    tail.lemma_without_size(head);
                }
                List::Cons(head, Box::new(tail.without(head).nub()))
            },
        }
    }

    /// The elements that differ from `x`.
    pub open spec fn without(self, x: T) -> List<T>
        decreases self,
    {
        match self {
            List::Nil => List::Nil,
            List::Cons(head, tail) => if head == x {
                tail.without(x)
            } else {
                List::Cons(head, Box::new(tail.without(x)))
            },
        }
    }

    pub proof fn lemma_without_size(self, x: T)
        ensures
            self.without(x).size() <= self.size(),
        decreases self,
    {
        match self {
            List::Nil => {},
            List::Cons(_, tail) => {
                tail.lemma_without_size(x);
            },
        }
    }

    /// Whether the list is empty.
    pub fn is_empty(&self) -> (answer: bool)
        ensures
            answer == (*self is Nil),
    {
        match self {
            List::Nil => true,
            List::Cons(_, _) => false,
        }
    }
}

impl<T: Value> Value for List<T> {
    fn dup(&self) -> (copy: Self)
        decreases self,
    {
        match self {
            List::Nil => List::Nil,
            List::Cons(head, tail) => List::Cons(head.dup(), Box::new(tail.dup())),
        }
    }

    fn same(&self, other: &Self) -> (answer: bool)
        decreases self,
    {
        match (self, other) {
            (List::Nil, List::Nil) => true,
            (List::Cons(h1, t1), List::Cons(h2, t2)) => h1.same(h2) && t1.same(t2),
            _ => false,
        }
    }
}

impl<T: Value> List<T> {
    /// The elements of `self` followed by those of `other`.
    pub fn concat(&self, other: List<T>) -> (r: List<T>)
        ensures
            r == self.then_all(other),
        decreases self,
    {
        match self {
            List::Nil => other,
            List::Cons(head, tail) => List::Cons(head.dup(), Box::new(tail.concat(other))),
        }
    }

    /// The elements of `self` followed by `last`.
    pub fn with_last(&self, last: T) -> (r: List<T>)
        ensures
            r == self.snoc(last),
        decreases self,
    {
        match self {
            List::Nil => List::Cons(last, Box::new(List::Nil)),
            List::Cons(head, tail) => List::Cons(head.dup(), Box::new(tail.with_last(last))),
        }
    }

    /// The element of a list of one element.
    pub fn get_only(&self) -> (r: Option<T>)
        ensures
            r == self.only(),
    {
        match self {
            List::Cons(x, rest) => if rest.is_empty() {
                Some(x.dup())
            } else {
                None
            },
            List::Nil => None,
        }
    }

    /// The element at position `i`, if there is one.
    pub fn get(&self, i: u64) -> (r: Option<T>)
        ensures
            r == self.nth(i as nat),
        decreases self,
    {
        match self {
            List::Nil => None,
            List::Cons(head, tail) => if i == 0 {
                Some(head.dup())
            } else {
                tail.get(i - 1)
            },
        }
    }

    /// Whether `x` is one of the elements.
    pub fn contains(&self, x: &T) -> (answer: bool)
        ensures
            answer == self.has(*x),
        decreases self,
    {
        match self {
            List::Nil => false,
            List::Cons(head, tail) => head.same(x) || tail.contains(x),
        }
    }

    /// The elements that differ from `x`.
    pub fn remove_all(&self, x: &T) -> (r: List<T>)
        ensures
            r == self.without(*x),
        decreases self,
    {
        match self {
            List::Nil => List::Nil,
            List::Cons(head, tail) => if head.same(x) {
                tail.remove_all(x)
            } else {
                List::Cons(head.dup(), Box::new(tail.remove_all(x)))
            },
        }
    }

    /// The first occurrence of every element, in order.
    pub fn dedup(&self) -> (r: List<T>)
        ensures
            r == self.nub(),
        decreases self.size(),
    {
        match self {
            List::Nil => List::Nil,
            List::Cons(head, tail) => {
                let rest = tail.remove_all(head);
                proof {
                    tail.lemma_without_size(*head);
                }
                List::Cons(head.dup(), Box::new(rest.dedup()))
            },
        }
    }
}

impl<T: Ordered> List<T> {
    /// `x` put in front of the first element that is not below it.
    pub open spec fn with_sorted(self, x: T) -> List<T>
        decreases self,
    {
        match self {
            List::Nil => List::Cons(x, Box::new(List::Nil)),
            List::Cons(head, tail) => if head.below(x) {
                List::Cons(head, Box::new(tail.with_sorted(x)))
            } else {
                List::Cons(x, Box::new(self))
            },
        }
    }

    /// The elements in ascending order; equal elements keep their order.
    pub open spec fn sorted(self) -> List<T>
        decreases self,
    {
        match self {
            List::Nil => List::Nil,
            List::Cons(head, tail) => tail.sorted().with_sorted(head),
        }
    }

    fn insert_sorted(self, x: T) -> (r: List<T>)
        ensures
            r == self.with_sorted(x),
        decreases self,
    {
        match self {
            List::Nil => List::Cons(x, Box::new(List::Nil)),
            List::Cons(head, tail) => if head.is_below(&x) {
                let rest = *tail;
                List::Cons(head, Box::new(rest.insert_sorted(x)))
            } else {
                List::Cons(x, Box::new(List::Cons(head, tail)))
            },
        }
    }

    /// The elements in ascending order; equal elements keep their order.
    pub fn sort(&self) -> (r: List<T>)
        ensures
            r == self.sorted(),
        decreases self,
    {
        match self {
            List::Nil => List::Nil,
            List::Cons(head, tail) => tail.sort().insert_sorted(head.dup()),
        }
    }
}

/// The first value filed under `key`.
pub open spec fn find<K, V>(table: List<(K, V)>, key: K) -> Option<V>
    decreases table,
{
    match table {
        List::Nil => None,
        List::Cons(entry, rest) => if entry.0 == key {
            Some(entry.1)
        } else {
            find(*rest, key)
        },
    }
}

/// The first value filed under `key`.
pub fn look_up<K: Value, V: Value>(table: &List<(K, V)>, key: &K) -> (r: Option<V>)
    ensures
        r == find(*table, *key),
    decreases table,
{
    match table {
        List::Nil => None,
        List::Cons(entry, rest) => if entry.0.same(key) {
            Some(entry.1.dup())
        } else {
            look_up(rest, key)
        },
    }
}

/// The lexicographic order of lists.
pub open spec fn list_below<T: Ordered>(a: List<T>, b: List<T>) -> bool
    decreases a,
{
    match (a, b) {
        (_, List::Nil) => false,
        (List::Nil, List::Cons(_, _)) => true,
        (List::Cons(x, l), List::Cons(y, m)) => x.below(y) || (x == y && list_below(*l, *m)),
    }
}

/// The lexicographic order of lists.
pub fn list_is_below<T: Ordered>(a: &List<T>, b: &List<T>) -> (r: bool)
    ensures
        r == list_below(*a, *b),
    decreases a,
{
    match (a, b) {
        (_, List::Nil) => false,
        (List::Nil, List::Cons(_, _)) => true,
        (List::Cons(x, l), List::Cons(y, m)) => x.is_below(y) || (x.same(y) && list_is_below(l, m)),
    }
}

/// The order of lists inherits asymmetry.
pub proof fn lemma_list_asymmetric<T: Ordered>(a: List<T>, b: List<T>)
    ensures
        !(list_below(a, b) && list_below(b, a)),
    decreases a,
{
    match (a, b) {
        (List::Cons(x, l), List::Cons(y, m)) => {
            x.lemma_asymmetric(y);
            lemma_list_asymmetric(*l, *m);
        },
        _ => {},
    }
}

/// The order of lists is total where the order of elements is.
pub proof fn lemma_list_total<T: Total>(a: List<T>, b: List<T>)
    ensures
        list_below(a, b) || list_below(b, a) || a == b,
    decreases a,
{
    match (a, b) {
        (List::Cons(x, l), List::Cons(y, m)) => {
            x.lemma_total(y);
            lemma_list_total(*l, *m);
        },
        _ => {},
    }
}

/// The order of lists is a weak order where the order of elements is total.
pub proof fn lemma_list_cotransitive<T: Total>(a: List<T>, b: List<T>, c: List<T>)
    requires
        list_below(a, c),
    ensures
        list_below(a, b) || list_below(b, c),
    decreases a,
{
    match (a, b, c) {
        (List::Cons(x, l), List::Cons(y, m), List::Cons(z, n)) => {
            x.lemma_total(y);
            if x.below(z) {
                x.lemma_cotransitive(y, z);
            } else {
                lemma_list_cotransitive(*l, *m, *n);
            }
        },
        _ => {},
    }
}

} // verus!
