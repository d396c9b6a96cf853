//! What sorting and removing duplicates do to a list.
use crate::list::{List, Ordered, Total};
use vstd::prelude::*;

verus! {

/// Whether no element of the list is below `x`.
pub open spec fn none_below<T: Ordered>(l: List<T>, x: T) -> bool
    decreases l,
{
    match l {
        List::Nil => true,
        List::Cons(y, rest) => !y.below(x) && none_below(*rest, x),
    }
}

/// Whether no element is below one that stands before it.
pub open spec fn ascending<T: Ordered>(l: List<T>) -> bool
    decreases l,
{
    match l {
        List::Nil => true,
        List::Cons(x, rest) => none_below(*rest, x) && ascending(*rest),
    }
}

/// Whether no element occurs twice.
pub open spec fn distinct<T>(l: List<T>) -> bool
    decreases l,
{
    match l {
        List::Nil => true,
        List::Cons(x, rest) => !rest.has(x) && distinct(*rest),
    }
}

/// How often `x` occurs.
pub open spec fn times<T>(l: List<T>, x: T) -> nat
    decreases l,
{
    match l {
        List::Nil => 0,
        List::Cons(y, rest) => times(*rest, x) + if y == x {
            1nat
        } else {
            0
        },
    }
}

/// Whether `p` holds of all elements.
pub open spec fn all<T>(l: List<T>, p: spec_fn(T) -> bool) -> bool
    decreases l,
{
    match l {
        List::Nil => true,
        List::Cons(x, rest) => p(x) && all(*rest, p),
    }
}

/// The elements of a list with a further one at the end.
pub proof fn lemma_has_snoc<T>(l: List<T>, x: T, y: T)
    ensures
        l.snoc(x).has(y) == (l.has(y) || x == y),
    decreases l,
{
    match l {
        List::Nil => {
            assert(!List::<T>::Nil.has(y));
        },
        List::Cons(_, rest) => {
            lemma_has_snoc(*rest, x, y);
        },
    }
}

/// A new element at the end keeps a list without repetition.
pub proof fn lemma_distinct_snoc<T>(l: List<T>, x: T)
    requires
        distinct(l),
        !l.has(x),
    ensures
        distinct(l.snoc(x)),
    decreases l,
{
    match l {
        List::Nil => {
            assert(distinct(List::<T>::Nil));
            assert(!List::<T>::Nil.has(x));
        },
        List::Cons(y, rest) => {
            lemma_distinct_snoc(*rest, x);
            lemma_has_snoc(*rest, x, y);
        },
    }
}

/// What holds of all elements of a list with a further one at the end.
pub proof fn lemma_all_snoc<T>(l: List<T>, x: T, p: spec_fn(T) -> bool)
    ensures
        all(l.snoc(x), p) == (all(l, p) && p(x)),
    decreases l,
{
    match l {
        List::Nil => {
            assert(all(List::<T>::Nil, p));
        },
        List::Cons(_, rest) => {
            lemma_all_snoc(*rest, x, p);
        },
    }
}

/// What holds of all elements of two lists.
pub proof fn lemma_all_then<T>(a: List<T>, b: List<T>, p: spec_fn(T) -> bool)
    ensures
        all(a.then_all(b), p) == (all(a, p) && all(b, p)),
    decreases a,
{
    match a {
        List::Nil => {},
        List::Cons(_, rest) => {
            lemma_all_then(*rest, b, p);
        },
    }
}

/// What holds of all elements holds of each.
pub proof fn lemma_all_has<T>(l: List<T>, x: T, p: spec_fn(T) -> bool)
    requires
        all(l, p),
        l.has(x),
    ensures
        p(x),
    decreases l,
{
    match l {
        List::Nil => {},
        List::Cons(y, rest) => {
            if y != x {
                lemma_all_has(*rest, x, p);
            }
        },
    }
}

/// What follows from two things that hold of all elements holds of all elements.
pub proof fn lemma_all_and<T>(
    l: List<T>,
    p: spec_fn(T) -> bool,
    q: spec_fn(T) -> bool,
    r: spec_fn(T) -> bool,
)
    requires
        all(l, p),
        all(l, q),
        forall|x: T| #![trigger r(x)] p(x) && q(x) ==> r(x),
    ensures
        all(l, r),
    decreases l,
{
    match l {
        List::Nil => {},
        List::Cons(x, rest) => {
            assert(r(x));
            lemma_all_and(*rest, p, q, r);
        },
    }
}

/// Nothing behind a list leaves it as it is.
pub proof fn lemma_then_nil<T>(a: List<T>)
    ensures
        a.then_all(List::Nil) == a,
    decreases a,
{
    match a {
        List::Nil => {},
        List::Cons(_, rest) => {
            lemma_then_nil(*rest);
        },
    }
}

/// An element between two lists belongs to the end of the first or to the front
/// of the second.
pub proof fn lemma_snoc_then<T>(a: List<T>, x: T, b: List<T>)
    ensures
        a.snoc(x).then_all(b) == a.then_all(List::Cons(x, Box::new(b))),
    decreases a,
{
    match a {
        List::Nil => {
            assert(List::<T>::Nil.then_all(b) == b);
        },
        List::Cons(_, rest) => {
            lemma_snoc_then(*rest, x, b);
        },
    }
}

/// The number of elements of two lists.
pub proof fn lemma_then_size<T>(a: List<T>, b: List<T>)
    ensures
        a.then_all(b).size() == a.size() + b.size(),
    decreases a,
{
    match a {
        List::Nil => {},
        List::Cons(_, rest) => {
            lemma_then_size(*rest, b);
        },
    }
}

proof fn lemma_none_below_with_sorted<T: Ordered>(l: List<T>, x: T, y: T)
    requires
        none_below(l, x),
        !y.below(x),
    ensures
        none_below(l.with_sorted(y), x),
    decreases l,
{
    match l {
        List::Nil => {
            assert(none_below(List::<T>::Nil, x));
        },
        List::Cons(z, rest) => {
            if z.below(y) {
                lemma_none_below_with_sorted(*rest, x, y);
            }
        },
    }
}

/// What is not below `y` is not below anything that is at most `y`.
proof fn lemma_none_below_smaller<T: Ordered>(l: List<T>, x: T, y: T)
    requires
        none_below(l, y),
        !y.below(x),
    ensures
        none_below(l, x),
    decreases l,
{
    match l {
        List::Nil => {},
        List::Cons(z, rest) => {
            if z.below(x) {
                z.lemma_cotransitive(y, x);
            }
            lemma_none_below_smaller(*rest, x, y);
        },
    }
}

proof fn lemma_with_sorted_ascending<T: Ordered>(l: List<T>, x: T)
    requires
        ascending(l),
    ensures
        ascending(l.with_sorted(x)),
    decreases l,
{
    match l {
        List::Nil => {
            assert(ascending(List::<T>::Nil));
            assert(none_below(List::<T>::Nil, x));
        },
        List::Cons(y, rest) => {
            if y.below(x) {
                y.lemma_asymmetric(x);
                lemma_with_sorted_ascending(*rest, x);
                lemma_none_below_with_sorted(*rest, y, x);
            } else {
                lemma_none_below_smaller(*rest, x, y);
            }
        },
    }
}

/// A sorted list is ascending.
pub proof fn law_sort_ascends<T: Ordered>(l: List<T>)
    ensures
        ascending(l.sorted()),
    decreases l,
{
    match l {
        List::Nil => {},
        List::Cons(x, rest) => {
            law_sort_ascends(*rest);
            lemma_with_sorted_ascending(rest.sorted(), x);
        },
    }
}

/// Sorting changes nothing in a list that is ascending.
pub proof fn law_sort_keeps_ascending<T: Ordered>(l: List<T>)
    requires
        ascending(l),
    ensures
        l.sorted() == l,
    decreases l,
{
    match l {
        List::Nil => {},
        List::Cons(x, rest) => {
            law_sort_keeps_ascending(*rest);
            match *rest {
                List::Nil => {},
                List::Cons(y, _) => {
                    assert(!y.below(x));
                },
            }
        },
    }
}

/// Sorting twice is sorting once.
pub proof fn law_sort_idempotent<T: Ordered>(l: List<T>)
    ensures
        l.sorted().sorted() == l.sorted(),
{
    law_sort_ascends(l);
    law_sort_keeps_ascending(l.sorted());
}

proof fn lemma_with_sorted_times<T: Ordered>(l: List<T>, x: T, y: T)
    ensures
        times(l.with_sorted(x), y) == times(l, y) + if x == y {
            1nat
        } else {
            0
        },
    decreases l,
{
    match l {
        List::Nil => {
            assert(times(List::<T>::Nil, y) == 0);
        },
        List::Cons(z, rest) => {
            if z.below(x) {
                lemma_with_sorted_times(*rest, x, y);
            }
        },
    }
}

/// Sorting keeps every element as often as it was there.
pub proof fn law_sort_rearranges<T: Ordered>(l: List<T>, x: T)
    ensures
        times(l.sorted(), x) == times(l, x),
    decreases l,
{
    match l {
        List::Nil => {},
        List::Cons(y, rest) => {
            law_sort_rearranges(*rest, x);
            lemma_with_sorted_times(rest.sorted(), y, x);
        },
    }
}

pub proof fn lemma_times_has<T>(l: List<T>, x: T)
    ensures
        l.has(x) == (times(l, x) > 0),
    decreases l,
{
    match l {
        List::Nil => {},
        List::Cons(_, rest) => {
            lemma_times_has(*rest, x);
        },
    }
}

proof fn lemma_without_times<T>(l: List<T>, x: T, y: T)
    ensures
        times(l.without(x), y) == if x == y {
            0
        } else {
            times(l, y)
        },
    decreases l,
{
    match l {
        List::Nil => {},
        List::Cons(_, rest) => {
            lemma_without_times(*rest, x, y);
        },
    }
}

/// Dropping duplicates keeps every element once.
pub proof fn law_dedup_keeps_once<T>(l: List<T>, x: T)
    ensures
        times(l.nub(), x) == if l.has(x) {
            1nat
        } else {
            0
        },
    decreases l.size(),
{
    match l {
        List::Nil => {},
        List::Cons(y, rest) => {
            rest.lemma_without_size(y);
            law_dedup_keeps_once(rest.without(y), x);
            lemma_without_times(*rest, y, x);
            lemma_times_has(*rest, x);
            lemma_times_has(rest.without(y), x);
        },
    }
}

/// Dropping duplicates leaves none.
pub proof fn law_dedup_distinct<T>(l: List<T>)
    ensures
        distinct(l.nub()),
    decreases l.size(),
{
    match l {
        List::Nil => {},
        List::Cons(y, rest) => {
            rest.lemma_without_size(y);
            law_dedup_distinct(rest.without(y));
            law_dedup_keeps_once(rest.without(y), y);
            lemma_without_times(*rest, y, y);
            lemma_times_has(rest.without(y), y);
            lemma_times_has(rest.without(y).nub(), y);
        },
    }
}

proof fn lemma_without_absent<T>(l: List<T>, x: T)
    requires
        !l.has(x),
    ensures
        l.without(x) == l,
    decreases l,
{
    match l {
        List::Nil => {},
        List::Cons(_, rest) => {
            lemma_without_absent(*rest, x);
        },
    }
}

/// A list without duplicates stays as it is when duplicates are dropped.
pub proof fn law_dedup_keeps_distinct<T>(l: List<T>)
    requires
        distinct(l),
    ensures
        l.nub() == l,
    decreases l,
{
    match l {
        List::Nil => {},
        List::Cons(x, rest) => {
            lemma_without_absent(*rest, x);
            law_dedup_keeps_distinct(*rest);
        },
    }
}

/// Dropping duplicates twice is dropping them once.
pub proof fn law_dedup_idempotent<T>(l: List<T>)
    ensures
        l.nub().nub() == l.nub(),
{
    law_dedup_distinct(l);
    law_dedup_keeps_distinct(l.nub());
}

/// The first element stays first when duplicates are dropped, and what comes
/// after it is what is left of the rest.
pub proof fn law_dedup_keeps_first<T>(x: T, rest: List<T>)
    ensures
        List::Cons(x, Box::new(rest)).nub() == List::Cons(x, Box::new(rest.without(x).nub())),
{
}

proof fn lemma_all_with_sorted<T: Ordered>(l: List<T>, x: T, p: spec_fn(T) -> bool)
    ensures
        all(l.with_sorted(x), p) == (p(x) && all(l, p)),
    decreases l,
{
    match l {
        List::Nil => {
            assert(all(List::<T>::Nil, p));
        },
        List::Cons(y, rest) => {
            if y.below(x) {
                lemma_all_with_sorted(*rest, x, p);
            }
        },
    }
}

/// Sorting does not matter to what holds of all elements.
pub proof fn lemma_all_sorted<T: Ordered>(l: List<T>, p: spec_fn(T) -> bool)
    ensures
        all(l.sorted(), p) == all(l, p),
    decreases l,
{
    match l {
        List::Nil => {},
        List::Cons(x, rest) => {
            lemma_all_sorted(*rest, p);
            lemma_all_with_sorted(rest.sorted(), x, p);
        },
    }
}

proof fn lemma_all_without<T>(l: List<T>, x: T, p: spec_fn(T) -> bool)
    requires
        all(l, p),
    ensures
        all(l.without(x), p),
    decreases l,
{
    match l {
        List::Nil => {},
        List::Cons(_, rest) => {
            lemma_all_without(*rest, x, p);
        },
    }
}

/// What holds of all elements still does when duplicates are dropped.
pub proof fn lemma_all_nub<T>(l: List<T>, p: spec_fn(T) -> bool)
    requires
        all(l, p),
    ensures
        all(l.nub(), p),
    decreases l.size(),
{
    match l {
        List::Nil => {},
        List::Cons(x, rest) => {
            rest.lemma_without_size(x);
            lemma_all_without(*rest, x, p);
            lemma_all_nub(rest.without(x), p);
        },
    }
}

proof fn lemma_least_first<T: Total>(a: List<T>, b: List<T>)
    requires
        ascending(a),
        ascending(b),
        forall|x: T| #[trigger] times(a, x) == times(b, x),
    ensures
        a == b,
    decreases a,
{
    match (a, b) {
        (List::Nil, List::Nil) => {},
        (List::Nil, List::Cons(y, _)) => {
            assert(times(a, y) == times(b, y));
        },
        (List::Cons(x, _), List::Nil) => {
            assert(times(a, x) == times(b, x));
        },
        (List::Cons(x, l), List::Cons(y, m)) => {
            lemma_times_has(a, x);
            lemma_times_has(b, x);
            lemma_times_has(a, y);
            lemma_times_has(b, y);
            assert(times(a, x) == times(b, x));
            assert(times(a, y) == times(b, y));
            lemma_first_is_least(a, y);
            lemma_first_is_least(b, x);
            x.lemma_total(y);
            assert(x == y);
            assert forall|z: T| #[trigger] times(*l, z) == times(*m, z) by {
                assert(times(a, z) == times(b, z));
            }
            lemma_least_first(*l, *m);
        },
    }
}

proof fn lemma_first_is_least<T: Ordered>(l: List<T>, x: T)
    requires
        ascending(l),
        l.has(x),
    ensures
        l matches List::Cons(y, _) ==> !x.below(y),
{
    match l {
        List::Nil => {},
        List::Cons(y, rest) => {
            if x == y {
                x.lemma_asymmetric(y);
            } else {
                lemma_none_below_has(*rest, y, x);
            }
        },
    }
}

proof fn lemma_none_below_has<T: Ordered>(l: List<T>, y: T, x: T)
    requires
        none_below(l, y),
        l.has(x),
    ensures
        !x.below(y),
    decreases l,
{
    match l {
        List::Nil => {},
        List::Cons(z, rest) => {
            if z != x {
                lemma_none_below_has(*rest, y, x);
            }
        },
    }
}

/// Where the order is total, the sorted list depends on nothing but how often
/// each element is there.
pub proof fn law_sort_canonical<T: Total>(a: List<T>, b: List<T>)
    requires
        forall|x: T| #[trigger] times(a, x) == times(b, x),
    ensures
        a.sorted() == b.sorted(),
{
    law_sort_ascends(a);
    law_sort_ascends(b);
    assert forall|x: T| #[trigger] times(a.sorted(), x) == times(b.sorted(), x) by {
        law_sort_rearranges(a, x);
        law_sort_rearranges(b, x);
        assert(times(a, x) == times(b, x));
    }
    lemma_least_first(a.sorted(), b.sorted());
}

} // verus!
