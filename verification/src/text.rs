//! Names as plain values.
use crate::list::{List, Ordered, Total, Value};
use vstd::prelude::*;
use vstd::string::*;

verus! {

impl Value for char {
    fn dup(&self) -> (copy: Self) {
        *self
    }

    fn same(&self, other: &Self) -> (answer: bool) {
        *self == *other
    }
}

impl Value for u64 {
    fn dup(&self) -> (copy: Self) {
        *self
    }

    fn same(&self, other: &Self) -> (answer: bool) {
        *self == *other
    }
}

impl<A: Value, B: Value> Value for (A, B) {
    fn dup(&self) -> (copy: Self) {
        (self.0.dup(), self.1.dup())
    }

    fn same(&self, other: &Self) -> (answer: bool) {
        self.0.same(&other.0) && self.1.same(&other.1)
    }
}

impl<A: Value> Value for Option<A> {
    fn dup(&self) -> (copy: Self) {
        match self {
            None => None,
            Some(a) => Some(a.dup()),
        }
    }

    fn same(&self, other: &Self) -> (answer: bool) {
        match (self, other) {
            (None, None) => true,
            (Some(a), Some(b)) => a.same(b),
            _ => false,
        }
    }
}

/// A name: a finite sequence of characters.
#[derive(Debug, PartialEq, Eq)]
pub struct Text {
    pub chars: List<char>,
}

/// The list of the given characters.
pub open spec fn chars_of(s: Seq<char>) -> List<char>
    decreases s.len(),
{
    if s.len() == 0 {
        List::Nil
    } else {
        List::Cons(s[0], Box::new(chars_of(s.subrange(1, s.len() as int))))
    }
}

/// The name with the given characters.
pub open spec fn text_of(s: Seq<char>) -> Text {
    Text { chars: chars_of(s) }
}

/// `String::push` of the standard library: the character is appended at the end
/// of the string, and nothing else changes.
pub assume_specification[ String::push ](s: &mut String, c: char)
    ensures
        final(s)@ == old(s)@.push(c),
;

impl Text {
    /// The characters in order.
    pub open spec fn view(self) -> Seq<char> {
        self.chars.view()
    }

    /// The name written in `s`.
    pub fn new(s: &str) -> (t: Text)
        ensures
            t == text_of(s@),
    {
        let n: usize = s.unicode_len();
        let mut out: List<char> = List::Nil;
        let mut i: usize = n;
        proof {
            assert(s@.subrange(n as int, n as int) =~= Seq::<char>::empty());
        }
        while i > 0
            invariant
                0 <= i <= n,
                n == s@.len(),
                out == chars_of(s@.subrange(i as int, n as int)),
            decreases i,
        {
            i = i - 1;
            let c: char = s.get_char(i);
            proof {
                let here = s@.subrange(i as int, n as int);
                assert(here[0] == c);
                assert(here.subrange(1, here.len() as int) =~= s@.subrange(i + 1, n as int));
            }
            out = List::Cons(c, Box::new(out));
        }
        proof {
            assert(s@.subrange(0, n as int) =~= s@);
        }
        Text { chars: out }
    }

    /// The name as a string.
    pub fn to_string(&self) -> (s: String)
        ensures
            s@ == self@,
    {
        let mut s = String::new();
        push_chars(&mut s, &self.chars);
        proof {
            assert(Seq::<char>::empty() + self@ =~= self@);
        }
        s
    }
}

fn push_chars(s: &mut String, cs: &List<char>)
    ensures
        final(s)@ == old(s)@ + cs.view(),
    decreases cs,
{
    match cs {
        List::Nil => {
            assert(s@ + Seq::<char>::empty() =~= s@);
        },
        List::Cons(c, rest) => {
            let ghost before = s@;
            s.push(*c);
            push_chars(s, rest);
            assert(before.push(*c) + rest.view() =~= before + (seq![*c] + rest.view()));
        },
    }
}

impl Value for Text {
    fn dup(&self) -> (copy: Self) {
        Text { chars: self.chars.dup() }
    }

    fn same(&self, other: &Self) -> (answer: bool) {
        self.chars.same(&other.chars)
    }
}

/// Whether `a` comes before `b` in the alphabetical order.
pub open spec fn chars_below(a: List<char>, b: List<char>) -> bool
    decreases a,
{
    match (a, b) {
        (_, List::Nil) => false,
        (List::Nil, List::Cons(_, _)) => true,
        (List::Cons(x, s), List::Cons(y, t)) => x < y || (x == y && chars_below(*s, *t)),
    }
}

fn chars_are_below(a: &List<char>, b: &List<char>) -> (answer: bool)
    ensures
        answer == chars_below(*a, *b),
    decreases a,
{
    match (a, b) {
        (_, List::Nil) => false,
        (List::Nil, List::Cons(_, _)) => true,
        (List::Cons(x, s), List::Cons(y, t)) => *x < *y || (*x == *y && chars_are_below(s, t)),
    }
}

proof fn lemma_chars_asymmetric(a: List<char>, b: List<char>)
    ensures
        !(chars_below(a, b) && chars_below(b, a)),
    decreases a,
{
    match (a, b) {
        (List::Cons(_, s), List::Cons(_, t)) => {
            lemma_chars_asymmetric(*s, *t);
        },
        _ => {},
    }
}

proof fn lemma_chars_total(a: List<char>, b: List<char>)
    ensures
        chars_below(a, b) || chars_below(b, a) || a == b,
    decreases a,
{
    match (a, b) {
        (List::Cons(_, s), List::Cons(_, t)) => {
            lemma_chars_total(*s, *t);
        },
        _ => {},
    }
}

proof fn lemma_chars_cotransitive(a: List<char>, b: List<char>, c: List<char>)
    requires
        chars_below(a, c),
    ensures
        chars_below(a, b) || chars_below(b, c),
    decreases a,
{
    match (a, b, c) {
        (List::Cons(x, s), List::Cons(_, t), List::Cons(z, u)) => {
            if x == z {
                lemma_chars_cotransitive(*s, *t, *u);
            }
        },
        _ => {},
    }
}

impl Ordered for Text {
    open spec fn below(self, other: Self) -> bool {
        chars_below(self.chars, other.chars)
    }

    fn is_below(&self, other: &Self) -> (answer: bool) {
        chars_are_below(&self.chars, &other.chars)
    }

    proof fn lemma_asymmetric(self, other: Self) {
        lemma_chars_asymmetric(self.chars, other.chars);
    }

    proof fn lemma_cotransitive(self, mid: Self, other: Self) {
        lemma_chars_cotransitive(self.chars, mid.chars, other.chars);
    }
}

impl Total for Text {
    proof fn lemma_total(self, other: Self) {
        lemma_chars_total(self.chars, other.chars);
    }
}

} // verus!
