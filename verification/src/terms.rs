//! Terms, variables and substitutions.
use crate::list::{List, Ordered, Total, Value};
use crate::text::Text;
use vstd::prelude::*;

verus! {

/// The sort of a variable.
#[derive(Debug, Clone, Copy, PartialEq, Eq, Structural)]
pub enum LSort {
    Pub,
    Fresh,
    Msg,
    Node,
    Nat,
}

impl LSort {
    pub open spec fn rank(self) -> u64 {
        match self {
            LSort::Pub => 0,
            LSort::Fresh => 1,
            LSort::Msg => 2,
            LSort::Node => 3,
            LSort::Nat => 4,
        }
    }

    pub fn get_rank(self) -> (r: u64)
        ensures
            r == self.rank(),
    {
        match self {
            LSort::Pub => 0,
            LSort::Fresh => 1,
            LSort::Msg => 2,
            LSort::Node => 3,
            LSort::Nat => 4,
        }
    }
}

/// A variable: a name, a sort and an index that tells apart variables of the
/// same name.
#[derive(Debug, PartialEq, Eq)]
pub struct LVar {
    pub name: Text,
    pub sort: LSort,
    pub idx: u64,
}

/// The kind of a constant.
#[derive(Debug, Clone, Copy, PartialEq, Eq, Structural)]
pub enum NameTag {
    Fresh,
    Pub,
    Node,
    Nat,
}

impl NameTag {
    pub open spec fn rank(self) -> u64 {
        match self {
            NameTag::Fresh => 0,
            NameTag::Pub => 1,
            NameTag::Node => 2,
            NameTag::Nat => 3,
        }
    }

    pub fn get_rank(self) -> (r: u64)
        ensures
            r == self.rank(),
    {
        match self {
            NameTag::Fresh => 0,
            NameTag::Pub => 1,
            NameTag::Node => 2,
            NameTag::Nat => 3,
        }
    }
}

/// A constant.
#[derive(Debug, PartialEq, Eq)]
pub struct Name {
    pub tag: NameTag,
    pub id: Text,
}

/// The associative and commutative function symbols.
#[derive(Debug, Clone, Copy, PartialEq, Eq, Structural)]
pub enum AcSym {
    Union,
    Xor,
    Mult,
    NatPlus,
}

impl AcSym {
    pub open spec fn rank(self) -> u64 {
        match self {
            AcSym::Union => 0,
            AcSym::Xor => 1,
            AcSym::Mult => 2,
            AcSym::NatPlus => 3,
        }
    }

    pub fn get_rank(self) -> (r: u64)
        ensures
            r == self.rank(),
    {
        match self {
            AcSym::Union => 0,
            AcSym::Xor => 1,
            AcSym::Mult => 2,
            AcSym::NatPlus => 3,
        }
    }
}

/// A free function symbol.
#[derive(Debug, PartialEq, Eq)]
pub struct NoEqSym {
    pub name: Text,
    pub arity: u64,
    pub private: bool,
    pub constructor: bool,
}

/// A function symbol.
#[derive(Debug, PartialEq, Eq)]
pub enum FunSym {
    NoEq(NoEqSym),
    Ac(AcSym),
    /// The commutative pairing map.
    EMap,
    List,
}

/// A term.  `Bound(n)` is the variable bound by the `n`-th enclosing binder
/// and only occurs inside formulas.
#[derive(Debug, PartialEq, Eq)]
pub enum Term {
    Var(LVar),
    Bound(u64),
    Con(Name),
    App(FunSym, Box<List<Term>>),
}

impl Value for LVar {
    fn dup(&self) -> (copy: Self) {
        LVar { name: self.name.dup(), sort: self.sort, idx: self.idx }
    }

    fn same(&self, other: &Self) -> (answer: bool) {
        self.idx == other.idx && self.sort == other.sort && self.name.same(&other.name)
    }
}

impl Ordered for LVar {
    open spec fn below(self, other: Self) -> bool {
        self.idx < other.idx || (self.idx == other.idx && (self.sort.rank() < other.sort.rank() || (
        self.sort == other.sort && self.name.below(other.name))))
    }

    fn is_below(&self, other: &Self) -> (answer: bool) {
        let a: u64 = self.sort.get_rank();
        let b: u64 = other.sort.get_rank();
        self.idx < other.idx || (self.idx == other.idx && (a < b || (self.sort == other.sort
            && self.name.is_below(&other.name))))
    }

    proof fn lemma_asymmetric(self, other: Self) {
        self.name.lemma_asymmetric(other.name);
    }

    proof fn lemma_cotransitive(self, mid: Self, other: Self) {
        self.name.lemma_total(mid.name);
        mid.name.lemma_total(other.name);
        if self.name.below(other.name) {
            self.name.lemma_cotransitive(mid.name, other.name);
        }
    }
}

impl Total for LVar {
    proof fn lemma_total(self, other: Self) {
        self.name.lemma_total(other.name);
    }
}

impl Value for Name {
    fn dup(&self) -> (copy: Self) {
        Name { tag: self.tag, id: self.id.dup() }
    }

    fn same(&self, other: &Self) -> (answer: bool) {
        self.tag == other.tag && self.id.same(&other.id)
    }
}

impl Ordered for Name {
    open spec fn below(self, other: Self) -> bool {
        self.tag.rank() < other.tag.rank() || (self.tag == other.tag && self.id.below(other.id))
    }

    fn is_below(&self, other: &Self) -> (answer: bool) {
        let a: u64 = self.tag.get_rank();
        let b: u64 = other.tag.get_rank();
        a < b || (self.tag == other.tag && self.id.is_below(&other.id))
    }

    proof fn lemma_asymmetric(self, other: Self) {
        self.id.lemma_asymmetric(other.id);
    }

    proof fn lemma_cotransitive(self, mid: Self, other: Self) {
        self.id.lemma_total(mid.id);
        mid.id.lemma_total(other.id);
        if self.id.below(other.id) {
            self.id.lemma_cotransitive(mid.id, other.id);
        }
    }
}

impl Total for Name {
    proof fn lemma_total(self, other: Self) {
        self.id.lemma_total(other.id);
    }
}

impl Value for NoEqSym {
    fn dup(&self) -> (copy: Self) {
        NoEqSym {
            name: self.name.dup(),
            arity: self.arity,
            private: self.private,
            constructor: self.constructor,
        }
    }

    fn same(&self, other: &Self) -> (answer: bool) {
        self.arity == other.arity && self.private == other.private && self.constructor
            == other.constructor && self.name.same(&other.name)
    }
}

/// `false` comes before `true`.
pub open spec fn flag_below(a: bool, b: bool) -> bool {
    !a && b
}

impl Ordered for NoEqSym {
    open spec fn below(self, other: Self) -> bool {
        self.name.below(other.name) || (self.name == other.name && (self.arity < other.arity || (
        self.arity == other.arity && (flag_below(self.private, other.private) || (self.private
            == other.private && flag_below(self.constructor, other.constructor))))))
    }

    fn is_below(&self, other: &Self) -> (answer: bool) {
        self.name.is_below(&other.name) || (self.name.same(&other.name) && (self.arity < other.arity
            || (self.arity == other.arity && ((!self.private && other.private) || (self.private
            == other.private && (!self.constructor && other.constructor))))))
    }

    proof fn lemma_asymmetric(self, other: Self) {
        self.name.lemma_asymmetric(other.name);
    }

    proof fn lemma_cotransitive(self, mid: Self, other: Self) {
        self.name.lemma_total(mid.name);
        mid.name.lemma_total(other.name);
        if self.name.below(other.name) {
            self.name.lemma_cotransitive(mid.name, other.name);
        }
    }
}

impl Total for NoEqSym {
    proof fn lemma_total(self, other: Self) {
        self.name.lemma_total(other.name);
    }
}

impl Value for FunSym {
    fn dup(&self) -> (copy: Self) {
        match self {
            FunSym::NoEq(s) => FunSym::NoEq(s.dup()),
            FunSym::Ac(s) => FunSym::Ac(*s),
            FunSym::EMap => FunSym::EMap,
            FunSym::List => FunSym::List,
        }
    }

    fn same(&self, other: &Self) -> (answer: bool) {
        match (self, other) {
            (FunSym::NoEq(a), FunSym::NoEq(b)) => a.same(b),
            (FunSym::Ac(a), FunSym::Ac(b)) => *a == *b,
            (FunSym::EMap, FunSym::EMap) => true,
            (FunSym::List, FunSym::List) => true,
            _ => false,
        }
    }
}

impl Ordered for FunSym {
    open spec fn below(self, other: Self) -> bool {
        match (self, other) {
            (FunSym::NoEq(a), FunSym::NoEq(b)) => a.below(b),
            (FunSym::NoEq(_), _) => true,
            (FunSym::Ac(_), FunSym::NoEq(_)) => false,
            (FunSym::Ac(a), FunSym::Ac(b)) => a.rank() < b.rank(),
            (FunSym::Ac(_), _) => true,
            (FunSym::EMap, FunSym::List) => true,
            _ => false,
        }
    }

    fn is_below(&self, other: &Self) -> (answer: bool) {
        match (self, other) {
            (FunSym::NoEq(a), FunSym::NoEq(b)) => a.is_below(b),
            (FunSym::NoEq(_), _) => true,
            (FunSym::Ac(_), FunSym::NoEq(_)) => false,
            (FunSym::Ac(a), FunSym::Ac(b)) => a.get_rank() < b.get_rank(),
            (FunSym::Ac(_), _) => true,
            (FunSym::EMap, FunSym::List) => true,
            _ => false,
        }
    }

    proof fn lemma_asymmetric(self, other: Self) {
        match (self, other) {
            (FunSym::NoEq(a), FunSym::NoEq(b)) => {
                a.lemma_asymmetric(b);
            },
            _ => {},
        }
    }

    proof fn lemma_cotransitive(self, mid: Self, other: Self) {
        match (self, mid, other) {
            (FunSym::NoEq(a), FunSym::NoEq(b), FunSym::NoEq(c)) => {
                a.lemma_cotransitive(b, c);
            },
            _ => {},
        }
    }
}

impl Total for FunSym {
    proof fn lemma_total(self, other: Self) {
        match (self, other) {
            (FunSym::NoEq(a), FunSym::NoEq(b)) => {
                a.lemma_total(b);
            },
            _ => {},
        }
    }
}

fn dup_term(t: &Term) -> (r: Term)
    ensures
        r == *t,
    decreases t,
{
    match t {
        Term::Var(v) => Term::Var(v.dup()),
        Term::Bound(n) => Term::Bound(*n),
        Term::Con(c) => Term::Con(c.dup()),
        Term::App(f, args) => Term::App(f.dup(), Box::new(dup_terms(args))),
    }
}

fn dup_terms(l: &List<Term>) -> (r: List<Term>)
    ensures
        r == *l,
    decreases l,
{
    match l {
        List::Nil => List::Nil,
        List::Cons(t, rest) => List::Cons(dup_term(t), Box::new(dup_terms(rest))),
    }
}

fn same_term(a: &Term, b: &Term) -> (r: bool)
    ensures
        r == (*a == *b),
    decreases a,
{
    match (a, b) {
        (Term::Var(v), Term::Var(w)) => v.same(w),
        (Term::Bound(m), Term::Bound(n)) => *m == *n,
        (Term::Con(c), Term::Con(d)) => c.same(d),
        (Term::App(f, s), Term::App(g, t)) => f.same(g) && same_terms(s, t),
        _ => false,
    }
}

fn same_terms(a: &List<Term>, b: &List<Term>) -> (r: bool)
    ensures
        r == (*a == *b),
    decreases a,
{
    match (a, b) {
        (List::Nil, List::Nil) => true,
        (List::Cons(s, l), List::Cons(t, m)) => same_term(s, t) && same_terms(l, m),
        _ => false,
    }
}

impl Value for Term {
    fn dup(&self) -> (copy: Self) {
        dup_term(self)
    }

    fn same(&self, other: &Self) -> (answer: bool) {
        same_term(self, other)
    }
}

/// The order of terms: constants, variables, bound variables, applications.
pub open spec fn term_below(a: Term, b: Term) -> bool
    decreases a,
{
    match (a, b) {
        (Term::Con(c), Term::Con(d)) => c.below(d),
        (Term::Con(_), _) => true,
        (Term::Var(_), Term::Con(_)) => false,
        (Term::Var(v), Term::Var(w)) => v.below(w),
        (Term::Var(_), _) => true,
        (Term::Bound(m), Term::Bound(n)) => m < n,
        (Term::Bound(_), Term::App(_, _)) => true,
        (Term::Bound(_), _) => false,
        (Term::App(f, s), Term::App(g, t)) => f.below(g) || (f == g && terms_below(*s, *t)),
        (Term::App(_, _), _) => false,
    }
}

/// The lexicographic order of argument lists.
pub open spec fn terms_below(a: List<Term>, b: List<Term>) -> bool
    decreases a,
{
    match (a, b) {
        (_, List::Nil) => false,
        (List::Nil, List::Cons(_, _)) => true,
        (List::Cons(s, l), List::Cons(t, m)) => term_below(s, t) || (s == t && terms_below(*l, *m)),
    }
}

fn term_is_below(a: &Term, b: &Term) -> (r: bool)
    ensures
        r == term_below(*a, *b),
    decreases a,
{
    match (a, b) {
        (Term::Con(c), Term::Con(d)) => c.is_below(d),
        (Term::Con(_), _) => true,
        (Term::Var(_), Term::Con(_)) => false,
        (Term::Var(v), Term::Var(w)) => v.is_below(w),
        (Term::Var(_), _) => true,
        (Term::Bound(m), Term::Bound(n)) => *m < *n,
        (Term::Bound(_), Term::App(_, _)) => true,
        (Term::Bound(_), _) => false,
        (Term::App(f, s), Term::App(g, t)) => f.is_below(g) || (f.same(g) && terms_are_below(s, t)),
        (Term::App(_, _), _) => false,
    }
}

/// The lexicographic order of argument lists.
pub fn terms_are_below(a: &List<Term>, b: &List<Term>) -> (r: bool)
    ensures
        r == terms_below(*a, *b),
    decreases a,
{
    match (a, b) {
        (_, List::Nil) => false,
        (List::Nil, List::Cons(_, _)) => true,
        (List::Cons(s, l), List::Cons(t, m)) => term_is_below(s, t) || (same_term(s, t)
            && terms_are_below(l, m)),
    }
}

proof fn lemma_term_asymmetric(a: Term, b: Term)
    ensures
        !(term_below(a, b) && term_below(b, a)),
    decreases a,
{
    match (a, b) {
        (Term::Con(c), Term::Con(d)) => {
            c.lemma_asymmetric(d);
        },
        (Term::Var(v), Term::Var(w)) => {
            v.lemma_asymmetric(w);
        },
        (Term::App(f, s), Term::App(g, t)) => {
            f.lemma_asymmetric(g);
            lemma_terms_asymmetric(*s, *t);
        },
        _ => {},
    }
}

/// The order of argument lists is asymmetric.
pub proof fn lemma_terms_asymmetric(a: List<Term>, b: List<Term>)
    ensures
        !(terms_below(a, b) && terms_below(b, a)),
    decreases a,
{
    match (a, b) {
        (List::Cons(s, l), List::Cons(t, m)) => {
            lemma_term_asymmetric(s, t);
            lemma_terms_asymmetric(*l, *m);
        },
        _ => {},
    }
}

proof fn lemma_term_total(a: Term, b: Term)
    ensures
        term_below(a, b) || term_below(b, a) || a == b,
    decreases a,
{
    match (a, b) {
        (Term::Con(c), Term::Con(d)) => {
            c.lemma_total(d);
        },
        (Term::Var(v), Term::Var(w)) => {
            v.lemma_total(w);
        },
        (Term::App(f, s), Term::App(g, t)) => {
            f.lemma_total(g);
            lemma_terms_total(*s, *t);
        },
        _ => {},
    }
}

/// The order of argument lists is total.
pub proof fn lemma_terms_total(a: List<Term>, b: List<Term>)
    ensures
        terms_below(a, b) || terms_below(b, a) || a == b,
    decreases a,
{
    match (a, b) {
        (List::Cons(s, l), List::Cons(t, m)) => {
            lemma_term_total(s, t);
            lemma_terms_total(*l, *m);
        },
        _ => {},
    }
}

proof fn lemma_term_cotransitive(a: Term, b: Term, c: Term)
    requires
        term_below(a, c),
    ensures
        term_below(a, b) || term_below(b, c),
    decreases a,
{
    match (a, b, c) {
        (Term::Con(x), Term::Con(y), Term::Con(z)) => {
            x.lemma_cotransitive(y, z);
        },
        (Term::Var(x), Term::Var(y), Term::Var(z)) => {
            x.lemma_cotransitive(y, z);
        },
        (Term::App(f, s), Term::App(g, t), Term::App(h, u)) => {
            f.lemma_total(g);
            if f.below(h) {
                f.lemma_cotransitive(g, h);
            } else {
                lemma_terms_cotransitive(*s, *t, *u);
            }
        },
        _ => {},
    }
}

/// The order of argument lists is a weak order.
pub proof fn lemma_terms_cotransitive(a: List<Term>, b: List<Term>, c: List<Term>)
    requires
        terms_below(a, c),
    ensures
        terms_below(a, b) || terms_below(b, c),
    decreases a,
{
    match (a, b, c) {
        (List::Cons(x, l), List::Cons(y, m), List::Cons(z, n)) => {
            lemma_term_total(x, y);
            if term_below(x, z) {
                lemma_term_cotransitive(x, y, z);
            } else {
                lemma_terms_cotransitive(*l, *m, *n);
            }
        },
        _ => {},
    }
}

impl Ordered for Term {
    open spec fn below(self, other: Self) -> bool {
        term_below(self, other)
    }

    fn is_below(&self, other: &Self) -> (answer: bool) {
        term_is_below(self, other)
    }

    proof fn lemma_asymmetric(self, other: Self) {
        lemma_term_asymmetric(self, other);
    }

    proof fn lemma_cotransitive(self, mid: Self, other: Self) {
        lemma_term_cotransitive(self, mid, other);
    }
}

impl Total for Term {
    proof fn lemma_total(self, other: Self) {
        lemma_term_total(self, other);
    }
}

impl Ordered for (Term, Term) {
    open spec fn below(self, other: Self) -> bool {
        self.0.below(other.0) || (self.0 == other.0 && self.1.below(other.1))
    }

    fn is_below(&self, other: &Self) -> (answer: bool) {
        self.0.is_below(&other.0) || (self.0.same(&other.0) && self.1.is_below(&other.1))
    }

    proof fn lemma_asymmetric(self, other: Self) {
        self.0.lemma_asymmetric(other.0);
        self.1.lemma_asymmetric(other.1);
    }

    proof fn lemma_cotransitive(self, mid: Self, other: Self) {
        self.0.lemma_total(mid.0);
        mid.0.lemma_total(other.0);
        if self.0.below(other.0) {
            self.0.lemma_cotransitive(mid.0, other.0);
        }
        self.1.lemma_total(mid.1);
        mid.1.lemma_total(other.1);
        if self.1.below(other.1) {
            self.1.lemma_cotransitive(mid.1, other.1);
        }
    }
}

impl Total for (Term, Term) {
    proof fn lemma_total(self, other: Self) {
        self.0.lemma_total(other.0);
        self.1.lemma_total(other.1);
    }
}

} // verus!
