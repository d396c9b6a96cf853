//! Guarded formulas.
use crate::facts::Fact;
use crate::list::{
    lemma_list_asymmetric, lemma_list_cotransitive, lemma_list_total, list_below, list_is_below, List,
    Ordered, Total, Value,
};
use crate::terms::{LSort, Term};
use crate::text::Text;
use vstd::prelude::*;

verus! {

/// A quantifier.
#[derive(Debug, Clone, Copy, PartialEq, Eq, Structural)]
pub enum Quant {
    All,
    Ex,
}

/// A variable bound by a quantifier.
#[derive(Debug, PartialEq, Eq)]
pub struct Binding {
    pub name: Text,
    pub sort: LSort,
}

/// An atom.  `Less` orders time points, `LessMset` multisets.
#[derive(Debug, PartialEq, Eq)]
pub enum GAtom {
    Eq(Term, Term),
    Less(Term, Term),
    Last(Term),
    Action(Fact, Term),
    Subterm(Term, Term),
    Pred(Fact),
    LessMset(Term, Term),
}

/// A guarded formula: an atom, a disjunction, a conjunction, or a quantifier
/// with the variables that it binds, the atoms that guard them, and a body.
#[derive(Debug, PartialEq, Eq)]
pub enum Guarded {
    Atom(GAtom),
    Disj(Box<List<Guarded>>),
    Conj(Box<List<Guarded>>),
    GGuarded(Quant, List<Binding>, List<GAtom>, Box<Guarded>),
}

impl Value for Binding {
    fn dup(&self) -> (copy: Self) {
        Binding { name: self.name.dup(), sort: self.sort }
    }

    fn same(&self, other: &Self) -> (answer: bool) {
        self.sort == other.sort
            && self.name.same(&other.name)
    }
}

impl Value for GAtom {
    fn dup(&self) -> (copy: Self) {
        match self {
            GAtom::Eq(a, b) => GAtom::Eq(a.dup(), b.dup()),
            GAtom::Less(a, b) => GAtom::Less(a.dup(), b.dup()),
            GAtom::Last(a) => GAtom::Last(a.dup()),
            GAtom::Action(a, b) => GAtom::Action(a.dup(), b.dup()),
            GAtom::Subterm(a, b) => GAtom::Subterm(a.dup(), b.dup()),
            GAtom::Pred(a) => GAtom::Pred(a.dup()),
            GAtom::LessMset(a, b) => GAtom::LessMset(a.dup(), b.dup()),
        }
    }

    fn same(&self, other: &Self) -> (answer: bool) {
        match (self, other) {
            (GAtom::Eq(a, b), GAtom::Eq(p, q)) => a.same(p) && b.same(q),
            (GAtom::Less(a, b), GAtom::Less(p, q)) => a.same(p) && b.same(q),
            (GAtom::Last(a), GAtom::Last(p)) => a.same(p),
            (GAtom::Action(a, b), GAtom::Action(p, q)) => a.same(p) && b.same(q),
            (GAtom::Subterm(a, b), GAtom::Subterm(p, q)) => a.same(p) && b.same(q),
            (GAtom::Pred(a), GAtom::Pred(p)) => a.same(p),
            (GAtom::LessMset(a, b), GAtom::LessMset(p, q)) => a.same(p) && b.same(q),
            _ => false,
        }
    }
}

fn dup_guarded(g: &Guarded) -> (r: Guarded)
    ensures
        r == *g,
    decreases g,
{
    match g {
        Guarded::Atom(a) => Guarded::Atom(a.dup()),
        Guarded::Disj(l) => Guarded::Disj(Box::new(dup_guardeds(l))),
        Guarded::Conj(l) => Guarded::Conj(Box::new(dup_guardeds(l))),
        Guarded::GGuarded(q, vars, guards, body) => Guarded::GGuarded(
            *q,
            vars.dup(),
            guards.dup(),
            Box::new(dup_guarded(body)),
        ),
    }
}

fn dup_guardeds(l: &List<Guarded>) -> (r: List<Guarded>)
    ensures
        r == *l,
    decreases l,
{
    match l {
        List::Nil => List::Nil,
        List::Cons(g, rest) => List::Cons(dup_guarded(g), Box::new(dup_guardeds(rest))),
    }
}

fn same_guarded(a: &Guarded, b: &Guarded) -> (r: bool)
    ensures
        r == (*a == *b),
    decreases a,
{
    match (a, b) {
        (Guarded::Atom(p), Guarded::Atom(q)) => p.same(q),
        (Guarded::Disj(l), Guarded::Disj(m)) => same_guardeds(l, m),
        (Guarded::Conj(l), Guarded::Conj(m)) => same_guardeds(l, m),
        (Guarded::GGuarded(q, v, g, c), Guarded::GGuarded(r, w, h, d)) => *q == *r && v.same(w)
            && g.same(h) && same_guarded(c, d),
        _ => false,
    }
}

fn same_guardeds(a: &List<Guarded>, b: &List<Guarded>) -> (r: bool)
    ensures
        r == (*a == *b),
    decreases a,
{
    match (a, b) {
        (List::Nil, List::Nil) => true,
        (List::Cons(g, l), List::Cons(h, m)) => same_guarded(g, h) && same_guardeds(l, m),
        _ => false,
    }
}

impl Value for Guarded {
    fn dup(&self) -> (copy: Self) {
        dup_guarded(self)
    }

    fn same(&self, other: &Self) -> (answer: bool) {
        same_guarded(self, other)
    }
}

/// The order of pairs of terms.
pub open spec fn terms2_below(a: Term, b: Term, p: Term, q: Term) -> bool {
    a.below(p) || (a == p && b.below(q))
}

fn terms2_are_below(a: &Term, b: &Term, p: &Term, q: &Term) -> (r: bool)
    ensures
        r == terms2_below(*a, *b, *p, *q),
{
    a.is_below(p) || (a.same(p) && b.is_below(q))
}

impl GAtom {
    pub open spec fn rank(self) -> u64 {
        match self {
            GAtom::Action(_, _) => 0,
            GAtom::Eq(_, _) => 1,
            GAtom::Subterm(_, _) => 2,
            GAtom::Less(_, _) => 3,
            GAtom::Last(_) => 4,
            GAtom::Pred(_) => 5,
            GAtom::LessMset(_, _) => 6,
        }
    }

    fn get_rank(&self) -> (r: u64)
        ensures
            r == self.rank(),
    {
        match self {
            GAtom::Action(_, _) => 0,
            GAtom::Eq(_, _) => 1,
            GAtom::Subterm(_, _) => 2,
            GAtom::Less(_, _) => 3,
            GAtom::Last(_) => 4,
            GAtom::Pred(_) => 5,
            GAtom::LessMset(_, _) => 6,
        }
    }
}

impl Ordered for GAtom {
    open spec fn below(self, other: Self) -> bool {
        match (self, other) {
            (GAtom::Action(f, t), GAtom::Action(g, u)) => t.below(u) || (t == u && f.below(g)),
            (GAtom::Eq(a, b), GAtom::Eq(p, q)) => terms2_below(a, b, p, q),
            (GAtom::Subterm(a, b), GAtom::Subterm(p, q)) => terms2_below(a, b, p, q),
            (GAtom::Less(a, b), GAtom::Less(p, q)) => terms2_below(a, b, p, q),
            (GAtom::LessMset(a, b), GAtom::LessMset(p, q)) => terms2_below(a, b, p, q),
            (GAtom::Last(a), GAtom::Last(p)) => a.below(p),
            (GAtom::Pred(f), GAtom::Pred(g)) => f.below(g),
            _ => self.rank() < other.rank(),
        }
    }

    fn is_below(&self, other: &Self) -> (answer: bool) {
        match (self, other) {
            (GAtom::Action(f, t), GAtom::Action(g, u)) => t.is_below(u) || (t.same(u)
                && f.is_below(g)),
            (GAtom::Eq(a, b), GAtom::Eq(p, q)) => terms2_are_below(a, b, p, q),
            (GAtom::Subterm(a, b), GAtom::Subterm(p, q)) => terms2_are_below(a, b, p, q),
            (GAtom::Less(a, b), GAtom::Less(p, q)) => terms2_are_below(a, b, p, q),
            (GAtom::LessMset(a, b), GAtom::LessMset(p, q)) => terms2_are_below(a, b, p, q),
            (GAtom::Last(a), GAtom::Last(p)) => a.is_below(p),
            (GAtom::Pred(f), GAtom::Pred(g)) => f.is_below(g),
            _ => self.get_rank() < other.get_rank(),
        }
    }

    proof fn lemma_asymmetric(self, other: Self) {
        match (self, other) {
            (GAtom::Action(f, t), GAtom::Action(g, u)) => {
                t.lemma_asymmetric(u);
                f.lemma_asymmetric(g);
            },
            (GAtom::Eq(a, b), GAtom::Eq(p, q)) => {
                (a, b).lemma_asymmetric((p, q));
            },
            (GAtom::Subterm(a, b), GAtom::Subterm(p, q)) => {
                (a, b).lemma_asymmetric((p, q));
            },
            (GAtom::Less(a, b), GAtom::Less(p, q)) => {
                (a, b).lemma_asymmetric((p, q));
            },
            (GAtom::LessMset(a, b), GAtom::LessMset(p, q)) => {
                (a, b).lemma_asymmetric((p, q));
            },
            (GAtom::Last(a), GAtom::Last(p)) => {
                a.lemma_asymmetric(p);
            },
            (GAtom::Pred(f), GAtom::Pred(g)) => {
                f.lemma_asymmetric(g);
            },
            _ => {},
        }
    }

    proof fn lemma_cotransitive(self, mid: Self, other: Self) {
        match (self, mid, other) {
            (GAtom::Action(f, t), GAtom::Action(g, u), GAtom::Action(h, v)) => {
                t.lemma_total(u);
                u.lemma_total(v);
                if t.below(v) {
                    t.lemma_cotransitive(u, v);
                } else {
                    f.lemma_cotransitive(g, h);
                }
            },
            (GAtom::Eq(a, b), GAtom::Eq(p, q), GAtom::Eq(x, y)) => {
                (a, b).lemma_cotransitive((p, q), (x, y));
            },
            (GAtom::Subterm(a, b), GAtom::Subterm(p, q), GAtom::Subterm(x, y)) => {
                (a, b).lemma_cotransitive((p, q), (x, y));
            },
            (GAtom::Less(a, b), GAtom::Less(p, q), GAtom::Less(x, y)) => {
                (a, b).lemma_cotransitive((p, q), (x, y));
            },
            (GAtom::LessMset(a, b), GAtom::LessMset(p, q), GAtom::LessMset(x, y)) => {
                (a, b).lemma_cotransitive((p, q), (x, y));
            },
            (GAtom::Last(a), GAtom::Last(p), GAtom::Last(x)) => {
                a.lemma_cotransitive(p, x);
            },
            (GAtom::Pred(f), GAtom::Pred(g), GAtom::Pred(h)) => {
                f.lemma_cotransitive(g, h);
            },
            _ => {},
        }
    }
}

impl Total for GAtom {
    proof fn lemma_total(self, other: Self) {
        match (self, other) {
            (GAtom::Action(f, t), GAtom::Action(g, u)) => {
                t.lemma_total(u);
                f.lemma_total(g);
            },
            (GAtom::Eq(a, b), GAtom::Eq(p, q)) => {
                (a, b).lemma_total((p, q));
            },
            (GAtom::Subterm(a, b), GAtom::Subterm(p, q)) => {
                (a, b).lemma_total((p, q));
            },
            (GAtom::Less(a, b), GAtom::Less(p, q)) => {
                (a, b).lemma_total((p, q));
            },
            (GAtom::LessMset(a, b), GAtom::LessMset(p, q)) => {
                (a, b).lemma_total((p, q));
            },
            (GAtom::Last(a), GAtom::Last(p)) => {
                a.lemma_total(p);
            },
            (GAtom::Pred(f), GAtom::Pred(g)) => {
                f.lemma_total(g);
            },
            _ => {},
        }
    }
}

impl Ordered for Binding {
    open spec fn below(self, other: Self) -> bool {
        self.name.below(other.name) || (self.name == other.name && self.sort.rank()
            < other.sort.rank())
    }

    fn is_below(&self, other: &Self) -> (answer: bool) {
        self.name.is_below(&other.name) || (self.name.same(&other.name) && self.sort.get_rank()
            < other.sort.get_rank())
    }

    proof fn lemma_asymmetric(self, other: Self) {
        self.name.lemma_asymmetric(other.name);
    }

    proof fn lemma_cotransitive(self, mid: Self, other: Self) {
        self.name.lemma_total(mid.name);
        mid.name.lemma_total(other.name);
        if self.name.below(other.name) {
            self.name.lemma_cotransitive(mid.name, other.name);
        }
    }
}

impl Total for Binding {
    proof fn lemma_total(self, other: Self) {
        self.name.lemma_total(other.name);
    }
}

/// The order of formulas: atoms, disjunctions, conjunctions, quantifiers.
pub open spec fn guarded_below(a: Guarded, b: Guarded) -> bool
    decreases a,
{
    match (a, b) {
        (Guarded::Atom(p), Guarded::Atom(q)) => p.below(q),
        (Guarded::Atom(_), _) => true,
        (Guarded::Disj(_), Guarded::Atom(_)) => false,
        (Guarded::Disj(l), Guarded::Disj(m)) => guardeds_below(*l, *m),
        (Guarded::Disj(_), _) => true,
        (Guarded::Conj(l), Guarded::Conj(m)) => guardeds_below(*l, *m),
        (Guarded::Conj(_), Guarded::GGuarded(_, _, _, _)) => true,
        (Guarded::Conj(_), _) => false,
        (Guarded::GGuarded(q, v, g, c), Guarded::GGuarded(r, w, h, d)) => (q is All && r is Ex)
            || (q == r && (list_below(v, w) || (v == w && (list_below(g, h) || (g == h
            && guarded_below(*c, *d)))))),
        (Guarded::GGuarded(_, _, _, _), _) => false,
    }
}

/// The lexicographic order of lists of formulas.
pub open spec fn guardeds_below(a: List<Guarded>, b: List<Guarded>) -> bool
    decreases a,
{
    match (a, b) {
        (_, List::Nil) => false,
        (List::Nil, List::Cons(_, _)) => true,
        (List::Cons(g, l), List::Cons(h, m)) => guarded_below(g, h) || (g == h && guardeds_below(
            *l,
            *m,
        )),
    }
}

fn guarded_is_below(a: &Guarded, b: &Guarded) -> (r: bool)
    ensures
        r == guarded_below(*a, *b),
    decreases a,
{
    match (a, b) {
        (Guarded::Atom(p), Guarded::Atom(q)) => p.is_below(q),
        (Guarded::Atom(_), _) => true,
        (Guarded::Disj(_), Guarded::Atom(_)) => false,
        (Guarded::Disj(l), Guarded::Disj(m)) => guardeds_are_below(l, m),
        (Guarded::Disj(_), _) => true,
        (Guarded::Conj(l), Guarded::Conj(m)) => guardeds_are_below(l, m),
        (Guarded::Conj(_), Guarded::GGuarded(_, _, _, _)) => true,
        (Guarded::Conj(_), _) => false,
        (Guarded::GGuarded(q, v, g, c), Guarded::GGuarded(r, w, h, d)) => {
            let first = match (*q, *r) {
                (Quant::All, Quant::Ex) => true,
                _ => false,
            };
            first || (*q == *r && (list_is_below(v, w) || (v.same(w) && (list_is_below(g, h) || (
            g.same(h) && guarded_is_below(c, d))))))
        },
        (Guarded::GGuarded(_, _, _, _), _) => false,
    }
}

/// The lexicographic order of lists of formulas.
pub fn guardeds_are_below(a: &List<Guarded>, b: &List<Guarded>) -> (r: bool)
    ensures
        r == guardeds_below(*a, *b),
    decreases a,
{
    match (a, b) {
        (_, List::Nil) => false,
        (List::Nil, List::Cons(_, _)) => true,
        (List::Cons(g, l), List::Cons(h, m)) => guarded_is_below(g, h) || (same_guarded(g, h)
            && guardeds_are_below(l, m)),
    }
}

proof fn lemma_guarded_asymmetric(a: Guarded, b: Guarded)
    ensures
        !(guarded_below(a, b) && guarded_below(b, a)),
    decreases a,
{
    match (a, b) {
        (Guarded::Atom(p), Guarded::Atom(q)) => {
            p.lemma_asymmetric(q);
        },
        (Guarded::Disj(l), Guarded::Disj(m)) => {
            lemma_guardeds_asymmetric(*l, *m);
        },
        (Guarded::Conj(l), Guarded::Conj(m)) => {
            lemma_guardeds_asymmetric(*l, *m);
        },
        (Guarded::GGuarded(_, v, g, c), Guarded::GGuarded(_, w, h, d)) => {
            lemma_list_asymmetric(v, w);
            lemma_list_asymmetric(g, h);
            lemma_guarded_asymmetric(*c, *d);
        },
        _ => {},
    }
}

/// The order of lists of formulas is asymmetric.
pub proof fn lemma_guardeds_asymmetric(a: List<Guarded>, b: List<Guarded>)
    ensures
        !(guardeds_below(a, b) && guardeds_below(b, a)),
    decreases a,
{
    match (a, b) {
        (List::Cons(g, l), List::Cons(h, m)) => {
            lemma_guarded_asymmetric(g, h);
            lemma_guardeds_asymmetric(*l, *m);
        },
        _ => {},
    }
}

proof fn lemma_guarded_total(a: Guarded, b: Guarded)
    ensures
        guarded_below(a, b) || guarded_below(b, a) || a == b,
    decreases a,
{
    match (a, b) {
        (Guarded::Atom(p), Guarded::Atom(q)) => {
            p.lemma_total(q);
        },
        (Guarded::Disj(l), Guarded::Disj(m)) => {
            lemma_guardeds_total(*l, *m);
        },
        (Guarded::Conj(l), Guarded::Conj(m)) => {
            lemma_guardeds_total(*l, *m);
        },
        (Guarded::GGuarded(_, v, g, c), Guarded::GGuarded(_, w, h, d)) => {
            lemma_list_total(v, w);
            lemma_list_total(g, h);
            lemma_guarded_total(*c, *d);
        },
        _ => {},
    }
}

/// The order of lists of formulas is total.
pub proof fn lemma_guardeds_total(a: List<Guarded>, b: List<Guarded>)
    ensures
        guardeds_below(a, b) || guardeds_below(b, a) || a == b,
    decreases a,
{
    match (a, b) {
        (List::Cons(g, l), List::Cons(h, m)) => {
            lemma_guarded_total(g, h);
            lemma_guardeds_total(*l, *m);
        },
        _ => {},
    }
}

proof fn lemma_guarded_cotransitive(a: Guarded, b: Guarded, c: Guarded)
    requires
        guarded_below(a, c),
    ensures
        guarded_below(a, b) || guarded_below(b, c),
    decreases a,
{
    match (a, b, c) {
        (Guarded::Atom(p), Guarded::Atom(q), Guarded::Atom(r)) => {
            p.lemma_cotransitive(q, r);
        },
        (Guarded::Disj(l), Guarded::Disj(m), Guarded::Disj(n)) => {
            lemma_guardeds_cotransitive(*l, *m, *n);
        },
        (Guarded::Conj(l), Guarded::Conj(m), Guarded::Conj(n)) => {
            lemma_guardeds_cotransitive(*l, *m, *n);
        },
        (
            Guarded::GGuarded(_, v, g, d),
            Guarded::GGuarded(_, w, h, e),
            Guarded::GGuarded(_, x, i, f),
        ) => {
            lemma_list_total(v, w);
            lemma_list_total(w, x);
            lemma_list_total(g, h);
            lemma_list_total(h, i);
            if list_below(v, x) {
                lemma_list_cotransitive(v, w, x);
            }
            if list_below(g, i) {
                lemma_list_cotransitive(g, h, i);
            }
            if guarded_below(*d, *f) {
                lemma_guarded_cotransitive(*d, *e, *f);
            }
        },
        _ => {},
    }
}

/// The order of lists of formulas is a weak order.
pub proof fn lemma_guardeds_cotransitive(a: List<Guarded>, b: List<Guarded>, c: List<Guarded>)
    requires
        guardeds_below(a, c),
    ensures
        guardeds_below(a, b) || guardeds_below(b, c),
    decreases a,
{
    match (a, b, c) {
        (List::Cons(x, l), List::Cons(y, m), List::Cons(z, n)) => {
            lemma_guarded_total(x, y);
            if guarded_below(x, z) {
                lemma_guarded_cotransitive(x, y, z);
            } else {
                lemma_guardeds_cotransitive(*l, *m, *n);
            }
        },
        _ => {},
    }
}

impl Ordered for Guarded {
    open spec fn below(self, other: Self) -> bool {
        guarded_below(self, other)
    }

    fn is_below(&self, other: &Self) -> (answer: bool) {
        guarded_is_below(self, other)
    }

    proof fn lemma_asymmetric(self, other: Self) {
        lemma_guarded_asymmetric(self, other);
    }

    proof fn lemma_cotransitive(self, mid: Self, other: Self) {
        lemma_guarded_cotransitive(self, mid, other);
    }
}

impl Total for Guarded {
    proof fn lemma_total(self, other: Self) {
        lemma_guarded_total(self, other);
    }
}

/// The formula that never holds: the empty disjunction.
pub open spec fn bottom() -> Guarded {
    Guarded::Disj(Box::new(List::Nil))
}

/// The formula that always holds: the empty conjunction.
pub open spec fn top() -> Guarded {
    Guarded::Conj(Box::new(List::Nil))
}

pub fn gfalse() -> (r: Guarded)
    ensures
        r == bottom(),
{
    Guarded::Disj(Box::new(List::Nil))
}

pub fn gtrue() -> (r: Guarded)
    ensures
        r == top(),
{
    Guarded::Conj(Box::new(List::Nil))
}

/// The conjuncts of nested conjunctions.
pub open spec fn conjuncts(g: Guarded) -> List<Guarded>
    decreases g,
{
    match g {
        Guarded::Conj(l) => all_conjuncts(*l),
        _ => List::one(g),
    }
}

pub open spec fn all_conjuncts(l: List<Guarded>) -> List<Guarded>
    decreases l,
{
    match l {
        List::Nil => List::Nil,
        List::Cons(g, rest) => conjuncts(g).then_all(all_conjuncts(*rest)),
    }
}

/// The disjuncts of nested disjunctions.
pub open spec fn disjuncts(g: Guarded) -> List<Guarded>
    decreases g,
{
    match g {
        Guarded::Disj(l) => all_disjuncts(*l),
        _ => List::one(g),
    }
}

pub open spec fn all_disjuncts(l: List<Guarded>) -> List<Guarded>
    decreases l,
{
    match l {
        List::Nil => List::Nil,
        List::Cons(g, rest) => disjuncts(g).then_all(all_disjuncts(*rest)),
    }
}

fn list_conjuncts(g: &Guarded) -> (r: List<Guarded>)
    ensures
        r == conjuncts(*g),
    decreases g,
{
    match g {
        Guarded::Conj(l) => list_all_conjuncts(l),
        _ => List::single(g.dup()),
    }
}

fn list_all_conjuncts(l: &List<Guarded>) -> (r: List<Guarded>)
    ensures
        r == all_conjuncts(*l),
    decreases l,
{
    match l {
        List::Nil => List::Nil,
        List::Cons(g, rest) => list_conjuncts(g).concat(list_all_conjuncts(rest)),
    }
}

fn list_disjuncts(g: &Guarded) -> (r: List<Guarded>)
    ensures
        r == disjuncts(*g),
    decreases g,
{
    match g {
        Guarded::Disj(l) => list_all_disjuncts(l),
        _ => List::single(g.dup()),
    }
}

fn list_all_disjuncts(l: &List<Guarded>) -> (r: List<Guarded>)
    ensures
        r == all_disjuncts(*l),
    decreases l,
{
    match l {
        List::Nil => List::Nil,
        List::Cons(g, rest) => list_disjuncts(g).concat(list_all_disjuncts(rest)),
    }
}

/// The conjunction of the formulas: nested conjunctions are flattened, a
/// single conjunct stands for itself, falsity absorbs, and every conjunct is
/// kept once.
pub open spec fn conjunction(l: List<Guarded>) -> Guarded {
    let flat = all_conjuncts(l);
    match flat.only() {
        Some(g) => g,
        None => if flat.has(bottom()) {
            bottom()
        } else {
            Guarded::Conj(Box::new(flat.nub()))
        },
    }
}

/// The disjunction of the formulas, dually.
pub open spec fn disjunction(l: List<Guarded>) -> Guarded {
    let flat = all_disjuncts(l);
    match flat.only() {
        Some(g) => g,
        None => if flat.has(top()) {
            top()
        } else {
            Guarded::Disj(Box::new(flat.nub()))
        },
    }
}

pub fn gconj(l: &List<Guarded>) -> (r: Guarded)
    ensures
        r == conjunction(*l),
{
    let flat = list_all_conjuncts(l);
    match flat.get_only() {
        Some(g) => g,
        None => if flat.contains(&gfalse()) {
            gfalse()
        } else {
            Guarded::Conj(Box::new(flat.dedup()))
        },
    }
}

pub fn gdisj(l: &List<Guarded>) -> (r: Guarded)
    ensures
        r == disjunction(*l),
{
    let flat = list_all_disjuncts(l);
    match flat.get_only() {
        Some(g) => g,
        None => if flat.contains(&gtrue()) {
            gtrue()
        } else {
            Guarded::Disj(Box::new(flat.dedup()))
        },
    }
}

/// The formula with its connectives flattened and every operand kept once.
pub open spec fn normal(g: Guarded) -> Guarded
    decreases g,
{
    match g {
        Guarded::Atom(_) => g,
        Guarded::Conj(l) => conjunction(all_normal(*l)),
        Guarded::Disj(l) => disjunction(all_normal(*l)),
        Guarded::GGuarded(q, vars, guards, body) => Guarded::GGuarded(
            q,
            vars,
            guards,
            Box::new(normal(*body)),
        ),
    }
}

pub open spec fn all_normal(l: List<Guarded>) -> List<Guarded>
    decreases l,
{
    match l {
        List::Nil => List::Nil,
        List::Cons(g, rest) => List::Cons(normal(g), Box::new(all_normal(*rest))),
    }
}

/// The formula in the form in which formulas are stored.
pub fn normalise_stored_formula(g: &Guarded) -> (r: Guarded)
    ensures
        r == normal(*g),
    decreases g,
{
    match g {
        Guarded::Atom(_) => g.dup(),
        Guarded::Conj(l) => gconj(&normalise_all(l)),
        Guarded::Disj(l) => gdisj(&normalise_all(l)),
        Guarded::GGuarded(q, vars, guards, body) => Guarded::GGuarded(
            *q,
            vars.dup(),
            guards.dup(),
            Box::new(normalise_stored_formula(body)),
        ),
    }
}

fn normalise_all(l: &List<Guarded>) -> (r: List<Guarded>)
    ensures
        r == all_normal(*l),
    decreases l,
{
    match l {
        List::Nil => List::Nil,
        List::Cons(g, rest) => List::Cons(
            normalise_stored_formula(g),
            Box::new(normalise_all(rest)),
        ),
    }
}

/// The alternatives of a disjunction in stored form.
pub open spec fn normal_alternatives(l: List<Guarded>) -> List<Guarded> {
    all_disjuncts(all_normal(l)).nub()
}

pub fn normalise_disj_list(l: &List<Guarded>) -> (r: List<Guarded>)
    ensures
        r == normal_alternatives(*l),
{
    list_all_disjuncts(&normalise_all(l)).dedup()
}

} // verus!
