//! What renumbering keeps, and what it does not depend on.
use crate::constraints::{
    Edge,
    EqDisj,
    EquationStore,
    Goal,
    GoalStatus,
    LessAtom,
    SubtermConstraint,
    SubtermStore,
};
use crate::facts::{Fact, RuleACInst};
use crate::guarded::{guarded_below, guardeds_below, GAtom, Guarded};
use crate::leaves::{
    atom_frees, atoms_frees, deeper, guarded_frees, guardeds_frees, mapped_atom, mapped_atoms, mapped_fact,
    mapped_facts, mapped_guarded, mapped_guardeds, mapped_rule, mapped_term, mapped_terms, Leaves,
};
use crate::list::{find, list_below, List, Ordered, Total};
use crate::list_laws::{
    all, lemma_all_and, lemma_all_sorted, lemma_all_then, lemma_has_snoc,
};
use crate::rename_precise::{
    both, constraint_vars, counted, disj_vars, domain_vars, edge_vars, goal_vars, goals_vars,
    last_vars, less_vars, node_vars, pair_vars, precise, renamed_constraints, renamed_disjs,
    renamed_domain, renamed_domains, renamed_edges, renamed_equations, renamed_goal, renamed_goals,
    renamed_lesses, renamed_nodes, renamed_pairs, renamed_store, renamed_subst, renamed_system,
    subst_vars, system_namer, Namer, Rename, Renaming,
};
use crate::rules::{domain, facts_frees, rule_frees};
use crate::system::System;
use crate::term_ops::{after, term_frees, terms_frees, Subst};
use crate::terms::{term_below, terms_below, LVar, Term};
use crate::text::Text;
use vstd::prelude::*;

verus! {

/// New variables for variables.
pub struct Renumber {
    pub to: Ghost<spec_fn(LVar) -> LVar>,
}

impl Leaves for Renumber {
    open spec fn image(&self, depth: u64, t: Term) -> Term {
        match t {
            Term::Var(v) => Term::Var((self.to@)(v)),
            _ => t,
        }
    }

    open spec fn rebuilds(&self) -> bool {
        false
    }
}

/// The renumbering by `f`.
pub open spec fn numbering(f: spec_fn(LVar) -> LVar) -> Renumber {
    Renumber { to: Ghost(f) }
}

/// Whether `f` keeps the names, the sorts and the order of the variables in `d`.
pub open spec fn keeps_order(f: spec_fn(LVar) -> LVar, d: spec_fn(LVar) -> bool) -> bool {
    &&& forall|v: LVar, w: LVar|
        #![trigger d(v), d(w)]
        d(v) && d(w) ==> v.below(w) == f(v).below(f(w))
    &&& forall|v: LVar| #[trigger] d(v) ==> f(v).name == v.name && f(v).sort == v.sort
}

proof fn lemma_injective(f: spec_fn(LVar) -> LVar, d: spec_fn(LVar) -> bool, v: LVar, w: LVar)
    requires
        keeps_order(f, d),
        d(v),
        d(w),
    ensures
        (f(v) == f(w)) == (v == w),
{
    v.lemma_total(w);
    f(v).lemma_asymmetric(f(w));
}

/// The list with `g` applied to its elements.
pub open spec fn each<T>(l: List<T>, g: spec_fn(T) -> T) -> List<T>
    decreases l,
{
    match l {
        List::Nil => List::Nil,
        List::Cons(x, rest) => List::Cons(g(x), Box::new(each(*rest, g))),
    }
}

pub proof fn lemma_each_then<T>(a: List<T>, b: List<T>, g: spec_fn(T) -> T)
    ensures
        each(a.then_all(b), g) == each(a, g).then_all(each(b, g)),
    decreases a,
{
    match a {
        List::Nil => {},
        List::Cons(_, rest) => {
            lemma_each_then(*rest, b, g);
        },
    }
}

/// Whether `g` keeps the order of the values of which `p` holds.
pub open spec fn monotone<T: Ordered>(g: spec_fn(T) -> T, p: spec_fn(T) -> bool) -> bool {
    forall|x: T, y: T| #![trigger p(x), p(y)] p(x) && p(y) ==> x.below(y) == g(x).below(g(y))
}

proof fn lemma_each_with_sorted<T: Ordered>(
    l: List<T>,
    x: T,
    g: spec_fn(T) -> T,
    p: spec_fn(T) -> bool,
)
    requires
        monotone(g, p),
        all(l, p),
        p(x),
    ensures
        each(l.with_sorted(x), g) == each(l, g).with_sorted(g(x)),
    decreases l,
{
    match l {
        List::Nil => {
            assert(each(List::<T>::Nil, g) == List::<T>::Nil);
        },
        List::Cons(y, rest) => {
            assert(p(y) && p(x));
            if y.below(x) {
                lemma_each_with_sorted(*rest, x, g, p);
            }
        },
    }
}

/// Sorting goes along with a function that keeps the order.
proof fn lemma_each_sorted<T: Ordered>(l: List<T>, g: spec_fn(T) -> T, p: spec_fn(T) -> bool)
    requires
        monotone(g, p),
        all(l, p),
    ensures
        each(l, g).sorted() == each(l.sorted(), g),
    decreases l,
{
    match l {
        List::Nil => {},
        List::Cons(x, rest) => {
            lemma_each_sorted(*rest, g, p);
            lemma_all_sorted(*rest, p);
            lemma_each_with_sorted(rest.sorted(), x, g, p);
        },
    }
}

/// The free variables of a renumbered term are the renumbered ones.
proof fn lemma_term_frees(f: spec_fn(LVar) -> LVar, depth: u64, t: Term)
    ensures
        term_frees(mapped_term(numbering(f), depth, t)) == each(term_frees(t), f),
    decreases t,
{
    match t {
        Term::Var(v) => {
            assert(each(List::Nil, f) == List::<LVar>::Nil);
        },
        Term::App(_, args) => {
            lemma_terms_frees(f, depth, *args);
        },
        _ => {},
    }
}

proof fn lemma_terms_frees(f: spec_fn(LVar) -> LVar, depth: u64, l: List<Term>)
    ensures
        terms_frees(mapped_terms(numbering(f), depth, l)) == each(terms_frees(l), f),
    decreases l,
{
    match l {
        List::Nil => {},
        List::Cons(t, rest) => {
            lemma_term_frees(f, depth, t);
            lemma_terms_frees(f, depth, *rest);
            lemma_each_then(term_frees(t), terms_frees(*rest), f);
        },
    }
}

proof fn lemma_facts_frees(f: spec_fn(LVar) -> LVar, l: List<Fact>)
    ensures
        facts_frees(mapped_facts(numbering(f), l)) == each(facts_frees(l), f),
    decreases l,
{
    match l {
        List::Nil => {},
        List::Cons(fa, rest) => {
            lemma_terms_frees(f, 0, fa.terms);
            lemma_facts_frees(f, *rest);
            lemma_each_then(terms_frees(fa.terms), facts_frees(*rest), f);
        },
    }
}

pub proof fn lemma_rule_frees(f: spec_fn(LVar) -> LVar, ru: RuleACInst)
    ensures
        rule_frees(mapped_rule(numbering(f), ru)) == each(rule_frees(ru), f),
{
    lemma_facts_frees(f, ru.premises);
    lemma_facts_frees(f, ru.conclusions);
    lemma_facts_frees(f, ru.actions);
    lemma_terms_frees(f, 0, ru.new_vars);
    lemma_each_then(facts_frees(ru.actions), terms_frees(ru.new_vars), f);
    lemma_each_then(
        facts_frees(ru.conclusions),
        facts_frees(ru.actions).then_all(terms_frees(ru.new_vars)),
        f,
    );
    lemma_each_then(
        facts_frees(ru.premises),
        facts_frees(ru.conclusions).then_all(
            facts_frees(ru.actions).then_all(terms_frees(ru.new_vars)),
        ),
        f,
    );
}

proof fn lemma_atom_frees(f: spec_fn(LVar) -> LVar, depth: u64, a: GAtom)
    ensures
        atom_frees(mapped_atom(numbering(f), depth, a)) == each(atom_frees(a), f),
{
    match a {
        GAtom::Eq(s, t) => {
            lemma_term_frees(f, depth, s);
            lemma_term_frees(f, depth, t);
            lemma_each_then(term_frees(s), term_frees(t), f);
        },
        GAtom::Less(s, t) => {
            lemma_term_frees(f, depth, s);
            lemma_term_frees(f, depth, t);
            lemma_each_then(term_frees(s), term_frees(t), f);
        },
        GAtom::Subterm(s, t) => {
            lemma_term_frees(f, depth, s);
            lemma_term_frees(f, depth, t);
            lemma_each_then(term_frees(s), term_frees(t), f);
        },
        GAtom::LessMset(s, t) => {
            lemma_term_frees(f, depth, s);
            lemma_term_frees(f, depth, t);
            lemma_each_then(term_frees(s), term_frees(t), f);
        },
        GAtom::Last(t) => {
            lemma_term_frees(f, depth, t);
        },
        GAtom::Action(fa, t) => {
            lemma_term_frees(f, depth, t);
            lemma_terms_frees(f, depth, fa.terms);
            lemma_each_then(term_frees(t), terms_frees(fa.terms), f);
        },
        GAtom::Pred(fa) => {
            lemma_terms_frees(f, depth, fa.terms);
        },
    }
}

proof fn lemma_atoms_frees(f: spec_fn(LVar) -> LVar, depth: u64, l: List<GAtom>)
    ensures
        atoms_frees(mapped_atoms(numbering(f), depth, l)) == each(atoms_frees(l), f),
    decreases l,
{
    match l {
        List::Nil => {},
        List::Cons(a, rest) => {
            lemma_atom_frees(f, depth, a);
            lemma_atoms_frees(f, depth, *rest);
            lemma_each_then(atom_frees(a), atoms_frees(*rest), f);
        },
    }
}

proof fn lemma_guarded_frees(f: spec_fn(LVar) -> LVar, depth: u64, g: Guarded)
    ensures
        guarded_frees(mapped_guarded(numbering(f), depth, g)) == each(guarded_frees(g), f),
    decreases g,
{
    match g {
        Guarded::Atom(a) => {
            lemma_atom_frees(f, depth, a);
        },
        Guarded::Disj(l) => {
            lemma_guardeds_frees(f, depth, *l);
        },
        Guarded::Conj(l) => {
            lemma_guardeds_frees(f, depth, *l);
        },
        Guarded::GGuarded(_, vars, guards, body) => {
            let inner = deeper(depth, vars);
            lemma_atoms_frees(f, inner, guards);
            lemma_guarded_frees(f, inner, *body);
            lemma_each_then(atoms_frees(guards), guarded_frees(*body), f);
        },
    }
}

proof fn lemma_guardeds_frees(f: spec_fn(LVar) -> LVar, depth: u64, l: List<Guarded>)
    ensures
        guardeds_frees(mapped_guardeds(numbering(f), depth, l)) == each(guardeds_frees(l), f),
    decreases l,
{
    match l {
        List::Nil => {},
        List::Cons(g, rest) => {
            lemma_guarded_frees(f, depth, g);
            lemma_guardeds_frees(f, depth, *rest);
            lemma_each_then(guarded_frees(g), guardeds_frees(*rest), f);
        },
    }
}

/// Renumbering keeps the order of terms.
pub proof fn lemma_term_order(
    f: spec_fn(LVar) -> LVar,
    d: spec_fn(LVar) -> bool,
    depth: u64,
    a: Term,
    b: Term,
)
    requires
        keeps_order(f, d),
        all(term_frees(a), d),
        all(term_frees(b), d),
    ensures
        term_below(
            mapped_term(numbering(f), depth, a),
            mapped_term(numbering(f), depth, b),
        ) == term_below(a, b),
        (mapped_term(numbering(f), depth, a) == mapped_term(numbering(f), depth, b)) == (a == b),
    decreases a,
{
    match (a, b) {
        (Term::Var(v), Term::Var(w)) => {
            assert(d(v) && d(w));
            lemma_injective(f, d, v, w);
        },
        (Term::App(_, s), Term::App(_, t)) => {
            lemma_terms_order(f, d, depth, *s, *t);
        },
        _ => {},
    }
}

proof fn lemma_terms_order(
    f: spec_fn(LVar) -> LVar,
    d: spec_fn(LVar) -> bool,
    depth: u64,
    a: List<Term>,
    b: List<Term>,
)
    requires
        keeps_order(f, d),
        all(terms_frees(a), d),
        all(terms_frees(b), d),
    ensures
        terms_below(
            mapped_terms(numbering(f), depth, a),
            mapped_terms(numbering(f), depth, b),
        ) == terms_below(a, b),
        (mapped_terms(numbering(f), depth, a) == mapped_terms(numbering(f), depth, b)) == (a == b),
    decreases a,
{
    match (a, b) {
        (List::Cons(s, l), List::Cons(t, m)) => {
            lemma_all_then(term_frees(s), terms_frees(*l), d);
            lemma_all_then(term_frees(t), terms_frees(*m), d);
            lemma_term_order(f, d, depth, s, t);
            lemma_terms_order(f, d, depth, *l, *m);
        },
        _ => {},
    }
}

proof fn lemma_fact_order(
    f: spec_fn(LVar) -> LVar,
    d: spec_fn(LVar) -> bool,
    depth: u64,
    a: Fact,
    b: Fact,
)
    requires
        keeps_order(f, d),
        all(terms_frees(a.terms), d),
        all(terms_frees(b.terms), d),
    ensures
        mapped_fact(numbering(f), depth, a).below(
            mapped_fact(numbering(f), depth, b),
        ) == a.below(b),
        (mapped_fact(numbering(f), depth, a) == mapped_fact(numbering(f), depth, b)) == (a == b),
{
    lemma_terms_order(f, d, depth, a.terms, b.terms);
}

proof fn lemma_atom_order(
    f: spec_fn(LVar) -> LVar,
    d: spec_fn(LVar) -> bool,
    depth: u64,
    a: GAtom,
    b: GAtom,
)
    requires
        keeps_order(f, d),
        all(atom_frees(a), d),
        all(atom_frees(b), d),
    ensures
        mapped_atom(numbering(f), depth, a).below(
            mapped_atom(numbering(f), depth, b),
        ) == a.below(b),
        (mapped_atom(numbering(f), depth, a) == mapped_atom(numbering(f), depth, b)) == (a == b),
{
    match (a, b) {
        (GAtom::Eq(s, t), GAtom::Eq(u, v)) => {
            lemma_all_then(term_frees(s), term_frees(t), d);
            lemma_all_then(term_frees(u), term_frees(v), d);
            lemma_term_order(f, d, depth, s, u);
            lemma_term_order(f, d, depth, t, v);
        },
        (GAtom::Less(s, t), GAtom::Less(u, v)) => {
            lemma_all_then(term_frees(s), term_frees(t), d);
            lemma_all_then(term_frees(u), term_frees(v), d);
            lemma_term_order(f, d, depth, s, u);
            lemma_term_order(f, d, depth, t, v);
        },
        (GAtom::Subterm(s, t), GAtom::Subterm(u, v)) => {
            lemma_all_then(term_frees(s), term_frees(t), d);
            lemma_all_then(term_frees(u), term_frees(v), d);
            lemma_term_order(f, d, depth, s, u);
            lemma_term_order(f, d, depth, t, v);
        },
        (GAtom::LessMset(s, t), GAtom::LessMset(u, v)) => {
            lemma_all_then(term_frees(s), term_frees(t), d);
            lemma_all_then(term_frees(u), term_frees(v), d);
            lemma_term_order(f, d, depth, s, u);
            lemma_term_order(f, d, depth, t, v);
        },
        (GAtom::Last(t), GAtom::Last(u)) => {
            lemma_term_order(f, d, depth, t, u);
        },
        (GAtom::Action(fa, t), GAtom::Action(fb, u)) => {
            lemma_all_then(term_frees(t), terms_frees(fa.terms), d);
            lemma_all_then(term_frees(u), terms_frees(fb.terms), d);
            lemma_term_order(f, d, depth, t, u);
            lemma_fact_order(f, d, depth, fa, fb);
        },
        (GAtom::Pred(fa), GAtom::Pred(fb)) => {
            lemma_fact_order(f, d, depth, fa, fb);
        },
        _ => {},
    }
}

proof fn lemma_atoms_order(
    f: spec_fn(LVar) -> LVar,
    d: spec_fn(LVar) -> bool,
    depth: u64,
    a: List<GAtom>,
    b: List<GAtom>,
)
    requires
        keeps_order(f, d),
        all(atoms_frees(a), d),
        all(atoms_frees(b), d),
    ensures
        list_below(
            mapped_atoms(numbering(f), depth, a),
            mapped_atoms(numbering(f), depth, b),
        ) == list_below(a, b),
        (mapped_atoms(numbering(f), depth, a) == mapped_atoms(numbering(f), depth, b)) == (a == b),
    decreases a,
{
    match (a, b) {
        (List::Cons(x, l), List::Cons(y, m)) => {
            lemma_all_then(atom_frees(x), atoms_frees(*l), d);
            lemma_all_then(atom_frees(y), atoms_frees(*m), d);
            lemma_atom_order(f, d, depth, x, y);
            lemma_atoms_order(f, d, depth, *l, *m);
        },
        _ => {},
    }
}

proof fn lemma_guarded_order(
    f: spec_fn(LVar) -> LVar,
    d: spec_fn(LVar) -> bool,
    depth: u64,
    a: Guarded,
    b: Guarded,
)
    requires
        keeps_order(f, d),
        all(guarded_frees(a), d),
        all(guarded_frees(b), d),
    ensures
        guarded_below(
            mapped_guarded(numbering(f), depth, a),
            mapped_guarded(numbering(f), depth, b),
        ) == guarded_below(a, b),
        (mapped_guarded(numbering(f), depth, a)
            == mapped_guarded(numbering(f), depth, b)) == (a == b),
    decreases a,
{
    match (a, b) {
        (Guarded::Atom(x), Guarded::Atom(y)) => {
            lemma_atom_order(f, d, depth, x, y);
        },
        (Guarded::Disj(l), Guarded::Disj(m)) => {
            lemma_guardeds_order(f, d, depth, *l, *m);
        },
        (Guarded::Conj(l), Guarded::Conj(m)) => {
            lemma_guardeds_order(f, d, depth, *l, *m);
        },
        (Guarded::GGuarded(_, v, g, x), Guarded::GGuarded(_, w, h, y)) => {
            lemma_all_then(atoms_frees(g), guarded_frees(*x), d);
            lemma_all_then(atoms_frees(h), guarded_frees(*y), d);
            if v == w {
                let inner = deeper(depth, v);
                lemma_atoms_order(f, d, inner, g, h);
                lemma_guarded_order(f, d, inner, *x, *y);
            }
        },
        _ => {},
    }
}

proof fn lemma_guardeds_order(
    f: spec_fn(LVar) -> LVar,
    d: spec_fn(LVar) -> bool,
    depth: u64,
    a: List<Guarded>,
    b: List<Guarded>,
)
    requires
        keeps_order(f, d),
        all(guardeds_frees(a), d),
        all(guardeds_frees(b), d),
    ensures
        guardeds_below(
            mapped_guardeds(numbering(f), depth, a),
            mapped_guardeds(numbering(f), depth, b),
        ) == guardeds_below(a, b),
        (mapped_guardeds(numbering(f), depth, a)
            == mapped_guardeds(numbering(f), depth, b)) == (a == b),
    decreases a,
{
    match (a, b) {
        (List::Cons(x, l), List::Cons(y, m)) => {
            lemma_all_then(guarded_frees(x), guardeds_frees(*l), d);
            lemma_all_then(guarded_frees(y), guardeds_frees(*m), d);
            lemma_guarded_order(f, d, depth, x, y);
            lemma_guardeds_order(f, d, depth, *l, *m);
        },
        _ => {},
    }
}

/// Whether `image` renames what `f` makes of the variables that `pairs` renames to the
/// same variables.
pub open spec fn corresponds(f: spec_fn(LVar) -> LVar, pairs: Renaming, image: Renaming) -> bool {
    forall|v: LVar| #[trigger] find(pairs, v) is Some ==> find(image, f(v)) == find(pairs, v)
}

/// The variables that are renamed.
pub open spec fn met(pairs: Renaming) -> spec_fn(LVar) -> bool {
    |v: LVar| find(pairs, v) is Some
}

/// The renaming `pairs` of leaves.
pub open spec fn leaves_to(pairs: Renaming, rebuilt: bool) -> Rename {
    Rename { pairs, rebuilt }
}

/// Renaming a renumbered term gives what renaming the term gives.
proof fn lemma_term_renamed(
    f: spec_fn(LVar) -> LVar,
    pairs: Renaming,
    image: Renaming,
    rebuilt: bool,
    depth: u64,
    t: Term,
)
    requires
        corresponds(f, pairs, image),
        all(term_frees(t), met(pairs)),
    ensures
        mapped_term(
            leaves_to(image, rebuilt),
            depth,
            mapped_term(numbering(f), depth, t),
        ) == mapped_term(leaves_to(pairs, rebuilt), depth, t),
    decreases t,
{
    match t {
        Term::Var(v) => {
            assert(met(pairs)(v));
        },
        Term::App(_, args) => {
            lemma_terms_renamed(f, pairs, image, rebuilt, depth, *args);
        },
        _ => {},
    }
}

proof fn lemma_terms_renamed(
    f: spec_fn(LVar) -> LVar,
    pairs: Renaming,
    image: Renaming,
    rebuilt: bool,
    depth: u64,
    l: List<Term>,
)
    requires
        corresponds(f, pairs, image),
        all(terms_frees(l), met(pairs)),
    ensures
        mapped_terms(
            leaves_to(image, rebuilt),
            depth,
            mapped_terms(numbering(f), depth, l),
        ) == mapped_terms(leaves_to(pairs, rebuilt), depth, l),
    decreases l,
{
    match l {
        List::Nil => {},
        List::Cons(t, rest) => {
            lemma_all_then(term_frees(t), terms_frees(*rest), met(pairs));
            lemma_term_renamed(f, pairs, image, rebuilt, depth, t);
            lemma_terms_renamed(f, pairs, image, rebuilt, depth, *rest);
        },
    }
}

proof fn lemma_facts_renamed(
    f: spec_fn(LVar) -> LVar,
    pairs: Renaming,
    image: Renaming,
    rebuilt: bool,
    l: List<Fact>,
)
    requires
        corresponds(f, pairs, image),
        all(facts_frees(l), met(pairs)),
    ensures
        mapped_facts(
            leaves_to(image, rebuilt),
            mapped_facts(numbering(f), l),
        ) == mapped_facts(leaves_to(pairs, rebuilt), l),
    decreases l,
{
    match l {
        List::Nil => {},
        List::Cons(fa, rest) => {
            lemma_all_then(terms_frees(fa.terms), facts_frees(*rest), met(pairs));
            lemma_terms_renamed(f, pairs, image, rebuilt, 0, fa.terms);
            lemma_facts_renamed(f, pairs, image, rebuilt, *rest);
        },
    }
}

proof fn lemma_rule_renamed(
    f: spec_fn(LVar) -> LVar,
    pairs: Renaming,
    image: Renaming,
    rebuilt: bool,
    ru: RuleACInst,
)
    requires
        corresponds(f, pairs, image),
        all(rule_frees(ru), met(pairs)),
    ensures
        mapped_rule(
            leaves_to(image, rebuilt),
            mapped_rule(numbering(f), ru),
        ) == mapped_rule(leaves_to(pairs, rebuilt), ru),
{
    let p = met(pairs);
    let last = facts_frees(ru.actions).then_all(terms_frees(ru.new_vars));
    lemma_all_then(facts_frees(ru.premises), facts_frees(ru.conclusions).then_all(last), p);
    lemma_all_then(facts_frees(ru.conclusions), last, p);
    lemma_all_then(facts_frees(ru.actions), terms_frees(ru.new_vars), p);
    lemma_facts_renamed(f, pairs, image, rebuilt, ru.premises);
    lemma_facts_renamed(f, pairs, image, rebuilt, ru.conclusions);
    lemma_facts_renamed(f, pairs, image, rebuilt, ru.actions);
    lemma_terms_renamed(f, pairs, image, rebuilt, 0, ru.new_vars);
}

proof fn lemma_atom_renamed(
    f: spec_fn(LVar) -> LVar,
    pairs: Renaming,
    image: Renaming,
    rebuilt: bool,
    depth: u64,
    a: GAtom,
)
    requires
        corresponds(f, pairs, image),
        all(atom_frees(a), met(pairs)),
    ensures
        mapped_atom(
            leaves_to(image, rebuilt),
            depth,
            mapped_atom(numbering(f), depth, a),
        ) == mapped_atom(leaves_to(pairs, rebuilt), depth, a),
{
    match a {
        GAtom::Eq(s, t) => {
            lemma_all_then(term_frees(s), term_frees(t), met(pairs));
            lemma_term_renamed(f, pairs, image, rebuilt, depth, s);
            lemma_term_renamed(f, pairs, image, rebuilt, depth, t);
        },
        GAtom::Less(s, t) => {
            lemma_all_then(term_frees(s), term_frees(t), met(pairs));
            lemma_term_renamed(f, pairs, image, rebuilt, depth, s);
            lemma_term_renamed(f, pairs, image, rebuilt, depth, t);
        },
        GAtom::Subterm(s, t) => {
            lemma_all_then(term_frees(s), term_frees(t), met(pairs));
            lemma_term_renamed(f, pairs, image, rebuilt, depth, s);
            lemma_term_renamed(f, pairs, image, rebuilt, depth, t);
        },
        GAtom::LessMset(s, t) => {
            lemma_all_then(term_frees(s), term_frees(t), met(pairs));
            lemma_term_renamed(f, pairs, image, rebuilt, depth, s);
            lemma_term_renamed(f, pairs, image, rebuilt, depth, t);
        },
        GAtom::Last(t) => {
            lemma_term_renamed(f, pairs, image, rebuilt, depth, t);
        },
        GAtom::Action(fa, t) => {
            lemma_all_then(term_frees(t), terms_frees(fa.terms), met(pairs));
            lemma_term_renamed(f, pairs, image, rebuilt, depth, t);
            lemma_terms_renamed(f, pairs, image, rebuilt, depth, fa.terms);
        },
        GAtom::Pred(fa) => {
            lemma_terms_renamed(f, pairs, image, rebuilt, depth, fa.terms);
        },
    }
}

proof fn lemma_atoms_renamed(
    f: spec_fn(LVar) -> LVar,
    pairs: Renaming,
    image: Renaming,
    rebuilt: bool,
    depth: u64,
    l: List<GAtom>,
)
    requires
        corresponds(f, pairs, image),
        all(atoms_frees(l), met(pairs)),
    ensures
        mapped_atoms(
            leaves_to(image, rebuilt),
            depth,
            mapped_atoms(numbering(f), depth, l),
        ) == mapped_atoms(leaves_to(pairs, rebuilt), depth, l),
    decreases l,
{
    match l {
        List::Nil => {},
        List::Cons(a, rest) => {
            lemma_all_then(atom_frees(a), atoms_frees(*rest), met(pairs));
            lemma_atom_renamed(f, pairs, image, rebuilt, depth, a);
            lemma_atoms_renamed(f, pairs, image, rebuilt, depth, *rest);
        },
    }
}

proof fn lemma_guarded_renamed(
    f: spec_fn(LVar) -> LVar,
    pairs: Renaming,
    image: Renaming,
    rebuilt: bool,
    depth: u64,
    g: Guarded,
)
    requires
        corresponds(f, pairs, image),
        all(guarded_frees(g), met(pairs)),
    ensures
        mapped_guarded(
            leaves_to(image, rebuilt),
            depth,
            mapped_guarded(numbering(f), depth, g),
        ) == mapped_guarded(leaves_to(pairs, rebuilt), depth, g),
    decreases g,
{
    match g {
        Guarded::Atom(a) => {
            lemma_atom_renamed(f, pairs, image, rebuilt, depth, a);
        },
        Guarded::Disj(l) => {
            lemma_guardeds_renamed(f, pairs, image, rebuilt, depth, *l);
        },
        Guarded::Conj(l) => {
            lemma_guardeds_renamed(f, pairs, image, rebuilt, depth, *l);
        },
        Guarded::GGuarded(_, vars, guards, body) => {
            let inner = deeper(depth, vars);
            lemma_all_then(atoms_frees(guards), guarded_frees(*body), met(pairs));
            lemma_atoms_renamed(f, pairs, image, rebuilt, inner, guards);
            lemma_guarded_renamed(f, pairs, image, rebuilt, inner, *body);
        },
    }
}

proof fn lemma_guardeds_renamed(
    f: spec_fn(LVar) -> LVar,
    pairs: Renaming,
    image: Renaming,
    rebuilt: bool,
    depth: u64,
    l: List<Guarded>,
)
    requires
        corresponds(f, pairs, image),
        all(guardeds_frees(l), met(pairs)),
    ensures
        mapped_guardeds(
            leaves_to(image, rebuilt),
            depth,
            mapped_guardeds(numbering(f), depth, l),
        ) == mapped_guardeds(leaves_to(pairs, rebuilt), depth, l),
    decreases l,
{
    match l {
        List::Nil => {},
        List::Cons(g, rest) => {
            lemma_all_then(guarded_frees(g), guardeds_frees(*rest), met(pairs));
            lemma_guarded_renamed(f, pairs, image, rebuilt, depth, g);
            lemma_guardeds_renamed(f, pairs, image, rebuilt, depth, *rest);
        },
    }
}

/// A node under new numbers.
pub open spec fn node_to(f: spec_fn(LVar) -> LVar) -> spec_fn((LVar, RuleACInst)) -> (LVar, RuleACInst) {
    |n: (LVar, RuleACInst)| (f(n.0), mapped_rule(numbering(f), n.1))
}

/// An edge under new numbers.
pub open spec fn edge_to(f: spec_fn(LVar) -> LVar) -> spec_fn(Edge) -> Edge {
    |e: Edge| Edge { src: (f(e.src.0), e.src.1), tgt: (f(e.tgt.0), e.tgt.1) }
}

/// An ordering under new numbers.
pub open spec fn less_to(f: spec_fn(LVar) -> LVar) -> spec_fn(LessAtom) -> LessAtom {
    |a: LessAtom| LessAtom { smaller: f(a.smaller), larger: f(a.larger), reason: a.reason }
}

/// A pair of terms under new numbers.
pub open spec fn pair_to(f: spec_fn(LVar) -> LVar) -> spec_fn((Term, Term)) -> (Term, Term) {
    |p: (Term, Term)| (mapped_term(numbering(f), 0, p.0), mapped_term(numbering(f), 0, p.1))
}

/// A subterm constraint under new numbers.
pub open spec fn constraint_to(f: spec_fn(LVar) -> LVar) -> spec_fn(SubtermConstraint) -> SubtermConstraint {
    |c: SubtermConstraint|
        SubtermConstraint {
            small: mapped_term(numbering(f), 0, c.small),
            big: mapped_term(numbering(f), 0, c.big),
            propagated: c.propagated,
        }
}

/// An equation under new numbers.
pub open spec fn equation_to(f: spec_fn(LVar) -> LVar) -> spec_fn((LVar, Term)) -> (LVar, Term) {
    |p: (LVar, Term)| (f(p.0), mapped_term(numbering(f), 0, p.1))
}

/// An entry of a disjunction under new numbers; the variables of its range are
/// its own.
pub open spec fn entry_to(f: spec_fn(LVar) -> LVar) -> spec_fn((LVar, Term)) -> (LVar, Term) {
    |p: (LVar, Term)| (f(p.0), p.1)
}

/// A substitution of a disjunction under new numbers.
pub open spec fn subst_to(f: spec_fn(LVar) -> LVar) -> spec_fn(Subst) -> Subst {
    |s: Subst| each(s, entry_to(f))
}

/// A disjunction under new numbers.
pub open spec fn disj_to(f: spec_fn(LVar) -> LVar) -> spec_fn(EqDisj) -> EqDisj {
    |x: EqDisj| EqDisj { split_id: x.split_id, substs: each(x.substs, subst_to(f)) }
}

/// A formula under new numbers.
pub open spec fn formula_to(f: spec_fn(LVar) -> LVar) -> spec_fn(Guarded) -> Guarded {
    |g: Guarded| mapped_guarded(numbering(f), 0, g)
}

/// A goal under new numbers.
pub open spec fn renumbered_goal(f: spec_fn(LVar) -> LVar, g: Goal) -> Goal {
    match g {
        Goal::Action(i, fa) => Goal::Action(f(i), mapped_fact(numbering(f), 0, fa)),
        Goal::Premise(p, fa) => Goal::Premise((f(p.0), p.1), mapped_fact(numbering(f), 0, fa)),
        Goal::Chain(c, p) => Goal::Chain((f(c.0), c.1), (f(p.0), p.1)),
        Goal::Disj(l) => Goal::Disj(mapped_guardeds(numbering(f), 0, l)),
        Goal::Split(id) => Goal::Split(id),
        Goal::Subterm(s, t) => Goal::Subterm(
            mapped_term(numbering(f), 0, s),
            mapped_term(numbering(f), 0, t),
        ),
    }
}

/// A goal with its status under new numbers.
pub open spec fn goal_to(f: spec_fn(LVar) -> LVar) -> spec_fn((Goal, GoalStatus)) -> (Goal, GoalStatus) {
    |g: (Goal, GoalStatus)| (renumbered_goal(f, g.0), g.1)
}

/// The system under new numbers.
pub open spec fn renumbered(f: spec_fn(LVar) -> LVar, sys: System) -> System {
    System {
        nodes: each(sys.nodes, node_to(f)),
        edges: each(sys.edges, edge_to(f)),
        less_atoms: each(sys.less_atoms, less_to(f)),
        last_atom: match sys.last_atom {
            Some(v) => Some(f(v)),
            None => None,
        },
        goals: each(sys.goals, goal_to(f)),
        formulas: each(sys.formulas, formula_to(f)),
        solved_formulas: each(sys.solved_formulas, formula_to(f)),
        lemmas: each(sys.lemmas, formula_to(f)),
        eq_store: EquationStore {
            subst: each(sys.eq_store.subst, equation_to(f)),
            conj: each(sys.eq_store.conj, disj_to(f)),
            ..sys.eq_store
        },
        subterm_store: SubtermStore {
            subterms: each(sys.subterm_store.subterms, constraint_to(f)),
            solved_subterms: each(sys.subterm_store.solved_subterms, constraint_to(f)),
            neg_subterms: each(sys.subterm_store.neg_subterms, pair_to(f)),
            ..sys.subterm_store
        },
        ..sys
    }
}

proof fn lemma_both(
    f: spec_fn(LVar) -> LVar,
    p: spec_fn(LVar) -> bool,
    a: LVar,
    b: LVar,
    rest: List<LVar>,
)
    ensures
        each(both(a, b, rest), f) == both(f(a), f(b), each(rest, f)),
        all(both(a, b, rest), p) == (p(a) && p(b) && all(rest, p)),
{
    reveal_with_fuel(each, 3);
    reveal_with_fuel(all, 3);
}

proof fn lemma_goal_vars(f: spec_fn(LVar) -> LVar, g: Goal)
    ensures
        goal_vars(renumbered_goal(f, g)) == each(goal_vars(g), f),
{
    assert(each(List::Nil, f) == List::<LVar>::Nil);
    match g {
        Goal::Action(_, fa) => {
            lemma_terms_frees(f, 0, fa.terms);
        },
        Goal::Premise(_, fa) => {
            lemma_terms_frees(f, 0, fa.terms);
        },
        Goal::Chain(c, p) => {
            assert(each(both(c.0, p.0, List::Nil), f) == both(f(c.0), f(p.0), List::Nil)) by {
                reveal_with_fuel(each, 3);
            }
        },
        Goal::Disj(l) => {
            lemma_guardeds_frees(f, 0, l);
        },
        Goal::Split(_) => {},
        Goal::Subterm(s, t) => {
            lemma_term_frees(f, 0, s);
            lemma_term_frees(f, 0, t);
            lemma_each_then(term_frees(s), term_frees(t), f);
        },
    }
}

proof fn lemma_goal_order(f: spec_fn(LVar) -> LVar, d: spec_fn(LVar) -> bool, a: Goal, b: Goal)
    requires
        keeps_order(f, d),
        all(goal_vars(a), d),
        all(goal_vars(b), d),
    ensures
        renumbered_goal(f, a).below(renumbered_goal(f, b)) == a.below(b),
{
    match (a, b) {
        (Goal::Action(i, fa), Goal::Action(j, fb)) => {
            assert(d(i) && d(j));
            lemma_injective(f, d, i, j);
            lemma_fact_order(f, d, 0, fa, fb);
        },
        (Goal::Premise(p, fa), Goal::Premise(q, fb)) => {
            assert(d(p.0) && d(q.0));
            lemma_injective(f, d, p.0, q.0);
            lemma_fact_order(f, d, 0, fa, fb);
        },
        (Goal::Chain(c, p), Goal::Chain(e, q)) => {
            assert(d(c.0) && d(e.0) && d(p.0) && d(q.0)) by {
                reveal_with_fuel(all, 3);
            }
            lemma_injective(f, d, c.0, e.0);
            lemma_injective(f, d, p.0, q.0);
        },
        (Goal::Disj(l), Goal::Disj(m)) => {
            lemma_guardeds_order(f, d, 0, l, m);
        },
        (Goal::Subterm(s, t), Goal::Subterm(u, v)) => {
            lemma_all_then(term_frees(s), term_frees(t), d);
            lemma_all_then(term_frees(u), term_frees(v), d);
            lemma_term_order(f, d, 0, s, u);
            lemma_term_order(f, d, 0, t, v);
        },
        _ => {},
    }
}

proof fn lemma_goal_renamed(
    f: spec_fn(LVar) -> LVar,
    pairs: Renaming,
    image: Renaming,
    g: Goal,
)
    requires
        corresponds(f, pairs, image),
        all(goal_vars(g), met(pairs)),
    ensures
        renamed_goal(image, renumbered_goal(f, g)) == renamed_goal(pairs, g),
{
    match g {
        Goal::Action(i, fa) => {
            assert(met(pairs)(i));
            lemma_terms_renamed(f, pairs, image, true, 0, fa.terms);
        },
        Goal::Premise(p, fa) => {
            assert(met(pairs)(p.0));
            lemma_terms_renamed(f, pairs, image, true, 0, fa.terms);
        },
        Goal::Chain(c, p) => {
            assert(met(pairs)(c.0) && met(pairs)(p.0)) by {
                reveal_with_fuel(all, 3);
            }
        },
        Goal::Disj(l) => {
            lemma_guardeds_renamed(f, pairs, image, false, 0, l);
        },
        Goal::Split(_) => {},
        Goal::Subterm(s, t) => {
            lemma_all_then(term_frees(s), term_frees(t), met(pairs));
            lemma_term_renamed(f, pairs, image, true, 0, s);
            lemma_term_renamed(f, pairs, image, true, 0, t);
        },
    }
}

proof fn lemma_substs_order(f: spec_fn(LVar) -> LVar, d: spec_fn(LVar) -> bool, a: Subst, b: Subst)
    requires
        keeps_order(f, d),
        all(domain(a), d),
        all(domain(b), d),
    ensures
        list_below(each(a, entry_to(f)), each(b, entry_to(f))) == list_below(a, b),
        (each(a, entry_to(f)) == each(b, entry_to(f))) == (a == b),
    decreases a,
{
    match (a, b) {
        (List::Cons(p, l), List::Cons(q, m)) => {
            assert(d(p.0) && d(q.0));
            lemma_injective(f, d, p.0, q.0);
            lemma_substs_order(f, d, *l, *m);
        },
        _ => {},
    }
}

proof fn lemma_node_vars(f: spec_fn(LVar) -> LVar, l: List<(LVar, RuleACInst)>)
    ensures
        node_vars(each(l, node_to(f))) == each(node_vars(l), f),
    decreases l,
{
    match l {
        List::Nil => {},
        List::Cons(n, rest) => {
            lemma_node_vars(f, *rest);
            lemma_rule_frees(f, n.1);
            lemma_each_then(rule_frees(n.1), node_vars(*rest), f);
        },
    }
}

/// Whether the variables of the element are in `p`.
pub open spec fn node_in(p: spec_fn(LVar) -> bool) -> spec_fn((LVar, RuleACInst)) -> bool {
    |n: (LVar, RuleACInst)| p(n.0) && all(rule_frees(n.1), p)
}

proof fn lemma_node_in(p: spec_fn(LVar) -> bool, l: List<(LVar, RuleACInst)>)
    ensures
        all(node_vars(l), p) == all(l, node_in(p)),
    decreases l,
{
    match l {
        List::Nil => {},
        List::Cons(n, rest) => {
            lemma_node_in(p, *rest);
            lemma_all_then(rule_frees(n.1), node_vars(*rest), p);
        },
    }
}

proof fn lemma_node_sorted(
    f: spec_fn(LVar) -> LVar,
    d: spec_fn(LVar) -> bool,
    l: List<(LVar, RuleACInst)>,
)
    requires
        keeps_order(f, d),
        all(node_vars(l), d),
    ensures
        each(l, node_to(f)).sorted() == each(l.sorted(), node_to(f)),
        all(node_vars(l.sorted()), d),
{
    lemma_node_in(d, l);
    lemma_node_in(d, l.sorted());
    lemma_all_sorted(l, node_in(d));
    assert forall|x: (LVar, RuleACInst), y: (LVar, RuleACInst)|
        #![trigger node_in(d)(x), node_in(d)(y)]
        node_in(d)(x) && node_in(d)(y) implies x.below(y) == node_to(f)(x).below(node_to(f)(y)) by {
        assert(d(x.0) && d(y.0));
    }
    lemma_each_sorted(l, node_to(f), node_in(d));
}

proof fn lemma_node_renamed(
    f: spec_fn(LVar) -> LVar,
    pairs: Renaming,
    image: Renaming,
    l: List<(LVar, RuleACInst)>,
)
    requires
        corresponds(f, pairs, image),
        all(node_vars(l), met(pairs)),
    ensures
        renamed_nodes(image, each(l, node_to(f))) == renamed_nodes(pairs, l),
    decreases l,
{
    match l {
        List::Nil => {},
        List::Cons(n, rest) => {
            assert(met(pairs)(n.0));
            lemma_all_then(rule_frees(n.1), node_vars(*rest), met(pairs));
            lemma_rule_renamed(f, pairs, image, true, n.1);
            lemma_node_renamed(f, pairs, image, *rest);
        },
    }
}

proof fn lemma_edge_vars(f: spec_fn(LVar) -> LVar, l: List<Edge>)
    ensures
        edge_vars(each(l, edge_to(f))) == each(edge_vars(l), f),
    decreases l,
{
    match l {
        List::Nil => {},
        List::Cons(e, rest) => {
            lemma_edge_vars(f, *rest);
            lemma_both(f, |v: LVar| true, e.src.0, e.tgt.0, edge_vars(*rest));
        },
    }
}

/// Whether the variables of the element are in `p`.
pub open spec fn edge_in(p: spec_fn(LVar) -> bool) -> spec_fn(Edge) -> bool {
    |e: Edge| p(e.src.0) && p(e.tgt.0)
}

proof fn lemma_edge_in(p: spec_fn(LVar) -> bool, l: List<Edge>)
    ensures
        all(edge_vars(l), p) == all(l, edge_in(p)),
    decreases l,
{
    match l {
        List::Nil => {},
        List::Cons(e, rest) => {
            lemma_edge_in(p, *rest);
            lemma_both(|v: LVar| v, p, e.src.0, e.tgt.0, edge_vars(*rest));
        },
    }
}

proof fn lemma_edge_sorted(f: spec_fn(LVar) -> LVar, d: spec_fn(LVar) -> bool, l: List<Edge>)
    requires
        keeps_order(f, d),
        all(edge_vars(l), d),
    ensures
        each(l, edge_to(f)).sorted() == each(l.sorted(), edge_to(f)),
        all(edge_vars(l.sorted()), d),
{
    lemma_edge_in(d, l);
    lemma_edge_in(d, l.sorted());
    lemma_all_sorted(l, edge_in(d));
    assert forall|x: Edge, y: Edge|
        #![trigger edge_in(d)(x), edge_in(d)(y)]
        edge_in(d)(x) && edge_in(d)(y) implies x.below(y) == edge_to(f)(x).below(edge_to(f)(y)) by {
        assert(d(x.src.0) && d(y.src.0) && d(x.tgt.0) && d(y.tgt.0));
        lemma_injective(f, d, x.src.0, y.src.0);
        lemma_injective(f, d, x.tgt.0, y.tgt.0);
    }
    lemma_each_sorted(l, edge_to(f), edge_in(d));
}

proof fn lemma_edge_renamed(
    f: spec_fn(LVar) -> LVar,
    pairs: Renaming,
    image: Renaming,
    l: List<Edge>,
)
    requires
        corresponds(f, pairs, image),
        all(edge_vars(l), met(pairs)),
    ensures
        renamed_edges(image, each(l, edge_to(f))) == renamed_edges(pairs, l),
    decreases l,
{
    match l {
        List::Nil => {},
        List::Cons(e, rest) => {
            lemma_both(f, met(pairs), e.src.0, e.tgt.0, edge_vars(*rest));
            assert(met(pairs)(e.src.0));
            assert(met(pairs)(e.tgt.0));
            lemma_edge_renamed(f, pairs, image, *rest);
        },
    }
}

proof fn lemma_less_vars(f: spec_fn(LVar) -> LVar, l: List<LessAtom>)
    ensures
        less_vars(each(l, less_to(f))) == each(less_vars(l), f),
    decreases l,
{
    match l {
        List::Nil => {},
        List::Cons(a, rest) => {
            lemma_less_vars(f, *rest);
            lemma_both(f, |v: LVar| true, a.smaller, a.larger, less_vars(*rest));
        },
    }
}

/// Whether the variables of the element are in `p`.
pub open spec fn less_in(p: spec_fn(LVar) -> bool) -> spec_fn(LessAtom) -> bool {
    |a: LessAtom| p(a.smaller) && p(a.larger)
}

proof fn lemma_less_in(p: spec_fn(LVar) -> bool, l: List<LessAtom>)
    ensures
        all(less_vars(l), p) == all(l, less_in(p)),
    decreases l,
{
    match l {
        List::Nil => {},
        List::Cons(a, rest) => {
            lemma_less_in(p, *rest);
            lemma_both(|v: LVar| v, p, a.smaller, a.larger, less_vars(*rest));
        },
    }
}

proof fn lemma_less_sorted(f: spec_fn(LVar) -> LVar, d: spec_fn(LVar) -> bool, l: List<LessAtom>)
    requires
        keeps_order(f, d),
        all(less_vars(l), d),
    ensures
        each(l, less_to(f)).sorted() == each(l.sorted(), less_to(f)),
        all(less_vars(l.sorted()), d),
{
    lemma_less_in(d, l);
    lemma_less_in(d, l.sorted());
    lemma_all_sorted(l, less_in(d));
    assert forall|x: LessAtom, y: LessAtom|
        #![trigger less_in(d)(x), less_in(d)(y)]
        less_in(d)(x) && less_in(d)(y) implies x.below(y) == less_to(f)(x).below(less_to(f)(y)) by {
        assert(d(x.smaller) && d(y.smaller) && d(x.larger) && d(y.larger));
        lemma_injective(f, d, x.smaller, y.smaller);
        lemma_injective(f, d, x.larger, y.larger);
    }
    lemma_each_sorted(l, less_to(f), less_in(d));
}

proof fn lemma_less_renamed(
    f: spec_fn(LVar) -> LVar,
    pairs: Renaming,
    image: Renaming,
    l: List<LessAtom>,
)
    requires
        corresponds(f, pairs, image),
        all(less_vars(l), met(pairs)),
    ensures
        renamed_lesses(image, each(l, less_to(f))) == renamed_lesses(pairs, l),
    decreases l,
{
    match l {
        List::Nil => {},
        List::Cons(a, rest) => {
            lemma_both(f, met(pairs), a.smaller, a.larger, less_vars(*rest));
            assert(met(pairs)(a.smaller));
            assert(met(pairs)(a.larger));
            lemma_less_renamed(f, pairs, image, *rest);
        },
    }
}

proof fn lemma_pair_vars(f: spec_fn(LVar) -> LVar, l: List<(Term, Term)>)
    ensures
        pair_vars(each(l, pair_to(f))) == each(pair_vars(l), f),
    decreases l,
{
    match l {
        List::Nil => {},
        List::Cons(q, rest) => {
            lemma_pair_vars(f, *rest);
            lemma_term_frees(f, 0, q.0);
            lemma_term_frees(f, 0, q.1);
            lemma_each_then(term_frees(q.1), pair_vars(*rest), f);
            lemma_each_then(term_frees(q.0), term_frees(q.1).then_all(pair_vars(*rest)), f);
        },
    }
}

/// Whether the variables of the element are in `p`.
pub open spec fn pair_in(p: spec_fn(LVar) -> bool) -> spec_fn((Term, Term)) -> bool {
    |q: (Term, Term)| all(term_frees(q.0), p) && all(term_frees(q.1), p)
}

proof fn lemma_pair_in(p: spec_fn(LVar) -> bool, l: List<(Term, Term)>)
    ensures
        all(pair_vars(l), p) == all(l, pair_in(p)),
    decreases l,
{
    match l {
        List::Nil => {},
        List::Cons(q, rest) => {
            lemma_pair_in(p, *rest);
            lemma_all_then(term_frees(q.1), pair_vars(*rest), p);
            lemma_all_then(term_frees(q.0), term_frees(q.1).then_all(pair_vars(*rest)), p);
        },
    }
}

proof fn lemma_pair_sorted(
    f: spec_fn(LVar) -> LVar,
    d: spec_fn(LVar) -> bool,
    l: List<(Term, Term)>,
)
    requires
        keeps_order(f, d),
        all(pair_vars(l), d),
    ensures
        each(l, pair_to(f)).sorted() == each(l.sorted(), pair_to(f)),
        all(pair_vars(l.sorted()), d),
{
    lemma_pair_in(d, l);
    lemma_pair_in(d, l.sorted());
    lemma_all_sorted(l, pair_in(d));
    assert forall|x: (Term, Term), y: (Term, Term)|
        #![trigger pair_in(d)(x), pair_in(d)(y)]
        pair_in(d)(x) && pair_in(d)(y) implies x.below(y) == pair_to(f)(x).below(pair_to(f)(y)) by {
        lemma_term_order(f, d, 0, x.0, y.0);
        lemma_term_order(f, d, 0, x.1, y.1);
    }
    lemma_each_sorted(l, pair_to(f), pair_in(d));
}

proof fn lemma_pair_renamed(
    f: spec_fn(LVar) -> LVar,
    pairs: Renaming,
    image: Renaming,
    l: List<(Term, Term)>,
)
    requires
        corresponds(f, pairs, image),
        all(pair_vars(l), met(pairs)),
    ensures
        renamed_pairs(image, each(l, pair_to(f))) == renamed_pairs(pairs, l),
    decreases l,
{
    match l {
        List::Nil => {},
        List::Cons(q, rest) => {
            lemma_all_then(term_frees(q.1), pair_vars(*rest), met(pairs));
            lemma_all_then(
                term_frees(q.0),
                term_frees(q.1).then_all(pair_vars(*rest)),
                met(pairs),
            );
            lemma_term_renamed(f, pairs, image, true, 0, q.0);
            lemma_term_renamed(f, pairs, image, true, 0, q.1);
            lemma_pair_renamed(f, pairs, image, *rest);
        },
    }
}

proof fn lemma_constraint_vars(f: spec_fn(LVar) -> LVar, l: List<SubtermConstraint>)
    ensures
        constraint_vars(each(l, constraint_to(f))) == each(constraint_vars(l), f),
    decreases l,
{
    match l {
        List::Nil => {},
        List::Cons(c, rest) => {
            lemma_constraint_vars(f, *rest);
            lemma_term_frees(f, 0, c.small);
            lemma_term_frees(f, 0, c.big);
            lemma_each_then(term_frees(c.big), constraint_vars(*rest), f);
            lemma_each_then(
                term_frees(c.small),
                term_frees(c.big).then_all(constraint_vars(*rest)),
                f,
            );
        },
    }
}

/// Whether the variables of the element are in `p`.
pub open spec fn constraint_in(p: spec_fn(LVar) -> bool) -> spec_fn(SubtermConstraint) -> bool {
    |c: SubtermConstraint| all(term_frees(c.small), p) && all(term_frees(c.big), p)
}

proof fn lemma_constraint_in(p: spec_fn(LVar) -> bool, l: List<SubtermConstraint>)
    ensures
        all(constraint_vars(l), p) == all(l, constraint_in(p)),
    decreases l,
{
    match l {
        List::Nil => {},
        List::Cons(c, rest) => {
            lemma_constraint_in(p, *rest);
            lemma_all_then(term_frees(c.big), constraint_vars(*rest), p);
            lemma_all_then(
                term_frees(c.small),
                term_frees(c.big).then_all(constraint_vars(*rest)),
                p,
            );
        },
    }
}

proof fn lemma_constraint_sorted(
    f: spec_fn(LVar) -> LVar,
    d: spec_fn(LVar) -> bool,
    l: List<SubtermConstraint>,
)
    requires
        keeps_order(f, d),
        all(constraint_vars(l), d),
    ensures
        each(l, constraint_to(f)).sorted() == each(l.sorted(), constraint_to(f)),
        all(constraint_vars(l.sorted()), d),
{
    lemma_constraint_in(d, l);
    lemma_constraint_in(d, l.sorted());
    lemma_all_sorted(l, constraint_in(d));
    assert forall|x: SubtermConstraint, y: SubtermConstraint|
        #![trigger constraint_in(d)(x), constraint_in(d)(y)]
        constraint_in(d)(x) && constraint_in(d)(y) implies x.below(y) == constraint_to(f)(x).below(constraint_to(f)(y)) by {
        lemma_term_order(f, d, 0, x.small, y.small);
        lemma_term_order(f, d, 0, x.big, y.big);
    }
    lemma_each_sorted(l, constraint_to(f), constraint_in(d));
}

proof fn lemma_constraint_renamed(
    f: spec_fn(LVar) -> LVar,
    pairs: Renaming,
    image: Renaming,
    l: List<SubtermConstraint>,
)
    requires
        corresponds(f, pairs, image),
        all(constraint_vars(l), met(pairs)),
    ensures
        renamed_constraints(
            image,
            each(l, constraint_to(f)),
        ) == renamed_constraints(pairs, l),
    decreases l,
{
    match l {
        List::Nil => {},
        List::Cons(c, rest) => {
            lemma_all_then(term_frees(c.big), constraint_vars(*rest), met(pairs));
            lemma_all_then(
                term_frees(c.small),
                term_frees(c.big).then_all(constraint_vars(*rest)),
                met(pairs),
            );
            lemma_term_renamed(f, pairs, image, true, 0, c.small);
            lemma_term_renamed(f, pairs, image, true, 0, c.big);
            lemma_constraint_renamed(f, pairs, image, *rest);
        },
    }
}

proof fn lemma_equation_vars(f: spec_fn(LVar) -> LVar, l: List<(LVar, Term)>)
    ensures
        subst_vars(each(l, equation_to(f))) == each(subst_vars(l), f),
    decreases l,
{
    match l {
        List::Nil => {},
        List::Cons(q, rest) => {
            lemma_equation_vars(f, *rest);
            lemma_term_frees(f, 0, q.1);
            lemma_each_then(term_frees(q.1), subst_vars(*rest), f);
        },
    }
}

proof fn lemma_equation_renamed(
    f: spec_fn(LVar) -> LVar,
    pairs: Renaming,
    image: Renaming,
    l: List<(LVar, Term)>,
)
    requires
        corresponds(f, pairs, image),
        all(subst_vars(l), met(pairs)),
    ensures
        renamed_subst(image, each(l, equation_to(f))) == renamed_subst(pairs, l),
    decreases l,
{
    match l {
        List::Nil => {},
        List::Cons(q, rest) => {
            assert(met(pairs)(q.0));
            lemma_all_then(term_frees(q.1), subst_vars(*rest), met(pairs));
            lemma_term_renamed(f, pairs, image, true, 0, q.1);
            lemma_equation_renamed(f, pairs, image, *rest);
        },
    }
}

proof fn lemma_entry_vars(f: spec_fn(LVar) -> LVar, l: List<(LVar, Term)>)
    ensures
        domain(each(l, entry_to(f))) == each(domain(l), f),
    decreases l,
{
    match l {
        List::Nil => {},
        List::Cons(q, rest) => {
            lemma_entry_vars(f, *rest);
        },
    }
}

proof fn lemma_entry_renamed(
    f: spec_fn(LVar) -> LVar,
    pairs: Renaming,
    image: Renaming,
    l: List<(LVar, Term)>,
)
    requires
        corresponds(f, pairs, image),
        all(domain(l), met(pairs)),
    ensures
        renamed_domain(image, each(l, entry_to(f))) == renamed_domain(pairs, l),
    decreases l,
{
    match l {
        List::Nil => {},
        List::Cons(q, rest) => {
            assert(met(pairs)(q.0));
            lemma_entry_renamed(f, pairs, image, *rest);
        },
    }
}

proof fn lemma_subst_vars(f: spec_fn(LVar) -> LVar, l: List<Subst>)
    ensures
        domain_vars(each(l, subst_to(f))) == each(domain_vars(l), f),
    decreases l,
{
    match l {
        List::Nil => {},
        List::Cons(s, rest) => {
            lemma_subst_vars(f, *rest);
            lemma_entry_vars(f, s);
            lemma_each_then(domain(s), domain_vars(*rest), f);
        },
    }
}

/// Whether the variables of the element are in `p`.
pub open spec fn subst_in(p: spec_fn(LVar) -> bool) -> spec_fn(Subst) -> bool {
    |s: Subst| all(domain(s), p)
}

proof fn lemma_subst_in(p: spec_fn(LVar) -> bool, l: List<Subst>)
    ensures
        all(domain_vars(l), p) == all(l, subst_in(p)),
    decreases l,
{
    match l {
        List::Nil => {},
        List::Cons(s, rest) => {
            lemma_subst_in(p, *rest);
            lemma_all_then(domain(s), domain_vars(*rest), p);
        },
    }
}

proof fn lemma_subst_sorted(f: spec_fn(LVar) -> LVar, d: spec_fn(LVar) -> bool, l: List<Subst>)
    requires
        keeps_order(f, d),
        all(domain_vars(l), d),
    ensures
        each(l, subst_to(f)).sorted() == each(l.sorted(), subst_to(f)),
        all(domain_vars(l.sorted()), d),
{
    lemma_subst_in(d, l);
    lemma_subst_in(d, l.sorted());
    lemma_all_sorted(l, subst_in(d));
    assert forall|x: Subst, y: Subst|
        #![trigger subst_in(d)(x), subst_in(d)(y)]
        subst_in(d)(x) && subst_in(d)(y) implies x.below(y) == subst_to(f)(x).below(subst_to(f)(y)) by {
        lemma_substs_order(f, d, x, y);
    }
    lemma_each_sorted(l, subst_to(f), subst_in(d));
}

proof fn lemma_subst_renamed(
    f: spec_fn(LVar) -> LVar,
    pairs: Renaming,
    image: Renaming,
    l: List<Subst>,
)
    requires
        corresponds(f, pairs, image),
        all(domain_vars(l), met(pairs)),
    ensures
        renamed_domains(image, each(l, subst_to(f))) == renamed_domains(pairs, l),
    decreases l,
{
    match l {
        List::Nil => {},
        List::Cons(s, rest) => {
            lemma_all_then(domain(s), domain_vars(*rest), met(pairs));
            lemma_entry_renamed(f, pairs, image, s);
            lemma_subst_renamed(f, pairs, image, *rest);
        },
    }
}

proof fn lemma_formula_vars(f: spec_fn(LVar) -> LVar, l: List<Guarded>)
    ensures
        guardeds_frees(each(l, formula_to(f))) == each(guardeds_frees(l), f),
    decreases l,
{
    match l {
        List::Nil => {},
        List::Cons(g, rest) => {
            lemma_formula_vars(f, *rest);
            lemma_guarded_frees(f, 0, g);
            lemma_each_then(guarded_frees(g), guardeds_frees(*rest), f);
        },
    }
}

/// Whether the variables of the element are in `p`.
pub open spec fn formula_in(p: spec_fn(LVar) -> bool) -> spec_fn(Guarded) -> bool {
    |g: Guarded| all(guarded_frees(g), p)
}

pub proof fn lemma_formula_in(p: spec_fn(LVar) -> bool, l: List<Guarded>)
    ensures
        all(guardeds_frees(l), p) == all(l, formula_in(p)),
    decreases l,
{
    match l {
        List::Nil => {},
        List::Cons(g, rest) => {
            lemma_formula_in(p, *rest);
            lemma_all_then(guarded_frees(g), guardeds_frees(*rest), p);
        },
    }
}

proof fn lemma_formula_sorted(f: spec_fn(LVar) -> LVar, d: spec_fn(LVar) -> bool, l: List<Guarded>)
    requires
        keeps_order(f, d),
        all(guardeds_frees(l), d),
    ensures
        each(l, formula_to(f)).sorted() == each(l.sorted(), formula_to(f)),
        all(guardeds_frees(l.sorted()), d),
{
    lemma_formula_in(d, l);
    lemma_formula_in(d, l.sorted());
    lemma_all_sorted(l, formula_in(d));
    assert forall|x: Guarded, y: Guarded|
        #![trigger formula_in(d)(x), formula_in(d)(y)]
        formula_in(d)(x) && formula_in(d)(y) implies x.below(y) == formula_to(f)(x).below(formula_to(f)(y)) by {
        lemma_guarded_order(f, d, 0, x, y);
    }
    lemma_each_sorted(l, formula_to(f), formula_in(d));
}

proof fn lemma_goals_vars(f: spec_fn(LVar) -> LVar, l: List<(Goal, GoalStatus)>)
    ensures
        goals_vars(each(l, goal_to(f))) == each(goals_vars(l), f),
    decreases l,
{
    match l {
        List::Nil => {},
        List::Cons(g, rest) => {
            lemma_goals_vars(f, *rest);
            lemma_goal_vars(f, g.0);
            lemma_each_then(goal_vars(g.0), goals_vars(*rest), f);
        },
    }
}

/// Whether the variables of the element are in `p`.
pub open spec fn goals_in(p: spec_fn(LVar) -> bool) -> spec_fn((Goal, GoalStatus)) -> bool {
    |g: (Goal, GoalStatus)| all(goal_vars(g.0), p)
}

proof fn lemma_goals_in(p: spec_fn(LVar) -> bool, l: List<(Goal, GoalStatus)>)
    ensures
        all(goals_vars(l), p) == all(l, goals_in(p)),
    decreases l,
{
    match l {
        List::Nil => {},
        List::Cons(g, rest) => {
            lemma_goals_in(p, *rest);
            lemma_all_then(goal_vars(g.0), goals_vars(*rest), p);
        },
    }
}

proof fn lemma_goals_sorted(
    f: spec_fn(LVar) -> LVar,
    d: spec_fn(LVar) -> bool,
    l: List<(Goal, GoalStatus)>,
)
    requires
        keeps_order(f, d),
        all(goals_vars(l), d),
    ensures
        each(l, goal_to(f)).sorted() == each(l.sorted(), goal_to(f)),
        all(goals_vars(l.sorted()), d),
{
    lemma_goals_in(d, l);
    lemma_goals_in(d, l.sorted());
    lemma_all_sorted(l, goals_in(d));
    assert forall|x: (Goal, GoalStatus), y: (Goal, GoalStatus)|
        #![trigger goals_in(d)(x), goals_in(d)(y)]
        goals_in(d)(x) && goals_in(d)(y) implies x.below(y) == goal_to(f)(x).below(goal_to(f)(y)) by {
        lemma_goal_order(f, d, x.0, y.0);
    }
    lemma_each_sorted(l, goal_to(f), goals_in(d));
}

proof fn lemma_goals_renamed(
    f: spec_fn(LVar) -> LVar,
    pairs: Renaming,
    image: Renaming,
    l: List<(Goal, GoalStatus)>,
)
    requires
        corresponds(f, pairs, image),
        all(goals_vars(l), met(pairs)),
    ensures
        renamed_goals(image, each(l, goal_to(f))) == renamed_goals(pairs, l),
    decreases l,
{
    match l {
        List::Nil => {},
        List::Cons(g, rest) => {
            lemma_all_then(goal_vars(g.0), goals_vars(*rest), met(pairs));
            lemma_goal_renamed(f, pairs, image, g.0);
            lemma_goals_renamed(f, pairs, image, *rest);
        },
    }
}

proof fn lemma_node_unsorted(p: spec_fn(LVar) -> bool, l: List<(LVar, RuleACInst)>)
    ensures
        all(node_vars(l.sorted()), p) == all(node_vars(l), p),
{
    lemma_node_in(p, l);
    lemma_node_in(p, l.sorted());
    lemma_all_sorted(l, node_in(p));
}

proof fn lemma_edge_unsorted(p: spec_fn(LVar) -> bool, l: List<Edge>)
    ensures
        all(edge_vars(l.sorted()), p) == all(edge_vars(l), p),
{
    lemma_edge_in(p, l);
    lemma_edge_in(p, l.sorted());
    lemma_all_sorted(l, edge_in(p));
}

proof fn lemma_less_unsorted(p: spec_fn(LVar) -> bool, l: List<LessAtom>)
    ensures
        all(less_vars(l.sorted()), p) == all(less_vars(l), p),
{
    lemma_less_in(p, l);
    lemma_less_in(p, l.sorted());
    lemma_all_sorted(l, less_in(p));
}

proof fn lemma_pair_unsorted(p: spec_fn(LVar) -> bool, l: List<(Term, Term)>)
    ensures
        all(pair_vars(l.sorted()), p) == all(pair_vars(l), p),
{
    lemma_pair_in(p, l);
    lemma_pair_in(p, l.sorted());
    lemma_all_sorted(l, pair_in(p));
}

proof fn lemma_constraint_unsorted(p: spec_fn(LVar) -> bool, l: List<SubtermConstraint>)
    ensures
        all(constraint_vars(l.sorted()), p) == all(constraint_vars(l), p),
{
    lemma_constraint_in(p, l);
    lemma_constraint_in(p, l.sorted());
    lemma_all_sorted(l, constraint_in(p));
}

proof fn lemma_subst_unsorted(p: spec_fn(LVar) -> bool, l: List<Subst>)
    ensures
        all(domain_vars(l.sorted()), p) == all(domain_vars(l), p),
{
    lemma_subst_in(p, l);
    lemma_subst_in(p, l.sorted());
    lemma_all_sorted(l, subst_in(p));
}

proof fn lemma_formula_unsorted(p: spec_fn(LVar) -> bool, l: List<Guarded>)
    ensures
        all(guardeds_frees(l.sorted()), p) == all(guardeds_frees(l), p),
{
    lemma_formula_in(p, l);
    lemma_formula_in(p, l.sorted());
    lemma_all_sorted(l, formula_in(p));
}

proof fn lemma_goals_unsorted(p: spec_fn(LVar) -> bool, l: List<(Goal, GoalStatus)>)
    ensures
        all(goals_vars(l.sorted()), p) == all(goals_vars(l), p),
{
    lemma_goals_in(p, l);
    lemma_goals_in(p, l.sorted());
    lemma_all_sorted(l, goals_in(p));
}

/// Whether the alternatives of a disjunction are sorted alike after renumbering.
pub open spec fn disj_alike(f: spec_fn(LVar) -> LVar) -> spec_fn(EqDisj) -> bool {
    |x: EqDisj| each(x.substs, subst_to(f)).sorted() == each(x.substs.sorted(), subst_to(f))
}

proof fn lemma_disj_sorted(f: spec_fn(LVar) -> LVar, d: spec_fn(LVar) -> bool, l: List<EqDisj>)
    requires
        keeps_order(f, d),
        all(disj_vars(l), d),
    ensures
        all(l, disj_alike(f)),
    decreases l,
{
    match l {
        List::Nil => {},
        List::Cons(x, rest) => {
            lemma_all_then(domain_vars(x.substs.sorted()), disj_vars(*rest), d);
            lemma_subst_unsorted(d, x.substs);
            lemma_subst_sorted(f, d, x.substs);
            lemma_disj_sorted(f, d, *rest);
        },
    }
}

proof fn lemma_disj_vars(f: spec_fn(LVar) -> LVar, l: List<EqDisj>)
    requires
        all(l, disj_alike(f)),
    ensures
        disj_vars(each(l, disj_to(f))) == each(disj_vars(l), f),
    decreases l,
{
    match l {
        List::Nil => {},
        List::Cons(x, rest) => {
            lemma_subst_vars(f, x.substs.sorted());
            lemma_each_then(domain_vars(x.substs.sorted()), disj_vars(*rest), f);
            lemma_disj_vars(f, *rest);
        },
    }
}

proof fn lemma_disj_renamed(
    f: spec_fn(LVar) -> LVar,
    pairs: Renaming,
    image: Renaming,
    l: List<EqDisj>,
)
    requires
        corresponds(f, pairs, image),
        all(disj_vars(l), met(pairs)),
    ensures
        renamed_disjs(image, each(l, disj_to(f))) == renamed_disjs(pairs, l),
    decreases l,
{
    match l {
        List::Nil => {},
        List::Cons(x, rest) => {
            lemma_all_then(domain_vars(x.substs.sorted()), disj_vars(*rest), met(pairs));
            lemma_subst_unsorted(met(pairs), x.substs);
            lemma_subst_renamed(f, pairs, image, x.substs);
            lemma_disj_renamed(f, pairs, image, *rest);
        },
    }
}

proof fn lemma_formulas_each(f: spec_fn(LVar) -> LVar, l: List<Guarded>)
    ensures
        each(l, formula_to(f)) == mapped_guardeds(numbering(f), 0, l),
    decreases l,
{
    match l {
        List::Nil => {},
        List::Cons(_, rest) => {
            lemma_formulas_each(f, *rest);
        },
    }
}

/// The variables that `f` leaves as they are.
pub open spec fn fixed(f: spec_fn(LVar) -> LVar) -> spec_fn(LVar) -> bool {
    |v: LVar| f(v) == v
}

proof fn lemma_term_fixed(f: spec_fn(LVar) -> LVar, depth: u64, x: Term)
    requires
        all(term_frees(x), fixed(f)),
    ensures
        mapped_term(numbering(f), depth, x) == x,
    decreases x,
{
    match x {
        Term::Var(v) => {
            assert(fixed(f)(v));
        },
        Term::App(_, args) => {
            lemma_terms_fixed(f, depth, *args);
        },
        _ => {},
    }
}

proof fn lemma_terms_fixed(f: spec_fn(LVar) -> LVar, depth: u64, x: List<Term>)
    requires
        all(terms_frees(x), fixed(f)),
    ensures
        mapped_terms(numbering(f), depth, x) == x,
    decreases x,
{
    match x {
        List::Nil => {},
        List::Cons(t, rest) => {
            lemma_all_then(term_frees(t), terms_frees(*rest), fixed(f));
            lemma_term_fixed(f, depth, t);
            lemma_terms_fixed(f, depth, *rest);
        },
    }
}

proof fn lemma_facts_fixed(f: spec_fn(LVar) -> LVar, x: List<Fact>)
    requires
        all(facts_frees(x), fixed(f)),
    ensures
        mapped_facts(numbering(f), x) == x,
    decreases x,
{
    match x {
        List::Nil => {},
        List::Cons(fa, rest) => {
            lemma_all_then(terms_frees(fa.terms), facts_frees(*rest), fixed(f));
            lemma_terms_fixed(f, 0, fa.terms);
            lemma_facts_fixed(f, *rest);
        },
    }
}

proof fn lemma_rule_fixed(f: spec_fn(LVar) -> LVar, x: RuleACInst)
    requires
        all(rule_frees(x), fixed(f)),
    ensures
        mapped_rule(numbering(f), x) == x,
{
    let last = facts_frees(x.actions).then_all(terms_frees(x.new_vars));
    lemma_all_then(facts_frees(x.premises), facts_frees(x.conclusions).then_all(last), fixed(f));
    lemma_all_then(facts_frees(x.conclusions), last, fixed(f));
    lemma_all_then(facts_frees(x.actions), terms_frees(x.new_vars), fixed(f));
    lemma_facts_fixed(f, x.premises);
    lemma_facts_fixed(f, x.conclusions);
    lemma_facts_fixed(f, x.actions);
    lemma_terms_fixed(f, 0, x.new_vars);
}

proof fn lemma_atom_fixed(f: spec_fn(LVar) -> LVar, depth: u64, x: GAtom)
    requires
        all(atom_frees(x), fixed(f)),
    ensures
        mapped_atom(numbering(f), depth, x) == x,
{
    match x {
        GAtom::Eq(s, t) => {
            lemma_all_then(term_frees(s), term_frees(t), fixed(f));
            lemma_term_fixed(f, depth, s);
            lemma_term_fixed(f, depth, t);
        },
        GAtom::Less(s, t) => {
            lemma_all_then(term_frees(s), term_frees(t), fixed(f));
            lemma_term_fixed(f, depth, s);
            lemma_term_fixed(f, depth, t);
        },
        GAtom::Subterm(s, t) => {
            lemma_all_then(term_frees(s), term_frees(t), fixed(f));
            lemma_term_fixed(f, depth, s);
            lemma_term_fixed(f, depth, t);
        },
        GAtom::LessMset(s, t) => {
            lemma_all_then(term_frees(s), term_frees(t), fixed(f));
            lemma_term_fixed(f, depth, s);
            lemma_term_fixed(f, depth, t);
        },
        GAtom::Last(t) => {
            lemma_term_fixed(f, depth, t);
        },
        GAtom::Action(fa, t) => {
            lemma_all_then(term_frees(t), terms_frees(fa.terms), fixed(f));
            lemma_term_fixed(f, depth, t);
            lemma_terms_fixed(f, depth, fa.terms);
        },
        GAtom::Pred(fa) => {
            lemma_terms_fixed(f, depth, fa.terms);
        },
    }
}

proof fn lemma_atoms_fixed(f: spec_fn(LVar) -> LVar, depth: u64, x: List<GAtom>)
    requires
        all(atoms_frees(x), fixed(f)),
    ensures
        mapped_atoms(numbering(f), depth, x) == x,
    decreases x,
{
    match x {
        List::Nil => {},
        List::Cons(a, rest) => {
            lemma_all_then(atom_frees(a), atoms_frees(*rest), fixed(f));
            lemma_atom_fixed(f, depth, a);
            lemma_atoms_fixed(f, depth, *rest);
        },
    }
}

proof fn lemma_guarded_fixed(f: spec_fn(LVar) -> LVar, depth: u64, x: Guarded)
    requires
        all(guarded_frees(x), fixed(f)),
    ensures
        mapped_guarded(numbering(f), depth, x) == x,
    decreases x,
{
    match x {
        Guarded::Atom(a) => {
            lemma_atom_fixed(f, depth, a);
        },
        Guarded::Disj(l) => {
            lemma_guardeds_fixed(f, depth, *l);
        },
        Guarded::Conj(l) => {
            lemma_guardeds_fixed(f, depth, *l);
        },
        Guarded::GGuarded(_, vars, guards, body) => {
            let inner = deeper(depth, vars);
            lemma_all_then(atoms_frees(guards), guarded_frees(*body), fixed(f));
            lemma_atoms_fixed(f, inner, guards);
            lemma_guarded_fixed(f, inner, *body);
        },
    }
}

proof fn lemma_guardeds_fixed(f: spec_fn(LVar) -> LVar, depth: u64, x: List<Guarded>)
    requires
        all(guardeds_frees(x), fixed(f)),
    ensures
        mapped_guardeds(numbering(f), depth, x) == x,
    decreases x,
{
    match x {
        List::Nil => {},
        List::Cons(g, rest) => {
            lemma_all_then(guarded_frees(g), guardeds_frees(*rest), fixed(f));
            lemma_guarded_fixed(f, depth, g);
            lemma_guardeds_fixed(f, depth, *rest);
        },
    }
}

proof fn lemma_goal_fixed(f: spec_fn(LVar) -> LVar, g: Goal)
    requires
        all(goal_vars(g), fixed(f)),
    ensures
        renumbered_goal(f, g) == g,
{
    match g {
        Goal::Action(i, fa) => {
            assert(fixed(f)(i));
            lemma_terms_fixed(f, 0, fa.terms);
        },
        Goal::Premise(p, fa) => {
            assert(fixed(f)(p.0));
            lemma_terms_fixed(f, 0, fa.terms);
        },
        Goal::Chain(c, p) => {
            lemma_both(f, fixed(f), c.0, p.0, List::Nil);
        },
        Goal::Disj(l) => {
            lemma_guardeds_fixed(f, 0, l);
        },
        Goal::Split(_) => {},
        Goal::Subterm(s, t) => {
            lemma_all_then(term_frees(s), term_frees(t), fixed(f));
            lemma_term_fixed(f, 0, s);
            lemma_term_fixed(f, 0, t);
        },
    }
}

proof fn lemma_node_fixed(f: spec_fn(LVar) -> LVar, l: List<(LVar, RuleACInst)>)
    requires
        all(node_vars(l), fixed(f)),
    ensures
        each(l, node_to(f)) == l,
    decreases l,
{
    match l {
        List::Nil => {},
        List::Cons(n, rest) => {
            assert(fixed(f)(n.0));
            lemma_all_then(rule_frees(n.1), node_vars(*rest), fixed(f));
            lemma_rule_fixed(f, n.1);
            lemma_node_fixed(f, *rest);
        },
    }
}

proof fn lemma_edge_fixed(f: spec_fn(LVar) -> LVar, l: List<Edge>)
    requires
        all(edge_vars(l), fixed(f)),
    ensures
        each(l, edge_to(f)) == l,
    decreases l,
{
    match l {
        List::Nil => {},
        List::Cons(e, rest) => {
            lemma_both(f, fixed(f), e.src.0, e.tgt.0, edge_vars(*rest));
            lemma_edge_fixed(f, *rest);
        },
    }
}

proof fn lemma_less_fixed(f: spec_fn(LVar) -> LVar, l: List<LessAtom>)
    requires
        all(less_vars(l), fixed(f)),
    ensures
        each(l, less_to(f)) == l,
    decreases l,
{
    match l {
        List::Nil => {},
        List::Cons(a, rest) => {
            lemma_both(f, fixed(f), a.smaller, a.larger, less_vars(*rest));
            lemma_less_fixed(f, *rest);
        },
    }
}

proof fn lemma_pair_fixed(f: spec_fn(LVar) -> LVar, l: List<(Term, Term)>)
    requires
        all(pair_vars(l), fixed(f)),
    ensures
        each(l, pair_to(f)) == l,
    decreases l,
{
    match l {
        List::Nil => {},
        List::Cons(q, rest) => {
            lemma_all_then(term_frees(q.1), pair_vars(*rest), fixed(f));
            lemma_all_then(term_frees(q.0), term_frees(q.1).then_all(pair_vars(*rest)), fixed(f));
            lemma_term_fixed(f, 0, q.0);
            lemma_term_fixed(f, 0, q.1);
            lemma_pair_fixed(f, *rest);
        },
    }
}

proof fn lemma_constraint_fixed(f: spec_fn(LVar) -> LVar, l: List<SubtermConstraint>)
    requires
        all(constraint_vars(l), fixed(f)),
    ensures
        each(l, constraint_to(f)) == l,
    decreases l,
{
    match l {
        List::Nil => {},
        List::Cons(c, rest) => {
            lemma_all_then(term_frees(c.big), constraint_vars(*rest), fixed(f));
            lemma_all_then(
                term_frees(c.small),
                term_frees(c.big).then_all(constraint_vars(*rest)),
                fixed(f),
            );
            lemma_term_fixed(f, 0, c.small);
            lemma_term_fixed(f, 0, c.big);
            lemma_constraint_fixed(f, *rest);
        },
    }
}

proof fn lemma_equation_fixed(f: spec_fn(LVar) -> LVar, l: List<(LVar, Term)>)
    requires
        all(subst_vars(l), fixed(f)),
    ensures
        each(l, equation_to(f)) == l,
    decreases l,
{
    match l {
        List::Nil => {},
        List::Cons(q, rest) => {
            assert(fixed(f)(q.0));
            lemma_all_then(term_frees(q.1), subst_vars(*rest), fixed(f));
            lemma_term_fixed(f, 0, q.1);
            lemma_equation_fixed(f, *rest);
        },
    }
}

proof fn lemma_entry_fixed(f: spec_fn(LVar) -> LVar, l: List<(LVar, Term)>)
    requires
        all(domain(l), fixed(f)),
    ensures
        each(l, entry_to(f)) == l,
    decreases l,
{
    match l {
        List::Nil => {},
        List::Cons(q, rest) => {
            assert(fixed(f)(q.0));
            lemma_entry_fixed(f, *rest);
        },
    }
}

proof fn lemma_subst_fixed(f: spec_fn(LVar) -> LVar, l: List<Subst>)
    requires
        all(domain_vars(l), fixed(f)),
    ensures
        each(l, subst_to(f)) == l,
    decreases l,
{
    match l {
        List::Nil => {},
        List::Cons(s, rest) => {
            lemma_all_then(domain(s), domain_vars(*rest), fixed(f));
            lemma_entry_fixed(f, s);
            lemma_subst_fixed(f, *rest);
        },
    }
}

proof fn lemma_formula_fixed(f: spec_fn(LVar) -> LVar, l: List<Guarded>)
    requires
        all(guardeds_frees(l), fixed(f)),
    ensures
        each(l, formula_to(f)) == l,
    decreases l,
{
    match l {
        List::Nil => {},
        List::Cons(g, rest) => {
            lemma_all_then(guarded_frees(g), guardeds_frees(*rest), fixed(f));
            lemma_guarded_fixed(f, 0, g);
            lemma_formula_fixed(f, *rest);
        },
    }
}

proof fn lemma_goals_fixed(f: spec_fn(LVar) -> LVar, l: List<(Goal, GoalStatus)>)
    requires
        all(goals_vars(l), fixed(f)),
    ensures
        each(l, goal_to(f)) == l,
    decreases l,
{
    match l {
        List::Nil => {},
        List::Cons(g, rest) => {
            lemma_all_then(goal_vars(g.0), goals_vars(*rest), fixed(f));
            lemma_goal_fixed(f, g.0);
            lemma_goals_fixed(f, *rest);
        },
    }
}

proof fn lemma_disj_fixed(f: spec_fn(LVar) -> LVar, l: List<EqDisj>)
    requires
        all(disj_vars(l), fixed(f)),
    ensures
        each(l, disj_to(f)) == l,
    decreases l,
{
    match l {
        List::Nil => {},
        List::Cons(x, rest) => {
            lemma_all_then(domain_vars(x.substs.sorted()), disj_vars(*rest), fixed(f));
            lemma_subst_unsorted(fixed(f), x.substs);
            lemma_subst_fixed(f, x.substs);
            lemma_disj_fixed(f, *rest);
        },
    }
}

proof fn lemma_importing_then(n: Namer, a: List<LVar>, b: List<LVar>)
    ensures
        n.importing_all(a.then_all(b)) == n.importing_all(a).importing_all(b),
    decreases a,
{
    match a {
        List::Nil => {},
        List::Cons(v, rest) => {
            lemma_importing_then(n.importing(v), *rest, b);
        },
    }
}

/// The variables of the formulas and goals of the system in the order in which
/// they are visited.
pub open spec fn formula_vars(sys: System) -> List<LVar> {
    guardeds_frees(sys.formulas.sorted()).then_all(
        guardeds_frees(sys.solved_formulas.sorted()).then_all(
            guardeds_frees(sys.lemmas.sorted()).then_all(goals_vars(sys.goals.sorted())),
        ),
    )
}

/// The variables of the subterm constraints and equations of the system in the
/// order in which they are visited.
pub open spec fn store_vars(sys: System) -> List<LVar> {
    pair_vars(sys.subterm_store.neg_subterms.sorted()).then_all(
        constraint_vars(sys.subterm_store.subterms.sorted()).then_all(
            constraint_vars(sys.subterm_store.solved_subterms.sorted()).then_all(
                subst_vars(sys.eq_store.subst).then_all(disj_vars(sys.eq_store.conj)),
            ),
        ),
    )
}

/// The variables of the nodes and their order in the order in which they are
/// visited.
pub open spec fn graph_vars(sys: System) -> List<LVar> {
    node_vars(sys.nodes.sorted()).then_all(
        edge_vars(sys.edges.sorted()).then_all(
            less_vars(sys.less_atoms.sorted()).then_all(last_vars(sys.last_atom)),
        ),
    )
}

/// The variables of the system in the order in which they are visited.
pub open spec fn system_vars(sys: System) -> List<LVar> {
    graph_vars(sys).then_all(store_vars(sys).then_all(formula_vars(sys)))
}

/// The renaming of a system is what comes of visiting its variables.
pub proof fn lemma_namer_visits(sys: System)
    ensures
        system_namer(sys) == Namer::none().importing_all(system_vars(sys)),
{
    let start = Namer::none();
    let graph = start.importing_all(graph_vars(sys));
    let store = graph.importing_all(store_vars(sys));
    lemma_importing_then(start, graph_vars(sys), store_vars(sys).then_all(formula_vars(sys)));
    lemma_importing_then(graph, store_vars(sys), formula_vars(sys));
    // The nodes and their order.
    let g1 = start.importing_all(node_vars(sys.nodes.sorted()));
    let g2 = g1.importing_all(edge_vars(sys.edges.sorted()));
    let rest2 = less_vars(sys.less_atoms.sorted()).then_all(last_vars(sys.last_atom));
    lemma_importing_then(
        start,
        node_vars(sys.nodes.sorted()),
        edge_vars(sys.edges.sorted()).then_all(rest2),
    );
    lemma_importing_then(g1, edge_vars(sys.edges.sorted()), rest2);
    lemma_importing_then(g2, less_vars(sys.less_atoms.sorted()), last_vars(sys.last_atom));
    // The stores.
    let negs = pair_vars(sys.subterm_store.neg_subterms.sorted());
    let subs = constraint_vars(sys.subterm_store.subterms.sorted());
    let solved = constraint_vars(sys.subterm_store.solved_subterms.sorted());
    let eqs = subst_vars(sys.eq_store.subst);
    let disjs = disj_vars(sys.eq_store.conj);
    let s1 = graph.importing_all(negs);
    let s2 = s1.importing_all(subs);
    let s3 = s2.importing_all(solved);
    lemma_importing_then(graph, negs, subs.then_all(solved.then_all(eqs.then_all(disjs))));
    lemma_importing_then(s1, subs, solved.then_all(eqs.then_all(disjs)));
    lemma_importing_then(s2, solved, eqs.then_all(disjs));
    lemma_importing_then(s3, eqs, disjs);
    // The formulas and goals.
    let fs = guardeds_frees(sys.formulas.sorted());
    let ss = guardeds_frees(sys.solved_formulas.sorted());
    let ls = guardeds_frees(sys.lemmas.sorted());
    let gs = goals_vars(sys.goals.sorted());
    let f1 = store.importing_all(fs);
    let f2 = f1.importing_all(ss);
    lemma_importing_then(store, fs, ss.then_all(ls.then_all(gs)));
    lemma_importing_then(f1, ss, ls.then_all(gs));
    lemma_importing_then(f2, ls, gs);
}

proof fn lemma_each_snoc<T>(l: List<T>, x: T, g: spec_fn(T) -> T)
    ensures
        each(l.snoc(x), g) == each(l, g).snoc(g(x)),
    decreases l,
{
    match l {
        List::Nil => {
            assert(each(List::<T>::Nil, g) == List::<T>::Nil);
        },
        List::Cons(_, rest) => {
            lemma_each_snoc(*rest, x, g);
        },
    }
}

proof fn lemma_find_pair_snoc(l: Renaming, p: (LVar, LVar), v: LVar)
    ensures
        find(l.snoc(p), v) == (match find(l, v) {
            Some(w) => Some(w),
            None => if p.0 == v {
                Some(p.1)
            } else {
                None
            },
        }),
    decreases l,
{
    match l {
        List::Nil => {
            assert(find(List::<(LVar, LVar)>::Nil, v) is None);
        },
        List::Cons(_, rest) => {
            lemma_find_pair_snoc(*rest, p, v);
        },
    }
}

/// A variable that is renamed stays renamed to the same variable while further
/// ones are met.
pub proof fn law_renaming_is_stable(n: Namer, l: List<LVar>, v: LVar)
    requires
        find(n.pairs, v) is Some,
    ensures
        find(n.importing_all(l).pairs, v) == find(n.pairs, v),
    decreases l,
{
    match l {
        List::Nil => {},
        List::Cons(w, rest) => {
            let u = LVar { name: w.name, sort: w.sort, idx: n.fresh.next(w.name) };
            lemma_find_pair_snoc(n.pairs, (w, u), v);
            law_renaming_is_stable(n.importing(w), *rest, v);
        },
    }
}

/// Every variable that has been met is renamed.
pub proof fn law_renaming_is_total(n: Namer, l: List<LVar>)
    ensures
        all(l, |v: LVar| find(n.importing_all(l).pairs, v) is Some),
    decreases l,
{
    match l {
        List::Nil => {},
        List::Cons(v, rest) => {
            let u = LVar { name: v.name, sort: v.sort, idx: n.fresh.next(v.name) };
            lemma_find_pair_snoc(n.pairs, (v, u), v);
            law_renaming_is_stable(n.importing(v), *rest, v);
            law_renaming_is_total(n.importing(v), *rest);
        },
    }
}

/// Whether the variables of the system are in `p`.
pub open spec fn system_in(sys: System, p: spec_fn(LVar) -> bool) -> bool {
    &&& all(node_vars(sys.nodes), p)
    &&& all(edge_vars(sys.edges), p)
    &&& all(less_vars(sys.less_atoms), p)
    &&& all(last_vars(sys.last_atom), p)
    &&& all(pair_vars(sys.subterm_store.neg_subterms), p)
    &&& all(constraint_vars(sys.subterm_store.subterms), p)
    &&& all(constraint_vars(sys.subterm_store.solved_subterms), p)
    &&& all(subst_vars(sys.eq_store.subst), p)
    &&& all(disj_vars(sys.eq_store.conj), p)
    &&& all(guardeds_frees(sys.formulas), p)
    &&& all(guardeds_frees(sys.solved_formulas), p)
    &&& all(guardeds_frees(sys.lemmas), p)
    &&& all(goals_vars(sys.goals), p)
}

/// The order in which variables are visited does not matter to which they are.
pub proof fn lemma_system_in(sys: System, p: spec_fn(LVar) -> bool)
    ensures
        all(system_vars(sys), p) == system_in(sys, p),
{
    lemma_all_then(graph_vars(sys), store_vars(sys).then_all(formula_vars(sys)), p);
    lemma_all_then(store_vars(sys), formula_vars(sys), p);
    let rest2 = less_vars(sys.less_atoms.sorted()).then_all(last_vars(sys.last_atom));
    lemma_all_then(
        node_vars(sys.nodes.sorted()),
        edge_vars(sys.edges.sorted()).then_all(rest2),
        p,
    );
    lemma_all_then(edge_vars(sys.edges.sorted()), rest2, p);
    lemma_all_then(less_vars(sys.less_atoms.sorted()), last_vars(sys.last_atom), p);
    let negs = pair_vars(sys.subterm_store.neg_subterms.sorted());
    let subs = constraint_vars(sys.subterm_store.subterms.sorted());
    let solved = constraint_vars(sys.subterm_store.solved_subterms.sorted());
    let eqs = subst_vars(sys.eq_store.subst);
    let disjs = disj_vars(sys.eq_store.conj);
    lemma_all_then(negs, subs.then_all(solved.then_all(eqs.then_all(disjs))), p);
    lemma_all_then(subs, solved.then_all(eqs.then_all(disjs)), p);
    lemma_all_then(solved, eqs.then_all(disjs), p);
    lemma_all_then(eqs, disjs, p);
    let fs = guardeds_frees(sys.formulas.sorted());
    let ss = guardeds_frees(sys.solved_formulas.sorted());
    let ls = guardeds_frees(sys.lemmas.sorted());
    let gs = goals_vars(sys.goals.sorted());
    lemma_all_then(fs, ss.then_all(ls.then_all(gs)), p);
    lemma_all_then(ss, ls.then_all(gs), p);
    lemma_all_then(ls, gs, p);
    lemma_node_unsorted(p, sys.nodes);
    lemma_edge_unsorted(p, sys.edges);
    lemma_less_unsorted(p, sys.less_atoms);
    lemma_pair_unsorted(p, sys.subterm_store.neg_subterms);
    lemma_constraint_unsorted(p, sys.subterm_store.subterms);
    lemma_constraint_unsorted(p, sys.subterm_store.solved_subterms);
    lemma_formula_unsorted(p, sys.formulas);
    lemma_formula_unsorted(p, sys.solved_formulas);
    lemma_formula_unsorted(p, sys.lemmas);
    lemma_goals_unsorted(p, sys.goals);
}

proof fn lemma_last_vars(f: spec_fn(LVar) -> LVar, sys: System)
    ensures
        last_vars(renumbered(f, sys).last_atom) == each(last_vars(sys.last_atom), f),
{
    assert(each(List::Nil, f) == List::<LVar>::Nil);
}

/// Whether the parts of the system are sorted alike before and after renumbering.
pub open spec fn sorted_alike(f: spec_fn(LVar) -> LVar, sys: System) -> bool {
    let st = sys.subterm_store;
    &&& each(sys.nodes, node_to(f)).sorted() == each(sys.nodes.sorted(), node_to(f))
    &&& each(sys.edges, edge_to(f)).sorted() == each(sys.edges.sorted(), edge_to(f))
    &&& each(sys.less_atoms, less_to(f)).sorted() == each(sys.less_atoms.sorted(), less_to(f))
    &&& each(st.neg_subterms, pair_to(f)).sorted() == each(st.neg_subterms.sorted(), pair_to(f))
    &&& each(st.subterms, constraint_to(f)).sorted() == each(
        st.subterms.sorted(),
        constraint_to(f),
    )
    &&& each(st.solved_subterms, constraint_to(f)).sorted() == each(
        st.solved_subterms.sorted(),
        constraint_to(f),
    )
    &&& all(sys.eq_store.conj, disj_alike(f))
    &&& each(sys.formulas, formula_to(f)).sorted() == each(sys.formulas.sorted(), formula_to(f))
    &&& each(sys.solved_formulas, formula_to(f)).sorted() == each(
        sys.solved_formulas.sorted(),
        formula_to(f),
    )
    &&& each(sys.lemmas, formula_to(f)).sorted() == each(sys.lemmas.sorted(), formula_to(f))
    &&& each(sys.goals, goal_to(f)).sorted() == each(sys.goals.sorted(), goal_to(f))
}

/// A renumbering that keeps the order of the variables keeps the order of what they
/// occur in.
pub proof fn law_order_kept_sorts_alike(
    f: spec_fn(LVar) -> LVar,
    d: spec_fn(LVar) -> bool,
    sys: System,
)
    requires
        keeps_order(f, d),
        all(system_vars(sys), d),
    ensures
        sorted_alike(f, sys),
{
    lemma_system_in(sys, d);
    lemma_node_sorted(f, d, sys.nodes);
    lemma_edge_sorted(f, d, sys.edges);
    lemma_less_sorted(f, d, sys.less_atoms);
    lemma_pair_sorted(f, d, sys.subterm_store.neg_subterms);
    lemma_constraint_sorted(f, d, sys.subterm_store.subterms);
    lemma_constraint_sorted(f, d, sys.subterm_store.solved_subterms);
    lemma_disj_sorted(f, d, sys.eq_store.conj);
    lemma_formula_sorted(f, d, sys.formulas);
    lemma_formula_sorted(f, d, sys.solved_formulas);
    lemma_formula_sorted(f, d, sys.lemmas);
    lemma_goals_sorted(f, d, sys.goals);
}

/// The variables of a renumbered system are visited in the same order.
proof fn lemma_system_vars(f: spec_fn(LVar) -> LVar, sys: System)
    requires
        sorted_alike(f, sys),
    ensures
        system_vars(renumbered(f, sys)) == each(system_vars(sys), f),
{
    // The nodes and their order.
    let rest2 = less_vars(sys.less_atoms.sorted()).then_all(last_vars(sys.last_atom));
    lemma_node_vars(f, sys.nodes.sorted());
    lemma_edge_vars(f, sys.edges.sorted());
    lemma_less_vars(f, sys.less_atoms.sorted());
    lemma_last_vars(f, sys);
    lemma_each_then(
        node_vars(sys.nodes.sorted()),
        edge_vars(sys.edges.sorted()).then_all(rest2),
        f,
    );
    lemma_each_then(edge_vars(sys.edges.sorted()), rest2, f);
    lemma_each_then(less_vars(sys.less_atoms.sorted()), last_vars(sys.last_atom), f);
    assert(graph_vars(renumbered(f, sys)) == each(graph_vars(sys), f));
    // The stores.
    let negs = pair_vars(sys.subterm_store.neg_subterms.sorted());
    let subs = constraint_vars(sys.subterm_store.subterms.sorted());
    let solved = constraint_vars(sys.subterm_store.solved_subterms.sorted());
    let eqs = subst_vars(sys.eq_store.subst);
    let disjs = disj_vars(sys.eq_store.conj);
    lemma_pair_vars(f, sys.subterm_store.neg_subterms.sorted());
    lemma_constraint_vars(f, sys.subterm_store.subterms.sorted());
    lemma_constraint_vars(f, sys.subterm_store.solved_subterms.sorted());
    lemma_equation_vars(f, sys.eq_store.subst);
    lemma_disj_vars(f, sys.eq_store.conj);
    lemma_each_then(negs, subs.then_all(solved.then_all(eqs.then_all(disjs))), f);
    lemma_each_then(subs, solved.then_all(eqs.then_all(disjs)), f);
    lemma_each_then(solved, eqs.then_all(disjs), f);
    lemma_each_then(eqs, disjs, f);
    assert(store_vars(renumbered(f, sys)) == each(store_vars(sys), f));
    // The formulas and goals.
    let fs = guardeds_frees(sys.formulas.sorted());
    let ss = guardeds_frees(sys.solved_formulas.sorted());
    let ls = guardeds_frees(sys.lemmas.sorted());
    let gs = goals_vars(sys.goals.sorted());
    lemma_formula_vars(f, sys.formulas.sorted());
    lemma_formula_vars(f, sys.solved_formulas.sorted());
    lemma_formula_vars(f, sys.lemmas.sorted());
    lemma_goals_vars(f, sys.goals.sorted());
    lemma_each_then(fs, ss.then_all(ls.then_all(gs)), f);
    lemma_each_then(ss, ls.then_all(gs), f);
    lemma_each_then(ls, gs, f);
    assert(formula_vars(renumbered(f, sys)) == each(formula_vars(sys), f));
    lemma_each_then(graph_vars(sys), store_vars(sys).then_all(formula_vars(sys)), f);
    lemma_each_then(store_vars(sys), formula_vars(sys), f);
}

/// Renaming a renumbered system gives what renaming the system gives.
pub proof fn lemma_system_renamed(
    f: spec_fn(LVar) -> LVar,
    pairs: Renaming,
    image: Renaming,
    sys: System,
)
    requires
        corresponds(f, pairs, image),
        system_in(sys, met(pairs)),
    ensures
        renamed_system(image, renumbered(f, sys)) == renamed_system(pairs, sys),
{
    lemma_node_renamed(f, pairs, image, sys.nodes);
    lemma_edge_renamed(f, pairs, image, sys.edges);
    lemma_less_renamed(f, pairs, image, sys.less_atoms);
    match sys.last_atom {
        Some(v) => {
            assert(met(pairs)(v));
        },
        None => {},
    }
    lemma_goals_renamed(f, pairs, image, sys.goals);
    lemma_formulas_each(f, sys.formulas);
    lemma_formulas_each(f, sys.solved_formulas);
    lemma_formulas_each(f, sys.lemmas);
    lemma_guardeds_renamed(f, pairs, image, false, 0, sys.formulas);
    lemma_guardeds_renamed(f, pairs, image, false, 0, sys.solved_formulas);
    lemma_guardeds_renamed(f, pairs, image, false, 0, sys.lemmas);
    lemma_equation_renamed(f, pairs, image, sys.eq_store.subst);
    lemma_disj_renamed(f, pairs, image, sys.eq_store.conj);
    assert(renamed_equations(image, renumbered(f, sys).eq_store) == renamed_equations(
        pairs,
        sys.eq_store,
    ));
    lemma_constraint_renamed(f, pairs, image, sys.subterm_store.subterms);
    lemma_constraint_renamed(f, pairs, image, sys.subterm_store.solved_subterms);
    lemma_pair_renamed(f, pairs, image, sys.subterm_store.neg_subterms);
    assert(renamed_store(image, renumbered(f, sys).subterm_store) == renamed_store(
        pairs,
        sys.subterm_store,
    ));
}

/// A system whose variables keep their numbers stays as it is.
proof fn lemma_system_fixed(f: spec_fn(LVar) -> LVar, sys: System)
    requires
        system_in(sys, fixed(f)),
    ensures
        renumbered(f, sys) == sys,
{
    lemma_node_fixed(f, sys.nodes);
    lemma_edge_fixed(f, sys.edges);
    lemma_less_fixed(f, sys.less_atoms);
    match sys.last_atom {
        Some(v) => {
            assert(fixed(f)(v));
        },
        None => {},
    }
    lemma_goals_fixed(f, sys.goals);
    lemma_formula_fixed(f, sys.formulas);
    lemma_formula_fixed(f, sys.solved_formulas);
    lemma_formula_fixed(f, sys.lemmas);
    lemma_equation_fixed(f, sys.eq_store.subst);
    lemma_disj_fixed(f, sys.eq_store.conj);
    lemma_constraint_fixed(f, sys.subterm_store.subterms);
    lemma_constraint_fixed(f, sys.subterm_store.solved_subterms);
    lemma_pair_fixed(f, sys.subterm_store.neg_subterms);
}

/// The variables called `name` of `acc`, followed by those of `l` in the order in
/// which they are first met.
pub open spec fn first_met(acc: List<LVar>, l: List<LVar>, name: Text) -> List<LVar>
    decreases l,
{
    match l {
        List::Nil => acc,
        List::Cons(v, rest) => first_met(
            if v.name == name && !acc.has(v) {
                acc.snoc(v)
            } else {
                acc
            },
            *rest,
            name,
        ),
    }
}

/// The variables of the system called `name` in the order in which they are first
/// met.
pub open spec fn visited(sys: System, name: Text) -> List<LVar> {
    first_met(List::Nil, system_vars(sys), name)
}

/// The number of variables, which stays at the last index once it has come there.
pub open spec fn tally(l: List<LVar>) -> u64
    decreases l,
{
    match l {
        List::Nil => 0,
        List::Cons(_, rest) => after(tally(*rest)),
    }
}

/// The place of `v` in the list, which stays at the last index once it has come
/// there.
pub open spec fn place(l: List<LVar>, v: LVar) -> Option<u64>
    decreases l,
{
    match l {
        List::Nil => None,
        List::Cons(w, rest) => if w == v {
            Some(0)
        } else {
            match place(*rest, v) {
                Some(i) => Some(after(i)),
                None => None,
            }
        },
    }
}

/// The variable that is numbered by the place of `v` in the list.
pub open spec fn numbered_by_place(l: List<LVar>, v: LVar) -> Option<LVar> {
    match place(l, v) {
        Some(i) => Some(LVar { name: v.name, sort: v.sort, idx: i }),
        None => None,
    }
}

proof fn lemma_place_has(l: List<LVar>, v: LVar)
    ensures
        place(l, v) is Some == l.has(v),
    decreases l,
{
    match l {
        List::Nil => {},
        List::Cons(_, rest) => {
            lemma_place_has(*rest, v);
        },
    }
}

proof fn lemma_place_snoc(l: List<LVar>, w: LVar, v: LVar)
    ensures
        tally(l.snoc(w)) == after(tally(l)),
        place(l.snoc(w), v) == (match place(l, v) {
            Some(i) => Some(i),
            None => if w == v {
                Some(tally(l))
            } else {
                None
            },
        }),
    decreases l,
{
    match l {
        List::Nil => {
            assert(tally(List::Nil) == 0);
            assert(place(List::Nil, v) is None);
        },
        List::Cons(_, rest) => {
            lemma_place_snoc(*rest, w, v);
        },
    }
}

/// Whether `n` numbers the variables called `name` by their places in `acc`.
spec fn numbers_by_place(n: Namer, acc: List<LVar>, name: Text) -> bool {
    &&& n.fresh.next(name) == tally(acc)
    &&& forall|v: LVar|
        v.name == name ==> #[trigger] find(n.pairs, v) == numbered_by_place(acc, v)
}

proof fn lemma_numbered_by_place(n: Namer, acc: List<LVar>, l: List<LVar>, name: Text)
    requires
        numbers_by_place(n, acc, name),
    ensures
        numbers_by_place(n.importing_all(l), first_met(acc, l, name), name),
    decreases l,
{
    match l {
        List::Nil => {},
        List::Cons(v, rest) => {
            let m = n.importing(v);
            let more = if v.name == name && !acc.has(v) {
                acc.snoc(v)
            } else {
                acc
            };
            lemma_place_has(acc, v);
            if find(n.pairs, v) is None {
                let u = LVar { name: v.name, sort: v.sort, idx: n.fresh.next(v.name) };
                lemma_counted(n.fresh.counters, v.name, name);
                lemma_place_snoc(acc, v, v);
                assert forall|w: LVar| w.name == name implies #[trigger] find(m.pairs, w)
                    == numbered_by_place(more, w) by {
                    lemma_find_pair_snoc(n.pairs, (v, u), w);
                    lemma_place_snoc(acc, v, w);
                    assert(find(n.pairs, w) == numbered_by_place(acc, w));
                }
            } else if v.name == name {
                assert(find(n.pairs, v) == numbered_by_place(acc, v));
            }
            assert(numbers_by_place(m, more, name));
            lemma_numbered_by_place(m, more, *rest, name);
        },
    }
}

/// A variable gets as its number its place among the variables of its name, in the
/// order in which they are first met.
pub proof fn law_numbered_in_order(sys: System, v: LVar)
    ensures
        find(system_namer(sys).pairs, v) == numbered_by_place(visited(sys, v.name), v),
{
    lemma_namer_visits(sys);
    let start = Namer::none();
    assert forall|w: LVar| w.name == v.name implies #[trigger] find(start.pairs, w)
        == numbered_by_place(List::Nil, w) by {}
    assert(numbers_by_place(start, List::Nil, v.name));
    lemma_numbered_by_place(start, List::Nil, system_vars(sys), v.name);
}

/// Whether `f` keeps the names and the sorts of the variables of the list and tells
/// them apart.
pub open spec fn renumbers(f: spec_fn(LVar) -> LVar, l: List<LVar>) -> bool {
    &&& forall|v: LVar| #[trigger] l.has(v) ==> f(v).name == v.name && f(v).sort == v.sort
    &&& forall|v: LVar, w: LVar|
        #![trigger l.has(v), l.has(w)]
        l.has(v) && l.has(w) && f(v) == f(w) ==> v == w
}

/// Whether the variables of each name are first met in the same order in `sys` and,
/// renumbered, in `other`.
pub open spec fn visited_alike(f: spec_fn(LVar) -> LVar, sys: System, other: System) -> bool {
    forall|name: Text|
        #![trigger visited(sys, name)]
        visited(other, name) == each(visited(sys, name), f)
}

proof fn lemma_first_met_has(acc: List<LVar>, l: List<LVar>, name: Text, v: LVar)
    ensures
        first_met(acc, l, name).has(v) == (acc.has(v) || (l.has(v) && v.name == name)),
    decreases l,
{
    match l {
        List::Nil => {},
        List::Cons(w, rest) => {
            lemma_has_snoc(acc, w, v);
            let more = if w.name == name && !acc.has(w) {
                acc.snoc(w)
            } else {
                acc
            };
            lemma_first_met_has(more, *rest, name, v);
        },
    }
}

proof fn lemma_place_each(f: spec_fn(LVar) -> LVar, all: List<LVar>, l: List<LVar>, v: LVar)
    requires
        renumbers(f, all),
        forall|w: LVar| #[trigger] l.has(w) ==> all.has(w),
        all.has(v),
    ensures
        place(each(l, f), f(v)) == place(l, v),
        each(l, f).has(f(v)) == l.has(v),
    decreases l,
{
    match l {
        List::Nil => {},
        List::Cons(w, rest) => {
            assert(l.has(w));
            assert forall|x: LVar| #[trigger] rest.has(x) implies all.has(x) by {
                assert(l.has(x));
            }
            lemma_place_each(f, all, *rest, v);
        },
    }
}

proof fn lemma_first_met_each(
    f: spec_fn(LVar) -> LVar,
    all: List<LVar>,
    acc: List<LVar>,
    l: List<LVar>,
    name: Text,
)
    requires
        renumbers(f, all),
        forall|w: LVar| #[trigger] acc.has(w) ==> all.has(w),
        forall|w: LVar| #[trigger] l.has(w) ==> all.has(w),
    ensures
        first_met(each(acc, f), each(l, f), name) == each(first_met(acc, l, name), f),
    decreases l,
{
    match l {
        List::Nil => {},
        List::Cons(v, rest) => {
            assert(l.has(v));
            assert(all.has(v));
            assert forall|x: LVar| #[trigger] rest.has(x) implies all.has(x) by {
                assert(l.has(x));
            }
            lemma_place_each(f, all, acc, v);
            lemma_each_snoc(acc, v, f);
            let more = if v.name == name && !acc.has(v) {
                acc.snoc(v)
            } else {
                acc
            };
            assert forall|x: LVar| #[trigger] more.has(x) implies all.has(x) by {
                lemma_has_snoc(acc, v, x);
            }
            lemma_first_met_each(f, all, more, *rest, name);
        },
    }
}

/// Systems whose parts are sorted alike are visited alike.
pub proof fn law_sorted_alike_is_visited_alike(f: spec_fn(LVar) -> LVar, sys: System)
    requires
        renumbers(f, system_vars(sys)),
        sorted_alike(f, sys),
    ensures
        visited_alike(f, sys, renumbered(f, sys)),
{
    lemma_system_vars(f, sys);
    let l = system_vars(sys);
    assert(each(List::Nil, f) == List::<LVar>::Nil);
    assert forall|name: Text|
        #![trigger visited(sys, name)]
        visited(renumbered(f, sys), name) == each(visited(sys, name), f) by {
        assert forall|w: LVar| #[trigger] List::<LVar>::Nil.has(w) implies l.has(w) by {}
        lemma_first_met_each(f, l, List::Nil, l, name);
    }
}

/// Variables that are met in the same order are renamed to the same variables.
pub proof fn lemma_renamed_alike(f: spec_fn(LVar) -> LVar, sys: System, other: System)
    requires
        renumbers(f, system_vars(sys)),
        visited_alike(f, sys, other),
    ensures
        corresponds(f, system_namer(sys).pairs, system_namer(other).pairs),
        system_in(sys, met(system_namer(sys).pairs)),
        system_namer(sys).pairs !is Nil ==> system_namer(other).pairs !is Nil,
{
    let l = system_vars(sys);
    let pairs = system_namer(sys).pairs;
    let image = system_namer(other).pairs;
    assert forall|v: LVar| #[trigger] find(pairs, v) is Some implies find(image, f(v)) == find(
        pairs,
        v,
    ) by {
        let seen = visited(sys, v.name);
        law_numbered_in_order(sys, v);
        lemma_place_has(seen, v);
        lemma_first_met_has(List::Nil, l, v.name, v);
        assert(l.has(v));
        law_numbered_in_order(other, f(v));
        assert forall|w: LVar| #[trigger] seen.has(w) implies l.has(w) by {
            lemma_first_met_has(List::Nil, l, v.name, w);
        }
        lemma_place_each(f, l, seen, v);
    }
    lemma_namer_visits(sys);
    law_renaming_is_total(Namer::none(), l);
    let renamed = |v: LVar| find(Namer::none().importing_all(l).pairs, v) is Some;
    lemma_all_and(l, renamed, renamed, met(pairs));
    lemma_system_in(sys, met(pairs));
    match pairs {
        List::Cons(p, _) => {
            assert(find(pairs, p.0) is Some);
            assert(find(image, f(p.0)) is Some);
        },
        List::Nil => {},
    }
}

/// Systems that differ only by the numbers of their variables are the same once they
/// have been renumbered precisely, as long as the variables of each name are first
/// met in the same order.
pub proof fn law_rename_forgets_numbers(f: spec_fn(LVar) -> LVar, sys: System)
    requires
        renumbers(f, system_vars(sys)),
        visited_alike(f, sys, renumbered(f, sys)),
    ensures
        precise(renumbered(f, sys)) == precise(sys),
{
    let pairs = system_namer(sys).pairs;
    lemma_renamed_alike(f, sys, renumbered(f, sys));
    if pairs is Nil {
        lemma_system_in(sys, met(pairs));
        lemma_all_and(system_vars(sys), met(pairs), met(pairs), fixed(f));
        lemma_system_in(sys, fixed(f));
        lemma_system_fixed(f, sys);
    } else {
        lemma_system_renamed(f, pairs, system_namer(renumbered(f, sys)).pairs, sys);
    }
}

/// The same of systems whose parts are sorted alike before and after renumbering.
pub proof fn law_rename_forgets_numbers_of_sorted(f: spec_fn(LVar) -> LVar, sys: System)
    requires
        renumbers(f, system_vars(sys)),
        sorted_alike(f, sys),
    ensures
        precise(renumbered(f, sys)) == precise(sys),
{
    law_sorted_alike_is_visited_alike(f, sys);
    law_rename_forgets_numbers(f, sys);
}

/// Whether `n` renames variables to ones of the same name and sort, below the
/// first unused index of the name, and no two to the same.
pub open spec fn sound(n: Namer) -> bool {
    &&& forall|v: LVar|
        #![trigger find(n.pairs, v)]
        find(n.pairs, v) matches Some(w) ==> w.name == v.name && w.sort == v.sort && w.idx
            < n.fresh.next(v.name)
    &&& forall|v: LVar, w: LVar|
        #![trigger find(n.pairs, v), find(n.pairs, w)]
        find(n.pairs, v) is Some && find(n.pairs, v) == find(n.pairs, w) ==> v == w
}

/// Whether every index below the first unused one is in use.
pub open spec fn dense(n: Namer) -> bool {
    forall|name: Text, i: u64|
        i < n.fresh.next(name) ==> #[trigger] uses(n, name, i)
}

/// Whether a variable is renamed to the one with the given name and index.
pub open spec fn uses(n: Namer, name: Text, i: u64) -> bool {
    exists|v: LVar|
        {
            &&& #[trigger] find(n.pairs, v) is Some
            &&& (find(n.pairs, v)->0).name == name
            &&& (find(n.pairs, v)->0).idx == i
        }
}

proof fn lemma_counted(l: List<(Text, u64)>, name: Text, other: Text)
    ensures
        find(counted(l, name), other) == if other == name {
            Some(
                match find(l, name) {
                    Some(n) => after(n),
                    None => 1,
                },
            )
        } else {
            find(l, other)
        },
    decreases l,
{
    match l {
        List::Nil => {
            assert(find(List::<(Text, u64)>::Nil, other) is None);
        },
        List::Cons(_, rest) => {
            lemma_counted(*rest, name, other);
        },
    }
}

proof fn lemma_importing_sound(n: Namer, v: LVar)
    requires
        sound(n),
        dense(n),
        n.fresh.next(v.name) < u64::MAX,
    ensures
        sound(n.importing(v)),
        dense(n.importing(v)),
        forall|name: Text| #[trigger]
            n.importing(v).fresh.next(name) <= n.fresh.next(name) + 1,
{
    let m = n.importing(v);
    if find(n.pairs, v) is None {
        let u = LVar { name: v.name, sort: v.sort, idx: n.fresh.next(v.name) };
        assert forall|name: Text|
            #[trigger] m.fresh.next(name) == (if name == v.name {
                (n.fresh.next(name) + 1) as u64
            } else {
                n.fresh.next(name)
            }) by {
            lemma_counted(n.fresh.counters, v.name, name);
        }
        assert forall|x: LVar| #[trigger]
            find(m.pairs, x) == (match find(n.pairs, x) {
                Some(w) => Some(w),
                None => if x == v {
                    Some(u)
                } else {
                    None
                },
            }) by {
            lemma_find_pair_snoc(n.pairs, (v, u), x);
        }
        assert(find(n.pairs, v) is None);
        assert forall|name: Text, i: u64| i < m.fresh.next(name) implies #[trigger] uses(
            m,
            name,
            i,
        ) by {
            if name == v.name && i == n.fresh.next(v.name) {
                assert(find(m.pairs, v) == Some(u));
            } else {
                assert(uses(n, name, i));
                let x = choose|x: LVar|
                    {
                        &&& #[trigger] find(n.pairs, x) is Some
                        &&& (find(n.pairs, x)->0).name == name
                        &&& (find(n.pairs, x)->0).idx == i
                    };
                assert(find(m.pairs, x) == find(n.pairs, x));
            }
        }
        assert forall|x: LVar, y: LVar|
            #![trigger find(m.pairs, x), find(m.pairs, y)]
            find(m.pairs, x) is Some && find(m.pairs, x) == find(m.pairs, y) implies x == y by {
            assert(find(n.pairs, x) is Some || x == v);
            assert(find(n.pairs, y) is Some || y == v);
        }
    }
}

proof fn lemma_importing_all_sound(n: Namer, l: List<LVar>, met_before: nat)
    requires
        sound(n),
        dense(n),
        forall|name: Text| #[trigger] n.fresh.next(name) <= met_before,
        met_before + l.size() < u64::MAX,
    ensures
        sound(n.importing_all(l)),
        dense(n.importing_all(l)),
    decreases l,
{
    match l {
        List::Nil => {},
        List::Cons(v, rest) => {
            assert(n.fresh.next(v.name) <= met_before);
            lemma_importing_sound(n, v);
            let m = n.importing(v);
            assert forall|name: Text| #[trigger] m.fresh.next(name) <= met_before + 1 by {
                assert(n.fresh.next(name) <= met_before);
            }
            lemma_importing_all_sound(m, *rest, met_before + 1);
        },
    }
}

/// The renaming of a system keeps names and sorts, tells its variables apart, and
/// numbers those of each name from 0 on without a gap.
pub proof fn law_rename_is_sound(sys: System)
    requires
        system_vars(sys).size() < u64::MAX,
    ensures
        sound(system_namer(sys)),
        dense(system_namer(sys)),
        all(system_vars(sys), |v: LVar| find(system_namer(sys).pairs, v) is Some),
{
    lemma_namer_visits(sys);
    let start = Namer::none();
    assert forall|v: LVar| #[trigger] find(start.pairs, v) is None by {}
    assert forall|name: Text| #[trigger] start.fresh.next(name) == 0 by {}
    lemma_importing_all_sound(start, system_vars(sys), 0);
    law_renaming_is_total(start, system_vars(sys));
}

} // verus!
