//! What inserting a formula brings about.
use crate::constraints::{EquationStore, Goal, LessAtom, Reason, SubtermConstraint};
use crate::equation_laws::{
    answers_unify, goes_on_with, holds, law_equations_hold, unifies,
};
use crate::formulas::{
    denied, formula_size, formulas_size, fresh_vars, instantiated, lemma_formula_size,
    lemma_size_instantiated, node_of, representative, two,
};
use crate::guarded::{bottom, Binding, GAtom, Guarded, Quant};
use crate::leaves::plus;
use crate::list::{find, List};
use crate::list_laws::{all, lemma_has_snoc};
use crate::reduction::{Reduction, SplitStrategy};
use crate::system::{orders, System};
use crate::system_laws::{
    formulas_grow, goals_grow, law_formulas_lose_nothing, law_goal_inserted, lemma_last_inserted,
    lemma_less_inserted,
};
use crate::term_ops::{all_binder_free, binder_free};
use crate::terms::{LVar, Term};
use vstd::prelude::*;

verus! {

/// The stores in which the equation holds.
pub open spec fn equal_in(x: Term, y: Term) -> spec_fn(EquationStore) -> bool {
    |store: EquationStore| holds(store, List::one((x, y)))
}

proof fn lemma_equal_stores(
    a: EquationStore,
    x: Term,
    y: Term,
    l: List<EquationStore>,
)
    requires
        all(l, unifies(a, List::one((x, y)))),
    ensures
        all(l, equal_in(x, y)),
    decreases l,
{
    match l {
        List::Nil => {},
        List::Cons(s, rest) => {
            assert(unifies(a, List::one((x, y)))(s));
            assert(equal_in(x, y)(s));
            lemma_equal_stores(a, x, y, *rest);
        },
    }
}

/// An equation that is inserted holds: in the store, and in every store with which the
/// reduction has to go on besides, where the answers are unifiers.
pub proof fn law_inserted_equation_holds(red: Reduction, x: Term, y: Term)
    requires
        answers_unify(red.ctx.answers),
        red.pending_eq_arms is Nil,
    ensures
        red.eq_inserted(x, y) matches Ok(end) ==> equal_in(x, y)(end.sys.eq_store) && all(
            end.pending_eq_arms,
            equal_in(x, y),
        ),
{
    let eqs = List::one((x, y));
    law_equations_hold(red, eqs);
    assert(all(List::Nil, equal_in(x, y)));
    match red.term_eqs(SplitStrategy::SplitNow, eqs) {
        Ok((mid, out)) => {
            lemma_equal_stores(red.sys.eq_store, x, y, goes_on_with(mid, out));
            lemma_pending_same(red, eqs);
        },
        Err(_) => {},
    }
}

proof fn lemma_pending_same(red: Reduction, eqs: List<(Term, Term)>)
    ensures
        red.term_eqs(SplitStrategy::SplitNow, eqs) matches Ok((end, _)) ==> end.pending_eq_arms
            == red.pending_eq_arms,
{
    reveal(Reduction::term_eqs);
}

/// An atom that is inserted takes effect: an action at a node becomes a goal, an ordering
/// between nodes holds between those that stand for them, there is a last node, and a
/// subterm constraint is on record; and it is said that it did.
pub proof fn law_atom_takes_effect(red: Reduction, a: GAtom)
    ensures
        red.atom_inserted(a) matches Ok((end, took)) ==> match a {
            GAtom::Action(fa, t) => match node_of(t) {
                Some(i) if all_binder_free(fa.terms) => took && find(
                    end.sys.goals,
                    Goal::Action(i, fa),
                ) is Some,
                _ => !took && end == red,
            },
            GAtom::Less(s, t) => match (node_of(s), node_of(t)) {
                (Some(i), Some(j)) => took && orders(
                    end.sys.less_atoms,
                    representative(red.sys.eq_store.subst, i),
                    representative(red.sys.eq_store.subst, j),
                ),
                _ => !took && end == red,
            },
            GAtom::Last(t) => match node_of(t) {
                Some(i) => took && match red.sys.last_atom {
                    None => end.sys.last_atom == Some(i),
                    Some(j) => end.sys.last_atom == Some(j),
                },
                None => !took && end == red,
            },
            GAtom::Subterm(s, t) => if binder_free(s) && binder_free(t) {
                took && end.sys.subterm_store.subterms.has(
                    SubtermConstraint { small: s, big: t, propagated: false },
                )
            } else {
                !took && end == red
            },
            GAtom::Eq(s, t) => took == (binder_free(s) && binder_free(t)),
            _ => !took && end == red,
        },
{
    reveal(Reduction::atom_inserted);
    match a {
        GAtom::Action(fa, t) => match node_of(t) {
            Some(i) => {
                law_goal_inserted(red, Goal::Action(i, fa), false);
            },
            None => {},
        },
        GAtom::Less(s, t) => match (node_of(s), node_of(t)) {
            (Some(i), Some(j)) => {
                lemma_less_inserted(
                    red,
                    LessAtom {
                        smaller: representative(red.sys.eq_store.subst, i),
                        larger: representative(red.sys.eq_store.subst, j),
                        reason: Reason::Formula,
                    },
                );
            },
            _ => {},
        },
        GAtom::Last(t) => match node_of(t) {
            Some(i) => {
                lemma_last_inserted(red, i);
                reveal(Reduction::last_inserted);
            },
            None => {},
        },
        GAtom::Subterm(s, t) => {
            let c = SubtermConstraint { small: s, big: t, propagated: false };
            lemma_has_snoc(red.sys.subterm_store.subterms, c, c);
        },
        _ => {},
    }
}

/// Whether the formula is on record.
pub open spec fn on_record(sys: System, g: Guarded) -> bool {
    sys.formulas.has(g) || sys.solved_formulas.has(g)
}

/// The disjunction of two atoms.
pub open spec fn either_atom(a: GAtom, b: GAtom) -> Guarded {
    Guarded::Disj(
        Box::new(List::Cons(Guarded::Atom(a), Box::new(List::one(Guarded::Atom(b))))),
    )
}

/// Whether the denial of an atom is taken up: of two nodes of which the first does not
/// precede the second, they are the same or the second precedes the first; of two nodes
/// that are not the same, one precedes the other; and a node that is not the last one
/// precedes it or comes after it.
pub open spec fn denial_taken_up(sys: System, a: GAtom) -> bool {
    match a {
        GAtom::Less(i, j) => node_of(i) is Some && node_of(j) is Some ==> on_record(
            sys,
            either_atom(GAtom::Eq(i, j), GAtom::Less(j, i)),
        ),
        GAtom::Eq(i, j) => node_of(i) is Some && node_of(j) is Some ==> on_record(
            sys,
            either_atom(GAtom::Less(i, j), GAtom::Less(j, i)),
        ),
        GAtom::Last(i) => sys.last_atom matches Some(last) && on_record(
            sys,
            either_atom(GAtom::Less(Term::Var(last), i), GAtom::Less(i, Term::Var(last))),
        ),
        _ => true,
    }
}

/// Whether the formula is taken up in the system: it is on record, or every part of a
/// conjunction is taken up, an action at a node is a goal, there is a last node, and a
/// denied atom is taken up as such.
pub open spec fn taken_up(sys: System, g: Guarded) -> bool
    decreases g,
{
    on_record(sys, g) || match g {
        Guarded::Conj(l) => all_taken_up(sys, *l),
        Guarded::Disj(_) => false,
        Guarded::Atom(GAtom::Action(fa, t)) => match node_of(t) {
            Some(i) if all_binder_free(fa.terms) => find(sys.goals, Goal::Action(i, fa)) is Some,
            _ => true,
        },
        Guarded::Atom(GAtom::Last(t)) => node_of(t) is Some ==> sys.last_atom is Some,
        Guarded::Atom(_) => true,
        Guarded::GGuarded(Quant::Ex, _, _, _) => true,
        Guarded::GGuarded(Quant::All, vars, guards, body) => vars is Nil && *body == bottom() && (
        guards.only() matches Some(a) && denial_taken_up(sys, a)),
    }
}

/// Whether all the formulas are taken up.
pub open spec fn all_taken_up(sys: System, l: List<Guarded>) -> bool
    decreases l,
{
    match l {
        List::Nil => true,
        List::Cons(g, rest) => taken_up(sys, g) && all_taken_up(sys, *rest),
    }
}

/// Whether `b` has the goals, the formulas and the last node of `a`.
pub open spec fn states_more(a: System, b: System) -> bool {
    &&& goals_grow(a, b)
    &&& formulas_grow(a, b)
    &&& a.last_atom is Some ==> b.last_atom == a.last_atom
}

proof fn lemma_record_stays(a: System, b: System, g: Guarded)
    requires
        states_more(a, b),
        on_record(a, g),
    ensures
        on_record(b, g),
{
    assert(a.formulas.has(g) ==> b.formulas.has(g));
    assert(a.solved_formulas.has(g) ==> b.solved_formulas.has(g));
}

pub proof fn lemma_taken_up_stays(a: System, b: System, g: Guarded)
    requires
        states_more(a, b),
        taken_up(a, g),
    ensures
        taken_up(b, g),
    decreases g,
{
    if on_record(a, g) {
        lemma_record_stays(a, b, g);
    } else {
        match g {
            Guarded::Conj(l) => {
                lemma_all_taken_up_stay(a, b, *l);
            },
            Guarded::Atom(GAtom::Action(fa, t)) => match node_of(t) {
                Some(i) => {
                    assert(find(b.goals, Goal::Action(i, fa)) == find(
                        b.goals,
                        Goal::Action(i, fa),
                    ));
                },
                None => {},
            },
            Guarded::GGuarded(Quant::All, _, guards, _) => match guards.only() {
                Some(GAtom::Less(i, j)) => {
                    let f = either_atom(GAtom::Eq(i, j), GAtom::Less(j, i));
                    if on_record(a, f) {
                        lemma_record_stays(a, b, f);
                    }
                },
                Some(GAtom::Eq(i, j)) => {
                    let f = either_atom(GAtom::Less(i, j), GAtom::Less(j, i));
                    if on_record(a, f) {
                        lemma_record_stays(a, b, f);
                    }
                },
                Some(GAtom::Last(i)) => match a.last_atom {
                    Some(last) => {
                        let t = Term::Var(last);
                        lemma_record_stays(
                            a,
                            b,
                            either_atom(GAtom::Less(t, i), GAtom::Less(i, t)),
                        );
                    },
                    None => {},
                },
                _ => {},
            },
            _ => {},
        }
    }
}

proof fn lemma_all_taken_up_stay(a: System, b: System, l: List<Guarded>)
    requires
        states_more(a, b),
        all_taken_up(a, l),
    ensures
        all_taken_up(b, l),
    decreases l,
{
    match l {
        List::Nil => {},
        List::Cons(g, rest) => {
            lemma_taken_up_stays(a, b, g);
            lemma_all_taken_up_stay(a, b, *rest);
        },
    }
}

proof fn lemma_disj_recorded(red: Reduction, l: List<Guarded>)
    ensures
        on_record(red.disj_inserted(l).sys, Guarded::Disj(Box::new(l))),
        !red.stored(Guarded::Disj(Box::new(l))) ==> find(
            red.disj_inserted(l).sys.goals,
            Goal::Disj(l),
        ) is Some,
{
    let g = Guarded::Disj(Box::new(l));
    let kept = red.formula_kept(g);
    lemma_has_snoc(red.sys.formulas, g, g);
    law_goal_inserted(kept, Goal::Disj(l), false);
}

proof fn lemma_denial_taken_up(red: Reduction, g: Guarded, a: GAtom, mark: bool)
    requires
        denied(g) == Some(a),
    ensures
        taken_up(red.denial_inserted(g, a, mark).sys, g),
{
    let marked = red.formula_marked(g, mark);
    match a {
        GAtom::Less(i, j) => {
            lemma_disj_recorded(marked, two(GAtom::Eq(i, j), GAtom::Less(j, i)));
        },
        GAtom::Eq(i, j) => {
            lemma_disj_recorded(
                marked,
                two(GAtom::Less(i, j), GAtom::Less(j, i)),
            );
        },
        GAtom::Last(i) => {
            let last = marked.last_node();
            let t = Term::Var(last);
            let mid = marked.on(System { last_atom: Some(last), ..marked.sys });
            let l = two(GAtom::Less(t, i), GAtom::Less(i, t));
            lemma_disj_recorded(mid, l);
            law_goal_inserted(
                mid.formula_kept(Guarded::Disj(Box::new(l))),
                Goal::Disj(l),
                false,
            );
        },
        _ => {},
    }
    lemma_has_snoc(red.sys.formulas, g, g);
}

/// A formula that is inserted is taken up: it is on record or its parts are, an action
/// becomes a goal, a disjunction a formula and a goal, and a denied atom a disjunction.
pub proof fn law_formula_is_taken_up(red: Reduction, g: Guarded, mark: bool)
    ensures
        red.formula_inserted(g, mark) matches Ok(end) ==> taken_up(end.sys, g),
        red.formula_inserted(g, mark) matches Ok(end) ==> (g matches Guarded::Disj(l)
            ==> red.stored(g) || find(end.sys.goals, Goal::Disj(*l)) is Some),
    decreases formula_size(g), 0nat,
{
    if !red.stored(g) {
        match g {
            Guarded::Conj(l) => {
                law_formulas_are_taken_up(red.formula_marked(g, mark), *l);
            },
            Guarded::Disj(l) => {
                lemma_disj_recorded(red, *l);
            },
            Guarded::Atom(a) => {
                law_atom_takes_effect(red, a);
            },
            Guarded::GGuarded(Quant::Ex, _, _, _) => {},
            Guarded::GGuarded(Quant::All, _, _, _) => {
                match denied(g) {
                    Some(a) => {
                        lemma_denial_taken_up(red, g, a, mark);
                    },
                    None => {
                        lemma_has_snoc(red.sys.formulas, g, g);
                    },
                }
            },
        }
    }
}

/// Formulas that are inserted are all taken up.
pub proof fn law_formulas_are_taken_up(red: Reduction, l: List<Guarded>)
    ensures
        red.formulas_inserted(l) matches Ok(end) ==> all_taken_up(end.sys, l),
    decreases formulas_size(l), 1nat,
{
    match l {
        List::Nil => {},
        List::Cons(g, rest) => {
            lemma_formula_size(g);
            law_formula_is_taken_up(red, g, false);
            match red.formula_inserted(g, false) {
                Ok(mid) => {
                    law_formulas_are_taken_up(mid, *rest);
                    law_formulas_lose_nothing(mid, *rest);
                    match mid.formulas_inserted(*rest) {
                        Ok(end) => {
                            lemma_taken_up_stays(mid.sys, end.sys, g);
                        },
                        Err(_) => {},
                    }
                },
                Err(_) => {},
            }
        },
    }
}

/// The parts of an existential formula that is new are taken up with variables for those it
/// quantifies over, as many as those are.
pub proof fn law_existential_is_instantiated(
    red: Reduction,
    vars: List<Binding>,
    guards: List<GAtom>,
    body: Guarded,
    mark: bool,
)
    ensures
        ({
            let g = Guarded::GGuarded(Quant::Ex, vars, guards, Box::new(body));
            red.formula_inserted(g, mark) matches Ok(end) ==> red.stored(g) || exists|
                xs: List<LVar>,
            |
                xs.size() == vars.size() && #[trigger] taken_up(
                    end.sys,
                    instantiated(xs, guards, body),
                )
        }),
{
    let g = Guarded::GGuarded(Quant::Ex, vars, guards, Box::new(body));
    let xs = red.witnesses(g, vars, mark);
    let inst = instantiated(xs, guards, body);
    lemma_size_instantiated(xs, guards, body);
    lemma_witnesses_size(vars, red.witnesses(g, vars, mark), red, g, mark);
    law_formula_is_taken_up(red.witnesses_taken(g, vars, mark), inst, false);
}

proof fn lemma_witnesses_size(
    vars: List<Binding>,
    xs: List<LVar>,
    red: Reduction,
    g: Guarded,
    mark: bool,
)
    requires
        xs == red.witnesses(g, vars, mark),
    ensures
        xs.size() == vars.size(),
{
    lemma_fresh_vars_size(vars, red.formula_marked(g, mark).witness_supply().next);
}

proof fn lemma_fresh_vars_size(vars: List<Binding>, base: u64)
    ensures
        fresh_vars(vars, base).size() == vars.size(),
    decreases vars,
{
    match vars {
        List::Nil => {},
        List::Cons(_, rest) => {
            lemma_fresh_vars_size(*rest, plus(base, 1));
        },
    }
}

} // verus!
