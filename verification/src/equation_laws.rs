//! What solved equations mean: under answers that are unifiers, the substitution
//! that is left makes the two sides equal.
use crate::constraints::{Edge, EquationStore, Goal};
use crate::context::{AddEqsAnswer, AddEqsQuery, Answers, SimpQuery, SplitQuery};
use crate::equations::{all_alike, argument_eqs, node_terms, nontrivial, simplified_arms, zipped};
use crate::facts::Fact;
use crate::list::{find, List};
use crate::list_laws::{all, lemma_all_has, lemma_all_then};
use crate::reduction::{Reduction, SolveOutcome, SplitStrategy};
use crate::system::System;
use crate::system_laws::law_goal_inserted;
use crate::term_ops::{applied, applied_all, Subst};
use crate::terms::{LVar, Term};
use vstd::prelude::*;

verus! {

/// Whether the substitution makes the two terms equal.
pub open spec fn equates(s: Subst, e: (Term, Term)) -> bool {
    applied(s, e.0) == applied(s, e.1)
}

/// The equations that the substitution solves.
pub open spec fn solves(s: Subst) -> spec_fn((Term, Term)) -> bool {
    |e: (Term, Term)| equates(s, e)
}

/// Whether the equations hold in the store, or it has no solution.
pub open spec fn holds(store: EquationStore, eqs: List<(Term, Term)>) -> bool {
    store.contradictory || all(eqs, solves(store.subst))
}

/// Whether the substitution makes the two facts equal.
pub open spec fn fact_equates(s: Subst, a: Fact, b: Fact) -> bool {
    a.tag == b.tag && applied_all(s, a.terms) == applied_all(s, b.terms)
}

/// Whether the facts are equal in the store, or it has no solution.
pub open spec fn fact_holds(store: EquationStore, a: Fact, b: Fact) -> bool {
    store.contradictory || fact_equates(store.subst, a, b)
}

/// Whether a store says what another says, and maybe more: what the other makes
/// equal stays equal, unless nothing solves the store.
pub open spec fn follows(a: EquationStore, b: EquationStore) -> bool {
    b.contradictory || (!a.contradictory && forall|e: (Term, Term)|
        equates(a.subst, e) ==> #[trigger] equates(b.subst, e))
}

/// The stores that follow from `a` and in which the equations hold.
pub open spec fn unifies(a: EquationStore, eqs: List<(Term, Term)>) -> spec_fn(
    EquationStore,
) -> bool {
    |b: EquationStore| follows(a, b) && holds(b, eqs)
}

/// Whether the answers of unification are unifiers: of the equations in question,
/// or of what results from the disjunction in which there are several; and whether
/// the stores that are answered follow from those that were asked about.
pub open spec fn answers_unify(a: Answers) -> bool {
    &&& forall|q: AddEqsQuery| #[trigger]
        find(a.add_eqs, q) matches Some(AddEqsAnswer::Added(store, split, _)) ==> follows(
            q.store,
            store,
        ) && match split {
            None => holds(store, q.eqs),
            Some(id) => find(a.split, SplitQuery { store, id }) matches Some(arms) ==> all(
                arms,
                unifies(store, q.eqs),
            ),
        }
    &&& forall|q: SimpQuery| #[trigger]
        find(a.simp, q) matches Some(answer) ==> follows(q.store, answer.store)
}

proof fn lemma_holds_on(a: EquationStore, b: EquationStore, eqs: List<(Term, Term)>)
    requires
        follows(a, b),
        holds(a, eqs),
    ensures
        holds(b, eqs),
    decreases eqs,
{
    match eqs {
        List::Nil => {},
        List::Cons(e, rest) => {
            if !b.contradictory {
                lemma_holds_on(a, b, *rest);
                assert(equates(a.subst, e));
                assert(equates(b.subst, e));
            }
        },
    }
}

pub proof fn lemma_follows_twice(a: EquationStore, b: EquationStore, c: EquationStore)
    requires
        follows(a, b),
        follows(b, c),
    ensures
        follows(a, c),
{
    if !c.contradictory {
        assert forall|e: (Term, Term)| equates(a.subst, e) implies #[trigger] equates(
            c.subst,
            e,
        ) by {
            assert(equates(b.subst, e));
        }
    }
}

proof fn lemma_trivial_hold(store: EquationStore, eqs: List<(Term, Term)>)
    requires
        holds(store, nontrivial(eqs)),
    ensures
        holds(store, eqs),
    decreases eqs,
{
    match eqs {
        List::Nil => {},
        List::Cons(_, rest) => {
            lemma_trivial_hold(store, *rest);
        },
    }
}

proof fn lemma_arms_unify(
    red: Reduction,
    arms: List<EquationStore>,
    checked: Option<System>,
    base: u64,
    last: u64,
    a: EquationStore,
    eqs: List<(Term, Term)>,
)
    requires
        answers_unify(red.ctx.answers),
        all(arms, unifies(a, eqs)),
    ensures
        simplified_arms(red.ctx, arms, checked, base, last) matches Ok(out) ==> all(
            out.live,
            unifies(a, eqs),
        ),
    decreases arms,
{
    match arms {
        List::Nil => {
            assert(all(List::Nil, unifies(a, eqs)));
        },
        List::Cons(arm, rest) => {
            let q = SimpQuery { store: arm, checked, next: base };
            match find(red.ctx.answers.simp, q) {
                Some(answer) => {
                    assert(unifies(a, eqs)(arm));
                    lemma_follows_twice(a, arm, answer.store);
                    lemma_holds_on(arm, answer.store, eqs);
                    assert(unifies(a, eqs)(answer.store));
                    lemma_arms_unify(red, *rest, checked, base, answer.next, a, eqs);
                },
                None => {},
            }
        },
    }
}

proof fn lemma_several(red: Reduction, id: u64)
    ensures
        red.split_done(id) matches Ok((_, out)) ==> (out matches SolveOutcome::Cases(arms)
            ==> arms.size() >= 2),
{
    match red.split_done(id) {
        Ok((_, SolveOutcome::Cases(arms))) => match arms {
            List::Nil => {},
            List::Cons(_, rest) => match *rest {
                List::Nil => {},
                List::Cons(_, _) => {
                    assert(rest.size() >= 1);
                },
            },
        },
        _ => {},
    }
}

/// The stores with which a reduction goes on after solving equations.
pub open spec fn goes_on_with(end: Reduction, out: SolveOutcome) -> List<EquationStore> {
    match out {
        SolveOutcome::Linear(_) => List::one(end.sys.eq_store),
        SolveOutcome::Cases(arms) => arms,
        _ => List::Nil,
    }
}

/// Solved equations hold: where the answers are unifiers, every store with which the
/// reduction goes on makes the two sides of each equation equal, and whatever was
/// equal before.
pub proof fn law_equations_hold(red: Reduction, eqs: List<(Term, Term)>)
    requires
        answers_unify(red.ctx.answers),
    ensures
        red.term_eqs(SplitStrategy::SplitNow, eqs) matches Ok((end, out)) ==> all(
            goes_on_with(end, out),
            unifies(red.sys.eq_store, eqs),
        ) && end.ctx == red.ctx && (out matches SolveOutcome::Cases(arms) ==> arms.size() >= 2),
{
    reveal(Reduction::term_eqs);
    let a = red.sys.eq_store;
    let pending = nontrivial(eqs);
    assert(all(List::Nil, unifies(a, eqs)));
    if pending is Nil {
        assert(all(List::Nil, solves(a.subst)));
        lemma_trivial_hold(a, eqs);
        assert(unifies(a, eqs)(a));
    } else {
        let q = red.unifier_query(pending);
        match find(red.ctx.answers.add_eqs, q) {
            Some(AddEqsAnswer::Added(store, split, next)) => {
                let start = red.with_store(store).at(next);
                match split {
                    None => {
                        let more = SimpQuery { store, checked: start.checked(), next };
                        match find(red.ctx.answers.simp, more) {
                            Some(answer) => {
                                lemma_follows_twice(a, store, answer.store);
                                lemma_holds_on(store, answer.store, pending);
                                lemma_trivial_hold(answer.store, eqs);
                                assert(unifies(a, eqs)(answer.store));
                            },
                            None => {},
                        }
                    },
                    Some(id) => match find(red.ctx.answers.split, SplitQuery { store, id }) {
                        Some(arms) => {
                            lemma_several(start, id);
                            assert(follows(a, store));
                            lemma_split_arms(a, store, arms, eqs);
                            lemma_arms_unify(start, arms, start.checked(), next, next, a, eqs);
                        },
                        None => {},
                    },
                }
            },
            _ => {},
        }
    }
}

proof fn lemma_split_arms(
    a: EquationStore,
    store: EquationStore,
    arms: List<EquationStore>,
    eqs: List<(Term, Term)>,
)
    requires
        follows(a, store),
        all(arms, unifies(store, nontrivial(eqs))),
    ensures
        all(arms, unifies(a, eqs)),
    decreases arms,
{
    match arms {
        List::Nil => {},
        List::Cons(arm, rest) => {
            lemma_split_arms(a, store, *rest, eqs);
            assert(unifies(store, nontrivial(eqs))(arm));
            lemma_follows_twice(a, store, arm);
            lemma_trivial_hold(arm, eqs);
            assert(unifies(a, eqs)(arm));
        },
    }
}

proof fn lemma_zipped_hold(s: Subst, a: List<Term>, b: List<Term>)
    requires
        a.size() == b.size(),
        all(zipped(a, b), solves(s)),
    ensures
        applied_all(s, a) == applied_all(s, b),
    decreases a,
{
    match (a, b) {
        (List::Cons(x, l), List::Cons(y, m)) => {
            assert(equates(s, (x, y)));
            lemma_zipped_hold(s, *l, *m);
        },
        _ => {},
    }
}

/// The pairs of facts that the store makes equal.
pub open spec fn fact_solves(store: EquationStore) -> spec_fn((Fact, Fact)) -> bool {
    |e: (Fact, Fact)| fact_holds(store, e.0, e.1)
}

proof fn lemma_arguments_hold(store: EquationStore, eqs: List<(Fact, Fact)>)
    requires
        all_alike(eqs),
        holds(store, argument_eqs(eqs)),
    ensures
        all(eqs, fact_solves(store)),
    decreases eqs,
{
    match eqs {
        List::Nil => {},
        List::Cons(e, rest) => {
            let here = zipped(e.0.terms, e.1.terms);
            if !store.contradictory {
                lemma_all_then(here, argument_eqs(*rest), solves(store.subst));
                lemma_zipped_hold(store.subst, e.0.terms, e.1.terms);
            }
            assert(fact_solves(store)(e));
            lemma_arguments_hold(store, *rest);
        },
    }
}

/// The stores that follow from `a` and in which the facts of each pair are equal.
pub open spec fn fact_unifies(a: EquationStore, eqs: List<(Fact, Fact)>) -> spec_fn(
    EquationStore,
) -> bool {
    |b: EquationStore| follows(a, b) && all(eqs, fact_solves(b))
}

proof fn lemma_fact_stores(
    a: EquationStore,
    eqs: List<(Fact, Fact)>,
    stores: List<EquationStore>,
)
    requires
        all_alike(eqs),
        all(stores, unifies(a, argument_eqs(eqs))),
    ensures
        all(stores, fact_unifies(a, eqs)),
    decreases stores,
{
    match stores {
        List::Nil => {},
        List::Cons(b, rest) => {
            assert(unifies(a, argument_eqs(eqs))(b));
            lemma_arguments_hold(b, eqs);
            assert(fact_unifies(a, eqs)(b));
            lemma_fact_stores(a, eqs, *rest);
        },
    }
}

/// Solved equations between facts hold: where the answers are unifiers, every store
/// with which the reduction goes on makes the two facts equal, symbol by symbol and
/// argument by argument.
pub proof fn law_fact_equations_hold(red: Reduction, eqs: List<(Fact, Fact)>)
    requires
        answers_unify(red.ctx.answers),
    ensures
        red.fact_eqs(SplitStrategy::SplitNow, eqs) matches Ok((end, out)) ==> all(
            goes_on_with(end, out),
            fact_unifies(red.sys.eq_store, eqs),
        ) && end.ctx == red.ctx,
{
    reveal(Reduction::fact_eqs);
    assert(all(List::Nil, fact_unifies(red.sys.eq_store, eqs)));
    if all_alike(eqs) {
        law_equations_hold(red, argument_eqs(eqs));
        match red.term_eqs(SplitStrategy::SplitNow, argument_eqs(eqs)) {
            Ok((end, out)) => {
                lemma_fact_stores(red.sys.eq_store, eqs, goes_on_with(end, out));
            },
            Err(_) => {},
        }
    }
}

/// The stores that follow from `a` and in which the two nodes are one.
pub open spec fn node_unifies(a: EquationStore, i: LVar, j: LVar) -> spec_fn(
    EquationStore,
) -> bool {
    |b: EquationStore| follows(a, b) && holds(b, List::one((Term::Var(i), Term::Var(j))))
}

proof fn lemma_node_has(eqs: List<(LVar, LVar)>, i: LVar, j: LVar)
    requires
        eqs.has((i, j)),
    ensures
        node_terms(eqs).has((Term::Var(i), Term::Var(j))),
    decreases eqs,
{
    match eqs {
        List::Nil => {},
        List::Cons(e, rest) => {
            if e != (i, j) {
                lemma_node_has(*rest, i, j);
            }
        },
    }
}

proof fn lemma_node_stores(
    a: EquationStore,
    eqs: List<(LVar, LVar)>,
    stores: List<EquationStore>,
    i: LVar,
    j: LVar,
)
    requires
        eqs.has((i, j)),
        all(stores, unifies(a, node_terms(eqs))),
    ensures
        all(stores, node_unifies(a, i, j)),
    decreases stores,
{
    match stores {
        List::Nil => {},
        List::Cons(b, rest) => {
            assert(unifies(a, node_terms(eqs))(b));
            lemma_node_has(eqs, i, j);
            if !b.contradictory {
                lemma_all_has(node_terms(eqs), (Term::Var(i), Term::Var(j)), solves(b.subst));
                assert(all(List::Nil, solves(b.subst)));
            }
            assert(node_unifies(a, i, j)(b));
            lemma_node_stores(a, eqs, *rest, i, j);
        },
    }
}

/// Solved equations between nodes hold: where the answers are unifiers, every store
/// with which the reduction goes on makes the two nodes of each equation one.
pub proof fn law_node_equations_hold(red: Reduction, eqs: List<(LVar, LVar)>, i: LVar, j: LVar)
    requires
        answers_unify(red.ctx.answers),
        eqs.has((i, j)),
    ensures
        red.node_eqs(eqs) matches Ok((end, out)) ==> all(
            goes_on_with(end, out),
            node_unifies(red.sys.eq_store, i, j),
        ),
{
    reveal(Reduction::node_eqs);
    law_equations_hold(red, node_terms(eqs));
    match red.node_eqs(eqs) {
        Ok((end, out)) => {
            lemma_node_stores(red.sys.eq_store, eqs, goes_on_with(end, out), i, j);
        },
        Err(_) => {},
    }
}

/// A system has one last node: a further one is made equal to it, where the answers
/// are unifiers, and the first one is taken as it is.
pub proof fn law_last_nodes_are_one(red: Reduction, i: LVar)
    requires
        answers_unify(red.ctx.answers),
    ensures
        red.last_inserted(i) matches Ok((end, out)) ==> match red.sys.last_atom {
            None => end.sys == (System { last_atom: Some(i), ..red.sys }),
            Some(j) => end.sys.last_atom == Some(j) && all(
                goes_on_with(end, out),
                node_unifies(red.sys.eq_store, i, j),
            ),
        },
{
    reveal(Reduction::last_inserted);
    match red.sys.last_atom {
        None => {},
        Some(j) => {
            if i == j {
                let a = red.sys.eq_store;
                assert(all(List::Nil, solves(a.subst)));
                assert(node_unifies(a, i, j)(a));
                assert(all(List::Nil, node_unifies(a, i, j)));
            } else {
                assert(List::one((i, j)).has((i, j)));
                law_node_equations_hold(red, List::one((i, j)), i, j);
                assert(all(List::Nil, node_unifies(red.sys.eq_store, i, j)));
                reveal(Reduction::node_eqs);
                crate::system_laws::law_equations_keep_graph(
                    red,
                    SplitStrategy::SplitNow,
                    node_terms(List::one((i, j))),
                );
            }
        },
    }
}

/// An edge between two facts stands in a system in which they are equal: it is
/// added to the system, and where the answers are unifiers, every store with which
/// the reduction goes on makes the conclusion and the premise equal.
pub proof fn law_edge_joins_equal_facts(red: Reduction, e: Edge, conc: Fact, prem: Fact)
    requires
        answers_unify(red.ctx.answers),
    ensures
        red.edge_inserted(e, Some(conc), Some(prem)) matches Ok((end, out)) ==> out.dead() || (
        end.sys.edges.has(e) && end.sys.nodes == red.sys.nodes && end.ctx == red.ctx && all(
            goes_on_with(end, out),
            fact_unifies(red.sys.eq_store, List::one((conc, prem))),
        )),
{
    reveal(Reduction::edge_inserted);
    let eqs = List::one((conc, prem));
    let a = red.sys.eq_store;
    if conc == prem {
        assert(all(List::Nil, fact_solves(a)));
        assert(fact_solves(a)((conc, prem)));
        assert(fact_unifies(a, eqs)(a));
        assert(all(List::Nil, fact_unifies(a, eqs)));
        crate::list_laws::lemma_has_snoc(red.sys.edges, e, e);
    } else {
        law_fact_equations_hold(red, eqs);
        reveal(Reduction::fact_eqs);
        crate::system_laws::law_equations_keep_graph(
            red,
            SplitStrategy::SplitNow,
            argument_eqs(eqs),
        );
        match red.fact_eqs(SplitStrategy::SplitNow, eqs) {
            Ok((end, _)) => {
                crate::list_laws::lemma_has_snoc(end.sys.edges, e, e);
            },
            Err(_) => {},
        }
    }
}

/// Equations whose case distinction may wait hold too, where the answers are unifiers: in the
/// store, unless a goal to split is left.
pub proof fn law_later_equations_hold(red: Reduction, eqs: List<(Term, Term)>)
    requires
        answers_unify(red.ctx.answers),
    ensures
        red.term_eqs(SplitStrategy::SplitLater, eqs) matches Ok((end, out)) ==> out.dead() || holds(
            end.sys.eq_store,
            eqs,
        ) || exists|id: u64| find(end.sys.goals, #[trigger] split_goal(id)) is Some,
{
    reveal(Reduction::term_eqs);
    let pending = nontrivial(eqs);
    if pending is Nil {
        assert(all(List::Nil, solves(red.sys.eq_store.subst)));
        lemma_trivial_hold(red.sys.eq_store, eqs);
    } else {
        match find(red.ctx.answers.add_eqs, red.unifier_query(pending)) {
            Some(AddEqsAnswer::Added(store, split, next)) => {
                let start = red.with_store(store).at(next);
                let more = SimpQuery { store, checked: start.checked(), next };
                match find(red.ctx.answers.simp, more) {
                    Some(answer) => match split {
                        None => {
                            lemma_holds_on(store, answer.store, pending);
                            lemma_trivial_hold(answer.store, eqs);
                        },
                        Some(id) => {
                            let mid = start.with_store(answer.store).at(answer.next);
                            law_goal_inserted(mid, Goal::Split(id), false);
                            assert(find(
                                mid.goal_inserted(Goal::Split(id), false).sys.goals,
                                split_goal(id),
                            ) is Some);
                        },
                    },
                    None => {},
                }
            },
            _ => {},
        }
    }
}

/// The goal to split the disjunction numbered `id`.
pub open spec fn split_goal(id: u64) -> Goal {
    Goal::Split(id)
}

} // verus!
