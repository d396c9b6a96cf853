//! What holds once the constraints of another system have been added.
use crate::conjoin::{subst_eqs, with_foreign_goals};
use crate::conjoin_laws::{
    has_ordering, law_foreign_formulas_taken_over, law_foreign_goals_taken_over,
    law_foreign_orderings_taken_over, law_joined_holds_both, took_over,
};
use crate::constraints::{
    joined, EqDisj, Edge, EquationStore, Goal, GoalStatus, LessAtom, SubtermConstraint,
    SubtermStore,
};
use crate::context::Query;
use crate::equations::{argument_eqs, collision_eqs, component_eqs, first_nodes};
use crate::facts::RuleACInst;
use crate::guarded::{normal, Guarded};
use crate::effect_laws::{law_formula_is_taken_up, lemma_taken_up_stays, taken_up};
use crate::equation_laws::{
    answers_unify, equates, goes_on_with, holds, law_equations_hold, solves, unifies,
};
use crate::follow_laws::law_substituted_system_follows;
use crate::list::{find, List, Ordered};
use crate::list_laws::{
    all, law_sort_rearranges, lemma_all_has, lemma_has_snoc, lemma_times_has,
};
use crate::query_laws::{
    lemma_disjs, lemma_last, lemma_lesses, lemma_nodes_set, lemma_splits, lemma_stored,
};
use crate::reduction::{Reduction, SolveOutcome, SplitStrategy};
use crate::system::{orders, System};
use crate::system_laws::{
    formulas_grow, goals_grow, law_equations_keep_graph, law_goal_inserted, law_nodes_once,
    lemma_last_inserted, node_ids, orderings_grow, outgrows,
};
use crate::term_ops::{applied, Subst};
use crate::terms::{LVar, Term};
use vstd::prelude::*;

verus! {

/// The bindings of a substitution are its equations: each variable with what it is
/// bound to, and nothing else.
pub proof fn law_bindings_are_equations(s: Subst, v: LVar, t: Term, u: Term)
    ensures
        subst_eqs(s).has((Term::Var(v), t)) == s.has((v, t)),
        subst_eqs(s).has((u, t)) ==> u is Var,
        subst_eqs(s).size() == s.size(),
    decreases s,
{
    match s {
        List::Nil => {},
        List::Cons(_, rest) => {
            law_bindings_are_equations(*rest, v, t, u);
        },
    }
}

/// Whether the store binds as `b` does, or has no solution.
pub open spec fn binds(b: (LVar, Term)) -> spec_fn(EquationStore) -> bool {
    |store: EquationStore| store.contradictory || equates(store.subst, (Term::Var(b.0), b.1))
}

proof fn lemma_stores_bind(
    a: EquationStore,
    s: Subst,
    stores: List<EquationStore>,
    b: (LVar, Term),
)
    requires
        s.has(b),
        all(stores, unifies(a, subst_eqs(s))),
    ensures
        all(stores, binds(b)),
    decreases stores,
{
    match stores {
        List::Nil => {},
        List::Cons(store, rest) => {
            assert(unifies(a, subst_eqs(s))(store));
            law_bindings_are_equations(s, b.0, b.1, b.1);
            if !store.contradictory {
                lemma_all_has(subst_eqs(s), (Term::Var(b.0), b.1), solves(store.subst));
            }
            assert(binds(b)(store));
            lemma_stores_bind(a, s, *rest, b);
        },
    }
}

/// Every further store leads to a pending system, with the substitution applied, unless it
/// has no solution then.
pub proof fn law_further_stores_are_pending(
    red: Reduction,
    base: System,
    arms: List<EquationStore>,
    arm: EquationStore,
    end: Reduction,
)
    requires
        arms.has(arm),
        Reduction::inheriting(
            red.ctx,
            System { eq_store: arm, ..base },
            red.supply.next,
        ).system_substituted() == Ok::<Reduction, Query>(end),
        !end.sys.eq_store.contradictory,
    ensures
        red.arms_pending(base, arms) matches Ok(last) ==> last.pending_conjoin_arm_systems.has(
            (end.sys, end.supply.next),
        ),
    decreases arms,
{
    let item = (end.sys, end.supply.next);
    match arms {
        List::Nil => {},
        List::Cons(first, rest) => {
            let start = Reduction::inheriting(
                red.ctx,
                System { eq_store: first, ..base },
                red.supply.next,
            );
            match start.system_substituted() {
                Ok(here) => {
                    let next = if here.sys.eq_store.contradictory {
                        red
                    } else {
                        Reduction {
                            pending_conjoin_arm_systems: red.pending_conjoin_arm_systems.snoc(
                                (here.sys, here.supply.next),
                            ),
                            ..red
                        }
                    };
                    lemma_has_snoc(
                        red.pending_conjoin_arm_systems,
                        (here.sys, here.supply.next),
                        item,
                    );
                    lemma_pending_stays(next, base, *rest, item);
                    if first != arm {
                        law_further_stores_are_pending(next, base, *rest, arm, end);
                    }
                },
                Err(_) => {},
            }
        },
    }
}

proof fn lemma_pending_stays(
    red: Reduction,
    base: System,
    arms: List<EquationStore>,
    item: (System, u64),
)
    ensures
        red.arms_pending(base, arms) matches Ok(last) ==> red.pending_conjoin_arm_systems.has(item)
            ==> last.pending_conjoin_arm_systems.has(item),
    decreases arms,
{
    match arms {
        List::Nil => {},
        List::Cons(first, rest) => {
            let start = Reduction::inheriting(
                red.ctx,
                System { eq_store: first, ..base },
                red.supply.next,
            );
            match start.system_substituted() {
                Ok(here) => {
                    let more = Reduction {
                        pending_conjoin_arm_systems: red.pending_conjoin_arm_systems.snoc(
                            (here.sys, here.supply.next),
                        ),
                        ..red
                    };
                    lemma_has_snoc(
                        red.pending_conjoin_arm_systems,
                        (here.sys, here.supply.next),
                        item,
                    );
                    lemma_pending_stays(more, base, *rest, item);
                    lemma_pending_stays(red, base, *rest, item);
                },
                Err(_) => {},
            }
        },
    }
}

proof fn lemma_finished_binds(red: Reduction, b: (LVar, Term))
    requires
        answers_unify(red.ctx.answers),
        binds(b)(red.sys.eq_store),
    ensures
        red.conjoin_finished() matches Ok((end, out)) ==> binds(b)(end.sys.eq_store),
{
    law_substituted_system_follows(red);
    match red.system_substituted() {
        Ok(end) => {
            if !end.sys.eq_store.contradictory {
                assert(equates(end.sys.eq_store.subst, (Term::Var(b.0), b.1)));
            }
        },
        Err(_) => {},
    }
}

proof fn lemma_stores_conjoined(red: Reduction, other: System, b: (LVar, Term))
    requires
        answers_unify(red.ctx.answers),
        other.eq_store.subst.has(b),
    ensures
        red.stores_conjoined(other) matches Ok((end, out)) ==> out.dead() || binds(b)(
            end.sys.eq_store,
        ),
{
    let added = red.disjs_added(other.eq_store.conj);
    lemma_disjs(red, other.eq_store.conj, red.ctx);
    let merged = added.on(
        System { subterm_store: added.sys.subterm_store.merged(other.subterm_store), ..added.sys },
    );
    let ids = red.disj_ids(other.eq_store.conj);
    let ready = merged.splits_inserted(ids);
    lemma_splits(merged, ids, red.ctx);
    let eqs = subst_eqs(other.eq_store.subst);
    law_equations_hold(ready, eqs);
    match ready.term_eqs(SplitStrategy::SplitNow, eqs) {
        Ok((mid, out)) => {
            if !out.dead() {
                lemma_stores_bind(
                    ready.sys.eq_store,
                    other.eq_store.subst,
                    goes_on_with(mid, out),
                    b,
                );
                match out {
                    SolveOutcome::Cases(List::Cons(first, rest)) => {
                        let taken = mid.with_store(first);
                        lemma_pending_kept(taken, ready.sys, *rest);
                        match taken.arms_pending(ready.sys, *rest) {
                            Ok(end) => {
                                lemma_finished_binds(end, b);
                            },
                            Err(_) => {},
                        }
                    },
                    _ => {
                        lemma_finished_binds(mid, b);
                    },
                }
            }
        },
        Err(_) => {},
    }
}

proof fn lemma_pending_kept(red: Reduction, base: System, arms: List<EquationStore>)
    ensures
        red.arms_pending(base, arms) matches Ok(end) ==> end.sys == red.sys && end.ctx == red.ctx,
    decreases arms,
{
    match arms {
        List::Nil => {},
        List::Cons(arm, rest) => {
            let start = Reduction::inheriting(
                red.ctx,
                System { eq_store: arm, ..base },
                red.supply.next,
            );
            match start.system_substituted() {
                Ok(end) => {
                    lemma_pending_kept(red, base, *rest);
                    lemma_pending_kept(
                        Reduction {
                            pending_conjoin_arm_systems: red.pending_conjoin_arm_systems.snoc(
                                (end.sys, end.supply.next),
                            ),
                            ..red
                        },
                        base,
                        *rest,
                    );
                },
                Err(_) => {},
            }
        },
    }
}

proof fn lemma_rest_binds(red: Reduction, other: System, b: (LVar, Term))
    requires
        answers_unify(red.ctx.answers),
        other.eq_store.subst.has(b),
    ensures
        red.rest_conjoined(other) matches Ok((end, out)) ==> out.dead() || binds(b)(
            end.sys.eq_store,
        ),
{
    let ordered = red.lesses_inserted(other.less_atoms);
    lemma_lesses(red, other.less_atoms, red.ctx);
    let start = ordered.on(with_foreign_goals(ordered.sys, other.goals.sorted()));
    lemma_stored(start, other.formulas, red.ctx);
    match start.stored_inserted(other.formulas) {
        Ok(mid) => {
            let nodes = other.nodes.then_all(mid.sys.nodes);
            lemma_nodes_set(mid, nodes, red.ctx);
            match mid.nodes_set(nodes) {
                Ok((end, _)) => {
                    lemma_stores_conjoined(end, other, b);
                },
                Err(_) => {},
            }
        },
        Err(_) => {},
    }
}

/// What the substitution of another system makes equal is equal once the system has
/// been added: where the answers are unifiers and the reduction goes on, the
/// substitution that is left takes the variable of each binding and what it was bound
/// to to the same term.
pub proof fn law_foreign_bindings_hold(red: Reduction, other: System, v: LVar, t: Term)
    requires
        answers_unify(red.ctx.answers),
        other.eq_store.subst.has((v, t)),
    ensures
        red.conjoined(other) matches Ok((end, out)) ==> out.dead()
            || end.sys.eq_store.contradictory || applied(end.sys.eq_store.subst, Term::Var(v))
            == applied(end.sys.eq_store.subst, t),
{
    reveal(Reduction::conjoined);
    let sets = red.sets_joined(other);
    match other.last_atom {
        Some(i) => {
            lemma_last(sets, i, red.ctx);
            match sets.last_inserted(i) {
                Ok((mid, _)) => {
                    lemma_rest_binds(mid, other, (v, t));
                },
                Err(_) => {},
            }
        },
        None => {
            lemma_rest_binds(sets, other, (v, t));
        },
    }
}

/// Whether `b` has what `a` has: its goals, orderings, formulas, edges, lemmas and
/// nodes, and the last node of `a` where there is one.
pub open spec fn wider(a: System, b: System) -> bool {
    &&& goals_grow(a, b)
    &&& orderings_grow(a, b)
    &&& formulas_grow(a, b)
    &&& forall|e: Edge| a.edges.has(e) ==> #[trigger] b.edges.has(e)
    &&& forall|f: Guarded| a.lemmas.has(f) ==> #[trigger] b.lemmas.has(f)
    &&& forall|i: LVar| node_ids(a.nodes).has(i) ==> #[trigger] node_ids(b.nodes).has(i)
    &&& a.last_atom is Some ==> b.last_atom == a.last_atom
}

/// Whether the system has what `other` has of the graph and of the tasks: the edges,
/// lemmas, solved formulas and nodes, the orderings, the goals with what is known of
/// them, splits left aside, the formulas, each taken up, and a last node.
pub open spec fn includes(sys: System, other: System) -> bool {
    &&& forall|e: Edge| other.edges.has(e) ==> #[trigger] sys.edges.has(e)
    &&& forall|f: Guarded| other.lemmas.has(f) ==> #[trigger] sys.lemmas.has(f)
    &&& forall|f: Guarded| other.solved_formulas.has(f) ==> #[trigger] sys.solved_formulas.has(f)
    &&& forall|i: LVar| node_ids(other.nodes).has(i) ==> #[trigger] node_ids(sys.nodes).has(i)
    &&& all(other.less_atoms, has_ordering(sys))
    &&& all(other.goals, took_over(sys))
    &&& all(other.formulas, takes_up(sys))
    &&& other.last_atom is Some ==> sys.last_atom is Some
}

/// The formulas that are taken up in the system.
pub open spec fn takes_up(sys: System) -> spec_fn(Guarded) -> bool {
    |f: Guarded| taken_up(sys, normal(f))
}

proof fn lemma_formulas_stay(l: List<Guarded>, a: System, b: System)
    requires
        wider(a, b),
        all(l, takes_up(a)),
    ensures
        all(l, takes_up(b)),
    decreases l,
{
    match l {
        List::Nil => {},
        List::Cons(f, rest) => {
            assert(takes_up(a)(f));
            lemma_taken_up_stays(a, b, normal(f));
            assert(takes_up(b)(f));
            lemma_formulas_stay(*rest, a, b);
        },
    }
}

/// The formulas that are inserted one after the other are all taken up.
proof fn lemma_stored_taken_up(red: Reduction, l: List<Guarded>)
    ensures
        red.stored_inserted(l) matches Ok(end) ==> all(l, takes_up(end.sys)),
    decreases l,
{
    match l {
        List::Nil => {},
        List::Cons(g, rest) => {
            law_formula_is_taken_up(red, normal(g), true);
            match red.formula_inserted(normal(g), true) {
                Ok(mid) => {
                    lemma_stored_taken_up(mid, *rest);
                    law_foreign_formulas_taken_over(mid, *rest);
                    match mid.stored_inserted(*rest) {
                        Ok(end) => {
                            lemma_taken_up_stays(mid.sys, end.sys, normal(g));
                            assert(takes_up(end.sys)(g));
                        },
                        Err(_) => {},
                    }
                },
                Err(_) => {},
            }
        },
    }
}

/// Whether the store has the subterm constraints of `other`.
pub open spec fn includes_subterms(st: SubtermStore, other: SubtermStore) -> bool {
    &&& forall|c: SubtermConstraint|
        other.subterms.has(c) ==> #[trigger] st.subterms.has(c)
    &&& forall|c: SubtermConstraint|
        other.solved_subterms.has(c) ==> #[trigger] st.solved_subterms.has(c)
    &&& forall|c: (Term, Term)|
        other.neg_subterms.has(c) ==> #[trigger] st.neg_subterms.has(c)
    &&& other.contradictory ==> st.contradictory
}

proof fn lemma_wider_twice(a: System, b: System, c: System)
    requires
        wider(a, b),
        wider(b, c),
    ensures
        wider(a, c),
{
    assert forall|h: Goal|
        #![trigger find(c.goals, h)]
        find(a.goals, h) matches Some(st) ==> find(c.goals, h) matches Some(more) && (st.solved
            ==> more.solved) && (st.looping ==> more.looping) && more.nr <= st.nr by {
        assert(find(b.goals, h) == find(b.goals, h));
    }
    assert forall|x: LVar, y: LVar| orders(a.less_atoms, x, y) implies #[trigger] orders(
        c.less_atoms,
        x,
        y,
    ) by {
        assert(orders(b.less_atoms, x, y));
    }
    assert forall|f: Guarded| a.formulas.has(f) implies #[trigger] c.formulas.has(f) by {
        assert(b.formulas.has(f));
    }
    assert forall|f: Guarded| a.solved_formulas.has(f) implies #[trigger] c.solved_formulas.has(
        f,
    ) by {
        assert(b.solved_formulas.has(f));
    }
    assert forall|e: Edge| a.edges.has(e) implies #[trigger] c.edges.has(e) by {
        assert(b.edges.has(e));
    }
    assert forall|f: Guarded| a.lemmas.has(f) implies #[trigger] c.lemmas.has(f) by {
        assert(b.lemmas.has(f));
    }
    assert forall|i: LVar| node_ids(a.nodes).has(i) implies #[trigger] node_ids(c.nodes).has(
        i,
    ) by {
        assert(node_ids(b.nodes).has(i));
    }
}

proof fn lemma_ordering_stays(l: List<LessAtom>, a: System, b: System)
    requires
        orderings_grow(a, b),
        all(l, has_ordering(a)),
    ensures
        all(l, has_ordering(b)),
    decreases l,
{
    match l {
        List::Nil => {},
        List::Cons(x, rest) => {
            assert(has_ordering(a)(x));
            assert(orders(b.less_atoms, x.smaller, x.larger));
            lemma_ordering_stays(*rest, a, b);
        },
    }
}

proof fn lemma_goals_stay(l: List<(Goal, GoalStatus)>, a: System, b: System)
    requires
        goals_grow(a, b),
        all(l, took_over(a)),
    ensures
        all(l, took_over(b)),
    decreases l,
{
    match l {
        List::Nil => {},
        List::Cons(x, rest) => {
            assert(took_over(a)(x));
            assert(find(b.goals, x.0) == find(b.goals, x.0));
            lemma_goals_stay(*rest, a, b);
        },
    }
}

proof fn lemma_all_unsorted<T: Ordered>(l: List<T>, m: List<T>, p: spec_fn(T) -> bool)
    requires
        all(l.sorted(), p),
        forall|x: T| m.has(x) ==> l.has(x),
    ensures
        all(m, p),
    decreases m,
{
    match m {
        List::Nil => {},
        List::Cons(x, rest) => {
            assert(m.has(x));
            law_sort_rearranges(l, x);
            lemma_times_has(l, x);
            lemma_times_has(l.sorted(), x);
            lemma_all_has(l.sorted(), x, p);
            assert forall|y: T| rest.has(y) implies l.has(y) by {
                assert(m.has(y));
            }
            lemma_all_unsorted(l, *rest, p);
        },
    }
}

proof fn lemma_sets_joined(red: Reduction, other: System)
    ensures
        wider(red.sys, red.sets_joined(other).sys),
        forall|e: Edge| other.edges.has(e) ==> #[trigger] red.sets_joined(other).sys.edges.has(e),
        forall|f: Guarded|
            other.lemmas.has(f) ==> #[trigger] red.sets_joined(other).sys.lemmas.has(f),
        forall|f: Guarded|
            other.solved_formulas.has(f)
                ==> #[trigger] red.sets_joined(other).sys.solved_formulas.has(f),
{
    let end = red.sets_joined(other).sys;
    assert forall|e: Edge| red.sys.edges.has(e) || other.edges.has(e) implies #[trigger]
        end.edges.has(e) by {
        law_joined_holds_both(red.sys.edges, other.edges, e);
    }
    assert forall|f: Guarded| red.sys.lemmas.has(f) || other.lemmas.has(f) implies #[trigger]
        end.lemmas.has(f) by {
        law_joined_holds_both(red.sys.lemmas, other.lemmas, f);
    }
    assert forall|f: Guarded|
        red.sys.solved_formulas.has(f) || other.solved_formulas.has(f) implies #[trigger]
        end.solved_formulas.has(f) by {
        law_joined_holds_both(red.sys.solved_formulas, other.solved_formulas, f);
    }
}

proof fn lemma_ids_then(a: List<(LVar, RuleACInst)>, b: List<(LVar, RuleACInst)>, i: LVar)
    ensures
        node_ids(a.then_all(b)).has(i) == (node_ids(a).has(i) || node_ids(b).has(i)),
    decreases a,
{
    match a {
        List::Nil => {},
        List::Cons(_, rest) => {
            lemma_ids_then(*rest, b, i);
        },
    }
}

proof fn lemma_nodes_wider(red: Reduction, more: List<(LVar, RuleACInst)>)
    ensures
        red.nodes_set(more.then_all(red.sys.nodes)) matches Ok((end, _)) ==> wider(
            red.sys,
            end.sys,
        ) && forall|i: LVar|
            node_ids(more).has(i) ==> #[trigger] node_ids(end.sys.nodes).has(i),
{
    let nodes = more.then_all(red.sys.nodes);
    reveal(Reduction::nodes_set);
    reveal(Reduction::rule_eqs);
    reveal(Reduction::fact_eqs);
    let eqs = collision_eqs(nodes);
    let mid = red.on(System { nodes: first_nodes(nodes), ..red.sys });
    law_nodes_once(nodes);
    law_equations_keep_graph(
        mid.touched(),
        SplitStrategy::SplitLater,
        argument_eqs(component_eqs(eqs)),
    );
    match red.nodes_set(nodes) {
        Ok((end, _)) => {
            assert(end.sys.nodes == first_nodes(nodes));
            assert forall|i: LVar|
                node_ids(more).has(i) || node_ids(red.sys.nodes).has(i) implies #[trigger]
                node_ids(end.sys.nodes).has(i) by {
                lemma_ids_then(more, red.sys.nodes, i);
            }
        },
        Err(_) => {},
    }
}

proof fn lemma_outgrows_is_wider(a: System, b: System)
    requires
        outgrows(a, b),
    ensures
        wider(a, b),
{
}

proof fn lemma_included_stays(a: System, b: System, other: System)
    requires
        wider(a, b),
        includes(a, other),
    ensures
        includes(b, other),
{
    lemma_ordering_stays(other.less_atoms, a, b);
    lemma_goals_stay(other.goals, a, b);
    lemma_formulas_stay(other.formulas, a, b);
    assert forall|e: Edge| other.edges.has(e) implies #[trigger] b.edges.has(e) by {
        assert(a.edges.has(e));
    }
    assert forall|f: Guarded| other.lemmas.has(f) implies #[trigger] b.lemmas.has(f) by {
        assert(a.lemmas.has(f));
    }
    assert forall|f: Guarded| other.solved_formulas.has(f) implies #[trigger]
        b.solved_formulas.has(f) by {
        assert(a.solved_formulas.has(f));
    }
    assert forall|i: LVar| node_ids(other.nodes).has(i) implies #[trigger] node_ids(b.nodes).has(
        i,
    ) by {
        assert(node_ids(a.nodes).has(i));
    }
}

proof fn lemma_disjs_sys(red: Reduction, l: List<EqDisj>)
    ensures
        red.disjs_added(l).sys == (System {
            eq_store: red.disjs_added(l).sys.eq_store,
            ..red.sys
        }),
    decreases l,
{
    match l {
        List::Nil => {},
        List::Cons(d, rest) => {
            lemma_disjs_sys(red.with_store(red.sys.eq_store.with_disj(d.substs)), *rest);
        },
    }
}

/// For each disjunction of equations there is a goal to split it, and no goal is lost.
pub proof fn law_splits_become_goals(red: Reduction, ids: List<u64>, id: u64)
    ensures
        ids.has(id) ==> find(red.splits_inserted(ids).sys.goals, Goal::Split(id)) is Some,
        wider(red.sys, red.splits_inserted(ids).sys),
        red.splits_inserted(ids).sys.subterm_store == red.sys.subterm_store,
    decreases ids,
{
    match ids {
        List::Nil => {},
        List::Cons(first, rest) => {
            let mid = red.goal_inserted(Goal::Split(first), false);
            law_goal_inserted(red, Goal::Split(first), false);
            law_splits_become_goals(mid, *rest, id);
            lemma_outgrows_is_wider(red.sys, mid.sys);
            lemma_wider_twice(red.sys, mid.sys, mid.splits_inserted(*rest).sys);
            assert(find(mid.splits_inserted(*rest).sys.goals, Goal::Split(first)) == find(
                mid.splits_inserted(*rest).sys.goals,
                Goal::Split(first),
            ));
        },
    }
}

/// The subterm constraints of two stores are all in the store that holds both.
pub proof fn law_merged_holds_both(a: SubtermStore, b: SubtermStore)
    ensures
        includes_subterms(a.merged(b), a),
        includes_subterms(a.merged(b), b),
{
    let m = a.merged(b);
    assert forall|c: SubtermConstraint| a.subterms.has(c) || b.subterms.has(c) implies #[trigger]
        m.subterms.has(c) by {
        law_joined_holds_both(a.subterms, b.subterms, c);
    }
    assert forall|c: SubtermConstraint|
        a.solved_subterms.has(c) || b.solved_subterms.has(c) implies #[trigger]
        m.solved_subterms.has(c) by {
        law_joined_holds_both(a.solved_subterms, b.solved_subterms, c);
    }
    assert forall|c: (Term, Term)|
        a.neg_subterms.has(c) || b.neg_subterms.has(c) implies #[trigger]
        m.neg_subterms.has(c) by {
        let both = joined(a.neg_subterms, b.neg_subterms);
        law_joined_holds_both(a.neg_subterms, b.neg_subterms, c);
        law_sort_rearranges(both, c);
        lemma_times_has(both, c);
        lemma_times_has(both.sorted(), c);
    }
}

/// Whether the reduction ends by applying the substitution to a system that is wider
/// than `mine` and has all that `other` has.
pub open spec fn has_both(end: Reduction, mine: System, other: System) -> bool {
    exists|pre: Reduction| #[trigger]
        pre.system_substituted() == Ok::<Reduction, Query>(end) && wider(mine, pre.sys) && includes(
            pre.sys,
            other,
        ) && includes_subterms(pre.sys.subterm_store, other.subterm_store)
}

proof fn lemma_finished_has_both(pre: Reduction, mine: System, other: System)
    requires
        wider(mine, pre.sys),
        includes(pre.sys, other),
        includes_subterms(pre.sys.subterm_store, other.subterm_store),
    ensures
        pre.conjoin_finished() matches Ok((end, _)) ==> has_both(end, mine, other),
{
    match pre.system_substituted() {
        Ok(end) => {
            assert(pre.system_substituted() == Ok::<Reduction, Query>(end));
        },
        Err(_) => {},
    }
}

proof fn lemma_stores_have_both(red: Reduction, mine: System, other: System)
    requires
        wider(mine, red.sys),
        includes(red.sys, other),
    ensures
        red.stores_conjoined(other) matches Ok((end, out)) ==> out.dead() || has_both(
            end,
            mine,
            other,
        ),
{
    let added = red.disjs_added(other.eq_store.conj);
    lemma_disjs_sys(red, other.eq_store.conj);
    let merged = added.on(
        System { subterm_store: added.sys.subterm_store.merged(other.subterm_store), ..added.sys },
    );
    law_merged_holds_both(added.sys.subterm_store, other.subterm_store);
    assert(wider(red.sys, merged.sys));
    let ids = red.disj_ids(other.eq_store.conj);
    let ready = merged.splits_inserted(ids);
    law_splits_become_goals(merged, ids, 0);
    lemma_wider_twice(red.sys, merged.sys, ready.sys);
    let eqs = subst_eqs(other.eq_store.subst);
    law_equations_keep_graph(ready, SplitStrategy::SplitNow, eqs);
    match ready.term_eqs(SplitStrategy::SplitNow, eqs) {
        Ok((mid, out)) => {
            assert(wider(ready.sys, mid.sys));
            lemma_wider_twice(red.sys, ready.sys, mid.sys);
            match out {
                SolveOutcome::Cases(List::Cons(first, rest)) => {
                    let taken = mid.with_store(first);
                    lemma_pending_kept(taken, ready.sys, *rest);
                    assert(wider(mid.sys, taken.sys));
                    lemma_wider_twice(red.sys, mid.sys, taken.sys);
                    lemma_wider_twice(mine, red.sys, taken.sys);
                    lemma_included_stays(red.sys, taken.sys, other);
                    match taken.arms_pending(ready.sys, *rest) {
                        Ok(end) => {
                            lemma_finished_has_both(end, mine, other);
                        },
                        Err(_) => {},
                    }
                },
                _ => {
                    lemma_wider_twice(mine, red.sys, mid.sys);
                    lemma_included_stays(red.sys, mid.sys, other);
                    lemma_finished_has_both(mid, mine, other);
                },
            }
        },
        Err(_) => {},
    }
}

/// The system without its nodes, orderings, goals and formulas.
spec fn bare(sys: System) -> System {
    System {
        nodes: List::Nil,
        less_atoms: List::Nil,
        goals: List::Nil,
        formulas: List::Nil,
        ..sys
    }
}

proof fn lemma_rest_has_both(red: Reduction, mine: System, other: System)
    requires
        wider(mine, red.sys),
        includes(red.sys, bare(other)),
    ensures
        red.rest_conjoined(other) matches Ok((end, out)) ==> out.dead() || has_both(
            end,
            mine,
            other,
        ),
{
    let first = bare(other);
    let ordered = red.lesses_inserted(other.less_atoms);
    law_foreign_orderings_taken_over(red, other.less_atoms);
    lemma_outgrows_is_wider(red.sys, ordered.sys);
    lemma_included_stays(red.sys, ordered.sys, first);
    let second = System { less_atoms: other.less_atoms, ..first };
    assert(includes(ordered.sys, second));
    let start = ordered.on(with_foreign_goals(ordered.sys, other.goals.sorted()));
    law_foreign_goals_taken_over(ordered.sys, other.goals.sorted());
    lemma_outgrows_is_wider(ordered.sys, start.sys);
    lemma_included_stays(ordered.sys, start.sys, second);
    lemma_all_unsorted(other.goals, other.goals, took_over(start.sys));
    let third = System { goals: other.goals, ..second };
    assert(includes(start.sys, third));
    lemma_wider_twice(red.sys, ordered.sys, start.sys);
    law_foreign_formulas_taken_over(start, other.formulas);
    match start.stored_inserted(other.formulas) {
        Ok(mid) => {
            lemma_outgrows_is_wider(start.sys, mid.sys);
            lemma_included_stays(start.sys, mid.sys, third);
            lemma_stored_taken_up(start, other.formulas);
            let fourth = System { formulas: other.formulas, ..third };
            assert(includes(mid.sys, fourth));
            lemma_wider_twice(red.sys, start.sys, mid.sys);
            lemma_nodes_wider(mid, other.nodes);
            match mid.nodes_set(other.nodes.then_all(mid.sys.nodes)) {
                Ok((end, _)) => {
                    lemma_included_stays(mid.sys, end.sys, fourth);
                    assert(includes(end.sys, other));
                    lemma_wider_twice(red.sys, mid.sys, end.sys);
                    lemma_wider_twice(mine, red.sys, end.sys);
                    lemma_stores_have_both(end, mine, other);
                },
                Err(_) => {},
            }
        },
        Err(_) => {},
    }
}

/// Adding another system loses nothing of either: where the reduction goes on, it ends
/// by applying the substitution to a system that has all that was there before, and
/// all that the other system has: its nodes, edges, lemmas and solved formulas, its
/// orderings, its goals with what is known of them, splits left aside, its formulas, each
/// taken up, a last node, and its subterm constraints.
pub proof fn law_conjoined_has_both(red: Reduction, other: System)
    ensures
        red.conjoined(other) matches Ok((end, out)) ==> out.dead() || has_both(
            end,
            red.sys,
            other,
        ),
{
    reveal(Reduction::conjoined);
    let sets = red.sets_joined(other);
    lemma_sets_joined(red, other);
    let first = bare(other);
    assert(includes(sets.sys, System { last_atom: None, ..first }));
    match other.last_atom {
        Some(i) => {
            lemma_last_inserted(sets, i);
            match sets.last_inserted(i) {
                Ok((mid, _)) => {
                    reveal(Reduction::last_inserted);
                    lemma_outgrows_is_wider(sets.sys, mid.sys);
                    lemma_included_stays(sets.sys, mid.sys, System { last_atom: None, ..first });
                    lemma_wider_twice(red.sys, sets.sys, mid.sys);
                    assert(mid.sys.last_atom is Some);
                    lemma_rest_has_both(mid, red.sys, other);
                },
                Err(_) => {},
            }
        },
        None => {
            lemma_rest_has_both(sets, red.sys, other);
        },
    }
}

} // verus!
