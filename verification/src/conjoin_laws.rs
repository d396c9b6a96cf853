//! What adding the constraints of another system leads to.
use crate::apply_laws::law_empty_substitution;
use crate::conjoin::{entry_solved, subst_eqs, with_foreign_goal, with_foreign_goals};
use crate::constraints::{joined, EqDisj, Goal, GoalStatus, LessAtom};
use crate::context::Query;
use crate::guarded::{normal, Guarded};
use crate::list::{find, List};
use crate::list_laws::{
    all, ascending, distinct, law_sort_keeps_ascending, lemma_distinct_snoc, lemma_has_snoc,
};
use crate::reduction::{ChangeIndicator, Reduction, SolveOutcome, SplitStrategy};
use crate::subst_laws::goals_once;
use crate::system::{orders, System};
use crate::system_laws::{
    law_additions_keep_order, law_distinct_nodes_set, law_formula_loses_nothing, law_goal_put,
    law_trivial_equations, lemma_less_inserted, lemma_outgrows_twice, node_ids, orderly, outgrows,
};
use crate::term_ops::Subst;
use crate::terms::{LVar, Term};
use vstd::prelude::*;

verus! {

/// Joined lists hold what either holds, and nothing twice that was not twice in
/// the first.
pub proof fn law_joined_holds_both<T>(l: List<T>, more: List<T>, x: T)
    ensures
        joined(l, more).has(x) == (l.has(x) || more.has(x)),
        distinct(l) ==> distinct(joined(l, more)),
    decreases more,
{
    match more {
        List::Nil => {},
        List::Cons(y, rest) => {
            lemma_has_snoc(l, y, x);
            if l.has(y) {
                law_joined_holds_both(l, *rest, x);
            } else {
                if distinct(l) {
                    lemma_distinct_snoc(l, y);
                }
                law_joined_holds_both(l.snoc(y), *rest, x);
            }
        },
    }
}

proof fn lemma_entry_solved(l: List<(Goal, GoalStatus)>, g: Goal, h: Goal)
    ensures
        find(entry_solved(l, g), h) == (match find(l, h) {
            Some(st) => if h == g {
                Some(GoalStatus { solved: true, ..st })
            } else {
                Some(st)
            },
            None => None,
        }),
        goals_once(l) ==> goals_once(entry_solved(l, g)),
    decreases l,
{
    match l {
        List::Nil => {},
        List::Cons(e, rest) => {
            lemma_entry_solved(*rest, g, h);
            lemma_entry_solved(*rest, g, e.0);
        },
    }
}

proof fn lemma_foreign_goal(sys: System, g: Goal, status: GoalStatus)
    ensures
        outgrows(sys, with_foreign_goal(sys, g, status)),
        !(g is Split) ==> (find(with_foreign_goal(sys, g, status).goals, g) matches Some(st) && (
        status.solved ==> st.solved) && (status.looping ==> st.looping)),
{
    if !(g is Split) {
        let new = GoalStatus { solved: false, looping: status.looping, nr: sys.next_goal_nr };
        let more = sys.with_goal(g, status.looping);
        let end = with_foreign_goal(sys, g, status);
        assert forall|h: Goal|
            #![trigger find(end.goals, h)]
            find(sys.goals, h) matches Some(st) ==> find(end.goals, h) matches Some(more) && (
            st.solved ==> more.solved) && (st.looping ==> more.looping) && more.nr <= st.nr by {
            law_goal_put(sys.goals, g, new, h);
            lemma_entry_solved(more.goals, g, h);
        }
        law_goal_put(sys.goals, g, new, g);
        lemma_entry_solved(more.goals, g, g);
        if orderly(sys) {
            lemma_with_goal_orderly(sys, g, status.looping);
        }
    }
}

proof fn lemma_with_goal_orderly(sys: System, g: Goal, looping: bool)
    requires
        orderly(sys),
    ensures
        orderly(sys.with_goal(g, looping)),
{
    let v = LVar {
        name: crate::text::Text { chars: List::Nil },
        sort: crate::terms::LSort::Node,
        idx: 0,
    };
    let e = crate::constraints::Edge { src: (v, 0), tgt: (v, 0) };
    let l = LessAtom { smaller: v, larger: v, reason: crate::constraints::Reason::Formula };
    law_additions_keep_order(sys, g, looping, e, l);
}

/// Whether the system has the goal, unless it is a split: solved where the entry
/// says so, and a loop breaker where it says so.
pub open spec fn took_over(sys: System) -> spec_fn((Goal, GoalStatus)) -> bool {
    |e: (Goal, GoalStatus)|
        e.0 is Split || (find(sys.goals, e.0) matches Some(st) && (e.1.solved ==> st.solved) && (
        e.1.looping ==> st.looping))
}

/// The goals of another system are taken over with what is known of them, splits
/// left aside; no goal is lost.
pub proof fn law_foreign_goals_taken_over(sys: System, l: List<(Goal, GoalStatus)>)
    ensures
        outgrows(sys, with_foreign_goals(sys, l)),
        all(l, took_over(with_foreign_goals(sys, l))),
    decreases l,
{
    match l {
        List::Nil => {},
        List::Cons(g, rest) => {
            let mid = with_foreign_goal(sys, g.0, g.1);
            let end = with_foreign_goals(mid, *rest);
            lemma_foreign_goal(sys, g.0, g.1);
            law_foreign_goals_taken_over(mid, *rest);
            lemma_outgrows_twice(sys, mid, end);
            assert(find(end.goals, g.0) == find(end.goals, g.0));
        },
    }
}

/// Whether the system has the ordering.
pub open spec fn has_ordering(sys: System) -> spec_fn(LessAtom) -> bool {
    |a: LessAtom| orders(sys.less_atoms, a.smaller, a.larger)
}

/// The orderings of another system are taken over; none is lost.
pub proof fn law_foreign_orderings_taken_over(red: Reduction, l: List<LessAtom>)
    ensures
        outgrows(red.sys, red.lesses_inserted(l).sys),
        all(l, has_ordering(red.lesses_inserted(l).sys)),
    decreases l,
{
    match l {
        List::Nil => {},
        List::Cons(a, rest) => {
            let mid = red.less_inserted(a);
            lemma_less_inserted(red, a);
            law_foreign_orderings_taken_over(mid, *rest);
            lemma_outgrows_twice(red.sys, mid.sys, mid.lesses_inserted(*rest).sys);
        },
    }
}

/// The formulas of another system are inserted without losing anything.
pub proof fn law_foreign_formulas_taken_over(red: Reduction, l: List<Guarded>)
    ensures
        red.stored_inserted(l) matches Ok(end) ==> outgrows(red.sys, end.sys),
    decreases l,
{
    match l {
        List::Nil => {},
        List::Cons(g, rest) => {
            law_formula_loses_nothing(red, normal(g), true);
            match red.formula_inserted(normal(g), true) {
                Ok(mid) => {
                    law_foreign_formulas_taken_over(mid, *rest);
                    match mid.stored_inserted(*rest) {
                        Ok(end) => {
                            lemma_outgrows_twice(red.sys, mid.sys, end.sys);
                        },
                        Err(_) => {},
                    }
                },
                Err(_) => {},
            }
        },
    }
}

/// The disjunctions of another system get numbers of their own: as many as there
/// are, one after the other.
pub proof fn law_foreign_disjunctions_numbered(red: Reduction, l: List<EqDisj>)
    requires
        red.sys.eq_store.next_split + l.size() < u64::MAX,
    ensures
        red.disj_ids(l).size() == l.size(),
        forall|i: nat|
            i < l.size() ==> #[trigger] red.disj_ids(l).nth(i) == Some(
                (red.sys.eq_store.next_split + i) as u64,
            ),
        red.disjs_added(l).sys.eq_store.next_split == red.sys.eq_store.next_split + l.size(),
    decreases l,
{
    match l {
        List::Nil => {},
        List::Cons(d, rest) => {
            let mid = red.with_store(red.sys.eq_store.with_disj(d.substs));
            law_foreign_disjunctions_numbered(mid, *rest);
            assert forall|i: nat| i < l.size() implies #[trigger] red.disj_ids(l).nth(i) == Some(
                (red.sys.eq_store.next_split + i) as u64,
            ) by {
                if i > 0 {
                    assert(mid.disj_ids(*rest).nth((i - 1) as nat) == Some(
                        (mid.sys.eq_store.next_split + (i - 1)) as u64,
                    ));
                }
            }
        },
    }
}

/// There are as many equations as bindings.
pub proof fn law_every_binding_is_an_equation(s: Subst)
    ensures
        subst_eqs(s).size() == s.size(),
    decreases s,
{
    match s {
        List::Nil => {},
        List::Cons(_, rest) => {
            law_every_binding_is_an_equation(*rest);
        },
    }
}

/// Adding a system without constraints changes nothing, where nodes have
/// identifiers of their own, the substitution has been applied and dropped, and
/// negated subterm constraints are sorted.
pub proof fn law_adding_nothing(red: Reduction)
    requires
        red.sys.eq_store.subst is Nil,
        distinct(node_ids(red.sys.nodes)),
        ascending(red.sys.subterm_store.neg_subterms),
    ensures
        red.conjoined(System::none()) == Ok::<(Reduction, SolveOutcome), Query>(
            (red, SolveOutcome::Linear(ChangeIndicator::Changed)),
        ),
{
    reveal(Reduction::conjoined);
    let other = System::none();
    assert(red.sets_joined(other) == red);
    assert(red.lesses_inserted(other.less_atoms) == red);
    assert(other.goals.sorted() == List::<(Goal, GoalStatus)>::Nil);
    assert(with_foreign_goals(red.sys, other.goals.sorted()) == red.sys);
    assert(red.stored_inserted(other.formulas) == Ok::<Reduction, Query>(red));
    assert(other.nodes.then_all(red.sys.nodes) == red.sys.nodes);
    law_distinct_nodes_set(red, red.sys.nodes);
    assert(red.on(System { nodes: red.sys.nodes, ..red.sys }) == red);
    law_sort_keeps_ascending(red.sys.subterm_store.neg_subterms);
    let merged = red.sys.subterm_store.merged(other.subterm_store);
    assert(merged == red.sys.subterm_store);
    assert(red.disjs_added(other.eq_store.conj) == red);
    assert(red.disj_ids(other.eq_store.conj) == List::<u64>::Nil);
    assert(red.splits_inserted(List::Nil) == red);
    assert(subst_eqs(other.eq_store.subst) == List::<(Term, Term)>::Nil);
    law_trivial_equations(red, SplitStrategy::SplitNow, List::Nil);
    law_empty_substitution(red);
}

} // verus!
