//! Applying a substitution takes nothing back.
use crate::constraints::{Goal, GoalStatus};
use crate::context::{AddEqsAnswer, SimpQuery};
use crate::equation_laws::{answers_unify, follows, lemma_follows_twice};
use crate::equations::{all_alike, argument_eqs, nontrivial};
use crate::facts::Fact;
use crate::leaves::FormulaSubst;
use crate::list::{find, List};
use crate::reduction::{Reduction, SplitStrategy};
use crate::subst_system::{alike_eqs, merged_nodes, passed_goals, PASSES};
use crate::system::System;
use crate::system_laws::law_goal_inserted;
use crate::term_ops::Subst;
use crate::terms::Term;
use vstd::prelude::*;

verus! {

proof fn lemma_later_follows(red: Reduction, eqs: List<(Term, Term)>)
    requires
        answers_unify(red.ctx.answers),
    ensures
        red.term_eqs(SplitStrategy::SplitLater, eqs) matches Ok((end, out)) ==> end.ctx == red.ctx
            && (red.sys.eq_store.contradictory || out.dead() || follows(
            red.sys.eq_store,
            end.sys.eq_store,
        )) && (red.sys.eq_store.contradictory && !out.dead() ==> end.sys.eq_store.contradictory),
{
    reveal(Reduction::term_eqs);
    let pending = nontrivial(eqs);
    if pending !is Nil {
        let q = red.unifier_query(pending);
        match find(red.ctx.answers.add_eqs, q) {
            Some(AddEqsAnswer::Added(store, split, next)) => {
                assert(follows(q.store, store));
                let start = red.with_store(store).at(next);
                let more = SimpQuery { store, checked: start.checked(), next };
                match find(red.ctx.answers.simp, more) {
                    Some(answer) => {
                        lemma_follows_twice(q.store, store, answer.store);
                        let mid = start.with_store(answer.store).at(answer.next);
                        match split {
                            Some(id) => {
                                law_goal_inserted(mid, Goal::Split(id), false);
                            },
                            None => {},
                        }
                    },
                    None => {},
                }
            },
            _ => {},
        }
    }
}

proof fn lemma_reopened(red: Reduction, l: List<(Goal, GoalStatus)>)
    ensures
        red.goals_reopened(l).sys.eq_store == red.sys.eq_store,
        red.goals_reopened(l).ctx == red.ctx,
    decreases l,
{
    match l {
        List::Nil => {},
        List::Cons(g, rest) => {
            law_goal_inserted(red, g.0, g.1.looping);
            lemma_reopened(red.goal_inserted(g.0, g.1.looping), *rest);
        },
    }
}

proof fn lemma_collisions_follow(red: Reduction, eqs: List<(Fact, Fact)>)
    requires
        answers_unify(red.ctx.answers),
    ensures
        red.collisions_solved(eqs) matches Ok(end) ==> end.ctx == red.ctx && follows(
            red.sys.eq_store,
            end.sys.eq_store,
        ),
{
    reveal(Reduction::fact_eqs);
    let safe = alike_eqs(eqs);
    let start = if safe.size() == eqs.size() {
        red
    } else {
        red.refuted()
    };
    lemma_later_follows(start, argument_eqs(safe));
    lemma_alike(eqs);
}

proof fn lemma_alike(eqs: List<(Fact, Fact)>)
    ensures
        all_alike(alike_eqs(eqs)),
    decreases eqs,
{
    match eqs {
        List::Nil => {},
        List::Cons(_, rest) => {
            lemma_alike(*rest);
        },
    }
}

/// Whether the equations and the context are the same.
spec fn same_store(a: Reduction, b: Reduction) -> bool {
    a.sys.eq_store == b.sys.eq_store && a.ctx == b.ctx
}

proof fn lemma_graph_step(red: Reduction, s: Subst)
    ensures
        same_store(red, red.order_passed(s)),
        same_store(red, red.subterms_passed(s)),
{
}

proof fn lemma_nodes_step(red: Reduction, s: Subst)
    ensures
        red.nodes_passed(s).ctx == red.ctx,
        follows(red.sys.eq_store, red.nodes_passed(s).sys.eq_store),
{
}

proof fn lemma_goals_step(red: Reduction, s: Subst, fs: FormulaSubst)
    ensures
        same_store(red, red.goals_passed(s, fs)),
{
    let p = passed_goals(s, fs, red.sys.goals);
    lemma_reopened(red.on(System { goals: p.kept, ..red.sys }), p.reopened);
}

proof fn lemma_formulas_step(red: Reduction, fs: FormulaSubst)
    ensures
        same_store(red, red.formulas_passed(fs)),
{
}

proof fn lemma_pass_follows(red: Reduction)
    requires
        answers_unify(red.ctx.answers),
    ensures
        red.passed() matches Ok((end, _)) ==> end.ctx == red.ctx && follows(
            red.sys.eq_store,
            end.sys.eq_store,
        ),
{
    reveal(Reduction::passed);
    let s = red.sys.eq_store.subst;
    let fs = red.pass_formula_subst();
    if s !is Nil {
        let a = red.nodes_passed(s);
        let b = a.order_passed(s);
        let c = b.goals_passed(s, fs);
        let d = c.formulas_passed(fs);
        lemma_nodes_step(red, s);
        lemma_graph_step(a, s);
        lemma_goals_step(b, s, fs);
        lemma_formulas_step(c, fs);
        lemma_graph_step(d, s);
        let e = d.subterms_passed(s);
        let eqs = merged_nodes(s, red.sys.nodes).eqs();
        lemma_collisions_follow(e, eqs);
        match e.collisions_solved(eqs) {
            Ok(end) => {
                lemma_follows_twice(red.sys.eq_store, e.sys.eq_store, end.sys.eq_store);
            },
            Err(_) => {},
        }
    }
}

proof fn lemma_passes_follow(red: Reduction, rounds: nat)
    requires
        answers_unify(red.ctx.answers),
    ensures
        red.passes(rounds) matches Ok(end) ==> end.ctx == red.ctx && follows(
            red.sys.eq_store,
            end.sys.eq_store,
        ),
    decreases rounds,
{
    lemma_pass_follows(red);
    match red.passed() {
        Ok((next, _)) => {
            if next.sys.eq_store.subst.size() != red.sys.eq_store.subst.size() && rounds > 1 {
                lemma_passes_follow(next, (rounds - 1) as nat);
                match next.passes((rounds - 1) as nat) {
                    Ok(end) => {
                        lemma_follows_twice(
                            red.sys.eq_store,
                            next.sys.eq_store,
                            end.sys.eq_store,
                        );
                    },
                    Err(_) => {},
                }
            }
        },
        Err(_) => {},
    }
}

/// To apply the substitution to the system takes nothing back: where the answers are
/// unifiers, what the substitution makes equal stays equal.
pub proof fn law_substituted_system_follows(red: Reduction)
    requires
        answers_unify(red.ctx.answers),
    ensures
        red.system_substituted() matches Ok(end) ==> end.ctx == red.ctx && follows(
            red.sys.eq_store,
            end.sys.eq_store,
        ),
{
    reveal(Reduction::system_substituted);
    lemma_passes_follow(red, PASSES as nat);
}

} // verus!
