//! What the smaller goals, the supplies and the checks lead to.
use crate::action_laws::{lemma_named_case, law_finished_cases_are_led_to};
use crate::constraints::{Edge, EquationStore, Goal, NodeConc, NodePrem, SubtermConstraint};
use crate::context::{Contradiction, ProofContext, Query};
use crate::effect_laws::{law_formula_is_taken_up, taken_up};
use crate::equation_laws::goes_on_with;
use crate::equations::{
    collision_eqs, kept_eqs, lemma_nodes_besides_size, nodes_besides, rules_at,
};
use crate::facts::{Fact, IntrRuleACInfo, RuleACInst, RuleInfo};
use crate::goal_laws::leads_to;
use crate::goals::{arm_systems, first_name, with_goal_solved, Case};
use crate::guarded::{bottom, normal, Guarded};
use crate::list::{find, List};
use crate::list_laws::all;
use crate::names::{chain_direct, rule_case};
use crate::origin_laws::lemma_has_then;
use crate::premise_laws::{lemma_arm_systems, lemma_with_store_has};
use crate::proof_method::{constraints_settled, finished, pairs_settled, Result};
use crate::reduction::{Reduction, SolveOutcome};
use crate::rule_goals::{any_alike, ended_cases};
use crate::rules::{
    coerce_illegal, edge_forbidden, freshened, RuleWithConstrs, Supply,
};
use crate::split_laws::{holds_alternative, law_cases_hold_an_alternative};
use crate::system::System;
use crate::terms::{FunSym, LVar, Term};
use crate::text::Text;
use vstd::prelude::*;

verus! {

/// In every system to which a disjunction leads one of its alternatives is taken up.
pub proof fn law_disjunction_leads_to_alternatives(
    red: Reduction,
    alts: List<Guarded>,
    name: Text,
    sys: System,
)
    ensures
        red.disj_solved(alts) matches Ok((end, out)) ==> leads_to(end, out, name, sys) ==> exists|
            alt: Guarded,
        | #[trigger]
            alts.has(alt) && taken_up(sys, normal(alt)),
{
    let g = Goal::Disj(alts);
    match alts {
        List::Nil => {},
        List::Cons(alt, rest) => {
            assert(alts.has(alt));
            if *rest is Nil {
                law_formula_is_taken_up(red.goal_done(g), normal(alt), true);
            } else {
                law_cases_hold_an_alternative(red, g, alts, 0, name, sys);
                if holds_alternative(alts, 0, name, sys) {
                    let (j, other) = choose|j: nat, other: Guarded|
                        #[trigger] alts.nth(j) == Some(other) && #[trigger] taken_up(
                            sys,
                            normal(other),
                        );
                    lemma_nth_had(alts, j);
                }
            }
        },
    }
}

proof fn lemma_nth_had<T>(l: List<T>, j: nat)
    ensures
        l.nth(j) matches Some(x) ==> l.has(x),
    decreases l,
{
    match l {
        List::Nil => {},
        List::Cons(_, rest) => {
            if j > 0 {
                lemma_nth_had(*rest, (j - 1) as nat);
            }
        },
    }
}

/// The constraints whose larger term is irreducible at the top.
pub open spec fn irreducible_at(reducible: List<FunSym>) -> spec_fn(SubtermConstraint) -> bool {
    |c: SubtermConstraint| !(c.big matches Term::App(f, _) && reducible.has(f))
}

/// The negated constraints whose larger term is irreducible at the top.
pub open spec fn pair_irreducible_at(reducible: List<FunSym>) -> spec_fn((Term, Term)) -> bool {
    |p: (Term, Term)| !(p.1 matches Term::App(f, _) && reducible.has(f))
}

proof fn lemma_constraints_settled(reducible: List<FunSym>, l: List<SubtermConstraint>)
    ensures
        constraints_settled(reducible, l) == all(l, irreducible_at(reducible)),
    decreases l,
{
    match l {
        List::Nil => {},
        List::Cons(_, rest) => {
            lemma_constraints_settled(reducible, *rest);
        },
    }
}

proof fn lemma_pairs_settled(reducible: List<FunSym>, l: List<(Term, Term)>)
    ensures
        pairs_settled(reducible, l) == all(l, pair_irreducible_at(reducible)),
    decreases l,
{
    match l {
        List::Nil => {},
        List::Cons(_, rest) => {
            lemma_pairs_settled(reducible, *rest);
        },
    }
}

/// When a system is finished: never at the start, with no formula dealt with and falsity not
/// among the formulas; by the first contradiction where there is one; and where there is none
/// and no goal is open, as solved if and only if the larger terms of all subterm constraints
/// are irreducible at the top.
pub proof fn law_when_a_system_is_finished(
    ctx: &ProofContext,
    sys: System,
    contradictions: List<Contradiction>,
    open: List<Goal>,
)
    requires
        find(ctx.answers.contradictions, sys) == Some(contradictions),
        find(ctx.answers.open_goals, sys) == Some(open),
    ensures
        ({
            let st = sys.subterm_store;
            let settled = all(st.subterms, irreducible_at(ctx.reducible)) && all(
                st.solved_subterms,
                irreducible_at(ctx.reducible),
            ) && all(st.neg_subterms, pair_irreducible_at(ctx.reducible));
            let started = sys.solved_formulas !is Nil || sys.formulas.has(bottom());
            &&& !started ==> finished(ctx, sys) == Ok::<Option<Result>, Query>(None)
            &&& started ==> (contradictions matches List::Cons(c, _) ==> finished(ctx, sys) == Ok::<
                Option<Result>,
                Query,
            >(Some(Result::Contradictory(Some(c)))))
            &&& started && contradictions is Nil && open !is Nil ==> finished(ctx, sys) == Ok::<
                Option<Result>,
                Query,
            >(None)
            &&& started && contradictions is Nil && open is Nil ==> finished(ctx, sys) == Ok::<
                Option<Result>,
                Query,
            >(
                Some(
                    if settled {
                        Result::Solved
                    } else {
                        Result::Unfinishable
                    },
                ),
            )
        }),
{
    let st = sys.subterm_store;
    lemma_constraints_settled(ctx.reducible, st.subterms);
    lemma_constraints_settled(ctx.reducible, st.solved_subterms);
    lemma_pairs_settled(ctx.reducible, st.neg_subterms);
}

proof fn lemma_rules_at(l: List<(LVar, RuleACInst)>, i: LVar, ru: RuleACInst)
    ensures
        rules_at(l, i).has(ru) == l.has((i, ru)),
    decreases l,
{
    match l {
        List::Nil => {},
        List::Cons(n, rest) => {
            assert(n == (n.0, n.1));
            lemma_rules_at(*rest, i, ru);
        },
    }
}

proof fn lemma_besides_node(l: List<(LVar, RuleACInst)>, id: LVar, i: LVar, ru: RuleACInst)
    requires
        i != id,
    ensures
        nodes_besides(l, id).has((i, ru)) == l.has((i, ru)),
        find(nodes_besides(l, id), i) == find(l, i),
    decreases l,
{
    match l {
        List::Nil => {},
        List::Cons(n, rest) => {
            assert(n == (n.0, n.1));
            lemma_besides_node(*rest, id, i, ru);
        },
    }
}

proof fn lemma_kept_eqs(kept: RuleACInst, l: List<RuleACInst>, ru: RuleACInst)
    ensures
        l.has(ru) ==> kept_eqs(kept, l).has((kept, ru)),
    decreases l,
{
    match l {
        List::Nil => {},
        List::Cons(_, rest) => {
            lemma_kept_eqs(kept, *rest, ru);
        },
    }
}

/// Where a node occurs several times, its first rule is equated with each of the others.
pub proof fn law_every_collision_is_equated(
    l: List<(LVar, RuleACInst)>,
    i: LVar,
    first: RuleACInst,
    ru: RuleACInst,
)
    requires
        find(l, i) == Some(first),
        l.has((i, ru)),
        ru != first,
    ensures
        collision_eqs(l).has((first, ru)),
    decreases l.size(),
{
    match l {
        List::Nil => {},
        List::Cons(n, rest) => {
            let others = nodes_besides(*rest, n.0);
            let here = kept_eqs(n.1, rules_at(*rest, n.0));
            lemma_nodes_besides_size(*rest, n.0);
            lemma_has_then(here, collision_eqs(others), (first, ru));
            if n.0 == i {
                lemma_rules_at(*rest, i, ru);
                lemma_kept_eqs(first, rules_at(*rest, i), ru);
            } else {
                lemma_besides_node(*rest, n.0, i, ru);
                law_every_collision_is_equated(others, i, first, ru);
            }
        },
    }
}

/// After the rules have been tried for an action, the supply is past every index that the
/// instance of one of them has taken.
pub proof fn law_supply_is_past_the_instances(
    red: Reduction,
    i: LVar,
    fa: Fact,
    l: List<RuleWithConstrs>,
    avoid: u64,
    base: u64,
    last: u64,
    ru: RuleWithConstrs,
)
    requires
        l.has(ru),
        any_alike(ru.0.actions, fa),
    ensures
        red.candidate_cases(i, fa, l, avoid, base, last) matches Ok(t) ==> freshened(
            ru,
            avoid,
            Supply { next: base },
        ).1.next <= t.supply().next,
    decreases l,
{
    lemma_high(red, i, fa, l, avoid, base, last, ru);
}

proof fn lemma_high(
    red: Reduction,
    i: LVar,
    fa: Fact,
    l: List<RuleWithConstrs>,
    avoid: u64,
    base: u64,
    last: u64,
    ru: RuleWithConstrs,
)
    requires
        l.has(ru),
        any_alike(ru.0.actions, fa),
    ensures
        red.candidate_cases(i, fa, l, avoid, base, last) matches Ok(t) ==> freshened(
            ru,
            avoid,
            Supply { next: base },
        ).1.next <= t.high,
    decreases l,
{
    match l {
        List::Nil => {},
        List::Cons(first, rest) => {
            let fresh = freshened(first, avoid, Supply { next: base });
            if first != ru {
                lemma_high(
                    red,
                    i,
                    fa,
                    *rest,
                    avoid,
                    base,
                    if any_alike(first.0.actions, fa) {
                        fresh.1.next
                    } else {
                        last
                    },
                    ru,
                );
            }
        },
    }
}

proof fn lemma_ended_has(name: Text, g: Goal, l: List<System>, next: u64, sys: System)
    requires
        l.has(sys),
    ensures
        ended_cases(name, g, l, next).has(Case { name, sys: with_goal_solved(sys, g), next }),
    decreases l,
{
    match l {
        List::Nil => {},
        List::Cons(first, rest) => {
            if first != sys {
                lemma_ended_has(name, g, *rest, next, sys);
            }
        },
    }
}

/// A chain may end at once: where the premise is there, its rule may follow, and a term that
/// has to be taken apart first is not coerced, there is a case for each store in which the
/// conclusion is the premise.
pub proof fn law_chain_may_end(
    red: Reduction,
    c: NodeConc,
    p: NodePrem,
    c_rule: RuleACInst,
    fa: Fact,
    p_rule: RuleACInst,
    mid: Reduction,
    o: SolveOutcome,
    store: EquationStore,
)
    requires
        find(red.sys.nodes, c.0) == Some(c_rule),
        c_rule.conclusions.nth(c.1 as nat) == Some(fa),
        find(red.sys.nodes, p.0) == Some(p_rule),
        p_rule.premises.nth(p.1 as nat) is Some,
        !edge_forbidden(c_rule, p_rule),
        p_rule.info != RuleInfo::Intr(IntrRuleACInfo::Coerce) || !(fa.terms.only() matches Some(
            Term::App(_, _),
        )),
        ({
            let e = Edge { src: c, tgt: p };
            let start = Reduction::inheriting(red.ctx, red.sys, red.supply.next);
            start.edge_inserted(e, start.source_fact(e), start.target_fact(e)) == Ok::<
                (Reduction, SolveOutcome),
                Query,
            >((mid, o))
        }),
        goes_on_with(mid, o).has(store),
    ensures
        red.chain_solved(c, p) matches Ok((end, out)) ==> exists|name: Text, sys: System| #[trigger]
            leads_to(end, out, name, sys) && sys.eq_store == store && sys.edges == mid.sys.edges,
{
    reveal(coerce_illegal);
    let name = match chain_direct(fa) {
        Some(name) => name,
        None => rule_case(c_rule),
    };
    let g = Goal::Chain(c, p);
    lemma_arm_systems(mid, o);
    lemma_with_store_has(mid.sys, goes_on_with(mid, o), store);
    let sys = System { eq_store: store, ..mid.sys };
    lemma_ended_has(name, g, arm_systems(o, mid.sys), mid.supply.next, sys);
    let k = Case { name, sys: with_goal_solved(sys, g), next: mid.supply.next };
    assert(!coerce_illegal(p_rule, fa));
    match (red.direct_cases(c, p, c_rule, fa), red.onward_cases(c, p, c_rule, fa)) {
        (Ok(direct), Ok((onward, after))) => {
            assert(direct.has(k));
            let cases = direct.then_all(onward);
            lemma_has_then(direct, onward, k);
            lemma_named_case(cases, k);
            law_finished_cases_are_led_to(
                Reduction { supply: after, ..red },
                cases,
                first_name(cases),
                k.name,
                k.sys,
            );
            reveal(with_goal_solved);
        },
        _ => {},
    }
}

} // verus!
