//! What the precomputed sources lead to.
use crate::constraints::{Edge, EquationStore};
use crate::context::{ProofContext, UnifiableQuery};
use crate::equation_laws::{
    answers_unify, equates, fact_holds, fact_solves, fact_unifies, follows,
    law_fact_equations_hold,
};
use crate::facts::{Fact, RuleACInst};
use crate::follow_laws::law_substituted_system_follows;
use crate::goals::Case;
use crate::list::{find, List};
use crate::list_laws::all;
use crate::origin_laws::lemma_has_then;
use crate::proof_method::with_seeds;
use crate::reduction::{Reduction, SolveOutcome, SplitStrategy};
use crate::rule_goals::{
    any_conflated, conflated_with, consumers, edge_eqs, premise_consumers, Consumer,
};
use crate::system::System;
use crate::term_ops::{applied, applied_all};
use crate::terms::{LSort, LVar, Term};
use crate::text::Text;
use vstd::prelude::*;

verus! {

/// Every new edge of a precomputed system joins equal facts or has them equated: where they
/// are alike and differ, they are among the equations, and where they are not alike, the
/// system is given up.
pub proof fn law_new_edges_are_equated(
    l: List<Edge>,
    nodes: List<(LVar, RuleACInst)>,
    old_nodes: List<(LVar, RuleACInst)>,
    e: Edge,
    a: RuleACInst,
    b: RuleACInst,
    fc: Fact,
    fp: Fact,
)
    requires
        l.has(e),
        find(old_nodes, e.src.0) is None || find(old_nodes, e.tgt.0) is None,
        find(nodes, e.src.0) == Some(a),
        find(nodes, e.tgt.0) == Some(b),
        a.conclusions.nth(e.src.1 as nat) == Some(fc),
        b.premises.nth(e.tgt.1 as nat) == Some(fp),
        fc != fp,
    ensures
        fc.tag == fp.tag && fc.terms.size() == fp.terms.size() ==> edge_eqs(
            l,
            nodes,
            old_nodes,
        ).0.has((fc, fp)),
        !(fc.tag == fp.tag && fc.terms.size() == fp.terms.size()) ==> edge_eqs(
            l,
            nodes,
            old_nodes,
        ).1,
    decreases l,
{
    match l {
        List::Nil => {},
        List::Cons(first, rest) => {
            if first != e {
                law_new_edges_are_equated(*rest, nodes, old_nodes, e, a, b, fc, fp);
            }
        },
    }
}

proof fn lemma_terms_follow(a: EquationStore, b: EquationStore, l: List<Term>, m: List<Term>)
    requires
        follows(a, b),
        !b.contradictory,
        applied_all(a.subst, l) == applied_all(a.subst, m),
    ensures
        applied_all(b.subst, l) == applied_all(b.subst, m),
    decreases l,
{
    match (l, m) {
        (List::Cons(t, rest), List::Cons(u, more)) => {
            assert(equates(a.subst, (t, u)));
            assert(equates(b.subst, (t, u)));
            lemma_terms_follow(a, b, *rest, *more);
        },
        _ => {},
    }
}

/// Facts that are equal in a store are equal in every store that follows from it.
pub proof fn law_equal_facts_stay_equal(a: EquationStore, b: EquationStore, f: Fact, g: Fact)
    requires
        follows(a, b),
        fact_holds(a, f, g),
    ensures
        fact_holds(b, f, g),
{
    if !b.contradictory {
        lemma_terms_follow(a, b, f.terms, g.terms);
    }
}

proof fn lemma_arm_systems_hold(
    red: Reduction,
    stores: List<EquationStore>,
    a: EquationStore,
    action: Fact,
    fa: Fact,
    s: (System, u64),
)
    requires
        answers_unify(red.ctx.answers),
        all(stores, fact_unifies(a, List::one((action, fa)))),
    ensures
        red.arms_substituted(stores) matches Ok(l) ==> l.has(s) ==> fact_holds(
            s.0.eq_store,
            action,
            fa,
        ),
    decreases stores,
{
    match stores {
        List::Nil => {},
        List::Cons(store, rest) => {
            lemma_arm_systems_hold(red, *rest, a, action, fa, s);
            let start = Reduction::inheriting(
                red.ctx,
                System { eq_store: store, ..red.sys },
                red.supply.next,
            );
            law_substituted_system_follows(start);
            assert(fact_unifies(a, List::one((action, fa)))(store));
            assert(fact_solves(store)((action, fa)));
            match start.system_substituted() {
                Ok(end) => {
                    law_equal_facts_stay_equal(store, end.sys.eq_store, action, fa);
                },
                Err(_) => {},
            }
        },
    }
}

/// In every system of a precomputed case its action is the goal's, where the answers are
/// unifiers.
pub proof fn law_source_gives_the_action(red: Reduction, action: Fact, fa: Fact, s: (System, u64))
    requires
        answers_unify(red.ctx.answers),
    ensures
        red.source_systems(action, fa) matches Ok(l) ==> l.has(s) ==> fact_holds(
            s.0.eq_store,
            action,
            fa,
        ),
{
    let eqs = List::one((action, fa));
    law_fact_equations_hold(red, eqs);
    reveal_with_fuel(List::has, 2);
    match red.fact_eqs(SplitStrategy::SplitNow, eqs) {
        Ok((mid, out)) => {
            match out {
                SolveOutcome::Cases(arms) => {
                    lemma_arm_systems_hold(mid, arms, red.sys.eq_store, action, fa, s);
                },
                SolveOutcome::Linear(_) => {
                    let store = mid.sys.eq_store;
                    assert(fact_unifies(red.sys.eq_store, eqs)(store));
                    assert(fact_solves(store)((action, fa)));
                    law_substituted_system_follows(mid);
                    match mid.system_substituted() {
                        Ok(end) => {
                            law_equal_facts_stay_equal(store, end.sys.eq_store, action, fa);
                        },
                        Err(_) => {},
                    }
                },
                _ => {},
            }
        },
        Err(_) => {},
    }
}

/// Whether two nodes consume the same fresh value with rules that cannot be the same.
pub open spec fn conflict(ctx: &ProofContext, c: Consumer, d: Consumer) -> bool {
    c.value == d.value && c.node != d.node && find(
        ctx.answers.unifiable,
        UnifiableQuery { left: c.rule, right: d.rule },
    ) == Some(Some(false))
}

/// A consumer is in conflict with one of the others exactly where that is said.
pub proof fn law_conflict_of_one(ctx: &ProofContext, c: Consumer, l: List<Consumer>)
    ensures
        conflated_with(ctx, c, l) matches Ok(answer) ==> (answer <==> exists|d: Consumer|
            #[trigger] l.has(d) && conflict(ctx, c, d)),
    decreases l,
{
    match l {
        List::Nil => {},
        List::Cons(first, rest) => {
            law_conflict_of_one(ctx, c, *rest);
            if conflict(ctx, c, first) {
                assert(l.has(first));
            }
            if exists|d: Consumer| #[trigger] rest.has(d) && conflict(ctx, c, d) {
                let d = choose|d: Consumer| #[trigger] rest.has(d) && conflict(ctx, c, d);
                assert(l.has(d));
            }
            if exists|d: Consumer| #[trigger] l.has(d) && conflict(ctx, c, d) {
                let d = choose|d: Consumer| #[trigger] l.has(d) && conflict(ctx, c, d);
                if d != first {
                    assert(rest.has(d));
                }
            }
        },
    }
}

/// Where a consumer is in conflict with a later one, wherever the two stand, that is said.
pub proof fn law_conflict_of_two(
    ctx: &ProofContext,
    before: List<Consumer>,
    c: Consumer,
    l: List<Consumer>,
    d: Consumer,
)
    requires
        l.has(d),
        conflict(ctx, c, d),
    ensures
        any_conflated(ctx, before.then_all(List::Cons(c, Box::new(l)))) matches Ok(answer)
            ==> answer,
    decreases before,
{
    match before {
        List::Nil => {
            law_conflict_of_one(ctx, c, l);
        },
        List::Cons(_, rest) => {
            law_conflict_of_two(ctx, *rest, c, l, d);
        },
    }
}

proof fn lemma_premise_consumed(
    sys: System,
    node: LVar,
    rule: RuleACInst,
    prems: List<Fact>,
    fa: Fact,
    t: Term,
    v: LVar,
)
    requires
        prems.has(fa),
        fa.tag is Fresh,
        fa.terms.nth(0) == Some(t),
        applied(sys.eq_store.subst, t) == Term::Var(v),
        v.sort == LSort::Fresh,
    ensures
        premise_consumers(sys, node, rule, prems).has(Consumer { node, value: v, rule }),
    decreases prems,
{
    match prems {
        List::Nil => {},
        List::Cons(first, rest) => {
            if first != fa {
                lemma_premise_consumed(sys, node, rule, *rest, fa, t, v);
            } else {
                assert(fa.terms matches List::Cons(head, _) && head == t);
            }
        },
    }
}

/// A node with a fresh premise consumes the value that the substitution gives it, where that is
/// a fresh variable.
pub proof fn law_every_fresh_premise_consumes(
    sys: System,
    l: List<(LVar, RuleACInst)>,
    node: LVar,
    rule: RuleACInst,
    fa: Fact,
    t: Term,
    v: LVar,
)
    requires
        l.has((node, rule)),
        rule.premises.has(fa),
        fa.tag is Fresh,
        fa.terms.nth(0) == Some(t),
        applied(sys.eq_store.subst, t) == Term::Var(v),
        v.sort == LSort::Fresh,
    ensures
        consumers(sys, l).has(Consumer { node, value: v, rule }),
    decreases l,
{
    match l {
        List::Nil => {},
        List::Cons(n, rest) => {
            let c = Consumer { node, value: v, rule };
            lemma_has_then(
                premise_consumers(sys, n.0, n.1, n.1.premises),
                consumers(sys, *rest),
                c,
            );
            if n == (node, rule) {
                lemma_premise_consumed(sys, node, rule, rule.premises, fa, t, v);
            } else {
                law_every_fresh_premise_consumes(sys, *rest, node, rule, fa, t, v);
            }
        },
    }
}

/// Each case goes on from the state of the supply that is on record for its position.
pub proof fn law_seeds_by_position(l: List<(Text, System)>, seeds: List<u64>, next: u64, k: nat)
    ensures
        with_seeds(l, seeds, next).size() == l.size(),
        l.nth(k) matches Some(c) ==> with_seeds(l, seeds, next).nth(k) == Some(
            Case {
                name: c.0,
                sys: c.1,
                next: match seeds.nth(k) {
                    Some(seed) => seed,
                    None => next,
                },
            },
        ),
    decreases l,
{
    match l {
        List::Nil => {},
        List::Cons(_, rest) => {
            let before = if k > 0 {
                (k - 1) as nat
            } else {
                0
            };
            match seeds {
                List::Nil => {
                    law_seeds_by_position(*rest, List::Nil, next, before);
                    lemma_none(before);
                },
                List::Cons(_, more) => {
                    law_seeds_by_position(*rest, *more, next, before);
                },
            }
        },
    }
}

proof fn lemma_none(k: nat)
    ensures
        List::<u64>::Nil.nth(k) is None,
{
}

} // verus!
