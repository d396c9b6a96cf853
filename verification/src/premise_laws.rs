//! What solving a premise goal by the rules leads to.
use crate::action_laws::{
    all_led, law_finished_cases_are_led_to, lemma_all_finished, lemma_fresh_alike,
    lemma_fresh_case, lemma_named_case, lemma_then_then, lemma_variants_keep,
};
use crate::bounds::system_max;
use crate::constraints::{Edge, EquationStore, Goal, NodePrem};
use crate::context::Query;
use crate::equation_laws::{
    answers_unify, fact_holds, fact_solves, fact_unifies, goes_on_with, law_edge_joins_equal_facts,
};
use crate::exploit_laws::law_premises_supplied;
use crate::facts::{alike, Fact, RuleACInst};
use crate::goal_laws::{law_marked_goal_is_solved, leads_to, settled};
use crate::goals::{arm_systems, first_name, with_goal_solved, with_stores, Case};
use crate::leaves::plus;
use crate::list::List;
use crate::list_laws::{all, lemma_all_then, lemma_has_snoc};
use crate::names::rule_case;
use crate::origin_laws::lemma_has_then;
use crate::query_laws::{lemma_exploited, lemma_variants};
use crate::reduction::{node_var, Reduction, SolveOutcome};
use crate::rule_goals::any_alike;
use crate::rules::{freshened, premise_candidates, RuleWithConstrs, Supply};
use crate::system::System;
use crate::terms::LVar;
use crate::text::Text;
use vstd::prelude::*;

verus! {

/// Whether a conclusion of the rule at `node` supplies the premise in the system: there
/// is an edge from the position of the conclusion, and the conclusion is the premise in
/// the store.
pub open spec fn supplies(
    sys: System,
    node: LVar,
    ru: RuleACInst,
    k: u64,
    fc: Fact,
    p: NodePrem,
    fa: Fact,
) -> bool {
    &&& sys.nodes.has((node, ru))
    &&& ru.conclusions.size() <= u64::MAX ==> ru.conclusions.nth(k as nat) == Some(fc)
    &&& fc.tag == fa.tag && fc.terms.size() == fa.terms.size()
    &&& sys.edges.has(Edge { src: (node, k), tgt: p })
    &&& fact_holds(sys.eq_store, fc, fa)
    &&& settled(Goal::Premise(p, fa))(sys)
}

/// Whether the reduction ends with the system once its substitution is applied.
pub open spec fn substitutes_to(pre: Reduction, sys: System) -> bool {
    pre.system_substituted() matches Ok(end) && end.sys == sys
}

/// Whether the case comes from applying the substitution to a system in which a
/// conclusion of the rule at `node`, after which the case is called, supplies the
/// premise.
pub open spec fn supplied_at(node: LVar, p: NodePrem, fa: Fact) -> spec_fn(Case) -> bool {
    |c: Case|
        exists|pre: Reduction, ru: RuleACInst, k: u64, fc: Fact|
            substitutes_to(pre, c.sys) && c.name == rule_case(ru) && #[trigger] supplies(
                pre.sys,
                node,
                ru,
                k,
                fc,
                p,
                fa,
            )
}

pub proof fn lemma_arm_systems(end: Reduction, out: SolveOutcome)
    ensures
        !out.dead() ==> arm_systems(out, end.sys) == with_stores(end.sys, goes_on_with(end, out)),
{
    reveal(arm_systems);
    assert(System { eq_store: end.sys.eq_store, ..end.sys } == end.sys);
    reveal_with_fuel(with_stores, 2);
}

proof fn lemma_stores_supply(
    red: Reduction,
    sys: System,
    stores: List<EquationStore>,
    node: LVar,
    ru: RuleACInst,
    k: u64,
    fc: Fact,
    p: NodePrem,
    fa: Fact,
    a: EquationStore,
)
    requires
        sys.nodes.has((node, ru)),
        ru.conclusions.size() <= u64::MAX ==> ru.conclusions.nth(k as nat) == Some(fc),
        alike(fc, fa),
        sys.edges.has(Edge { src: (node, k), tgt: p }),
        all(stores, fact_unifies(a, List::one((fc, fa)))),
    ensures
        red.supplied_cases(
            Goal::Premise(p, fa),
            rule_case(ru),
            with_stores(sys, stores),
        ) matches Ok(cases) ==> all(cases, supplied_at(node, p, fa)),
    decreases stores,
{
    let g = Goal::Premise(p, fa);
    match stores {
        List::Nil => {
            assert(all(List::Nil, supplied_at(node, p, fa)));
        },
        List::Cons(s, rest) => {
            lemma_stores_supply(red, sys, *rest, node, ru, k, fc, p, fa, a);
            let here = System { eq_store: s, ..sys };
            law_marked_goal_is_solved(here, g);
            reveal(with_goal_solved);
            assert(fact_unifies(a, List::one((fc, fa)))(s));
            assert(fact_solves(s)((fc, fa)));
            let pre = Reduction::inheriting(red.ctx, with_goal_solved(here, g), red.supply.next);
            match pre.system_substituted() {
                Ok(end) => {
                    let c = Case { name: rule_case(ru), sys: end.sys, next: end.supply.next };
                    assert(supplies(pre.sys, node, ru, k, fc, p, fa));
                    assert(substitutes_to(pre, c.sys));
                    assert(supplied_at(node, p, fa)(c));
                },
                Err(_) => {},
            }
        },
    }
}

/// Whether `l` are the elements of `whole` from position `k` on.
pub open spec fn rest_of<T>(l: List<T>, whole: List<T>, k: nat) -> bool {
    k + l.size() == whole.size() && forall|j: nat|
        j < l.size() ==> #[trigger] whole.nth(k + j) == l.nth(j)
}

proof fn lemma_rest_of<T>(x: T, l: List<T>, whole: List<T>, k: nat)
    requires
        rest_of(List::Cons(x, Box::new(l)), whole, k),
    ensures
        whole.nth(k) == Some(x),
        rest_of(l, whole, k + 1),
{
    let both = List::Cons(x, Box::new(l));
    assert(whole.nth(k + 0) == both.nth(0));
    assert forall|j: nat| j < l.size() implies #[trigger] whole.nth(k + 1 + j) == l.nth(j) by {
        assert(whole.nth(k + (j + 1)) == both.nth(j + 1));
    }
}

proof fn lemma_conclusions_supply(
    red: Reduction,
    p: NodePrem,
    fa: Fact,
    node: LVar,
    ru: RuleACInst,
    concs: List<Fact>,
    k: u64,
)
    requires
        answers_unify(red.ctx.answers),
        red.sys.nodes.has((node, ru)),
        ru.conclusions.size() <= u64::MAX ==> rest_of(concs, ru.conclusions, k as nat),
    ensures
        red.conclusion_cases(p, fa, rule_case(ru), node, concs, k) matches Ok(cases) ==> all(
            cases,
            supplied_at(node, p, fa),
        ),
    decreases concs,
{
    assert(all(List::Nil, supplied_at(node, p, fa)));
    match concs {
        List::Nil => {},
        List::Cons(fc, rest) => {
            if ru.conclusions.size() <= u64::MAX {
                lemma_rest_of(fc, *rest, ru.conclusions, k as nat);
                if k == u64::MAX {
                    assert(rest.size() == 0);
                    assert(*rest is Nil);
                }
            }
            if ru.conclusions.size() > u64::MAX || k < u64::MAX {
                lemma_conclusions_supply(red, p, fa, node, ru, *rest, plus(k, 1));
            }
            if alike(fc, fa) {
                let start = Reduction::inheriting(red.ctx, red.sys, red.supply.next);
                let e = Edge { src: (node, k), tgt: p };
                law_edge_joins_equal_facts(start, e, fc, fa);
                match start.edge_inserted(e, Some(fc), Some(fa)) {
                    Ok((end, out)) => {
                        if !out.dead() {
                            lemma_arm_systems(end, out);
                            lemma_stores_supply(
                                end,
                                end.sys,
                                goes_on_with(end, out),
                                node,
                                ru,
                                k,
                                fc,
                                p,
                                fa,
                                start.sys.eq_store,
                            );
                            match (
                                end.supplied_cases(
                                    Goal::Premise(p, fa),
                                    rule_case(ru),
                                    arm_systems(out, end.sys),
                                ),
                                red.conclusion_cases(p, fa, rule_case(ru), node, *rest, plus(k, 1)),
                            ) {
                                (Ok(here), Ok(more)) => {
                                    lemma_all_then(here, more, supplied_at(node, p, fa));
                                },
                                _ => {},
                            }
                        }
                    },
                    Err(_) => {},
                }
            }
        },
    }
}

proof fn lemma_supplier_supplies(
    red: Reduction,
    p: NodePrem,
    fa: Fact,
    node: LVar,
    ru: RuleWithConstrs,
    next: u64,
)
    requires
        answers_unify(red.ctx.answers),
    ensures
        red.supplier_cases(p, fa, node, ru, next) matches Ok(cases) ==> all(
            cases,
            supplied_at(node, p, fa),
        ),
{
    let start = Reduction::inheriting(red.ctx, red.sys.with_node(node, ru.0), next);
    lemma_variants(start, ru.1, red.ctx);
    lemma_variants_keep(start, ru.1);
    lemma_has_snoc(red.sys.nodes, (node, ru.0), (node, ru.0));
    match start.variants_required(ru.1) {
        Ok((mid, _)) => {
            lemma_exploited(mid, node, ru.0, red.ctx);
            law_premises_supplied(mid, node, ru.0, 0);
            match mid.rule_exploited(node, ru.0) {
                Ok(ready) => {
                    assert(mid.sys.nodes.has((node, ru.0)));
                    assert(ready.sys.nodes.has((node, ru.0)));
                    assert(rest_of(ru.0.conclusions, ru.0.conclusions, 0)) by {
                        assert forall|j: nat| j < ru.0.conclusions.size() implies #[trigger]
                            ru.0.conclusions.nth(0 + j) == ru.0.conclusions.nth(j) by {}
                    }
                    lemma_conclusions_supply(ready, p, fa, node, ru.0, ru.0.conclusions, 0);
                },
                Err(_) => {},
            }
        },
        Err(_) => {},
    }
}

proof fn lemma_candidates_supply(
    red: Reduction,
    p: NodePrem,
    fa: Fact,
    node: LVar,
    l: List<RuleWithConstrs>,
    avoid: u64,
    base: u64,
    last: u64,
)
    requires
        answers_unify(red.ctx.answers),
    ensures
        red.premise_candidate_cases(p, fa, node, l, avoid, base, last) matches Ok(t) ==> all(
            t.cases,
            supplied_at(node, p, fa),
        ),
    decreases l,
{
    match l {
        List::Nil => {
            assert(all(List::Nil, supplied_at(node, p, fa)));
        },
        List::Cons(ru, rest) => {
            if any_alike(ru.0.conclusions, fa) {
                let fresh = freshened(ru, avoid, Supply { next: base });
                lemma_supplier_supplies(red, p, fa, node, fresh.0, fresh.1.next);
                lemma_candidates_supply(red, p, fa, node, *rest, avoid, base, fresh.1.next);
                match (
                    red.supplier_cases(p, fa, node, fresh.0, fresh.1.next),
                    red.premise_candidate_cases(p, fa, node, *rest, avoid, base, fresh.1.next),
                ) {
                    (Ok(here), Ok(more)) => {
                        lemma_all_then(here, more.cases, supplied_at(node, p, fa));
                    },
                    _ => {},
                }
            } else {
                lemma_candidates_supply(red, p, fa, node, *rest, avoid, base, last);
            }
        },
    }
}

/// The new node that is to supply a premise.
pub open spec fn new_supplier(red: Reduction) -> LVar {
    node_var("vr"@, red.clear_supply().next)
}

/// Every case in which a premise is solved by a rule comes from applying the substitution
/// to a system with a new node that carries an instance of the rule, with an edge to the
/// premise from the position of one of its conclusions, which is alike to the premise
/// and made equal to it where the answers are unifiers; the case is called after the
/// rule, and the goal is solved.
pub proof fn law_rules_supply_the_premise(red: Reduction, p: NodePrem, fa: Fact)
    requires
        answers_unify(red.ctx.answers),
    ensures
        red.premise_by_rules(p, fa) matches Ok((end, out)) ==> all_led(
            end,
            out,
            supplied_at(new_supplier(red), p, fa),
        ),
{
    let node = new_supplier(red);
    let supply = red.clear_supply().taken(1);
    let base = supply.next;
    let l = premise_candidates(red.ctx.intruder_rules, red.ctx.rules);
    let start = Reduction { supply, ..red };
    let avoid = system_max(red.sys);
    lemma_candidates_supply(start, p, fa, node, l, avoid, base, base);
    match start.premise_candidate_cases(p, fa, node, l, avoid, base, base) {
        Ok(t) => {
            lemma_all_finished(
                Reduction { supply: t.supply(), ..red },
                t.cases,
                first_name(t.cases),
                supplied_at(node, p, fa),
            );
        },
        Err(_) => {},
    }
}

/// The conclusions of a rule are tried one after the other, each at its own position, and
/// what each gives is kept: the cases of two lists of conclusions are those of the first
/// followed by those of the second, whose positions go on after the first.
pub proof fn law_conclusions_add_up(
    red: Reduction,
    p: NodePrem,
    fa: Fact,
    name: Text,
    node: LVar,
    a: List<Fact>,
    b: List<Fact>,
    k: u64,
)
    requires
        k + a.size() <= u64::MAX,
    ensures
        match (
            red.conclusion_cases(p, fa, name, node, a, k),
            red.conclusion_cases(p, fa, name, node, b, (k + a.size()) as u64),
        ) {
            (Ok(x), Ok(y)) => red.conclusion_cases(p, fa, name, node, a.then_all(b), k) == Ok::<
                List<Case>,
                Query,
            >(x.then_all(y)),
            _ => red.conclusion_cases(p, fa, name, node, a.then_all(b), k) is Err,
        },
    decreases a,
{
    match a {
        List::Nil => {},
        List::Cons(fc, rest) => {
            law_conclusions_add_up(red, p, fa, name, node, *rest, b, plus(k, 1));
            let e = Edge { src: (node, k), tgt: p };
            let start = Reduction::inheriting(red.ctx, red.sys, red.supply.next);
            let here = if alike(fc, fa) {
                match start.edge_inserted(e, Some(fc), Some(fa)) {
                    Err(q) => Err(q),
                    Ok((end, out)) => if out.dead() {
                        Ok(List::Nil)
                    } else {
                        end.supplied_cases(
                            Goal::Premise(p, fa),
                            name,
                            arm_systems(out, end.sys),
                        )
                    },
                }
            } else {
                Ok(List::Nil)
            };
            match (
                here,
                red.conclusion_cases(p, fa, name, node, *rest, plus(k, 1)),
                red.conclusion_cases(p, fa, name, node, b, (k + a.size()) as u64),
            ) {
                (Ok(h), Ok(x), Ok(y)) => {
                    lemma_then_then(h, x, y);
                },
                _ => {},
            }
        },
    }
}

proof fn lemma_supplied_has(
    red: Reduction,
    g: Goal,
    name: Text,
    l: List<System>,
    sys: System,
    end: Reduction,
)
    requires
        l.has(sys),
        Reduction::inheriting(
            red.ctx,
            with_goal_solved(sys, g),
            red.supply.next,
        ).system_substituted() == Ok::<Reduction, Query>(end),
    ensures
        red.supplied_cases(g, name, l) matches Ok(cases) ==> cases.has(
            Case { name, sys: end.sys, next: end.supply.next },
        ),
    decreases l,
{
    match l {
        List::Nil => {},
        List::Cons(first, rest) => {
            if first != sys {
                lemma_supplied_has(red, g, name, *rest, sys, end);
            }
        },
    }
}

pub proof fn lemma_with_store_has(sys: System, stores: List<EquationStore>, store: EquationStore)
    requires
        stores.has(store),
    ensures
        with_stores(sys, stores).has(System { eq_store: store, ..sys }),
    decreases stores,
{
    match stores {
        List::Nil => {},
        List::Cons(s, rest) => {
            if s != store {
                lemma_with_store_has(sys, *rest, store);
            }
        },
    }
}

/// The way from a conclusion `fc` at position `k` of the node to a system in which it is
/// the premise `fa`: the edge is inserted, and the substitution of one of the stores with
/// which that goes on is applied.
pub open spec fn conclusion_reaches(
    ready: Reduction,
    node: LVar,
    k: u64,
    fc: Fact,
    p: NodePrem,
    fa: Fact,
    store: EquationStore,
    end: Reduction,
) -> bool {
    Reduction::inheriting(ready.ctx, ready.sys, ready.supply.next).edge_inserted(
        Edge { src: (node, k), tgt: p },
        Some(fc),
        Some(fa),
    ) matches Ok((mid, o)) && goes_on_with(mid, o).has(store) && Reduction::inheriting(
        mid.ctx,
        with_goal_solved(System { eq_store: store, ..mid.sys }, Goal::Premise(p, fa)),
        mid.supply.next,
    ).system_substituted() == Ok::<Reduction, Query>(end)
}

/// Every conclusion of a rule that is alike to the premise is tried, at its own position:
/// for each store in which it is the premise there is a case.
pub proof fn law_every_conclusion_is_tried(
    ready: Reduction,
    p: NodePrem,
    fa: Fact,
    name: Text,
    node: LVar,
    concs: List<Fact>,
    from: u64,
    j: nat,
    fc: Fact,
    store: EquationStore,
    end: Reduction,
)
    requires
        concs.nth(j) == Some(fc),
        from + j <= u64::MAX,
        fc.tag == fa.tag,
        fc.terms.size() == fa.terms.size(),
        conclusion_reaches(ready, node, (from + j) as u64, fc, p, fa, store, end),
    ensures
        ready.conclusion_cases(p, fa, name, node, concs, from) matches Ok(cases) ==> cases.has(
            Case { name, sys: end.sys, next: end.supply.next },
        ),
    decreases concs,
{
    let c = Case { name, sys: end.sys, next: end.supply.next };
    match concs {
        List::Nil => {},
        List::Cons(first, rest) => {
            let start = Reduction::inheriting(ready.ctx, ready.sys, ready.supply.next);
            let e = Edge { src: (node, from), tgt: p };
            let here = if alike(first, fa) {
                match start.edge_inserted(e, Some(first), Some(fa)) {
                    Err(q) => Err(q),
                    Ok((mid, out)) => if out.dead() {
                        Ok(List::Nil)
                    } else {
                        mid.supplied_cases(
                            Goal::Premise(p, fa),
                            name,
                            arm_systems(out, mid.sys),
                        )
                    },
                }
            } else {
                Ok(List::Nil)
            };
            match (here, ready.conclusion_cases(p, fa, name, node, *rest, plus(from, 1))) {
                (Ok(cases), Ok(more)) => {
                    lemma_has_then(cases, more, c);
                    if j == 0 {
                        match start.edge_inserted(e, Some(fc), Some(fa)) {
                            Ok((mid, out)) => {
                                lemma_arm_systems(mid, out);
                                lemma_with_store_has(mid.sys, goes_on_with(mid, out), store);
                                lemma_supplied_has(
                                    mid,
                                    Goal::Premise(p, fa),
                                    name,
                                    arm_systems(out, mid.sys),
                                    System { eq_store: store, ..mid.sys },
                                    end,
                                );
                            },
                            Err(_) => {},
                        }
                    } else {
                        law_every_conclusion_is_tried(
                            ready,
                            p,
                            fa,
                            name,
                            node,
                            *rest,
                            plus(from, 1),
                            (j - 1) as nat,
                            fc,
                            store,
                            end,
                        );
                    }
                },
                _ => {},
            }
        },
    }
}

proof fn lemma_candidate_supplies(
    red: Reduction,
    p: NodePrem,
    fa: Fact,
    node: LVar,
    l: List<RuleWithConstrs>,
    avoid: u64,
    base: u64,
    last: u64,
    ru: RuleWithConstrs,
    c: Case,
)
    requires
        l.has(ru),
        any_alike(ru.0.conclusions, fa),
        red.supplier_cases(
            p,
            fa,
            node,
            freshened(ru, avoid, Supply { next: base }).0,
            freshened(ru, avoid, Supply { next: base }).1.next,
        ) matches Ok(cases) ==> cases.has(c),
    ensures
        red.premise_candidate_cases(p, fa, node, l, avoid, base, last) matches Ok(t)
            ==> t.cases.has(c),
    decreases l,
{
    match l {
        List::Nil => {},
        List::Cons(first, rest) => {
            let fresh = freshened(first, avoid, Supply { next: base });
            if first != ru {
                lemma_candidate_supplies(
                    red,
                    p,
                    fa,
                    node,
                    *rest,
                    avoid,
                    base,
                    if any_alike(first.0.conclusions, fa) {
                        fresh.1.next
                    } else {
                        last
                    },
                    ru,
                    c,
                );
            }
            if any_alike(first.0.conclusions, fa) {
                match (
                    red.supplier_cases(p, fa, node, fresh.0, fresh.1.next),
                    red.premise_candidate_cases(p, fa, node, *rest, avoid, base, fresh.1.next),
                ) {
                    (Ok(here), Ok(more)) => {
                        lemma_has_then(here, more.cases, c);
                    },
                    _ => {},
                }
            }
        },
    }
}

proof fn lemma_nth_is_had(l: List<Fact>, j: nat)
    ensures
        l.nth(j) matches Some(x) ==> l.has(x),
    decreases l,
{
    match l {
        List::Nil => {},
        List::Cons(_, rest) => {
            if j > 0 {
                lemma_nth_is_had(*rest, (j - 1) as nat);
            }
        },
    }
}

/// Every conclusion of every rule is tried for a premise: for each rule that may supply
/// it, and each position at which the instance has a conclusion alike to the premise,
/// there is a case for each store in which the two are equal.
pub proof fn law_every_rule_is_tried_for_the_premise(
    red: Reduction,
    p: NodePrem,
    fa: Fact,
    ru: RuleWithConstrs,
    ready: Reduction,
    k: u64,
    fc: Fact,
    store: EquationStore,
    last: Reduction,
)
    requires
        premise_candidates(red.ctx.intruder_rules, red.ctx.rules).has(ru),
        ({
            let fresh = freshened(ru, system_max(red.sys), red.clear_supply().taken(1));
            &&& fresh.0.0.conclusions.nth(k as nat) == Some(fc)
            &&& Reduction::inheriting(
                red.ctx,
                red.sys.with_node(new_supplier(red), fresh.0.0),
                fresh.1.next,
            ).variants_required(fresh.0.1) matches Ok((mid, _)) && mid.rule_exploited(
                new_supplier(red),
                fresh.0.0,
            ) == Ok::<Reduction, Query>(ready)
        }),
        fc.tag == fa.tag,
        fc.terms.size() == fa.terms.size(),
        conclusion_reaches(ready, new_supplier(red), k, fc, p, fa, store, last),
    ensures
        red.premise_by_rules(p, fa) matches Ok((end, out)) ==> leads_to(
            end,
            out,
            rule_case(ru.0),
            last.sys,
        ),
{
    let node = new_supplier(red);
    let supply = red.clear_supply().taken(1);
    let base = supply.next;
    assert(supply == Supply { next: base });
    let l = premise_candidates(red.ctx.intruder_rules, red.ctx.rules);
    let start = Reduction { supply, ..red };
    let avoid = system_max(red.sys);
    let fresh = freshened(ru, avoid, supply);
    let c = Case { name: rule_case(fresh.0.0), sys: last.sys, next: last.supply.next };
    law_every_conclusion_is_tried(
        ready,
        p,
        fa,
        rule_case(fresh.0.0),
        node,
        fresh.0.0.conclusions,
        0,
        k as nat,
        fc,
        store,
        last,
    );
    lemma_nth_is_had(fresh.0.0.conclusions, k as nat);
    lemma_fresh_alike(ru, avoid, supply, fa, fc);
    lemma_fresh_case(ru, avoid, supply);
    lemma_candidate_supplies(start, p, fa, node, l, avoid, base, base, ru, c);
    match start.premise_candidate_cases(p, fa, node, l, avoid, base, base) {
        Ok(t) => {
            lemma_named_case(t.cases, c);
            law_finished_cases_are_led_to(
                Reduction { supply: t.supply(), ..red },
                t.cases,
                first_name(t.cases),
                c.name,
                c.sys,
            );
        },
        Err(_) => {},
    }
}

/// A premise that is no deconstructed knowledge is solved by the rules where there are no
/// precomputed sources.
pub proof fn law_premise_without_sources(red: Reduction, p: NodePrem, fa: Fact)
    requires
        !red.ctx.has_sources || red.ctx.in_precompute,
        fa.tag !is Kd,
    ensures
        red.premise_solved(p, fa) == red.premise_by_rules(p, fa),
{
    assert(red.at(red.supply.next) == red);
}

} // verus!
