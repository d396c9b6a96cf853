//! What solving a chain goal leads to.
use crate::action_laws::{
    all_led, law_finished_cases_are_led_to, lemma_all_finished, lemma_named_case, lemma_then_then,
};
use crate::bounds::system_max;
use crate::constraints::{Edge, EquationStore, Goal, GoalStatus, NodeConc, NodePrem};
use crate::context::{ProofContext, Query};
use crate::equation_laws::{
    answers_unify, fact_holds, fact_solves, fact_unifies, goes_on_with, law_edge_joins_equal_facts,
};
use crate::equations::argument_eqs;
use crate::exploit_laws::{law_premises_supplied, lemma_found_first};
use crate::facts::{alike, Fact, FactTag, IntrRuleACInfo, RuleACInst, RuleInfo};
use crate::goal_laws::{law_marked_goal_is_solved, leads_to, settled};
use crate::goals::{arm_systems, first_name, with_goal_solved, with_stores, Case};
use crate::list::{find, List};
use crate::list_laws::{all, lemma_all_then, lemma_has_snoc};
use crate::names::{chain_direct, rule_case, rule_name};
use crate::origin_laws::lemma_has_then;
use crate::premise_laws::{lemma_arm_systems, lemma_with_store_has, new_supplier};
use crate::query_laws::lemma_exploited;
use crate::reduction::{Reduction, SolveOutcome, SplitStrategy};
use crate::rule_goals::ended_cases;
use crate::rule_laws::{law_other_rules_follow, never_follows};
use crate::rules::{
    class_of, edge_forbidden, freshened, intr_instance, IntrClass, IntrRuleAC, Supply,
};
use crate::system::System;
use crate::system_laws::{
    law_equations_keep_graph, law_goal_done, law_goal_put, lemma_solved_entry,
};
use crate::terms::{AcSym, FunSym, LSort, LVar, Term};
use crate::text::Text;
use vstd::prelude::*;

verus! {

/// Whether the chain ends in the system: there is an edge from the conclusion to the
/// premise, the two facts are equal in the store, and the chain is no open goal.
pub open spec fn chain_ends(sys: System, c: NodeConc, p: NodePrem, fa: Fact, prem: Fact) -> bool {
    &&& sys.edges.has(Edge { src: c, tgt: p })
    &&& fact_holds(sys.eq_store, fa, prem)
    &&& settled(Goal::Chain(c, p))(sys)
}

/// Whether the chain goes on through the node in the system: it carries the rule `ru`,
/// whose first premise is supplied by the conclusion and equal to it in the store; the
/// chain from the rule's first conclusion is a goal; and neither the chain so far nor the
/// premise is an open goal.
pub open spec fn chain_goes_on(
    sys: System,
    c: NodeConc,
    p: NodePrem,
    fa: Fact,
    node: LVar,
    ru: RuleACInst,
    prem: Fact,
) -> bool {
    &&& sys.nodes.has((node, ru))
    &&& ru.premises.nth(0) == Some(prem)
    &&& sys.edges.has(Edge { src: c, tgt: (node, 0) })
    &&& find(sys.nodes, node) == Some(ru) ==> fact_holds(sys.eq_store, fa, prem)
    &&& find(sys.goals, Goal::Chain((node, 0), p)) is Some
    &&& settled(Goal::Premise((node, 0), prem))(sys)
    &&& settled(Goal::Chain(c, p))(sys)
}

/// The cases in which the chain goes on through the node, called after its rule.
pub open spec fn through(c: NodeConc, p: NodePrem, fa: Fact, node: LVar) -> spec_fn(
    Case,
) -> bool {
    |k: Case|
        exists|ru: RuleACInst, prem: Fact| #[trigger]
            chain_goes_on(k.sys, c, p, fa, node, ru, prem) && k.name == rule_case(ru)
}

proof fn lemma_edge_at_least(red: Reduction, e: Edge, conc: Option<Fact>, prem: Option<Fact>)
    ensures
        red.edge_inserted(e, conc, prem) matches Ok((end, out)) ==> out.dead() || (
        end.sys.edges.has(e) && end.sys.nodes == red.sys.nodes),
{
    reveal(Reduction::edge_inserted);
    lemma_has_snoc(red.sys.edges, e, e);
    match (conc, prem) {
        (Some(a), Some(b)) => {
            reveal(Reduction::fact_eqs);
            let eqs = List::one((a, b));
            law_equations_keep_graph(red, SplitStrategy::SplitNow, argument_eqs(eqs));
            match red.fact_eqs(SplitStrategy::SplitNow, eqs) {
                Ok((mid, _)) => {
                    lemma_has_snoc(mid.sys.edges, e, e);
                },
                Err(_) => {},
            }
        },
        _ => {},
    }
}

proof fn lemma_extended(
    red: Reduction,
    c: NodeConc,
    p: NodePrem,
    fa: Fact,
    node: LVar,
    ru: RuleACInst,
    prem: Fact,
    sys: System,
    stores: List<EquationStore>,
    joined: bool,
    a: EquationStore,
)
    requires
        sys.nodes.has((node, ru)),
        ru.premises.nth(0) == Some(prem),
        sys.edges.has(Edge { src: c, tgt: (node, 0) }),
        find(sys.nodes, node) == Some(ru) ==> joined,
        joined ==> all(stores, fact_unifies(a, List::one((fa, prem)))),
    ensures
        all(
            red.extended_cases(
                Goal::Chain(c, p),
                p,
                node,
                prem,
                rule_case(ru),
                with_stores(sys, stores),
            ),
            through(c, p, fa, node),
        ),
    decreases stores,
{
    let g = Goal::Chain(c, p);
    match stores {
        List::Nil => {},
        List::Cons(s, rest) => {
            lemma_extended(red, c, p, fa, node, ru, prem, sys, *rest, joined, a);
            let here = System { eq_store: s, ..sys };
            let start = Reduction::inheriting(red.ctx, here, red.supply.next);
            let before = Goal::Premise((node, 0), prem);
            let next = Goal::Chain((node, 0), p);
            let done = start.goal_done(before);
            law_goal_done(start, before, before);
            reveal(Reduction::goal_done);
            let end = done.goal_inserted(next, false);
            let status = GoalStatus { solved: false, looping: false, nr: done.sys.next_goal_nr };
            law_goal_put(done.sys.goals, next, status, before);
            law_goal_put(done.sys.goals, next, status, next);
            let last = with_goal_solved(end.sys, g);
            law_marked_goal_is_solved(end.sys, g);
            reveal(with_goal_solved);
            lemma_solved_entry(end.sys.goals, g, next);
            lemma_solved_entry(end.sys.goals, g, before);
            if joined {
                assert(fact_unifies(a, List::one((fa, prem)))(s));
                assert(fact_solves(s)((fa, prem)));
            }
            let k = Case { name: rule_case(ru), sys: last, next: end.supply.next };
            assert(chain_goes_on(last, c, p, fa, node, ru, prem));
            assert(through(c, p, fa, node)(k));
        },
    }
}

proof fn lemma_step_goes_on(
    red: Reduction,
    c: NodeConc,
    p: NodePrem,
    c_rule: RuleACInst,
    fa: Fact,
    node: LVar,
    ru: RuleACInst,
    prem: Fact,
)
    requires
        answers_unify(red.ctx.answers),
        find(red.sys.nodes, c.0) == Some(c_rule),
        c_rule.conclusions.nth(c.1 as nat) == Some(fa),
        red.sys.nodes.has((node, ru)),
        ru.premises.nth(0) == Some(prem),
    ensures
        red.step_cases(c, p, node, prem, rule_case(ru)) matches Ok(cases) ==> all(
            cases,
            through(c, p, fa, node),
        ),
{
    assert(all(List::Nil, through(c, p, fa, node)));
    let e = Edge { src: c, tgt: (node, 0) };
    lemma_edge_at_least(red, e, red.source_fact(e), red.target_fact(e));
    let joined = find(red.sys.nodes, node) == Some(ru);
    if joined {
        law_edge_joins_equal_facts(red, e, fa, prem);
    }
    match red.edge_inserted(e, red.source_fact(e), red.target_fact(e)) {
        Ok((end, out)) => {
            if !out.dead() {
                lemma_arm_systems(end, out);
                lemma_extended(
                    end,
                    c,
                    p,
                    fa,
                    node,
                    ru,
                    prem,
                    end.sys,
                    goes_on_with(end, out),
                    joined,
                    red.sys.eq_store,
                );
            }
        },
        Err(_) => {},
    }
}

proof fn lemma_union_goes_on(
    red: Reduction,
    c: NodeConc,
    p: NodePrem,
    c_rule: RuleACInst,
    fa: Fact,
    node: LVar,
    union: Term,
    args: List<Term>,
)
    requires
        answers_unify(red.ctx.answers),
        find(red.sys.nodes, c.0) == Some(c_rule),
        c_rule.conclusions.nth(c.1 as nat) == Some(fa),
    ensures
        red.union_cases(c, p, node, union, args) matches Ok(cases) ==> all(
            cases,
            through(c, p, fa, node),
        ),
    decreases args,
{
    match args {
        List::Nil => {
            assert(all(List::Nil, through(c, p, fa, node)));
        },
        List::Cons(t, rest) => {
            let ru = Reduction::union_rule(union, t);
            let prem = Fact::plain(FactTag::Kd, List::one(union));
            let start = Reduction::inheriting(
                red.ctx,
                red.sys.with_node(node, ru),
                red.supply.next,
            );
            lemma_has_snoc(red.sys.nodes, (node, ru), (node, ru));
            lemma_found_first(red.sys.nodes, (node, ru), c.0);
            lemma_step_goes_on(start, c, p, c_rule, fa, node, ru, prem);
            lemma_union_goes_on(red, c, p, c_rule, fa, node, union, *rest);
            match (
                start.step_cases(c, p, node, prem, rule_case(ru)),
                red.union_cases(c, p, node, union, *rest),
            ) {
                (Ok(here), Ok(more)) => {
                    lemma_all_then(here, more, through(c, p, fa, node));
                },
                _ => {},
            }
        },
    }
}

proof fn lemma_destruction_goes_on(
    red: Reduction,
    c: NodeConc,
    p: NodePrem,
    c_rule: RuleACInst,
    fa: Fact,
    node: LVar,
    ru: RuleACInst,
    next: u64,
)
    requires
        answers_unify(red.ctx.answers),
        find(red.sys.nodes, c.0) == Some(c_rule),
        c_rule.conclusions.nth(c.1 as nat) == Some(fa),
    ensures
        red.destruction_cases(c, p, c_rule, fa, node, ru, next) matches Ok(cases) ==> all(
            cases,
            through(c, p, fa, node),
        ),
{
    assert(all(List::Nil, through(c, p, fa, node)));
    match ru.premises {
        List::Nil => {},
        List::Cons(prem, _) => {
            let start = Reduction::inheriting(red.ctx, red.sys.with_node(node, ru), next);
            lemma_has_snoc(red.sys.nodes, (node, ru), (node, ru));
            lemma_found_first(red.sys.nodes, (node, ru), c.0);
            lemma_exploited(start, node, ru, red.ctx);
            law_premises_supplied(start, node, ru, 0);
            match start.rule_exploited(node, ru) {
                Ok(ready) => {
                    assert(ready.sys.nodes.has((node, ru)));
                    assert(find(ready.sys.nodes, c.0) == Some(c_rule));
                    lemma_step_goes_on(ready, c, p, c_rule, fa, node, ru, prem);
                },
                Err(_) => {},
            }
        },
    }
}

proof fn lemma_destructions_go_on(
    red: Reduction,
    c: NodeConc,
    p: NodePrem,
    c_rule: RuleACInst,
    fa: Fact,
    node: LVar,
    l: List<IntrRuleAC>,
    base: u64,
    last: u64,
)
    requires
        answers_unify(red.ctx.answers),
        find(red.sys.nodes, c.0) == Some(c_rule),
        c_rule.conclusions.nth(c.1 as nat) == Some(fa),
    ensures
        red.all_destruction_cases(c, p, c_rule, fa, node, l, base, last) matches Ok(t) ==> all(
            t.cases,
            through(c, p, fa, node),
        ),
    decreases l,
{
    match l {
        List::Nil => {
            assert(all(List::Nil, through(c, p, fa, node)));
        },
        List::Cons(ir, rest) => {
            if class_of(ir.info) == IntrClass::Destruction {
                let fresh = freshened(
                    (intr_instance(ir), None),
                    system_max(red.sys),
                    Supply { next: base },
                );
                let ru = Reduction::budgeted(c_rule, fresh.0.0);
                lemma_destruction_goes_on(red, c, p, c_rule, fa, node, ru, fresh.1.next);
                lemma_destructions_go_on(
                    red,
                    c,
                    p,
                    c_rule,
                    fa,
                    node,
                    *rest,
                    base,
                    fresh.1.next,
                );
                match (
                    red.destruction_cases(c, p, c_rule, fa, node, ru, fresh.1.next),
                    red.all_destruction_cases(c, p, c_rule, fa, node, *rest, base, fresh.1.next),
                ) {
                    (Ok(here), Ok(more)) => {
                        lemma_all_then(here, more.cases, through(c, p, fa, node));
                    },
                    _ => {},
                }
            } else {
                lemma_destructions_go_on(red, c, p, c_rule, fa, node, *rest, base, last);
            }
        },
    }
}

/// The cases in which the chain ends at the premise of a rule that is there, which may
/// follow the rule of the conclusion.
pub open spec fn at_the_end(
    c: NodeConc,
    p: NodePrem,
    c_rule: RuleACInst,
    fa: Fact,
    nodes: List<(LVar, RuleACInst)>,
) -> spec_fn(Case) -> bool {
    |k: Case|
        k.sys.nodes == nodes && match find(nodes, p.0) {
            Some(p_rule) => !edge_forbidden(c_rule, p_rule) && match p_rule.premises.nth(
                p.1 as nat,
            ) {
                Some(prem) => chain_ends(k.sys, c, p, fa, prem),
                None => false,
            },
            None => false,
        }
}

proof fn lemma_ended(
    name: Text,
    c: NodeConc,
    p: NodePrem,
    c_rule: RuleACInst,
    fa: Fact,
    p_rule: RuleACInst,
    prem: Fact,
    sys: System,
    stores: List<EquationStore>,
    next: u64,
    a: EquationStore,
)
    requires
        find(sys.nodes, p.0) == Some(p_rule),
        p_rule.premises.nth(p.1 as nat) == Some(prem),
        !edge_forbidden(c_rule, p_rule),
        sys.edges.has(Edge { src: c, tgt: p }),
        all(stores, fact_unifies(a, List::one((fa, prem)))),
    ensures
        all(
            ended_cases(name, Goal::Chain(c, p), with_stores(sys, stores), next),
            at_the_end(c, p, c_rule, fa, sys.nodes),
        ),
    decreases stores,
{
    match stores {
        List::Nil => {},
        List::Cons(s, rest) => {
            lemma_ended(name, c, p, c_rule, fa, p_rule, prem, sys, *rest, next, a);
            let here = System { eq_store: s, ..sys };
            let last = with_goal_solved(here, Goal::Chain(c, p));
            law_marked_goal_is_solved(here, Goal::Chain(c, p));
            reveal(with_goal_solved);
            assert(fact_unifies(a, List::one((fa, prem)))(s));
            assert(fact_solves(s)((fa, prem)));
            assert(chain_ends(last, c, p, fa, prem));
            assert(at_the_end(c, p, c_rule, fa, sys.nodes)(Case { name, sys: last, next }));
        },
    }
}

proof fn lemma_direct_ends(red: Reduction, c: NodeConc, p: NodePrem, c_rule: RuleACInst, fa: Fact)
    requires
        answers_unify(red.ctx.answers),
        find(red.sys.nodes, c.0) == Some(c_rule),
        c_rule.conclusions.nth(c.1 as nat) == Some(fa),
    ensures
        red.direct_cases(c, p, c_rule, fa) matches Ok(cases) ==> all(
            cases,
            at_the_end(c, p, c_rule, fa, red.sys.nodes),
        ),
{
    assert(all(List::Nil, at_the_end(c, p, c_rule, fa, red.sys.nodes)));
    match find(red.sys.nodes, p.0) {
        None => {},
        Some(p_rule) => match p_rule.premises.nth(p.1 as nat) {
            None => {},
            Some(prem) => {
                let e = Edge { src: c, tgt: p };
                let start = Reduction::inheriting(red.ctx, red.sys, red.supply.next);
                law_edge_joins_equal_facts(start, e, fa, prem);
                match start.edge_inserted(e, start.source_fact(e), start.target_fact(e)) {
                    Ok((end, out)) => {
                        if !out.dead() && !edge_forbidden(c_rule, p_rule) {
                            lemma_arm_systems(end, out);
                            lemma_ended(
                                match chain_direct(fa) {
                                    Some(name) => name,
                                    None => rule_case(c_rule),
                                },
                                c,
                                p,
                                c_rule,
                                fa,
                                p_rule,
                                prem,
                                end.sys,
                                goes_on_with(end, out),
                                end.supply.next,
                                start.sys.eq_store,
                            );
                        }
                    },
                    Err(_) => {},
                }
            },
        },
    }
}

/// The cases of a chain: it ends, or goes on through a new node.
pub open spec fn ends_or_goes_on(
    c: NodeConc,
    p: NodePrem,
    c_rule: RuleACInst,
    fa: Fact,
    nodes: List<(LVar, RuleACInst)>,
    node: LVar,
) -> spec_fn(Case) -> bool {
    |k: Case| at_the_end(c, p, c_rule, fa, nodes)(k) || through(c, p, fa, node)(k)
}

proof fn lemma_either<T>(
    l: List<T>,
    a: spec_fn(T) -> bool,
    b: spec_fn(T) -> bool,
    both: spec_fn(T) -> bool,
)
    requires
        all(l, a) || all(l, b),
        forall|x: T| #[trigger] both(x) == (a(x) || b(x)),
    ensures
        all(l, both),
    decreases l,
{
    match l {
        List::Nil => {},
        List::Cons(x, rest) => {
            assert(both(x));
            lemma_either(*rest, a, b, both);
        },
    }
}

/// Every case of a chain is one in which the chain ends, with an edge from its conclusion
/// to its premise and the two facts made equal where the answers are unifiers; or one in
/// which it goes on through a new node, whose rule takes the conclusion as its first
/// premise, and from whose first conclusion the rest of the chain is a goal.
pub proof fn law_chain_ends_or_goes_on(
    red: Reduction,
    c: NodeConc,
    p: NodePrem,
    c_rule: RuleACInst,
    fa: Fact,
)
    requires
        answers_unify(red.ctx.answers),
        find(red.sys.nodes, c.0) == Some(c_rule),
        c_rule.conclusions.nth(c.1 as nat) == Some(fa),
    ensures
        red.chain_solved(c, p) matches Ok((end, out)) ==> all_led(
            end,
            out,
            ends_or_goes_on(c, p, c_rule, fa, red.sys.nodes, new_supplier(red)),
        ),
{
    let node = new_supplier(red);
    let a = at_the_end(c, p, c_rule, fa, red.sys.nodes);
    let b = through(c, p, fa, node);
    let both = ends_or_goes_on(c, p, c_rule, fa, red.sys.nodes, node);
    lemma_direct_ends(red, c, p, c_rule, fa);
    let supply = red.clear_supply().taken(1);
    let start = Reduction { supply, ..red };
    match Reduction::reached_union(fa) {
        Some((union, args)) => {
            lemma_union_goes_on(start, c, p, c_rule, fa, node, union, args);
        },
        None => {
            lemma_destructions_go_on(
                start,
                c,
                p,
                c_rule,
                fa,
                node,
                red.ctx.intruder_rules,
                supply.next,
                supply.next,
            );
        },
    }
    assert(all(List::Nil, b));
    match (red.direct_cases(c, p, c_rule, fa), red.onward_cases(c, p, c_rule, fa)) {
        (Ok(direct), Ok((onward, after))) => {
            assert(all(onward, b));
            lemma_either(direct, a, b, both);
            lemma_either(onward, a, b, both);
            lemma_all_then(direct, onward, both);
            let cases = direct.then_all(onward);
            lemma_all_finished(
                Reduction { supply: after, ..red },
                cases,
                first_name(cases),
                both,
            );
        },
        _ => {},
    }
}

proof fn lemma_extended_has(
    red: Reduction,
    g: Goal,
    p: NodePrem,
    node: LVar,
    prem: Fact,
    name: Text,
    l: List<System>,
    sys: System,
) -> (k: Case)
    requires
        l.has(sys),
    ensures
        red.extended_cases(g, p, node, prem, name, l).has(k),
        k.name == name,
        k.sys.eq_store == sys.eq_store,
        k.sys.nodes == sys.nodes,
        k.sys.edges == sys.edges,
    decreases l,
{
    match l {
        List::Nil => arbitrary(),
        List::Cons(first, rest) => {
            if first == sys {
                let done = Reduction::inheriting(red.ctx, sys, red.supply.next).goal_done(
                    Goal::Premise((node, 0), prem),
                );
                let end = done.goal_inserted(Goal::Chain((node, 0), p), false);
                reveal(Reduction::goal_done);
                reveal(with_goal_solved);
                Case { name, sys: with_goal_solved(end.sys, g), next: end.supply.next }
            } else {
                lemma_extended_has(red, g, p, node, prem, name, *rest, sys)
            }
        },
    }
}

/// The way of a chain through the new node that carries `ru`, to a store in which the
/// conclusion `c` is the rule's first premise: the premises are exploited, and the edge is
/// inserted.
pub open spec fn step_reaches(
    ctx: &ProofContext,
    sys: System,
    c: NodeConc,
    node: LVar,
    ru: RuleACInst,
    next: u64,
    store: EquationStore,
) -> bool {
    Reduction::inheriting(ctx, sys.with_node(node, ru), next).rule_exploited(node, ru) matches Ok(
        ready,
    ) && !ready.sys.eq_store.contradictory && ({
        let e = Edge { src: c, tgt: (node, 0) };
        ready.edge_inserted(e, ready.source_fact(e), ready.target_fact(e)) matches Ok((mid, o))
            && goes_on_with(mid, o).has(store)
    })
}

proof fn lemma_destruction_has(
    red: Reduction,
    c: NodeConc,
    p: NodePrem,
    c_rule: RuleACInst,
    fa: Fact,
    node: LVar,
    ru: RuleACInst,
    next: u64,
    prem: Fact,
    store: EquationStore,
) -> (k: Case)
    requires
        ru.premises.nth(0) == Some(prem),
        alike(prem, fa),
        ru.conclusions !is Nil,
        !edge_forbidden(c_rule, ru),
        step_reaches(red.ctx, red.sys, c, node, ru, next, store),
    ensures
        red.destruction_cases(c, p, c_rule, fa, node, ru, next) matches Ok(cases) ==> cases.has(k),
        k.name == rule_case(ru),
        k.sys.eq_store == store,
        k.sys.nodes.has((node, ru)),
        k.sys.edges.has(Edge { src: c, tgt: (node, 0) }),
{
    let start = Reduction::inheriting(red.ctx, red.sys.with_node(node, ru), next);
    let ready = start.rule_exploited(node, ru)->Ok_0;
    let e = Edge { src: c, tgt: (node, 0) };
    let (mid, o) = ready.edge_inserted(e, ready.source_fact(e), ready.target_fact(e))->Ok_0;
    lemma_has_snoc(red.sys.nodes, (node, ru), (node, ru));
    law_premises_supplied(start, node, ru, 0);
    assert(ready.sys.nodes.has((node, ru)));
    lemma_edge_at_least(ready, e, ready.source_fact(e), ready.target_fact(e));
    lemma_arm_systems(mid, o);
    lemma_with_store_has(mid.sys, goes_on_with(mid, o), store);
    assert(ru.premises matches List::Cons(first, _) && first == prem);
    lemma_extended_has(
        mid,
        Goal::Chain(c, p),
        p,
        node,
        prem,
        rule_case(ru),
        arm_systems(o, mid.sys),
        System { eq_store: store, ..mid.sys },
    )
}

proof fn lemma_destructions_have(
    red: Reduction,
    c: NodeConc,
    p: NodePrem,
    c_rule: RuleACInst,
    fa: Fact,
    node: LVar,
    l: List<IntrRuleAC>,
    base: u64,
    last: u64,
    ir: IntrRuleAC,
    k: Case,
)
    requires
        l.has(ir),
        ir.info is DestrRule,
        ({
            let fresh = freshened(
                (intr_instance(ir), None),
                system_max(red.sys),
                Supply { next: base },
            );
            red.destruction_cases(
                c,
                p,
                c_rule,
                fa,
                node,
                Reduction::budgeted(c_rule, fresh.0.0),
                fresh.1.next,
            ) matches Ok(cases) ==> cases.has(k)
        }),
    ensures
        red.all_destruction_cases(c, p, c_rule, fa, node, l, base, last) matches Ok(t)
            ==> t.cases.has(k),
    decreases l,
{
    match l {
        List::Nil => {},
        List::Cons(first, rest) => {
            let fresh = freshened(
                (intr_instance(first), None),
                system_max(red.sys),
                Supply { next: base },
            );
            let used = class_of(first.info) == IntrClass::Destruction;
            if first != ir {
                lemma_destructions_have(
                    red,
                    c,
                    p,
                    c_rule,
                    fa,
                    node,
                    *rest,
                    base,
                    if used {
                        fresh.1.next
                    } else {
                        last
                    },
                    ir,
                    k,
                );
            }
            if used {
                match (
                    red.destruction_cases(
                        c,
                        p,
                        c_rule,
                        fa,
                        node,
                        Reduction::budgeted(c_rule, fresh.0.0),
                        fresh.1.next,
                    ),
                    red.all_destruction_cases(c, p, c_rule, fa, node, *rest, base, fresh.1.next),
                ) {
                    (Ok(here), Ok(more)) => {
                        lemma_has_then(here, more.cases, k);
                    },
                    _ => {},
                }
            }
        },
    }
}

proof fn lemma_onward_led_to(
    red: Reduction,
    c: NodeConc,
    p: NodePrem,
    c_rule: RuleACInst,
    fa: Fact,
    k: Case,
)
    requires
        find(red.sys.nodes, c.0) == Some(c_rule),
        c_rule.conclusions.nth(c.1 as nat) == Some(fa),
        red.onward_cases(c, p, c_rule, fa) matches Ok((onward, _)) ==> onward.has(k),
    ensures
        red.chain_solved(c, p) matches Ok((end, out)) ==> leads_to(end, out, k.name, k.sys),
{
    match (red.direct_cases(c, p, c_rule, fa), red.onward_cases(c, p, c_rule, fa)) {
        (Ok(direct), Ok((onward, after))) => {
            let cases = direct.then_all(onward);
            lemma_has_then(direct, onward, k);
            lemma_named_case(cases, k);
            law_finished_cases_are_led_to(
                Reduction { supply: after, ..red },
                cases,
                first_name(cases),
                k.name,
                k.sys,
            );
        },
        _ => {},
    }
}

/// The instance of a destruction rule with which a chain goes on, and the next unused
/// index.
pub open spec fn next_rule(red: Reduction, c_rule: RuleACInst, ir: IntrRuleAC) -> (
    RuleACInst,
    u64,
) {
    let fresh = freshened(
        (intr_instance(ir), None),
        system_max(red.sys),
        red.clear_supply().taken(1),
    );
    (Reduction::budgeted(c_rule, fresh.0.0), fresh.1.next)
}

/// A chain that has reached a term which is neither a union nor a message variable goes on
/// through every destruction rule that may follow: the one of the conclusion's rule unless
/// exactly one application is left of it, and any other, save for exponentiations, scalar
/// products and pairings.  For each store in which the conclusion is the first premise of
/// the rule's instance there is a case.
pub proof fn law_every_destruction_rule_is_tried(
    red: Reduction,
    c: NodeConc,
    p: NodePrem,
    c_rule: RuleACInst,
    fa: Fact,
    t: Term,
    ir: IntrRuleAC,
    prem: Fact,
    store: EquationStore,
)
    requires
        find(red.sys.nodes, c.0) == Some(c_rule),
        c_rule.conclusions.nth(c.1 as nat) == Some(fa),
        fa.terms.nth(0) == Some(t),
        !(t matches Term::Var(v) && v.sort == LSort::Msg),
        !(t matches Term::App(f, _) && f == FunSym::Ac(AcSym::Union)),
        red.ctx.intruder_rules.has(ir),
        ir.info is DestrRule,
        next_rule(red, c_rule, ir).0.premises.nth(0) == Some(prem),
        prem.tag == fa.tag,
        prem.terms.size() == fa.terms.size(),
        next_rule(red, c_rule, ir).0.conclusions !is Nil,
        !never_follows(c_rule, next_rule(red, c_rule, ir).0),
        rule_name(c_rule) != rule_name(next_rule(red, c_rule, ir).0) || !(
        c_rule.info matches RuleInfo::Intr(IntrRuleACInfo::DestrRule(_, left, _, _)) && left == 1),
        step_reaches(
            red.ctx,
            red.sys,
            c,
            new_supplier(red),
            next_rule(red, c_rule, ir).0,
            next_rule(red, c_rule, ir).1,
            store,
        ),
    ensures
        red.chain_solved(c, p) matches Ok((end, out)) ==> exists|sys: System| #[trigger]
            leads_to(end, out, rule_case(next_rule(red, c_rule, ir).0), sys) && sys.eq_store
                == store && sys.nodes.has((new_supplier(red), next_rule(red, c_rule, ir).0))
                && sys.edges.has(Edge { src: c, tgt: (new_supplier(red), 0) }),
{
    let node = new_supplier(red);
    let supply = red.clear_supply().taken(1);
    let start = Reduction { supply, ..red };
    let (ru, next) = next_rule(red, c_rule, ir);
    law_other_rules_follow(c_rule, ru);
    let k = lemma_destruction_has(start, c, p, c_rule, fa, node, ru, next, prem, store);
    assert(supply == Supply { next: supply.next });
    lemma_destructions_have(
        start,
        c,
        p,
        c_rule,
        fa,
        node,
        red.ctx.intruder_rules,
        supply.next,
        supply.next,
        ir,
        k,
    );
    assert(Reduction::reached_union(fa) is None);
    assert(!Reduction::reached_variable(fa));
    lemma_onward_led_to(red, c, p, c_rule, fa, k);
}

/// The operands of a union are tried one after the other, and what each gives is kept: the
/// cases of two lists of operands are those of the first followed by those of the second.
pub proof fn law_operands_add_up(
    red: Reduction,
    c: NodeConc,
    p: NodePrem,
    node: LVar,
    union: Term,
    a: List<Term>,
    b: List<Term>,
)
    ensures
        match (red.union_cases(c, p, node, union, a), red.union_cases(c, p, node, union, b)) {
            (Ok(x), Ok(y)) => red.union_cases(c, p, node, union, a.then_all(b)) == Ok::<
                List<Case>,
                Query,
            >(x.then_all(y)),
            _ => red.union_cases(c, p, node, union, a.then_all(b)) is Err,
        },
    decreases a,
{
    match a {
        List::Nil => {},
        List::Cons(t, rest) => {
            law_operands_add_up(red, c, p, node, union, *rest, b);
            let ru = Reduction::union_rule(union, t);
            match (
                Reduction::inheriting(
                    red.ctx,
                    red.sys.with_node(node, ru),
                    red.supply.next,
                ).step_cases(
                    c,
                    p,
                    node,
                    Fact::plain(FactTag::Kd, List::one(union)),
                    rule_case(ru),
                ),
                red.union_cases(c, p, node, union, *rest),
                red.union_cases(c, p, node, union, b),
            ) {
                (Ok(here), Ok(x), Ok(y)) => {
                    lemma_then_then(here, x, y);
                },
                _ => {},
            }
        },
    }
}

proof fn lemma_union_has(
    red: Reduction,
    c: NodeConc,
    p: NodePrem,
    node: LVar,
    union: Term,
    args: List<Term>,
    t: Term,
    k: Case,
)
    requires
        args.has(t),
        Reduction::inheriting(
            red.ctx,
            red.sys.with_node(node, Reduction::union_rule(union, t)),
            red.supply.next,
        ).step_cases(
            c,
            p,
            node,
            Fact::plain(FactTag::Kd, List::one(union)),
            rule_case(Reduction::union_rule(union, t)),
        ) matches Ok(cases) ==> cases.has(k),
    ensures
        red.union_cases(c, p, node, union, args) matches Ok(cases) ==> cases.has(k),
    decreases args,
{
    match args {
        List::Nil => {},
        List::Cons(first, rest) => {
            if first != t {
                lemma_union_has(red, c, p, node, union, *rest, t, k);
            }
            let ru = Reduction::union_rule(union, first);
            match (
                Reduction::inheriting(
                    red.ctx,
                    red.sys.with_node(node, ru),
                    red.supply.next,
                ).step_cases(
                    c,
                    p,
                    node,
                    Fact::plain(FactTag::Kd, List::one(union)),
                    rule_case(ru),
                ),
                red.union_cases(c, p, node, union, *rest),
            ) {
                (Ok(here), Ok(more)) => {
                    lemma_has_then(here, more, k);
                },
                _ => {},
            }
        },
    }
}

proof fn lemma_reached(fa: Fact, union: Term, args: List<Term>)
    requires
        fa.terms.nth(0) == Some(union),
        union == Term::App(FunSym::Ac(AcSym::Union), Box::new(args)),
        args.size() >= 2,
    ensures
        Reduction::reached_union(fa) == Some((union, args)),
{
    match args {
        List::Nil => {},
        List::Cons(_, rest) => {
            assert(rest.size() >= 1);
            assert(*rest !is Nil);
        },
    }
    assert(fa.terms matches List::Cons(t, _) && t == union);
}

proof fn lemma_step_has(
    red: Reduction,
    c: NodeConc,
    p: NodePrem,
    node: LVar,
    prem: Fact,
    name: Text,
    mid: Reduction,
    o: SolveOutcome,
    store: EquationStore,
) -> (k: Case)
    requires
        ({
            let e = Edge { src: c, tgt: (node, 0) };
            red.edge_inserted(e, red.source_fact(e), red.target_fact(e)) == Ok::<
                (Reduction, SolveOutcome),
                Query,
            >((mid, o))
        }),
        goes_on_with(mid, o).has(store),
    ensures
        red.step_cases(c, p, node, prem, name) matches Ok(cases) ==> cases.has(k),
        k.name == name,
        k.sys.eq_store == store,
        k.sys.nodes == red.sys.nodes,
        k.sys.edges.has(Edge { src: c, tgt: (node, 0) }),
{
    let e = Edge { src: c, tgt: (node, 0) };
    lemma_edge_at_least(red, e, red.source_fact(e), red.target_fact(e));
    lemma_arm_systems(mid, o);
    lemma_with_store_has(mid.sys, goes_on_with(mid, o), store);
    lemma_extended_has(
        mid,
        Goal::Chain(c, p),
        p,
        node,
        prem,
        name,
        arm_systems(o, mid.sys),
        System { eq_store: store, ..mid.sys },
    )
}

/// A chain that has reached a union of two or more operands goes on from each of them: for
/// each operand, and each store in which the conclusion is the union, there is a case with
/// a new node that takes the operand out of the union.
pub proof fn law_every_operand_is_tried(
    red: Reduction,
    c: NodeConc,
    p: NodePrem,
    c_rule: RuleACInst,
    fa: Fact,
    union: Term,
    args: List<Term>,
    t: Term,
    ru: RuleACInst,
    mid: Reduction,
    o: SolveOutcome,
    store: EquationStore,
)
    requires
        find(red.sys.nodes, c.0) == Some(c_rule),
        c_rule.conclusions.nth(c.1 as nat) == Some(fa),
        fa.terms.nth(0) == Some(union),
        union == Term::App(FunSym::Ac(AcSym::Union), Box::new(args)),
        args.size() >= 2,
        args.has(t),
        ru == Reduction::union_rule(union, t),
        ({
            let e = Edge { src: c, tgt: (new_supplier(red), 0) };
            let start = Reduction::inheriting(
                red.ctx,
                red.sys.with_node(new_supplier(red), ru),
                red.clear_supply().taken(1).next,
            );
            start.edge_inserted(e, start.source_fact(e), start.target_fact(e)) == Ok::<
                (Reduction, SolveOutcome),
                Query,
            >((mid, o))
        }),
        goes_on_with(mid, o).has(store),
    ensures
        ru.premises == List::one(Fact::plain(FactTag::Kd, List::one(union))),
        ru.conclusions == List::one(Fact::plain(FactTag::Kd, List::one(t))),
        red.chain_solved(c, p) matches Ok((end, out)) ==> exists|sys: System| #[trigger]
            leads_to(end, out, rule_case(ru), sys) && sys.eq_store == store && sys.nodes.has(
                (new_supplier(red), ru),
            ) && sys.edges.has(Edge { src: c, tgt: (new_supplier(red), 0) }),
{
    let node = new_supplier(red);
    let supply = red.clear_supply().taken(1);
    let held = Reduction { supply, ..red };
    let start = Reduction::inheriting(red.ctx, red.sys.with_node(node, ru), supply.next);
    let prem = Fact::plain(FactTag::Kd, List::one(union));
    lemma_has_snoc(red.sys.nodes, (node, ru), (node, ru));
    let k = lemma_step_has(start, c, p, node, prem, rule_case(ru), mid, o, store);
    lemma_union_has(held, c, p, node, union, args, t, k);
    lemma_reached(fa, union, args);
    lemma_onward_led_to(red, c, p, c_rule, fa, k);
}

} // verus!
