//! What solving an action goal leads to.
use crate::bounds::system_max;
use crate::constraints::{EquationStore, Goal};
use crate::context::{ProofContext, Query};
use crate::equation_laws::{
    answers_unify, fact_holds, fact_solves, fact_unifies, goes_on_with, law_fact_equations_hold,
};
use crate::equations::argument_eqs;
use crate::exploit_laws::law_premises_supplied;
use crate::facts::{alike, Fact, RuleACInst};
use crate::goal_laws::{law_marked_goal_is_solved, leads_to, settled};
use crate::goals::{
    arm_stores, first_name, named_systems, solved_arms, with_goal_solved, Case, GoalCases,
};
use crate::leaves::{mapped_facts, mapped_terms, Shift};
use crate::list::{find, List};
use crate::list_laws::{all, lemma_all_has, lemma_all_then, lemma_has_snoc};
use crate::names::rule_case;
use crate::origin_laws::lemma_has_then;
use crate::query_laws::{lemma_exploited, lemma_variants};
use crate::reduction::{Reduction, SolveOutcome, SplitStrategy};
use crate::rule_goals::any_alike;
use crate::rules::{action_candidates, freshened, variables, RuleWithConstrs, Supply};
use crate::system::System;
use crate::system_laws::law_equations_keep_graph;
use crate::terms::{LVar, Term};
use crate::text::Text;
use vstd::prelude::*;

verus! {

pub proof fn lemma_named_case(l: List<Case>, c: Case)
    ensures
        l.has(c) ==> named_systems(l).has((c.name, c.sys)),
    decreases l,
{
    match l {
        List::Nil => {},
        List::Cons(_, rest) => {
            lemma_named_case(*rest, c);
        },
    }
}

pub proof fn lemma_case_named(l: List<Case>, name: Text, sys: System) -> (c: Case)
    requires
        named_systems(l).has((name, sys)),
    ensures
        l.has(c),
        c.name == name,
        c.sys == sys,
    decreases l,
{
    match l {
        List::Nil => arbitrary(),
        List::Cons(c, rest) => {
            if c.name == name && c.sys == sys {
                c
            } else {
                lemma_case_named(*rest, name, sys)
            }
        },
    }
}

/// Cases that are handed out are led to, each under its name, and nothing else is.
pub proof fn law_finished_cases_are_led_to(
    red: Reduction,
    cases: List<Case>,
    single: Text,
    name: Text,
    sys: System,
)
    requires
        cases.only() matches Some(c) ==> c.name == single,
    ensures
        leads_to(
            red.cases_finished(cases, single).0,
            red.cases_finished(cases, single).1,
            name,
            sys,
        ) <==> named_systems(cases).has((name, sys)),
{
    reveal(Reduction::cases_finished);
    reveal_with_fuel(List::has, 2);
    reveal_with_fuel(named_systems, 2);
}

/// Whether the case is one in which the node `i` carries a rule after which it is called,
/// one of whose actions is the goal's in the store of the case, and in which the goal is
/// solved.
pub open spec fn acts_at(i: LVar, fa: Fact) -> spec_fn(Case) -> bool {
    |c: Case|
        settled(Goal::Action(i, fa))(c.sys) && exists|ru: RuleACInst, act: Fact| #[trigger]
            c.sys.nodes.has((i, ru)) && #[trigger] ru.actions.has(act) && c.name == rule_case(ru)
                && act.tag == fa.tag && act.terms.size() == fa.terms.size() && fact_holds(
                c.sys.eq_store,
                fa,
                act,
            )
}

proof fn lemma_arms_act(
    i: LVar,
    fa: Fact,
    ru: RuleACInst,
    act: Fact,
    sys: System,
    stores: List<EquationStore>,
    next: u64,
    a: EquationStore,
)
    requires
        sys.nodes.has((i, ru)),
        ru.actions.has(act),
        alike(act, fa),
        all(stores, fact_unifies(a, List::one((fa, act)))),
    ensures
        all(solved_arms(rule_case(ru), sys, stores, Goal::Action(i, fa), next), acts_at(i, fa)),
    decreases stores,
{
    reveal(solved_arms);
    match stores {
        List::Nil => {},
        List::Cons(s, rest) => {
            let g = Goal::Action(i, fa);
            let here = System { eq_store: s, ..sys };
            law_marked_goal_is_solved(here, g);
            reveal(with_goal_solved);
            assert(fact_unifies(a, List::one((fa, act)))(s));
            assert(fact_solves(s)((fa, act)));
            let c = Case { name: rule_case(ru), sys: with_goal_solved(here, g), next };
            assert(c.sys.nodes.has((i, ru)));
            assert(acts_at(i, fa)(c));
            lemma_arms_act(i, fa, ru, act, sys, *rest, next, a);
        },
    }
}

proof fn lemma_live_stores(end: Reduction, out: SolveOutcome)
    ensures
        !out.dead() ==> arm_stores(out, end.sys.eq_store) == goes_on_with(end, out),
{
}

proof fn lemma_fact_graph(red: Reduction, eqs: List<(Fact, Fact)>)
    ensures
        red.fact_eqs(SplitStrategy::SplitNow, eqs) matches Ok((end, out)) ==> end.sys.nodes
            == red.sys.nodes && end.sys.edges == red.sys.edges,
{
    reveal(Reduction::fact_eqs);
    law_equations_keep_graph(red, SplitStrategy::SplitNow, argument_eqs(eqs));
}

proof fn lemma_mismatch_is_dead(red: Reduction, a: Fact, b: Fact)
    requires
        !alike(b, a),
    ensures
        red.fact_eqs(SplitStrategy::SplitNow, List::one((a, b))) matches Ok((_, out)) && out.dead(),
{
    reveal(Reduction::fact_eqs);
}

proof fn lemma_existing_act(
    red: Reduction,
    i: LVar,
    fa: Fact,
    ru: RuleACInst,
    acts: List<Fact>,
)
    requires
        answers_unify(red.ctx.answers),
        red.sys.nodes.has((i, ru)),
        forall|act: Fact| acts.has(act) ==> #[trigger] ru.actions.has(act),
    ensures
        red.existing_cases(Goal::Action(i, fa), fa, acts, rule_case(ru)) matches Ok(cases) ==> all(
            cases,
            acts_at(i, fa),
        ),
    decreases acts,
{
    match acts {
        List::Nil => {
            assert(all(List::Nil, acts_at(i, fa)));
        },
        List::Cons(act, rest) => {
            let start = Reduction::inheriting(red.ctx, red.sys, red.supply.next);
            let eqs = List::one((fa, act));
            assert(acts.has(act));
            assert forall|other: Fact| rest.has(other) implies #[trigger] ru.actions.has(other) by {
                assert(acts.has(other));
            }
            lemma_existing_act(red, i, fa, ru, *rest);
            law_fact_equations_hold(start, eqs);
            lemma_fact_graph(start, eqs);
            if !alike(act, fa) {
                lemma_mismatch_is_dead(start, fa, act);
            }
            match start.fact_eqs(SplitStrategy::SplitNow, eqs) {
                Ok((end, out)) => {
                    if !out.dead() {
                        let stores = goes_on_with(end, out);
                        lemma_live_stores(end, out);
                        lemma_arms_act(
                            i,
                            fa,
                            ru,
                            act,
                            end.sys,
                            stores,
                            end.supply.next,
                            start.sys.eq_store,
                        );
                        match red.existing_cases(Goal::Action(i, fa), fa, *rest, rule_case(ru)) {
                            Ok(more) => {
                                lemma_all_then(
                                    solved_arms(
                                        rule_case(ru),
                                        end.sys,
                                        stores,
                                        Goal::Action(i, fa),
                                        end.supply.next,
                                    ),
                                    more,
                                    acts_at(i, fa),
                                );
                            },
                            Err(_) => {},
                        }
                    }
                },
                Err(_) => {},
            }
        },
    }
}

proof fn lemma_instance_acts(red: Reduction, i: LVar, fa: Fact, ru: RuleWithConstrs, act: Fact)
    requires
        answers_unify(red.ctx.answers),
        ru.0.actions.has(act),
        alike(act, fa),
    ensures
        red.instance_cases(i, fa, ru, act) matches Ok(cases) ==> all(cases, acts_at(i, fa)),
{
    assert(all(List::Nil, acts_at(i, fa)));
    let start = Reduction::of_floor(red.ctx, red.sys.with_node(i, ru.0), red.ctx.refine_floor);
    lemma_variants(start, ru.1, red.ctx);
    lemma_variants_keep(start, ru.1);
    match start.variants_required(ru.1) {
        Ok((mid, false)) => {
            lemma_exploited(mid, i, ru.0, red.ctx);
            law_premises_supplied(mid, i, ru.0, 0);
            match mid.rule_exploited(i, ru.0) {
                Ok(ready) => {
                    lemma_has_snoc(red.sys.nodes, (i, ru.0), (i, ru.0));
                    assert(start.sys.nodes.has((i, ru.0)));
                    assert(ready.sys.nodes.has((i, ru.0)));
                    let eqs = List::one((fa, act));
                    law_fact_equations_hold(ready, eqs);
                    lemma_fact_graph(ready, eqs);
                    match ready.fact_eqs(SplitStrategy::SplitNow, eqs) {
                        Ok((end, out)) => {
                            if !out.dead() {
                                lemma_live_stores(end, out);
                                lemma_arms_act(
                                    i,
                                    fa,
                                    ru.0,
                                    act,
                                    end.sys,
                                    goes_on_with(end, out),
                                    end.supply.next,
                                    ready.sys.eq_store,
                                );
                            }
                        },
                        Err(_) => {},
                    }
                },
                Err(_) => {},
            }
        },
        _ => {},
    }
}

/// Requiring one of the variants of a rule touches neither nodes nor edges.
pub proof fn lemma_variants_keep(red: Reduction, substs: Option<List<crate::term_ops::Subst>>)
    ensures
        red.variants_required(substs) matches Ok((end, _)) ==> end.sys.nodes == red.sys.nodes
            && end.sys.edges == red.sys.edges,
{
    reveal(Reduction::variants_required);
    match substs {
        Some(List::Cons(s, rest)) => {
            crate::system_laws::law_goal_inserted(
                red.with_store(red.sys.eq_store.with_disj(List::Cons(s, rest))),
                Goal::Split(red.sys.eq_store.next_split),
                false,
            );
        },
        _ => {},
    }
}

proof fn lemma_rule_acts(
    red: Reduction,
    i: LVar,
    fa: Fact,
    ru: RuleWithConstrs,
    acts: List<Fact>,
)
    requires
        answers_unify(red.ctx.answers),
        forall|act: Fact| acts.has(act) ==> #[trigger] ru.0.actions.has(act),
    ensures
        red.rule_action_cases(i, fa, ru, acts) matches Ok(cases) ==> all(cases, acts_at(i, fa)),
    decreases acts,
{
    match acts {
        List::Nil => {
            assert(all(List::Nil, acts_at(i, fa)));
        },
        List::Cons(act, rest) => {
            assert(acts.has(act));
            assert forall|other: Fact| rest.has(other) implies #[trigger] ru.0.actions.has(
                other,
            ) by {
                assert(acts.has(other));
            }
            lemma_rule_acts(red, i, fa, ru, *rest);
            if alike(act, fa) {
                lemma_instance_acts(red, i, fa, ru, act);
                match (
                    red.instance_cases(i, fa, ru, act),
                    red.rule_action_cases(i, fa, ru, *rest),
                ) {
                    (Ok(here), Ok(more)) => {
                        lemma_all_then(here, more, acts_at(i, fa));
                    },
                    _ => {},
                }
            }
        },
    }
}

proof fn lemma_candidates_act(
    red: Reduction,
    i: LVar,
    fa: Fact,
    l: List<RuleWithConstrs>,
    avoid: u64,
    base: u64,
    last: u64,
)
    requires
        answers_unify(red.ctx.answers),
    ensures
        red.candidate_cases(i, fa, l, avoid, base, last) matches Ok(t) ==> all(
            t.cases,
            acts_at(i, fa),
        ),
    decreases l,
{
    match l {
        List::Nil => {
            assert(all(List::Nil, acts_at(i, fa)));
        },
        List::Cons(ru, rest) => {
            if any_alike(ru.0.actions, fa) {
                let fresh = freshened(ru, avoid, Supply { next: base });
                lemma_rule_acts(red, i, fa, fresh.0, fresh.0.0.actions);
                lemma_candidates_act(red, i, fa, *rest, avoid, base, fresh.1.next);
                match (
                    red.rule_action_cases(i, fa, fresh.0, fresh.0.0.actions),
                    red.candidate_cases(i, fa, *rest, avoid, base, fresh.1.next),
                ) {
                    (Ok(here), Ok(more)) => {
                        lemma_all_then(here, more.cases, acts_at(i, fa));
                    },
                    _ => {},
                }
            } else {
                lemma_candidates_act(red, i, fa, *rest, avoid, base, last);
            }
        },
    }
}

/// Whether every system to which the goal has led satisfies `p`, as a case.
pub open spec fn all_led(end: Reduction, out: GoalCases, p: spec_fn(Case) -> bool) -> bool {
    forall|name: Text, sys: System| #[trigger]
        leads_to(end, out, name, sys) ==> exists|next: u64| #[trigger] p(Case { name, sys, next })
}

pub proof fn lemma_all_finished(
    red: Reduction,
    cases: List<Case>,
    single: Text,
    p: spec_fn(Case) -> bool,
)
    requires
        cases.only() matches Some(c) ==> c.name == single,
        all(cases, p),
    ensures
        all_led(red.cases_finished(cases, single).0, red.cases_finished(cases, single).1, p),
{
    let (end, out) = red.cases_finished(cases, single);
    assert forall|name: Text, sys: System| #[trigger] leads_to(end, out, name, sys) implies exists|
        next: u64,
    | #[trigger] p(Case { name, sys, next }) by {
        law_finished_cases_are_led_to(red, cases, single, name, sys);
        let c = lemma_case_named(cases, name, sys);
        lemma_all_has(cases, c, p);
        assert(c == Case { name, sys, next: c.next });
    }
}

/// Every case in which an action is solved by a rule is one in which the goal's node
/// carries an instance of a rule after which the case is called, one of whose actions is
/// the goal's action, made equal to it where the answers are unifiers; and the goal is
/// solved.
pub proof fn law_rules_give_the_action(red: Reduction, i: LVar, fa: Fact)
    requires
        answers_unify(red.ctx.answers),
    ensures
        red.action_by_rules(i, fa) matches Ok((end, out)) ==> all_led(end, out, acts_at(i, fa)),
        find(red.sys.nodes, i) is None && fa.tag !is Ku ==> red.action_solved(i, fa)
            == red.action_by_rules(i, fa),
{
    assert(red.at(red.supply.next) == red);
    let l = action_candidates(red.ctx.intruder_rules, red.ctx.rules);
    let base = red.clear_supply().next;
    let start = Reduction { supply: red.clear_supply(), ..red };
    lemma_candidates_act(start, i, fa, l, system_max(red.sys), base, base);
    match start.candidate_cases(i, fa, l, system_max(red.sys), base, base) {
        Ok(t) => {
            lemma_all_finished(
                Reduction { supply: t.supply(), ..red },
                t.cases,
                first_name(t.cases),
                acts_at(i, fa),
            );
        },
        Err(_) => {},
    }
}

/// The cases that are called `name`.
pub open spec fn called(name: Text) -> spec_fn(Case) -> bool {
    |c: Case| c.name == name
}

proof fn lemma_arms_called(
    name: Text,
    sys: System,
    stores: List<EquationStore>,
    g: Goal,
    next: u64,
)
    ensures
        all(solved_arms(name, sys, stores, g, next), called(name)),
    decreases stores,
{
    reveal(solved_arms);
    match stores {
        List::Nil => {},
        List::Cons(_, rest) => {
            lemma_arms_called(name, sys, *rest, g, next);
        },
    }
}

proof fn lemma_existing_called(red: Reduction, g: Goal, fa: Fact, acts: List<Fact>, name: Text)
    ensures
        red.existing_cases(g, fa, acts, name) matches Ok(cases) ==> all(cases, called(name)),
    decreases acts,
{
    match acts {
        List::Nil => {
            assert(all(List::Nil, called(name)));
        },
        List::Cons(act, rest) => {
            lemma_existing_called(red, g, fa, *rest, name);
            let start = Reduction::inheriting(red.ctx, red.sys, red.supply.next);
            match (
                start.fact_eqs(SplitStrategy::SplitNow, List::one((fa, act))),
                red.existing_cases(g, fa, *rest, name),
            ) {
                (Ok((end, out)), Ok(more)) => {
                    let stores = arm_stores(out, end.sys.eq_store);
                    lemma_arms_called(name, end.sys, stores, g, end.supply.next);
                    lemma_all_then(
                        solved_arms(name, end.sys, stores, g, end.supply.next),
                        more,
                        called(name),
                    );
                },
                _ => {},
            }
        },
    }
}

proof fn lemma_found_has(l: List<(LVar, RuleACInst)>, i: LVar)
    ensures
        find(l, i) matches Some(ru) ==> l.has((i, ru)),
    decreases l,
{
    match l {
        List::Nil => {},
        List::Cons(n, rest) => {
            lemma_found_has(*rest, i);
            assert(n == (n.0, n.1));
        },
    }
}

/// Every case in which an action is solved at a node that is there is one in which an
/// action of its rule is the goal's, made equal to it where the answers are unifiers;
/// the case is called after the rule, and the goal is solved.
pub proof fn law_node_gives_the_action(red: Reduction, i: LVar, fa: Fact, ru: RuleACInst)
    requires
        answers_unify(red.ctx.answers),
        find(red.sys.nodes, i) == Some(ru),
    ensures
        red.action_solved(i, fa) matches Ok((end, out)) ==> all_led(end, out, acts_at(i, fa)),
{
    let g = Goal::Action(i, fa);
    lemma_found_has(red.sys.nodes, i);
    if ru.actions.has(fa) {
        let end = red.goal_done(g);
        reveal(Reduction::goal_done);
        crate::system_laws::law_goal_done(red, g, g);
        let c = Case { name: rule_case(ru), sys: end.sys, next: 0 };
        assert(end.sys.nodes == red.sys.nodes);
        assert(c.sys.nodes.has((i, ru)));
        assert(acts_at(i, fa)(c));
    } else {
        lemma_existing_act(red, i, fa, ru, ru.actions);
        lemma_existing_called(red, g, fa, ru.actions, rule_case(ru));
        match red.existing_cases(g, fa, ru.actions, rule_case(ru)) {
            Ok(cases) => {
                match cases.only() {
                    Some(c) => {
                        assert(called(rule_case(ru))(c));
                    },
                    None => {},
                }
                lemma_all_finished(red, cases, rule_case(ru), acts_at(i, fa));
            },
            Err(_) => {},
        }
    }
}

proof fn lemma_arm_has(
    name: Text,
    sys: System,
    stores: List<EquationStore>,
    g: Goal,
    next: u64,
    store: EquationStore,
)
    requires
        stores.has(store),
    ensures
        solved_arms(name, sys, stores, g, next).has(
            Case { name, sys: with_goal_solved(System { eq_store: store, ..sys }, g), next },
        ),
    decreases stores,
{
    reveal(solved_arms);
    match stores {
        List::Nil => {},
        List::Cons(s, rest) => {
            if s != store {
                lemma_arm_has(name, sys, *rest, g, next, store);
            }
        },
    }
}

proof fn lemma_existing_has(
    red: Reduction,
    g: Goal,
    fa: Fact,
    acts: List<Fact>,
    name: Text,
    act: Fact,
    mid: Reduction,
    o: SolveOutcome,
    store: EquationStore,
)
    requires
        acts.has(act),
        Reduction::inheriting(red.ctx, red.sys, red.supply.next).fact_eqs(
            SplitStrategy::SplitNow,
            List::one((fa, act)),
        ) == Ok::<(Reduction, SolveOutcome), Query>((mid, o)),
        goes_on_with(mid, o).has(store),
    ensures
        red.existing_cases(g, fa, acts, name) matches Ok(cases) ==> cases.has(
            Case {
                name,
                sys: with_goal_solved(System { eq_store: store, ..mid.sys }, g),
                next: mid.supply.next,
            },
        ),
    decreases acts,
{
    let c = Case {
        name,
        sys: with_goal_solved(System { eq_store: store, ..mid.sys }, g),
        next: mid.supply.next,
    };
    match acts {
        List::Nil => {},
        List::Cons(first, rest) => {
            let start = Reduction::inheriting(red.ctx, red.sys, red.supply.next);
            match (
                start.fact_eqs(SplitStrategy::SplitNow, List::one((fa, first))),
                red.existing_cases(g, fa, *rest, name),
            ) {
                (Ok((end, out)), Ok(more)) => {
                    let here = solved_arms(
                        name,
                        end.sys,
                        arm_stores(out, end.sys.eq_store),
                        g,
                        end.supply.next,
                    );
                    lemma_has_then(here, more, c);
                    if first == act {
                        lemma_live_stores(mid, o);
                        lemma_arm_has(
                            name,
                            mid.sys,
                            goes_on_with(mid, o),
                            g,
                            mid.supply.next,
                            store,
                        );
                    } else {
                        lemma_existing_has(red, g, fa, *rest, name, act, mid, o, store);
                    }
                },
                _ => {},
            }
        },
    }
}

/// Every action of a node is tried for the goal: for each store in which an action of
/// the rule at the node is the goal's there is a case with that store.
pub proof fn law_every_action_of_the_node_is_tried(
    red: Reduction,
    i: LVar,
    fa: Fact,
    ru: RuleACInst,
    act: Fact,
    mid: Reduction,
    o: SolveOutcome,
    store: EquationStore,
)
    requires
        find(red.sys.nodes, i) == Some(ru),
        !ru.actions.has(fa),
        ru.actions.has(act),
        Reduction::inheriting(red.ctx, red.sys, red.supply.next).fact_eqs(
            SplitStrategy::SplitNow,
            List::one((fa, act)),
        ) == Ok::<(Reduction, SolveOutcome), Query>((mid, o)),
        goes_on_with(mid, o).has(store),
    ensures
        red.action_solved(i, fa) matches Ok((end, out)) ==> exists|sys: System| #[trigger]
            leads_to(end, out, rule_case(ru), sys) && sys.eq_store == store && sys.nodes
                == red.sys.nodes,
{
    let g = Goal::Action(i, fa);
    lemma_existing_has(red, g, fa, ru.actions, rule_case(ru), act, mid, o, store);
    lemma_existing_called(red, g, fa, ru.actions, rule_case(ru));
    match red.existing_cases(g, fa, ru.actions, rule_case(ru)) {
        Ok(cases) => {
            let c = Case {
                name: rule_case(ru),
                sys: with_goal_solved(System { eq_store: store, ..mid.sys }, g),
                next: mid.supply.next,
            };
            lemma_named_case(cases, c);
            match cases.only() {
                Some(d) => {
                    assert(called(rule_case(ru))(d));
                },
                None => {},
            }
            law_finished_cases_are_led_to(red, cases, rule_case(ru), c.name, c.sys);
            lemma_fact_graph(
                Reduction::inheriting(red.ctx, red.sys, red.supply.next),
                List::one((fa, act)),
            );
            reveal(with_goal_solved);
        },
        Err(_) => {},
    }
}

/// The actions of a rule are tried one after the other, and what each gives is kept: the
/// cases of two lists of actions are those of the first followed by those of the second.
pub proof fn law_actions_add_up(
    red: Reduction,
    i: LVar,
    fa: Fact,
    ru: RuleWithConstrs,
    a: List<Fact>,
    b: List<Fact>,
)
    ensures
        match (red.rule_action_cases(i, fa, ru, a), red.rule_action_cases(i, fa, ru, b)) {
            (Ok(x), Ok(y)) => red.rule_action_cases(i, fa, ru, a.then_all(b)) == Ok::<
                List<Case>,
                Query,
            >(x.then_all(y)),
            _ => red.rule_action_cases(i, fa, ru, a.then_all(b)) is Err,
        },
    decreases a,
{
    match a {
        List::Nil => {},
        List::Cons(act, rest) => {
            law_actions_add_up(red, i, fa, ru, *rest, b);
            match (
                red.instance_cases(i, fa, ru, act),
                red.rule_action_cases(i, fa, ru, *rest),
                red.rule_action_cases(i, fa, ru, b),
            ) {
                (Ok(here), Ok(x), Ok(y)) => {
                    lemma_then_then(here, x, y);
                },
                _ => {},
            }
        },
    }
}

pub proof fn lemma_then_then<T>(a: List<T>, b: List<T>, c: List<T>)
    ensures
        a.then_all(b).then_all(c) == a.then_all(b.then_all(c)),
    decreases a,
{
    match a {
        List::Nil => {},
        List::Cons(_, rest) => {
            lemma_then_then(*rest, b, c);
        },
    }
}

/// The way from an instance `ru` of a rule at the node `i` to a store in which `act` is
/// the action `fa`: the variants are required, the premises are exploited, and the two
/// facts are equated.
pub open spec fn instance_reaches(
    ctx: &ProofContext,
    sys: System,
    i: LVar,
    fa: Fact,
    ru: RuleWithConstrs,
    act: Fact,
    end: Reduction,
    store: EquationStore,
) -> bool {
    Reduction::of_floor(ctx, sys.with_node(i, ru.0), ctx.refine_floor).variants_required(
        ru.1,
    ) matches Ok((mid, false)) && mid.rule_exploited(i, ru.0) matches Ok(ready) && ready.fact_eqs(
        SplitStrategy::SplitNow,
        List::one((fa, act)),
    ) matches Ok((last, o)) && last == end && goes_on_with(last, o).has(store)
}

proof fn lemma_rule_action_has(
    red: Reduction,
    i: LVar,
    fa: Fact,
    ru: RuleWithConstrs,
    acts: List<Fact>,
    act: Fact,
    end: Reduction,
    store: EquationStore,
)
    requires
        acts.has(act),
        alike(act, fa),
        instance_reaches(red.ctx, red.sys, i, fa, ru, act, end, store),
    ensures
        red.rule_action_cases(i, fa, ru, acts) matches Ok(cases) ==> cases.has(
            Case {
                name: rule_case(ru.0),
                sys: with_goal_solved(System { eq_store: store, ..end.sys }, Goal::Action(i, fa)),
                next: end.supply.next,
            },
        ),
    decreases acts,
{
    let g = Goal::Action(i, fa);
    let c = Case {
        name: rule_case(ru.0),
        sys: with_goal_solved(System { eq_store: store, ..end.sys }, g),
        next: end.supply.next,
    };
    match acts {
        List::Nil => {},
        List::Cons(first, rest) => {
            let here = if alike(first, fa) {
                red.instance_cases(i, fa, ru, first)
            } else {
                Ok(List::Nil)
            };
            match (here, red.rule_action_cases(i, fa, ru, *rest)) {
                (Ok(cases), Ok(more)) => {
                    lemma_has_then(cases, more, c);
                    if first == act {
                        let start = Reduction::of_floor(
                            red.ctx,
                            red.sys.with_node(i, ru.0),
                            red.ctx.refine_floor,
                        );
                        match start.variants_required(ru.1) {
                            Ok((mid, _)) => match mid.rule_exploited(i, ru.0) {
                                Ok(ready) => match ready.fact_eqs(
                                    SplitStrategy::SplitNow,
                                    List::one((fa, act)),
                                ) {
                                    Ok((last, o)) => {
                                        lemma_live_stores(last, o);
                                        lemma_arm_has(
                                            rule_case(ru.0),
                                            last.sys,
                                            goes_on_with(last, o),
                                            g,
                                            last.supply.next,
                                            store,
                                        );
                                    },
                                    Err(_) => {},
                                },
                                Err(_) => {},
                            },
                            Err(_) => {},
                        }
                    } else {
                        lemma_rule_action_has(red, i, fa, ru, *rest, act, end, store);
                    }
                },
                _ => {},
            }
        },
    }
}

proof fn lemma_mapped_size(m: Shift, depth: u64, l: List<Term>)
    ensures
        mapped_terms(m, depth, l).size() == l.size(),
    decreases l,
{
    match l {
        List::Nil => {},
        List::Cons(_, rest) => {
            lemma_mapped_size(m, depth, *rest);
        },
    }
}

proof fn lemma_mapped_alike(m: Shift, l: List<Fact>, fa: Fact, act: Fact)
    requires
        alike(act, fa),
        mapped_facts(m, l).has(act),
    ensures
        any_alike(l, fa),
    decreases l,
{
    match l {
        List::Nil => {},
        List::Cons(f, rest) => {
            lemma_mapped_size(m, 0, f.terms);
            if mapped_facts(m, *rest).has(act) {
                lemma_mapped_alike(m, *rest, fa, act);
            }
        },
    }
}

proof fn lemma_alike_has(l: List<Fact>, fa: Fact, act: Fact)
    requires
        alike(act, fa),
        l.has(act),
    ensures
        any_alike(l, fa),
    decreases l,
{
    match l {
        List::Nil => {},
        List::Cons(f, rest) => {
            if f != act {
                lemma_alike_has(*rest, fa, act);
            }
        },
    }
}

/// A rule whose instance has a conclusion, or an action, like `fa` has one itself.
pub proof fn lemma_fresh_alike(ru: RuleWithConstrs, avoid: u64, supply: Supply, fa: Fact, act: Fact)
    requires
        alike(act, fa),
    ensures
        freshened(ru, avoid, supply).0.0.actions.has(act) ==> any_alike(ru.0.actions, fa),
        freshened(ru, avoid, supply).0.0.conclusions.has(act) ==> any_alike(ru.0.conclusions, fa),
{
    reveal(freshened);
    let vars = variables(ru);
    let m = Shift { low: crate::rules::vars_min(vars), base: supply.above(avoid).next };
    if freshened(ru, avoid, supply).0.0.actions.has(act) {
        if vars is Nil {
            lemma_alike_has(ru.0.actions, fa, act);
        } else {
            lemma_mapped_alike(m, ru.0.actions, fa, act);
        }
    }
    if freshened(ru, avoid, supply).0.0.conclusions.has(act) {
        if vars is Nil {
            lemma_alike_has(ru.0.conclusions, fa, act);
        } else {
            lemma_mapped_alike(m, ru.0.conclusions, fa, act);
        }
    }
}

proof fn lemma_candidate_has(
    red: Reduction,
    i: LVar,
    fa: Fact,
    l: List<RuleWithConstrs>,
    avoid: u64,
    base: u64,
    last: u64,
    ru: RuleWithConstrs,
    act: Fact,
    end: Reduction,
    store: EquationStore,
)
    requires
        l.has(ru),
        freshened(ru, avoid, Supply { next: base }).0.0.actions.has(act),
        alike(act, fa),
        instance_reaches(
            red.ctx,
            red.sys,
            i,
            fa,
            freshened(ru, avoid, Supply { next: base }).0,
            act,
            end,
            store,
        ),
    ensures
        red.candidate_cases(i, fa, l, avoid, base, last) matches Ok(t) ==> t.cases.has(
            Case {
                name: rule_case(freshened(ru, avoid, Supply { next: base }).0.0),
                sys: with_goal_solved(System { eq_store: store, ..end.sys }, Goal::Action(i, fa)),
                next: end.supply.next,
            },
        ),
    decreases l,
{
    let c = Case {
        name: rule_case(freshened(ru, avoid, Supply { next: base }).0.0),
        sys: with_goal_solved(System { eq_store: store, ..end.sys }, Goal::Action(i, fa)),
        next: end.supply.next,
    };
    match l {
        List::Nil => {},
        List::Cons(first, rest) => {
            let fresh = freshened(first, avoid, Supply { next: base });
            if first == ru {
                lemma_fresh_alike(ru, avoid, Supply { next: base }, fa, act);
                lemma_rule_action_has(
                    red,
                    i,
                    fa,
                    fresh.0,
                    fresh.0.0.actions,
                    act,
                    end,
                    store,
                );
            } else {
                lemma_candidate_has(
                    red,
                    i,
                    fa,
                    *rest,
                    avoid,
                    base,
                    if any_alike(first.0.actions, fa) {
                        fresh.1.next
                    } else {
                        last
                    },
                    ru,
                    act,
                    end,
                    store,
                );
            }
            if any_alike(first.0.actions, fa) {
                match (
                    red.rule_action_cases(i, fa, fresh.0, fresh.0.0.actions),
                    red.candidate_cases(i, fa, *rest, avoid, base, fresh.1.next),
                ) {
                    (Ok(here), Ok(more)) => {
                        lemma_has_then(here, more.cases, c);
                    },
                    _ => {},
                }
            }
        },
    }
}

/// Every action of every rule is tried for the goal: for each rule with actions, and each
/// store in which an action of its instance at the goal's node is the goal's, there is a
/// case with that store.
pub proof fn law_every_action_of_a_rule_is_tried(
    red: Reduction,
    i: LVar,
    fa: Fact,
    ru: RuleWithConstrs,
    act: Fact,
    last: Reduction,
    store: EquationStore,
)
    requires
        action_candidates(red.ctx.intruder_rules, red.ctx.rules).has(ru),
        freshened(ru, system_max(red.sys), red.clear_supply()).0.0.actions.has(act),
        act.tag == fa.tag,
        act.terms.size() == fa.terms.size(),
        instance_reaches(
            red.ctx,
            red.sys,
            i,
            fa,
            freshened(ru, system_max(red.sys), red.clear_supply()).0,
            act,
            last,
            store,
        ),
    ensures
        red.action_by_rules(i, fa) matches Ok((end, out)) ==> exists|sys: System| #[trigger]
            leads_to(end, out, rule_case(ru.0), sys) && sys.eq_store == store && sys.nodes
                == last.sys.nodes,
{
    let l = action_candidates(red.ctx.intruder_rules, red.ctx.rules);
    let base = red.clear_supply().next;
    let start = Reduction { supply: red.clear_supply(), ..red };
    let avoid = system_max(red.sys);
    let fresh = freshened(ru, avoid, red.clear_supply());
    assert(red.clear_supply() == Supply { next: base });
    lemma_candidate_has(start, i, fa, l, avoid, base, base, ru, act, last, store);
    match start.candidate_cases(i, fa, l, avoid, base, base) {
        Ok(t) => {
            let c = Case {
                name: rule_case(fresh.0.0),
                sys: with_goal_solved(System { eq_store: store, ..last.sys }, Goal::Action(i, fa)),
                next: last.supply.next,
            };
            lemma_named_case(t.cases, c);
            law_finished_cases_are_led_to(
                Reduction { supply: t.supply(), ..red },
                t.cases,
                first_name(t.cases),
                c.name,
                c.sys,
            );
            lemma_fresh_case(ru, avoid, red.clear_supply());
            reveal(with_goal_solved);
        },
        Err(_) => {},
    }
}

/// An instance with fresh variables is called as the rule is.
pub proof fn lemma_fresh_case(ru: RuleWithConstrs, avoid: u64, supply: Supply)
    ensures
        rule_case(freshened(ru, avoid, supply).0.0) == rule_case(ru.0),
        freshened(ru, avoid, supply).0.0.info == ru.0.info,
{
    reveal(freshened);
    reveal(rule_case);
}

} // verus!
