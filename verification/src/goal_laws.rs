//! What solving a goal leads to.
use crate::constraints::{Goal, GoalStatus};
use crate::context::Query;
use crate::formulas::goal_solved;
use crate::goals::{
    all_named, counters, named_systems, with_goal_solved, with_stores, Case, GoalCases,
};
use crate::guarded::{normal, Guarded};
use crate::list::{find, List};
use crate::list_laws::{all, lemma_all_then, lemma_then_size, times};
use crate::names::numbered_case;
use crate::proof_method::{outcome_cases, systems, with_seeds};
use crate::reduction::Reduction;
use crate::rule_goals::{partitions, with_first, with_second};
use crate::rules::{remaining, with_remaining};
use crate::system::System;
use crate::system_laws::{law_formula_loses_nothing, law_goal_done};
use crate::term_laws::law_no_term_below_itself;
use crate::terms::Term;
use crate::text::Text;
use vstd::prelude::*;

verus! {

/// Whether a solved goal leads to the system, as a case of the given name.
pub open spec fn leads_to(end: Reduction, out: GoalCases, name: Text, sys: System) -> bool {
    match out {
        GoalCases::Linear => name.chars is Nil && sys == end.sys,
        GoalCases::LinearNamed(only) => name == only && sys == end.sys,
        GoalCases::Cases(l) => l.has((name, sys)),
        GoalCases::Contradictory => false,
    }
}

proof fn lemma_with_seeds(l: List<(Text, System)>, seeds: List<u64>, next: u64)
    ensures
        named_systems(with_seeds(l, seeds, next)) == l,
    decreases l,
{
    match l {
        List::Nil => {},
        List::Cons(_, rest) => match seeds {
            List::Nil => {
                lemma_with_seeds(*rest, List::Nil, next);
            },
            List::Cons(_, more) => {
                lemma_with_seeds(*rest, *more, next);
            },
        },
    }
}

/// The cases of a solved goal are simplified as they are, each under its name; a
/// goal without a solution leaves none.
pub proof fn law_outcome_keeps_cases(red: Reduction, out: GoalCases)
    ensures
        out is Contradictory <==> outcome_cases(red, out) is None,
        out matches GoalCases::Cases(l) ==> outcome_cases(red, out) matches Some(cases)
            && named_systems(cases) == l,
        (out is Linear || out is LinearNamed) ==> (outcome_cases(red, out) matches Some(cases) && (
        cases.only() matches Some(c) && c.sys == red.sys && c.next == red.supply.next)),
{
    match out {
        GoalCases::Cases(l) => {
            lemma_with_seeds(l, red.last_case_counters, red.supply.next);
        },
        _ => {},
    }
}

proof fn lemma_counters_size(l: List<Case>)
    ensures
        counters(l).size() == l.size(),
        named_systems(l).size() == l.size(),
    decreases l,
{
    match l {
        List::Nil => {},
        List::Cons(_, rest) => {
            lemma_counters_size(*rest);
        },
    }
}

/// What becomes of cases: none is a contradiction, one is taken over, and of
/// several each is handed out with a state of the supply of its own.
pub proof fn law_cases_finished(red: Reduction, cases: List<Case>, name: Text)
    ensures
        cases is Nil <==> red.cases_finished(cases, name).1 is Contradictory,
        cases.only() matches Some(c) ==> red.cases_finished(cases, name).1
            == GoalCases::LinearNamed(name) && red.cases_finished(cases, name).0.sys == c.sys
            && red.cases_finished(cases, name).0.supply.next == c.next,
        red.cases_finished(cases, name).1 matches GoalCases::Cases(l) ==> l == named_systems(cases)
            && l.size() >= 2 && red.cases_finished(cases, name).0.last_case_counters.size()
            == l.size() && red.cases_finished(cases, name).0.sys == red.sys,
{
    reveal(Reduction::cases_finished);
    lemma_counters_size(cases);
    match cases {
        List::Nil => {},
        List::Cons(_, rest) => {
            assert(*rest is Nil || rest.size() >= 1);
        },
    }
}

/// Whether the states of supplies on record are as many as the cases, or none is
/// on record.
pub open spec fn seeded(end: Reduction, out: GoalCases) -> bool {
    out matches GoalCases::Cases(l) ==> end.last_case_counters is Nil
        || end.last_case_counters.size() == l.size()
}

proof fn lemma_finished_seeded(red: Reduction, cases: List<Case>, name: Text)
    ensures
        seeded(red.cases_finished(cases, name).0, red.cases_finished(cases, name).1),
{
    law_cases_finished(red, cases, name);
}

proof fn lemma_new_node_seeded(red: Reduction, i: crate::terms::LVar, fa: crate::facts::Fact)
    ensures
        red.action_at_new_node(i, fa) matches Ok((end, out)) ==> seeded(end, out),
{
    match Reduction::known_sum(fa) {
        Some((m, args)) => {
            let cases = red.sum_cases(i, fa, m, partitions(args));
            lemma_finished_seeded(red, cases, crate::goals::first_name(cases));
        },
        None => {},
    }
    lemma_by_rules_seeded(red, i, fa);
}

proof fn lemma_by_rules_seeded(red: Reduction, i: crate::terms::LVar, fa: crate::facts::Fact)
    ensures
        red.action_by_rules(i, fa) matches Ok((end, out)) ==> seeded(end, out),
{
    let l = crate::rules::action_candidates(red.ctx.intruder_rules, red.ctx.rules);
    let base = red.clear_supply().next;
    match (Reduction { supply: red.clear_supply(), ..red }).candidate_cases(
        i,
        fa,
        l,
        crate::bounds::system_max(red.sys),
        base,
        base,
    ) {
        Ok(t) => {
            lemma_finished_seeded(
                Reduction { supply: t.supply(), ..red },
                t.cases,
                crate::goals::first_name(t.cases),
            );
        },
        Err(_) => {},
    }
}

proof fn lemma_action_seeded(red: Reduction, i: crate::terms::LVar, fa: crate::facts::Fact)
    ensures
        red.action_solved(i, fa) matches Ok((end, out)) ==> seeded(end, out),
{
    let g = Goal::Action(i, fa);
    match find(red.sys.nodes, i) {
        Some(ru) => {
            match red.existing_cases(g, fa, ru.actions, crate::names::rule_case(ru)) {
                Ok(cases) => {
                    lemma_finished_seeded(red, cases, crate::names::rule_case(ru));
                },
                Err(_) => {},
            }
        },
        None => match red.action_sources(i, fa) {
            Err(_) => {},
            Ok(answer) => {
                let start = red.at(answer.next);
                lemma_new_node_seeded(start, i, fa);
                match answer.cases {
                    Some(l) => match start.action_source_cases(i, fa, l, 0) {
                        Ok(cases) => {
                            lemma_finished_seeded(start, cases, crate::goals::first_name(cases));
                        },
                        Err(_) => {},
                    },
                    None => {},
                }
            },
        },
    }
}

proof fn lemma_plain_premise_seeded(
    red: Reduction,
    p: crate::constraints::NodePrem,
    fa: crate::facts::Fact,
)
    ensures
        red.plain_premise_solved(p, fa) matches Ok((end, out)) ==> seeded(end, out),
{
    match red.premise_sources(p, fa) {
        Err(_) => {},
        Ok(answer) => {
            let start = red.at(answer.next);
            lemma_premise_by_rules_seeded(start, p, fa);
            match answer.cases {
                Some(l) => match start.premise_source_cases(l) {
                    Ok(cases) => {
                        lemma_finished_seeded(start, cases, crate::goals::first_name(cases));
                    },
                    Err(_) => {},
                },
                None => {},
            }
        },
    }
}

proof fn lemma_premise_by_rules_seeded(
    red: Reduction,
    p: crate::constraints::NodePrem,
    fa: crate::facts::Fact,
)
    ensures
        red.premise_by_rules(p, fa) matches Ok((end, out)) ==> seeded(end, out),
{
    let node = crate::reduction::node_var("vr"@, red.clear_supply().next);
    let supply = red.clear_supply().taken(1);
    let base = supply.next;
    match (Reduction { supply, ..red }).premise_candidate_cases(
        p,
        fa,
        node,
        crate::rules::premise_candidates(red.ctx.intruder_rules, red.ctx.rules),
        crate::bounds::system_max(red.sys),
        base,
        base,
    ) {
        Ok(t) => {
            lemma_finished_seeded(
                Reduction { supply: t.supply(), ..red },
                t.cases,
                crate::goals::first_name(t.cases),
            );
        },
        Err(_) => {},
    }
}

proof fn lemma_chain_seeded(
    red: Reduction,
    c: crate::constraints::NodeConc,
    p: crate::constraints::NodePrem,
)
    ensures
        red.chain_solved(c, p) matches Ok((end, out)) ==> seeded(end, out),
{
    match find(red.sys.nodes, c.0) {
        None => {},
        Some(c_rule) => match c_rule.conclusions.nth(c.1 as nat) {
            None => {},
            Some(fa) => match (
                red.direct_cases(c, p, c_rule, fa),
                red.onward_cases(c, p, c_rule, fa),
            ) {
                (Ok(direct), Ok((onward, supply))) => {
                    let cases = direct.then_all(onward);
                    lemma_finished_seeded(
                        Reduction { supply, ..red },
                        cases,
                        crate::goals::first_name(cases),
                    );
                },
                _ => {},
            },
        },
    }
}

proof fn lemma_split_seeded(red: Reduction, id: u64)
    ensures
        red.split_solved(id) matches Ok((end, out)) ==> seeded(end, out),
{
    match crate::equations::split_stores(red.ctx, red.sys.eq_store, id) {
        Ok(Some(stores)) => match red.store_cases(Goal::Split(id), stores) {
            Ok(cases) => {
                lemma_counters_size(cases);
            },
            Err(_) => {},
        },
        _ => {},
    }
}

proof fn lemma_subterm_counters(red: Reduction, small: Term, big: Term)
    ensures
        red.subterm_done(small, big).last_case_counters == red.last_case_counters,
{
    reveal(Reduction::goal_done);
}

/// Whatever goal is solved, the states of supplies on record belong to the cases
/// that are handed out.
pub proof fn law_seeds_fit_cases(red: Reduction, g: Goal)
    requires
        red.last_case_counters is Nil,
    ensures
        red.dispatched(g) matches Ok((end, out)) ==> seeded(end, out),
{
    reveal(Reduction::dispatched);
    match g {
        Goal::Action(i, fa) => {
            lemma_action_seeded(red, i, fa);
        },
        Goal::Premise(p, fa) => {
            if fa.tag is Kd {
                let node = crate::reduction::node_var("vl"@, red.clear_supply().next);
                lemma_plain_premise_seeded(
                    red.chain_started(p, fa),
                    (node, 0),
                    crate::facts::Fact::plain(
                        crate::facts::FactTag::Out,
                        List::one(red.learned()),
                    ),
                );
            } else {
                lemma_plain_premise_seeded(red, p, fa);
            }
        },
        Goal::Chain(c, p) => {
            lemma_chain_seeded(red, c, p);
        },
        Goal::Split(id) => {
            lemma_split_seeded(red, id);
        },
        Goal::Disj(_) => {},
        Goal::Subterm(small, big) => {
            lemma_subterm_counters(red, small, big);
        },
    }
}

/// Whether `g` is not open in the system: it is no goal of it or a solved one.
pub open spec fn settled(g: Goal) -> spec_fn(System) -> bool {
    |sys: System| find(sys.goals, g) matches Some(st) ==> st.solved
}

proof fn lemma_solved_found(l: List<(Goal, GoalStatus)>, g: Goal)
    ensures
        find(goal_solved(l, g), g) is Some == find(l, g) is Some,
        find(goal_solved(l, g), g) matches Some(st) ==> st.solved,
    decreases l,
{
    match l {
        List::Nil => {},
        List::Cons(_, rest) => {
            lemma_solved_found(*rest, g);
        },
    }
}

/// A goal that is marked as solved is so.
pub proof fn law_marked_goal_is_solved(sys: System, g: Goal)
    ensures
        settled(g)(with_goal_solved(sys, g)),
        find(sys.goals, g) is Some == find(with_goal_solved(sys, g).goals, g) is Some,
{
    reveal(with_goal_solved);
    lemma_solved_found(sys.goals, g);
}

proof fn lemma_arms_settled(sys: System, stores: List<crate::constraints::EquationStore>, g: Goal)
    requires
        settled(g)(sys),
    ensures
        all(with_stores(sys, stores), settled(g)),
    decreases stores,
{
    match stores {
        List::Nil => {},
        List::Cons(_, rest) => {
            lemma_arms_settled(sys, *rest, g);
        },
    }
}

proof fn lemma_named_systems_of(name: Text, l: List<System>, more: List<(Text, System)>)
    ensures
        systems(all_named(name, l).then_all(more)) == l.then_all(systems(more)),
    decreases l,
{
    match l {
        List::Nil => {},
        List::Cons(_, rest) => {
            lemma_named_systems_of(name, *rest, more);
        },
    }
}

/// In every case of a disjunction the disjunction is solved, provided that it was
/// a goal: no case has it as an open goal again.
pub proof fn law_alternatives_settled(red: Reduction, g: Goal, alts: List<Guarded>, k: u64)
    requires
        find(red.sys.goals, g) is Some,
    ensures
        red.alternative_cases(g, alts, k) matches Ok(cases) ==> all(systems(cases), settled(g)),
    decreases alts,
{
    match alts {
        List::Nil => {},
        List::Cons(alt, rest) => {
            let start = Reduction::inheriting(red.ctx, red.sys, red.supply.next);
            let marked = start.on(with_goal_solved(start.sys, g));
            law_marked_goal_is_solved(start.sys, g);
            law_formula_loses_nothing(marked, normal(alt), true);
            law_alternatives_settled(red, g, *rest, crate::leaves::plus(k, 1));
            match (
                marked.formula_inserted(normal(alt), true),
                red.alternative_cases(g, *rest, crate::leaves::plus(k, 1)),
            ) {
                (Ok(end), Ok(more)) => {
                    assert(find(end.sys.goals, g) is Some);
                    assert(settled(g)(end.sys));
                    let arms = List::Cons(
                        end.sys,
                        Box::new(with_stores(end.sys, end.pending_eq_arms)),
                    );
                    lemma_arms_settled(end.sys, end.pending_eq_arms, g);
                    lemma_named_systems_of(numbered_case(k), arms, more);
                    lemma_all_then(arms, systems(more), settled(g));
                },
                _ => {},
            }
        },
    }
}

/// A disjunction without alternatives has no solution, and one that was a goal is
/// open in no case.
pub proof fn law_disjunction_solved(red: Reduction, alts: List<Guarded>)
    requires
        find(red.sys.goals, Goal::Disj(alts)) is Some,
    ensures
        alts is Nil ==> red.disj_solved(alts) == Ok::<(Reduction, GoalCases), Query>(
            (red, GoalCases::Contradictory),
        ),
        red.disj_solved(alts) matches Ok((end, out)) ==> match out {
            GoalCases::Cases(cases) => all(systems(cases), settled(Goal::Disj(alts))),
            GoalCases::LinearNamed(_) => settled(Goal::Disj(alts))(end.sys),
            _ => alts is Nil,
        },
{
    let g = Goal::Disj(alts);
    match alts {
        List::Nil => {},
        List::Cons(alt, rest) => {
            if *rest is Nil {
                let done = red.goal_done(g);
                law_goal_done(red, g, g);
                lemma_done_found(red, alts);
                law_formula_loses_nothing(done, normal(alt), true);
                match done.formula_inserted(normal(alt), true) {
                    Ok(end) => {
                        assert(find(end.sys.goals, g) is Some);
                    },
                    Err(_) => {},
                }
            } else {
                law_alternatives_settled(red, g, alts, 0);
            }
        },
    }
}

proof fn lemma_done_found(red: Reduction, alts: List<Guarded>)
    requires
        find(red.sys.goals, Goal::Disj(alts)) is Some,
    ensures
        find(red.goal_done(Goal::Disj(alts)).sys.goals, Goal::Disj(alts)) is Some,
{
    reveal(Reduction::goal_done);
    lemma_solved_found(red.disj_done(alts).sys.goals, Goal::Disj(alts));
}

/// A subterm goal between a term and itself has no solution.
pub proof fn law_own_subterm_contradicts(red: Reduction, t: Term)
    ensures
        red.subterm_solved(t, t) matches Ok((end, out)) && out is Contradictory
            && end.sys.subterm_store.contradictory,
{
    let done = red.subterm_done(t, t);
    law_no_term_below_itself(done.ctx.reducible, t, done.clear_supply().next);
}

/// Two to the power of `n`.
pub open spec fn power_of_two(n: nat) -> nat
    decreases n,
{
    if n == 0 {
        1
    } else {
        2 * power_of_two((n - 1) as nat)
    }
}

proof fn lemma_parts_size(x: Term, l: List<(List<Term>, List<Term>)>)
    ensures
        with_first(x, l).size() == l.size(),
        with_second(x, l).size() == l.size(),
    decreases l,
{
    match l {
        List::Nil => {},
        List::Cons(_, rest) => {
            lemma_parts_size(x, *rest);
        },
    }
}

/// A list of terms is split in two in as many ways as it has elements besides the
/// last, each of which is in one part or the other.
pub proof fn law_number_of_partitions(l: List<Term>)
    requires
        l !is Nil,
    ensures
        partitions(l).size() == power_of_two((l.size() - 1) as nat),
    decreases l,
{
    match l {
        List::Nil => {},
        List::Cons(x, rest) => {
            if *rest is Nil {
                assert(List::<(List<Term>, List<Term>)>::Nil.size() == 0);
            } else {
                let ps = partitions(*rest);
                law_number_of_partitions(*rest);
                lemma_parts_size(x, ps);
                lemma_then_size(with_first(x, ps), with_second(x, ps));
            }
        },
    }
}

/// Whether the two parts hold the elements of `l`, as often as `l` does, and the
/// first part holds one.
pub open spec fn parts(l: List<Term>) -> spec_fn((List<Term>, List<Term>)) -> bool {
    |p: (List<Term>, List<Term>)|
        p.0 !is Nil && forall|t: Term|
            #![trigger times(p.0, t)]
            times(p.0, t) + times(p.1, t) == times(l, t)
}

proof fn lemma_parts_more(l: List<Term>, x: Term, ps: List<(List<Term>, List<Term>)>)
    requires
        all(ps, parts(l)),
    ensures
        all(with_first(x, ps), parts(List::Cons(x, Box::new(l)))),
        all(with_second(x, ps), parts(List::Cons(x, Box::new(l)))),
    decreases ps,
{
    match ps {
        List::Nil => {},
        List::Cons(p, rest) => {
            lemma_parts_more(l, x, *rest);
            assert(parts(l)(p));
            let more = List::Cons(x, Box::new(l));
            let first = (List::Cons(x, Box::new(p.0)), p.1);
            let second = (p.0, List::Cons(x, Box::new(p.1)));
            assert(parts(more)(first)) by {
                assert forall|t: Term|
                    #![trigger times(first.0, t)]
                    times(first.0, t) + times(first.1, t) == times(more, t) by {
                    assert(times(p.0, t) + times(p.1, t) == times(l, t));
                }
            }
            assert(parts(more)(second)) by {
                assert forall|t: Term|
                    #![trigger times(second.0, t)]
                    times(second.0, t) + times(second.1, t) == times(more, t) by {
                    assert(times(p.0, t) + times(p.1, t) == times(l, t));
                }
            }
        },
    }
}

/// The two parts of a partition hold the elements of the list, and the first part
/// is not empty.
pub proof fn law_partitions_rearrange(l: List<Term>)
    ensures
        all(partitions(l), parts(l)),
    decreases l,
{
    match l {
        List::Nil => {},
        List::Cons(x, rest) => {
            if *rest is Nil {
                let p = (l, List::<Term>::Nil);
                assert(parts(l)(p)) by {
                    assert forall|t: Term|
                        #![trigger times(p.0, t)]
                        times(p.0, t) + times(p.1, t) == times(l, t) by {}
                }
                assert(all(List::<(List<Term>, List<Term>)>::Nil, parts(l)));
            } else {
                let ps = partitions(*rest);
                law_partitions_rearrange(*rest);
                lemma_parts_more(*rest, x, ps);
                lemma_all_then(with_first(x, ps), with_second(x, ps), parts(l));
            }
        },
    }
}

/// The number of applications that a destruction rule has left is what was set
/// last; a rule that is none stays as it is.
pub proof fn law_remaining_set(ru: crate::facts::RuleACInst, m: i64, n: i64)
    ensures
        with_remaining(with_remaining(ru, m), n) == with_remaining(ru, n),
        with_remaining(ru, remaining(ru)) == ru,
        with_remaining(ru, n) != ru ==> remaining(with_remaining(ru, n)) == n,
{
    reveal(with_remaining);
    reveal(remaining);
}

} // verus!
