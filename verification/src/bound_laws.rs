//! What fresh indices are fresh for.
use crate::bounds::{
    conj_max, conj_open, edges_max, facts_max, first_unused, formulas_max, formulas_open, goal_max,
    goals_max, goals_open, has_variable, last_max, less_max, nodes_max, pairs_max, pairs_open,
    rule_max, subst_max, subterms_max, subterms_open, system_max,
};
use crate::constraints::{Edge, EqDisj, Goal, GoalStatus, LessAtom, SubtermConstraint};
use crate::context::ProofContext;
use crate::facts::{Fact, RuleACInst};
use crate::guarded::Guarded;
use crate::leaves::{
    guarded_frees, guardeds_frees, mapped_facts, mapped_rule, mapped_term, mapped_terms, vars_max,
    Shift,
};
use crate::list::List;
use crate::list_laws::{all, lemma_all_has};
use crate::reduction::Reduction;
use crate::rename_laws::{each, lemma_each_then, lemma_rule_frees, numbering};
use crate::rename_precise::{
    constraint_vars, edge_vars, goal_vars, goals_vars, last_vars, less_vars, node_vars, pair_vars,
    subst_vars,
};
use crate::rules::{
    domain, domains, facts_frees, freshened, index_span, rule_frees, shifted_domain,
    shifted_domains, variables, vars_min, RuleWithConstrs, Supply,
};
use crate::system::System;
use crate::term_ops::{larger, term_frees, term_max, terms_frees, terms_max, Subst};
use crate::terms::{LVar, Term};
use vstd::prelude::*;

verus! {

/// Whether an index is at most `n`.
pub open spec fn at_most(n: u64) -> spec_fn(LVar) -> bool {
    |v: LVar| v.idx <= n
}

/// Whether an index is below `n`.
pub open spec fn less_than(n: u64) -> spec_fn(LVar) -> bool {
    |v: LVar| v.idx < n
}

proof fn lemma_max_then(a: List<LVar>, b: List<LVar>)
    ensures
        vars_max(a.then_all(b)) == larger(vars_max(a), vars_max(b)),
    decreases a,
{
    match a {
        List::Nil => {},
        List::Cons(_, rest) => {
            lemma_max_then(*rest, b);
        },
    }
}

proof fn lemma_weaker(l: List<LVar>, p: spec_fn(LVar) -> bool, q: spec_fn(LVar) -> bool)
    requires
        all(l, p),
        forall|v: LVar| #![trigger q(v)] p(v) ==> q(v),
    ensures
        all(l, q),
    decreases l,
{
    match l {
        List::Nil => {},
        List::Cons(v, rest) => {
            assert(q(v));
            lemma_weaker(*rest, p, q);
        },
    }
}

/// The largest index is one, and no index is larger.
pub proof fn law_largest_index(l: List<LVar>)
    ensures
        all(l, at_most(vars_max(l))),
        l !is Nil ==> exists|v: LVar| #[trigger] l.has(v) && v.idx == vars_max(l),
    decreases l,
{
    match l {
        List::Nil => {},
        List::Cons(v, rest) => {
            law_largest_index(*rest);
            lemma_weaker(*rest, at_most(vars_max(*rest)), at_most(vars_max(l)));
            if v.idx >= vars_max(*rest) {
                assert(l.has(v));
            } else {
                let w = choose|w: LVar| #[trigger] rest.has(w) && w.idx == vars_max(*rest);
                assert(l.has(w));
            }
        },
    }
}

proof fn lemma_term_max(t: Term)
    ensures
        term_max(t) == vars_max(term_frees(t)),
    decreases t,
{
    match t {
        Term::Var(v) => {
            assert(vars_max(List::<LVar>::Nil) == 0);
        },
        Term::App(_, args) => {
            lemma_terms_max(*args);
        },
        _ => {},
    }
}

proof fn lemma_terms_max(l: List<Term>)
    ensures
        terms_max(l) == vars_max(terms_frees(l)),
    decreases l,
{
    match l {
        List::Nil => {},
        List::Cons(t, rest) => {
            lemma_term_max(t);
            lemma_terms_max(*rest);
            lemma_max_then(term_frees(t), terms_frees(*rest));
        },
    }
}

proof fn lemma_facts_max(l: List<Fact>)
    ensures
        facts_max(l) == vars_max(facts_frees(l)),
    decreases l,
{
    match l {
        List::Nil => {},
        List::Cons(fa, rest) => {
            lemma_terms_max(fa.terms);
            lemma_facts_max(*rest);
            lemma_max_then(terms_frees(fa.terms), facts_frees(*rest));
        },
    }
}

proof fn lemma_rule_max(ru: RuleACInst)
    ensures
        rule_max(ru) == vars_max(rule_frees(ru)),
{
    lemma_facts_max(ru.premises);
    lemma_facts_max(ru.conclusions);
    lemma_facts_max(ru.actions);
    lemma_terms_max(ru.new_vars);
    let acts = facts_frees(ru.actions).then_all(terms_frees(ru.new_vars));
    lemma_max_then(facts_frees(ru.actions), terms_frees(ru.new_vars));
    lemma_max_then(facts_frees(ru.conclusions), acts);
    lemma_max_then(facts_frees(ru.premises), facts_frees(ru.conclusions).then_all(acts));
}

proof fn lemma_nodes_max(l: List<(LVar, RuleACInst)>)
    ensures
        nodes_max(l) == vars_max(node_vars(l)),
        (l is Nil) == (node_vars(l) is Nil),
    decreases l,
{
    match l {
        List::Nil => {},
        List::Cons(n, rest) => {
            lemma_rule_max(n.1);
            lemma_nodes_max(*rest);
            lemma_max_then(rule_frees(n.1), node_vars(*rest));
        },
    }
}

proof fn lemma_edges_max(l: List<Edge>)
    ensures
        edges_max(l) == vars_max(edge_vars(l)),
        (l is Nil) == (edge_vars(l) is Nil),
    decreases l,
{
    match l {
        List::Nil => {},
        List::Cons(e, rest) => {
            lemma_edges_max(*rest);
            reveal_with_fuel(vars_max, 3);
        },
    }
}

proof fn lemma_less_max(l: List<LessAtom>)
    ensures
        less_max(l) == vars_max(less_vars(l)),
        (l is Nil) == (less_vars(l) is Nil),
    decreases l,
{
    match l {
        List::Nil => {},
        List::Cons(a, rest) => {
            lemma_less_max(*rest);
            reveal_with_fuel(vars_max, 3);
        },
    }
}

proof fn lemma_last_max(l: Option<LVar>)
    ensures
        last_max(l) == vars_max(last_vars(l)),
        (l is None) == (last_vars(l) is Nil),
{
    assert(vars_max(List::<LVar>::Nil) == 0);
}

proof fn lemma_then_nil_iff<T>(a: List<T>, b: List<T>)
    ensures
        (a.then_all(b) is Nil) == (a is Nil && b is Nil),
{
}

proof fn lemma_subterms_max(l: List<SubtermConstraint>)
    ensures
        subterms_max(l) == vars_max(constraint_vars(l)),
        subterms_open(l) == (constraint_vars(l) !is Nil),
    decreases l,
{
    match l {
        List::Nil => {},
        List::Cons(c, rest) => {
            lemma_term_max(c.small);
            lemma_term_max(c.big);
            lemma_subterms_max(*rest);
            let more = term_frees(c.big).then_all(constraint_vars(*rest));
            lemma_max_then(term_frees(c.big), constraint_vars(*rest));
            lemma_max_then(term_frees(c.small), more);
            lemma_then_nil_iff(term_frees(c.big), constraint_vars(*rest));
            lemma_then_nil_iff(term_frees(c.small), more);
        },
    }
}

proof fn lemma_pairs_max(l: List<(Term, Term)>)
    ensures
        pairs_max(l) == vars_max(pair_vars(l)),
        pairs_open(l) == (pair_vars(l) !is Nil),
    decreases l,
{
    match l {
        List::Nil => {},
        List::Cons(p, rest) => {
            lemma_term_max(p.0);
            lemma_term_max(p.1);
            lemma_pairs_max(*rest);
            let more = term_frees(p.1).then_all(pair_vars(*rest));
            lemma_max_then(term_frees(p.1), pair_vars(*rest));
            lemma_max_then(term_frees(p.0), more);
            lemma_then_nil_iff(term_frees(p.1), pair_vars(*rest));
            lemma_then_nil_iff(term_frees(p.0), more);
        },
    }
}

proof fn lemma_goal_max(g: Goal)
    ensures
        goal_max(g) == vars_max(goal_vars(g)),
{
    match g {
        Goal::Action(i, fa) => {
            lemma_terms_max(fa.terms);
        },
        Goal::Premise(p, fa) => {
            lemma_terms_max(fa.terms);
        },
        Goal::Chain(c, p) => {
            reveal_with_fuel(vars_max, 3);
        },
        Goal::Subterm(s, t) => {
            lemma_term_max(s);
            lemma_term_max(t);
            lemma_max_then(term_frees(s), term_frees(t));
        },
        Goal::Disj(d) => {
            lemma_formulas_max(d);
        },
        Goal::Split(_) => {},
    }
}

proof fn lemma_goals_max(l: List<(Goal, GoalStatus)>)
    ensures
        goals_max(l) == vars_max(goals_vars(l)),
        goals_open(l) == (goals_vars(l) !is Nil),
    decreases l,
{
    match l {
        List::Nil => {},
        List::Cons(g, rest) => {
            lemma_goals_max(*rest);
            lemma_goal_max(g.0);
            lemma_max_then(goal_vars(g.0), goals_vars(*rest));
            lemma_then_nil_iff(goal_vars(g.0), goals_vars(*rest));
            match g.0 {
                Goal::Subterm(s, t) => {
                    lemma_then_nil_iff(term_frees(s), term_frees(t));
                },
                Goal::Disj(d) => {
                    lemma_formulas_max(d);
                },
                _ => {},
            }
        },
    }
}

proof fn lemma_formulas_max(l: List<Guarded>)
    ensures
        formulas_max(l) == vars_max(guardeds_frees(l)),
        formulas_open(l) == (guardeds_frees(l) !is Nil),
    decreases l,
{
    match l {
        List::Nil => {},
        List::Cons(g, rest) => {
            lemma_formulas_max(*rest);
            lemma_max_then(guarded_frees(g), guardeds_frees(*rest));
            lemma_then_nil_iff(guarded_frees(g), guardeds_frees(*rest));
        },
    }
}

proof fn lemma_subst_max(l: Subst)
    ensures
        subst_max(l) == vars_max(subst_vars(l)),
        (l is Nil) == (subst_vars(l) is Nil),
    decreases l,
{
    match l {
        List::Nil => {},
        List::Cons(b, rest) => {
            lemma_term_max(b.1);
            lemma_subst_max(*rest);
            lemma_max_then(term_frees(b.1), subst_vars(*rest));
        },
    }
}

/// The variables that the disjunctions bind.
pub open spec fn bound_vars(l: List<EqDisj>) -> List<LVar>
    decreases l,
{
    match l {
        List::Nil => List::Nil,
        List::Cons(d, rest) => domains(d.substs).then_all(bound_vars(*rest)),
    }
}

proof fn lemma_conj_max(l: List<EqDisj>)
    ensures
        conj_max(l) == vars_max(bound_vars(l)),
        conj_open(l) == (bound_vars(l) !is Nil),
    decreases l,
{
    match l {
        List::Nil => {},
        List::Cons(d, rest) => {
            lemma_conj_max(*rest);
            lemma_max_then(domains(d.substs), bound_vars(*rest));
            lemma_then_nil_iff(domains(d.substs), bound_vars(*rest));
        },
    }
}

/// The variables of the formulas and equations.
pub open spec fn stated_vars(sys: System) -> List<LVar> {
    guardeds_frees(sys.formulas).then_all(
        guardeds_frees(sys.solved_formulas).then_all(
            guardeds_frees(sys.lemmas).then_all(
                subst_vars(sys.eq_store.subst).then_all(bound_vars(sys.eq_store.conj)),
            ),
        ),
    )
}

/// The variables of the nodes, their order, the subterm constraints and the
/// goals.
pub open spec fn drawn_vars(sys: System) -> List<LVar> {
    node_vars(sys.nodes).then_all(
        edge_vars(sys.edges).then_all(
            less_vars(sys.less_atoms).then_all(
                last_vars(sys.last_atom).then_all(
                    constraint_vars(sys.subterm_store.subterms).then_all(
                        constraint_vars(sys.subterm_store.solved_subterms).then_all(
                            pair_vars(sys.subterm_store.neg_subterms).then_all(
                                goals_vars(sys.goals),
                            ),
                        ),
                    ),
                ),
            ),
        ),
    )
}

/// The variables of a system that count for what is fresh.
pub open spec fn counting_vars(sys: System) -> List<LVar> {
    drawn_vars(sys).then_all(stated_vars(sys))
}

/// The bound of a system is its largest index, and it is known whether the
/// system has a variable.
pub proof fn law_bound_is_largest(sys: System)
    ensures
        system_max(sys) == vars_max(counting_vars(sys)),
        has_variable(sys) == (counting_vars(sys) !is Nil),
{
    reveal(system_max);
    lemma_nodes_max(sys.nodes);
    lemma_edges_max(sys.edges);
    lemma_less_max(sys.less_atoms);
    lemma_last_max(sys.last_atom);
    lemma_subterms_max(sys.subterm_store.subterms);
    lemma_subterms_max(sys.subterm_store.solved_subterms);
    lemma_pairs_max(sys.subterm_store.neg_subterms);
    lemma_goals_max(sys.goals);
    lemma_formulas_max(sys.formulas);
    lemma_formulas_max(sys.solved_formulas);
    lemma_formulas_max(sys.lemmas);
    lemma_subst_max(sys.eq_store.subst);
    lemma_conj_max(sys.eq_store.conj);
    let v1 = pair_vars(sys.subterm_store.neg_subterms).then_all(goals_vars(sys.goals));
    let v2 = constraint_vars(sys.subterm_store.solved_subterms).then_all(v1);
    let v3 = constraint_vars(sys.subterm_store.subterms).then_all(v2);
    let v4 = last_vars(sys.last_atom).then_all(v3);
    let v5 = less_vars(sys.less_atoms).then_all(v4);
    let v6 = edge_vars(sys.edges).then_all(v5);
    lemma_max_then(pair_vars(sys.subterm_store.neg_subterms), goals_vars(sys.goals));
    lemma_max_then(constraint_vars(sys.subterm_store.solved_subterms), v1);
    lemma_max_then(constraint_vars(sys.subterm_store.subterms), v2);
    lemma_max_then(last_vars(sys.last_atom), v3);
    lemma_max_then(less_vars(sys.less_atoms), v4);
    lemma_max_then(edge_vars(sys.edges), v5);
    lemma_max_then(node_vars(sys.nodes), v6);
    let w1 = subst_vars(sys.eq_store.subst).then_all(bound_vars(sys.eq_store.conj));
    let w2 = guardeds_frees(sys.lemmas).then_all(w1);
    let w3 = guardeds_frees(sys.solved_formulas).then_all(w2);
    lemma_max_then(subst_vars(sys.eq_store.subst), bound_vars(sys.eq_store.conj));
    lemma_max_then(guardeds_frees(sys.lemmas), w1);
    lemma_max_then(guardeds_frees(sys.solved_formulas), w2);
    lemma_max_then(guardeds_frees(sys.formulas), w3);
    lemma_max_then(drawn_vars(sys), stated_vars(sys));
    lemma_then_nil_iff(pair_vars(sys.subterm_store.neg_subterms), goals_vars(sys.goals));
    lemma_then_nil_iff(constraint_vars(sys.subterm_store.solved_subterms), v1);
    lemma_then_nil_iff(constraint_vars(sys.subterm_store.subterms), v2);
    lemma_then_nil_iff(last_vars(sys.last_atom), v3);
    lemma_then_nil_iff(less_vars(sys.less_atoms), v4);
    lemma_then_nil_iff(edge_vars(sys.edges), v5);
    lemma_then_nil_iff(node_vars(sys.nodes), v6);
    lemma_then_nil_iff(subst_vars(sys.eq_store.subst), bound_vars(sys.eq_store.conj));
    lemma_then_nil_iff(guardeds_frees(sys.lemmas), w1);
    lemma_then_nil_iff(guardeds_frees(sys.solved_formulas), w2);
    lemma_then_nil_iff(guardeds_frees(sys.formulas), w3);
    lemma_then_nil_iff(drawn_vars(sys), stated_vars(sys));
}

/// The first unused index is above every variable, and 0 where there is none.
pub proof fn law_first_unused_is_unused(sys: System)
    requires
        system_max(sys) < u64::MAX,
    ensures
        all(counting_vars(sys), less_than(first_unused(sys))),
        first_unused(sys) == 0 <==> counting_vars(sys) is Nil,
{
    law_bound_is_largest(sys);
    let l = counting_vars(sys);
    law_largest_index(l);
    if l !is Nil {
        lemma_weaker(l, at_most(vars_max(l)), less_than(first_unused(sys)));
    } else {
        assert(vars_max(List::<LVar>::Nil) == 0);
    }
}

/// A new reduction hands out indices above every variable of its system and
/// above the floor.
pub proof fn law_new_supply_is_fresh(ctx: &ProofContext, sys: System, floor: u64)
    requires
        system_max(sys) < u64::MAX,
        floor < u64::MAX,
    ensures
        all(
            counting_vars(sys),
            less_than(Reduction::of_floor(ctx, sys, floor).supply.next),
        ),
        floor > 0 ==> floor < Reduction::of_floor(ctx, sys, floor).supply.next,
{
    law_first_unused_is_unused(sys);
    let next = Reduction::of_floor(ctx, sys, floor).supply.next;
    lemma_weaker(counting_vars(sys), less_than(first_unused(sys)), less_than(next));
}

/// A reduction that goes on with an enclosing supply does not fall behind it.
pub proof fn law_inherited_supply_is_fresh(ctx: &ProofContext, sys: System, inherited: u64)
    requires
        system_max(sys) < u64::MAX,
    ensures
        all(
            counting_vars(sys),
            less_than(Reduction::inheriting(ctx, sys, inherited).supply.next),
        ),
        inherited <= Reduction::inheriting(ctx, sys, inherited).supply.next,
{
    law_first_unused_is_unused(sys);
    let next = Reduction::inheriting(ctx, sys, inherited).supply.next;
    lemma_weaker(counting_vars(sys), less_than(first_unused(sys)), less_than(next));
}

/// The index of a fresh node is above every variable of the system, was not
/// handed out before and is not handed out again.
pub proof fn law_fresh_node_is_fresh(red: Reduction)
    requires
        red.clear_supply().next < u64::MAX,
    ensures
        all(counting_vars(red.sys), less_than(red.clear_supply().next)),
        red.supply.next <= red.clear_supply().next,
        red.clear_supply().next < red.clear_supply().taken(1).next,
{
    law_bound_is_largest(red.sys);
    let l = counting_vars(red.sys);
    law_largest_index(l);
    lemma_weaker(l, at_most(vars_max(l)), less_than(red.clear_supply().next));
}

/// The renumbering of a shift.
pub open spec fn moving(m: Shift) -> spec_fn(LVar) -> LVar {
    |v: LVar| m.moved_var(v)
}

proof fn lemma_shift_term(m: Shift, depth: u64, t: Term)
    ensures
        mapped_term(m, depth, t) == mapped_term(numbering(moving(m)), depth, t),
    decreases t,
{
    match t {
        Term::App(_, args) => {
            lemma_shift_terms(m, depth, *args);
        },
        _ => {},
    }
}

proof fn lemma_shift_terms(m: Shift, depth: u64, l: List<Term>)
    ensures
        mapped_terms(m, depth, l) == mapped_terms(numbering(moving(m)), depth, l),
    decreases l,
{
    match l {
        List::Nil => {},
        List::Cons(t, rest) => {
            lemma_shift_term(m, depth, t);
            lemma_shift_terms(m, depth, *rest);
        },
    }
}

proof fn lemma_shift_facts(m: Shift, l: List<Fact>)
    ensures
        mapped_facts(m, l) == mapped_facts(numbering(moving(m)), l),
    decreases l,
{
    match l {
        List::Nil => {},
        List::Cons(fa, rest) => {
            lemma_shift_terms(m, 0, fa.terms);
            lemma_shift_facts(m, *rest);
        },
    }
}

proof fn lemma_shift_rule(m: Shift, ru: RuleACInst)
    ensures
        mapped_rule(m, ru) == mapped_rule(numbering(moving(m)), ru),
{
    lemma_shift_facts(m, ru.premises);
    lemma_shift_facts(m, ru.conclusions);
    lemma_shift_facts(m, ru.actions);
    lemma_shift_terms(m, 0, ru.new_vars);
}

proof fn lemma_shift_domain(m: Shift, s: Subst)
    ensures
        domain(shifted_domain(m, s)) == each(domain(s), moving(m)),
    decreases s,
{
    match s {
        List::Nil => {},
        List::Cons(_, rest) => {
            lemma_shift_domain(m, *rest);
        },
    }
}

proof fn lemma_shift_domains(m: Shift, l: List<Subst>)
    ensures
        domains(shifted_domains(m, l)) == each(domains(l), moving(m)),
    decreases l,
{
    match l {
        List::Nil => {},
        List::Cons(s, rest) => {
            lemma_shift_domain(m, s);
            lemma_shift_domains(m, *rest);
            lemma_each_then(domain(s), domains(*rest), moving(m));
        },
    }
}

/// The shift by which a rule instance is freshened.
pub open spec fn fresh_shift(ru: RuleWithConstrs, avoid: u64, supply: Supply) -> Shift {
    Shift { low: vars_min(variables(ru)), base: supply.above(avoid).next }
}

/// Whether an index is at least `n`.
pub open spec fn at_least(n: u64) -> spec_fn(LVar) -> bool {
    |v: LVar| n <= v.idx
}

proof fn lemma_least(l: List<LVar>)
    ensures
        all(l, at_least(vars_min(l))),
    decreases l,
{
    match l {
        List::Nil => {},
        List::Cons(v, rest) => {
            lemma_least(*rest);
            lemma_weaker(*rest, at_least(vars_min(*rest)), at_least(vars_min(l)));
        },
    }
}

/// Whether an index is one of those from `from` to below `to`.
pub open spec fn among(from: u64, to: u64) -> spec_fn(LVar) -> bool {
    |v: LVar| from <= v.idx < to
}

proof fn lemma_moved_among(l: List<LVar>, m: Shift, most: u64, to: u64)
    requires
        all(l, at_least(m.low)),
        all(l, at_most(most)),
        m.base + (most - m.low) < to,
    ensures
        all(each(l, moving(m)), among(m.base, to)),
    decreases l,
{
    match l {
        List::Nil => {},
        List::Cons(_, rest) => {
            lemma_moved_among(*rest, m, most, to);
        },
    }
}

/// A freshened rule instance has its variables at indices that its supply had not
/// handed out, above what had to be avoided and below what the supply hands out
/// next; they are moved together, so that different ones stay different.
pub proof fn law_freshened_is_fresh(ru: RuleWithConstrs, avoid: u64, supply: Supply)
    requires
        avoid < u64::MAX,
        supply.above(avoid).next + (vars_max(variables(ru)) - vars_min(variables(ru))) + 1
            <= u64::MAX,
    ensures
        variables(freshened(ru, avoid, supply).0) == each(
            variables(ru),
            moving(fresh_shift(ru, avoid, supply)),
        ),
        all(
            variables(freshened(ru, avoid, supply).0),
            among(
                supply.above(avoid).next,
                freshened(ru, avoid, supply).1.next,
            ),
        ),
        avoid < supply.above(avoid).next,
        supply.next <= supply.above(avoid).next,
        forall|v: LVar, w: LVar|
            variables(ru).has(v) && variables(ru).has(w) && #[trigger] moving(
                fresh_shift(ru, avoid, supply),
            )(v) == #[trigger] moving(fresh_shift(ru, avoid, supply))(w) ==> v == w,
{
    reveal(freshened);
    let vars = variables(ru);
    let m = fresh_shift(ru, avoid, supply);
    law_largest_index(vars);
    lemma_least(vars);
    match vars {
        List::Nil => {
            assert(each(List::Nil, moving(m)) == List::<LVar>::Nil);
        },
        List::Cons(v0, _) => {
            lemma_shift_rule(m, ru.0);
            lemma_rule_frees(moving(m), ru.0);
            match ru.1 {
                Some(l) => {
                    lemma_shift_domains(m, l);
                    lemma_each_then(rule_frees(ru.0), domains(l), moving(m));
                },
                None => {
                    assert(each(List::Nil, moving(m)) == List::<LVar>::Nil);
                    lemma_each_then(rule_frees(ru.0), List::Nil, moving(m));
                },
            }
            assert(at_least(vars_min(vars))(v0));
            assert(at_most(vars_max(vars))(v0));
            let to = freshened(ru, avoid, supply).1.next;
            assert(index_span(vars) == vars_max(vars) - vars_min(vars) + 1);
            lemma_moved_among(vars, m, vars_max(vars), to);
        },
    }
    assert forall|v: LVar, w: LVar|
        variables(ru).has(v) && variables(ru).has(w) && #[trigger] moving(m)(v)
            == #[trigger] moving(m)(w) implies v == w by {
        lemma_all_has(vars, v, at_least(vars_min(vars)));
        lemma_all_has(vars, w, at_least(vars_min(vars)));
        lemma_all_has(vars, v, at_most(vars_max(vars)));
        lemma_all_has(vars, w, at_most(vars_max(vars)));
    }
}

} // verus!
