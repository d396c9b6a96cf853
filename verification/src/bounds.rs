//! The largest variable index of a constraint system.
use crate::constraints::{EqDisj, Edge, Goal, GoalStatus, LessAtom, SubtermConstraint};
use crate::facts::{Fact, RuleACInst};
use crate::guarded::Guarded;
use crate::leaves::{frees_of_guarded, guarded_frees, max_of_vars, plus, vars_max};
use crate::list::List;
use crate::rules::{domains, domains_of};
use crate::system::System;
use crate::term_ops::{frees_of_term, larger, max_of, term_frees, term_max, terms_max, Subst};
use crate::terms::{LVar, Term};
use vstd::prelude::*;

verus! {

/// The largest index of a free variable of the facts.
pub open spec fn facts_max(l: List<Fact>) -> u64
    decreases l,
{
    match l {
        List::Nil => 0,
        List::Cons(fa, rest) => larger(terms_max(fa.terms), facts_max(*rest)),
    }
}

/// The largest index of a free variable of the rule instance.
pub open spec fn rule_max(ru: RuleACInst) -> u64 {
    larger(
        facts_max(ru.premises),
        larger(facts_max(ru.conclusions), larger(facts_max(ru.actions), terms_max(ru.new_vars))),
    )
}

fn bm_term(t: &Term) -> (r: u64)
    ensures
        r == term_max(*t),
    decreases t,
{
    match t {
        Term::Var(v) => v.idx,
        Term::App(_, args) => bm_terms(args),
        _ => 0,
    }
}

fn bm_terms(l: &List<Term>) -> (r: u64)
    ensures
        r == terms_max(*l),
    decreases l,
{
    match l {
        List::Nil => 0,
        List::Cons(t, rest) => max_of(bm_term(t), bm_terms(rest)),
    }
}

fn bm_facts(l: &List<Fact>) -> (r: u64)
    ensures
        r == facts_max(*l),
    decreases l,
{
    match l {
        List::Nil => 0,
        List::Cons(fa, rest) => max_of(bm_terms(&fa.terms), bm_facts(rest)),
    }
}

fn bm_rule(ru: &RuleACInst) -> (r: u64)
    ensures
        r == rule_max(*ru),
{
    let news: u64 = bm_terms(&ru.new_vars);
    let acts: u64 = max_of(bm_facts(&ru.actions), news);
    let concs: u64 = max_of(bm_facts(&ru.conclusions), acts);
    max_of(bm_facts(&ru.premises), concs)
}

/// Raises `max` to the largest index of a free variable of the term.
pub fn bm_term_pub(t: &Term, max: &mut u64)
    ensures
        *final(max) == larger(*old(max), term_max(*t)),
{
    *max = max_of(*max, bm_term(t));
}

/// Raises `max` to the largest index of a free variable of the fact.
pub fn bm_fact_pub(fa: &Fact, max: &mut u64)
    ensures
        *final(max) == larger(*old(max), terms_max(fa.terms)),
{
    *max = max_of(*max, bm_terms(&fa.terms));
}

/// Raises `max` to the largest index of a free variable of the rule instance.
pub fn bm_rule_pub(r: &RuleACInst, max: &mut u64)
    ensures
        *final(max) == larger(*old(max), rule_max(*r)),
{
    *max = max_of(*max, bm_rule(r));
}

/// The largest index in the nodes.
pub open spec fn nodes_max(l: List<(LVar, RuleACInst)>) -> u64
    decreases l,
{
    match l {
        List::Nil => 0,
        List::Cons(n, rest) => larger(larger(n.0.idx, rule_max(n.1)), nodes_max(*rest)),
    }
}

fn bm_nodes(l: &List<(LVar, RuleACInst)>) -> (r: u64)
    ensures
        r == nodes_max(*l),
    decreases l,
{
    match l {
        List::Nil => 0,
        List::Cons(n, rest) => max_of(max_of(n.0.idx, bm_rule(&n.1)), bm_nodes(rest)),
    }
}

/// The largest index in the nodes of the system.
pub fn bounds_max_nodes(sys: &System) -> (r: u64)
    ensures
        r == nodes_max(sys.nodes),
{
    bm_nodes(&sys.nodes)
}

pub open spec fn edges_max(l: List<Edge>) -> u64
    decreases l,
{
    match l {
        List::Nil => 0,
        List::Cons(e, rest) => larger(larger(e.src.0.idx, e.tgt.0.idx), edges_max(*rest)),
    }
}

fn bm_edges(l: &List<Edge>) -> (r: u64)
    ensures
        r == edges_max(*l),
    decreases l,
{
    match l {
        List::Nil => 0,
        List::Cons(e, rest) => max_of(max_of(e.src.0.idx, e.tgt.0.idx), bm_edges(rest)),
    }
}

pub open spec fn less_max(l: List<LessAtom>) -> u64
    decreases l,
{
    match l {
        List::Nil => 0,
        List::Cons(a, rest) => larger(larger(a.smaller.idx, a.larger.idx), less_max(*rest)),
    }
}

fn bm_less(l: &List<LessAtom>) -> (r: u64)
    ensures
        r == less_max(*l),
    decreases l,
{
    match l {
        List::Nil => 0,
        List::Cons(a, rest) => max_of(max_of(a.smaller.idx, a.larger.idx), bm_less(rest)),
    }
}

pub open spec fn last_max(l: Option<LVar>) -> u64 {
    match l {
        Some(v) => v.idx,
        None => 0,
    }
}

pub open spec fn subterms_max(l: List<SubtermConstraint>) -> u64
    decreases l,
{
    match l {
        List::Nil => 0,
        List::Cons(c, rest) => larger(
            larger(term_max(c.small), term_max(c.big)),
            subterms_max(*rest),
        ),
    }
}

fn bm_subterms(l: &List<SubtermConstraint>) -> (r: u64)
    ensures
        r == subterms_max(*l),
    decreases l,
{
    match l {
        List::Nil => 0,
        List::Cons(c, rest) => max_of(
            max_of(bm_term(&c.small), bm_term(&c.big)),
            bm_subterms(rest),
        ),
    }
}

pub open spec fn pairs_max(l: List<(Term, Term)>) -> u64
    decreases l,
{
    match l {
        List::Nil => 0,
        List::Cons(p, rest) => larger(larger(term_max(p.0), term_max(p.1)), pairs_max(*rest)),
    }
}

fn bm_pairs(l: &List<(Term, Term)>) -> (r: u64)
    ensures
        r == pairs_max(*l),
    decreases l,
{
    match l {
        List::Nil => 0,
        List::Cons(p, rest) => max_of(max_of(bm_term(&p.0), bm_term(&p.1)), bm_pairs(rest)),
    }
}

/// The largest index of a free variable of the formulas.
pub open spec fn formulas_max(l: List<Guarded>) -> u64
    decreases l,
{
    match l {
        List::Nil => 0,
        List::Cons(g, rest) => larger(vars_max(guarded_frees(g)), formulas_max(*rest)),
    }
}

fn bm_formulas(l: &List<Guarded>) -> (r: u64)
    ensures
        r == formulas_max(*l),
    decreases l,
{
    match l {
        List::Nil => 0,
        List::Cons(g, rest) => max_of(max_of_vars(&frees_of_guarded(g)), bm_formulas(rest)),
    }
}

/// The largest index of a free variable of a goal.  A split holds none.
pub open spec fn goal_max(g: Goal) -> u64 {
    match g {
        Goal::Action(i, fa) => larger(i.idx, terms_max(fa.terms)),
        Goal::Premise(p, fa) => larger(p.0.idx, terms_max(fa.terms)),
        Goal::Chain(c, p) => larger(c.0.idx, p.0.idx),
        Goal::Subterm(s, t) => larger(term_max(s), term_max(t)),
        Goal::Disj(d) => formulas_max(d),
        Goal::Split(_) => 0,
    }
}

fn bm_goal(g: &Goal) -> (r: u64)
    ensures
        r == goal_max(*g),
{
    match g {
        Goal::Action(i, fa) => max_of(i.idx, bm_terms(&fa.terms)),
        Goal::Premise(p, fa) => max_of(p.0.idx, bm_terms(&fa.terms)),
        Goal::Chain(c, p) => max_of(c.0.idx, p.0.idx),
        Goal::Subterm(s, t) => max_of(bm_term(s), bm_term(t)),
        Goal::Disj(d) => bm_formulas(d),
        Goal::Split(_) => 0,
    }
}

pub open spec fn goals_max(l: List<(Goal, GoalStatus)>) -> u64
    decreases l,
{
    match l {
        List::Nil => 0,
        List::Cons(g, rest) => larger(goal_max(g.0), goals_max(*rest)),
    }
}

fn bm_goals(l: &List<(Goal, GoalStatus)>) -> (r: u64)
    ensures
        r == goals_max(*l),
    decreases l,
{
    match l {
        List::Nil => 0,
        List::Cons(g, rest) => max_of(bm_goal(&g.0), bm_goals(rest)),
    }
}

pub open spec fn subst_max(s: Subst) -> u64
    decreases s,
{
    match s {
        List::Nil => 0,
        List::Cons(b, rest) => larger(larger(b.0.idx, term_max(b.1)), subst_max(*rest)),
    }
}

fn bm_subst(s: &Subst) -> (r: u64)
    ensures
        r == subst_max(*s),
    decreases s,
{
    match s {
        List::Nil => 0,
        List::Cons(b, rest) => max_of(max_of(b.0.idx, bm_term(&b.1)), bm_subst(rest)),
    }
}

/// The largest index that the disjunctions bind.
pub open spec fn conj_max(l: List<EqDisj>) -> u64
    decreases l,
{
    match l {
        List::Nil => 0,
        List::Cons(d, rest) => larger(vars_max(domains(d.substs)), conj_max(*rest)),
    }
}

fn bm_conj(l: &List<EqDisj>) -> (r: u64)
    ensures
        r == conj_max(*l),
    decreases l,
{
    match l {
        List::Nil => 0,
        List::Cons(d, rest) => max_of(max_of_vars(&domains_of(&d.substs)), bm_conj(rest)),
    }
}

/// The largest index outside the nodes.
pub open spec fn rest_max(sys: System) -> u64 {
    let eqs = larger(subst_max(sys.eq_store.subst), conj_max(sys.eq_store.conj));
    let fms = larger(
        formulas_max(sys.formulas),
        larger(formulas_max(sys.solved_formulas), formulas_max(sys.lemmas)),
    );
    let sts = larger(
        subterms_max(sys.subterm_store.subterms),
        larger(
            subterms_max(sys.subterm_store.solved_subterms),
            pairs_max(sys.subterm_store.neg_subterms),
        ),
    );
    let order = larger(
        edges_max(sys.edges),
        larger(less_max(sys.less_atoms), last_max(sys.last_atom)),
    );
    larger(order, larger(sts, larger(goals_max(sys.goals), larger(fms, eqs))))
}

/// The largest index outside the nodes.
pub fn bounds_max_rest(sys: &System) -> (r: u64)
    ensures
        r == rest_max(*sys),
{
    let eqs: u64 = max_of(bm_subst(&sys.eq_store.subst), bm_conj(&sys.eq_store.conj));
    let stored: u64 = max_of(bm_formulas(&sys.solved_formulas), bm_formulas(&sys.lemmas));
    let fms: u64 = max_of(bm_formulas(&sys.formulas), stored);
    let more: u64 = max_of(
        bm_subterms(&sys.subterm_store.solved_subterms),
        bm_pairs(&sys.subterm_store.neg_subterms),
    );
    let sts: u64 = max_of(bm_subterms(&sys.subterm_store.subterms), more);
    let last: u64 = match &sys.last_atom {
        Some(v) => v.idx,
        None => 0,
    };
    let order: u64 = max_of(bm_edges(&sys.edges), max_of(bm_less(&sys.less_atoms), last));
    let goals: u64 = bm_goals(&sys.goals);
    max_of(order, max_of(sts, max_of(goals, max_of(fms, eqs))))
}

/// The largest index of a variable of the system, and 0 where there is none.
#[verifier::opaque]
pub open spec fn system_max(sys: System) -> u64 {
    larger(nodes_max(sys.nodes), rest_max(sys))
}

/// The largest index of a variable of the system, walked afresh.
pub fn bounds_max_uncached(sys: &System) -> (r: u64)
    ensures
        r == system_max(*sys),
{
    proof {
        reveal(system_max);
    }
    max_of(bounds_max_nodes(sys), bounds_max_rest(sys))
}

/// The largest index of a variable of the system, and 0 where there is none.
pub fn bounds_max(sys: &System) -> (r: u64)
    ensures
        r == system_max(*sys),
{
    proof {
        reveal(system_max);
    }
    bounds_max_uncached(sys)
}

/// Whether a variable occurs in the constraints.
pub open spec fn subterms_open(l: List<SubtermConstraint>) -> bool
    decreases l,
{
    match l {
        List::Nil => false,
        List::Cons(c, rest) => term_frees(c.small) !is Nil || term_frees(c.big) !is Nil
            || subterms_open(*rest),
    }
}

fn are_subterms_open(l: &List<SubtermConstraint>) -> (r: bool)
    ensures
        r == subterms_open(*l),
    decreases l,
{
    match l {
        List::Nil => false,
        List::Cons(c, rest) => !frees_of_term(&c.small).is_empty() || !frees_of_term(
            &c.big,
        ).is_empty() || are_subterms_open(rest),
    }
}

/// Whether a variable occurs in the pairs.
pub open spec fn pairs_open(l: List<(Term, Term)>) -> bool
    decreases l,
{
    match l {
        List::Nil => false,
        List::Cons(p, rest) => term_frees(p.0) !is Nil || term_frees(p.1) !is Nil || pairs_open(
            *rest,
        ),
    }
}

fn are_pairs_open(l: &List<(Term, Term)>) -> (r: bool)
    ensures
        r == pairs_open(*l),
    decreases l,
{
    match l {
        List::Nil => false,
        List::Cons(p, rest) => !frees_of_term(&p.0).is_empty() || !frees_of_term(&p.1).is_empty()
            || are_pairs_open(rest),
    }
}

/// Whether a variable occurs free in the formulas.
pub open spec fn formulas_open(l: List<Guarded>) -> bool
    decreases l,
{
    match l {
        List::Nil => false,
        List::Cons(g, rest) => guarded_frees(g) !is Nil || formulas_open(*rest),
    }
}

fn are_formulas_open(l: &List<Guarded>) -> (r: bool)
    ensures
        r == formulas_open(*l),
    decreases l,
{
    match l {
        List::Nil => false,
        List::Cons(g, rest) => !frees_of_guarded(g).is_empty() || are_formulas_open(rest),
    }
}

/// Whether a variable occurs free in the goals.
pub open spec fn goals_open(l: List<(Goal, GoalStatus)>) -> bool
    decreases l,
{
    match l {
        List::Nil => false,
        List::Cons(g, rest) => match g.0 {
            Goal::Action(_, _) => true,
            Goal::Premise(_, _) => true,
            Goal::Chain(_, _) => true,
            Goal::Subterm(s, t) => term_frees(s) !is Nil || term_frees(t) !is Nil || goals_open(
                *rest,
            ),
            Goal::Disj(d) => formulas_open(d) || goals_open(*rest),
            Goal::Split(_) => goals_open(*rest),
        },
    }
}

fn are_goals_open(l: &List<(Goal, GoalStatus)>) -> (r: bool)
    ensures
        r == goals_open(*l),
    decreases l,
{
    match l {
        List::Nil => false,
        List::Cons(g, rest) => match &g.0 {
            Goal::Action(_, _) => true,
            Goal::Premise(_, _) => true,
            Goal::Chain(_, _) => true,
            Goal::Subterm(s, t) => !frees_of_term(s).is_empty() || !frees_of_term(t).is_empty()
                || are_goals_open(rest),
            Goal::Disj(d) => are_formulas_open(d) || are_goals_open(rest),
            Goal::Split(_) => are_goals_open(rest),
        },
    }
}

/// Whether the disjunctions bind a variable.
pub open spec fn conj_open(l: List<EqDisj>) -> bool
    decreases l,
{
    match l {
        List::Nil => false,
        List::Cons(d, rest) => domains(d.substs) !is Nil || conj_open(*rest),
    }
}

fn is_conj_open(l: &List<EqDisj>) -> (r: bool)
    ensures
        r == conj_open(*l),
    decreases l,
{
    match l {
        List::Nil => false,
        List::Cons(d, rest) => !domains_of(&d.substs).is_empty() || is_conj_open(rest),
    }
}

/// Whether the system holds a variable.
pub open spec fn has_variable(sys: System) -> bool {
    ||| sys.nodes !is Nil
    ||| sys.edges !is Nil
    ||| sys.less_atoms !is Nil
    ||| sys.last_atom is Some
    ||| subterms_open(sys.subterm_store.subterms)
    ||| subterms_open(sys.subterm_store.solved_subterms)
    ||| pairs_open(sys.subterm_store.neg_subterms)
    ||| goals_open(sys.goals)
    ||| formulas_open(sys.formulas)
    ||| formulas_open(sys.solved_formulas)
    ||| formulas_open(sys.lemmas)
    ||| sys.eq_store.subst !is Nil
    ||| conj_open(sys.eq_store.conj)
}

/// Whether the system holds a variable.
pub fn system_has_any_free_var(sys: &System) -> (r: bool)
    ensures
        r == has_variable(*sys),
{
    if !sys.nodes.is_empty() || !sys.edges.is_empty() || !sys.less_atoms.is_empty() {
        return true;
    }
    match &sys.last_atom {
        Some(_) => {
            return true;
        },
        None => {},
    }
    are_subterms_open(&sys.subterm_store.subterms) || are_subterms_open(
        &sys.subterm_store.solved_subterms,
    ) || are_pairs_open(&sys.subterm_store.neg_subterms) || are_goals_open(&sys.goals)
        || are_formulas_open(&sys.formulas) || are_formulas_open(&sys.solved_formulas)
        || are_formulas_open(&sys.lemmas) || !sys.eq_store.subst.is_empty() || is_conj_open(
        &sys.eq_store.conj,
    )
}

/// The first index above every variable of the system: 0 where there is none.
/// Above the last index there is none, which then stands for itself.
pub open spec fn first_unused(sys: System) -> u64 {
    if system_max(sys) > 0 || has_variable(sys) {
        plus(system_max(sys), 1)
    } else {
        0
    }
}

/// The first index above every variable of the system.
pub fn first_unused_index(sys: &System) -> (r: u64)
    ensures
        r == first_unused(*sys),
{
    let bm: u64 = bounds_max(sys);
    if bm > 0 || system_has_any_free_var(sys) {
        bm.saturating_add(1)
    } else {
        0
    }
}

/// The state of a supply of indices that avoids every variable of the system.
pub fn avoid_fresh_state(sys: &System) -> (r: u64)
    requires
        system_max(*sys) < u64::MAX,
    ensures
        r == first_unused(*sys),
        r == (if system_max(*sys) > 0 || has_variable(*sys) {
            system_max(*sys) + 1
        } else {
            0
        }),
{
    first_unused_index(sys)
}

} // verus!
