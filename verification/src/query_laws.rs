//! How the solver goes on when answers are added: it never asks what is answered,
//! and no answer changes what was found without it.
use crate::bounds::system_max;
use crate::conjoin::{entry_solved, subst_eqs, with_foreign_goals};
use crate::constraints::{
    Edge, EqDisj, EquationStore, Goal, GoalStatus, LessAtom, NodeConc, NodePrem, Reason,
};
use crate::context::{
    ActionSourceCase, AddEqsAnswer, Answered, Answers, PremiseSourceCase, ProofContext, Query,
};
use crate::equations::{
    argument_eqs, collision_eqs, component_eqs, first_nodes, node_terms, nontrivial, simplified,
    simplified_arms, split_stores,
};
use crate::facts::{Fact, FactTag, RuleACInst};
use crate::formulas::{
    count, denied, formula_size, formulas_size, instantiated, lemma_formula_size,
    lemma_size_instantiated, node_of, reduced, two,
};
use crate::goals::{
    arm_systems, first_name, has_subterm, loop_breakers, subterm_moved, with_goal_solved, Case,
};
use crate::guarded::{normal, GAtom, Guarded, Quant};
use crate::leaves::{minus, plus, FormulaSubst};
use crate::list::{find, List};
use crate::names::rule_case;
use crate::proof_method::{
    all_simplified, checked_and_executed, executed, finished, goal_cases, induction_case,
    induction_cases, kept_positions, outcome_cases, processed, simplified_systems, simplify_cases,
    surviving, systems, ProofMethod,
};
use crate::reduction::{
    first_term, goal_parts, goal_weight, ku_goal, lemma_goal_parts, lemma_term_size, node_var,
    terms_size, Reduction, SolveOutcome, SplitStrategy,
};
use crate::rule_goals::{any_conflated, conflated_with, consumers, edge_eqs, partitions, Consumer};
use crate::rules::{
    action_candidates, fresh_rule, freshened, intr_instance, isend_rule, premise_candidates,
    IntrRuleAC, RuleWithConstrs, Supply,
};
use crate::subst_system::{alike_eqs, merged_nodes, passed_goals, PASSES};
use crate::subterms::{ac_with_var, some_equal, split_var, splits, SubtermSplit};
use crate::system::System;
use crate::term_ops::{ac_app, after, larger, Subst};
use crate::terms::{AcSym, LSort, LVar, Term};
use crate::text::{text_of, Text};
use vstd::prelude::*;

verus! {

/// Whether the question has no answer among those given.
pub open spec fn unanswered(a: Answers, q: Query) -> bool {
    match q {
        Query::AddEqs(k) => find(a.add_eqs, k) is None,
        Query::Simp(k) => find(a.simp, k) is None,
        Query::Split(k) => find(a.split, k) is None,
        Query::Reduce(k) => find(a.reduce, k) is None,
        Query::Unifiable(k) => find(a.unifiable, k) is None,
        Query::ActionSources(k) => find(a.action_sources, k) is None,
        Query::PremiseSources(k) => find(a.premise_sources, k) is None,
        Query::Simplify(k) => find(a.simplify, k) is None,
        Query::Contradictions(k) => find(a.contradictions, k) is None,
        Query::OpenGoals(k) => find(a.open_goals, k) is None,
        Query::NonRedundant(k) => find(a.non_redundant, k) is None,
        Query::Induction(k) => find(a.induction, k) is None,
    }
}

/// Whether the table `b` gives the answers that `a` gives, and perhaps more.
pub open spec fn answers_more<K, V>(a: List<(K, V)>, b: List<(K, V)>) -> bool {
    forall|k: K| #![trigger find(b, k)] find(a, k) is Some ==> find(b, k) == find(a, k)
}

/// Whether `b` is `a` with answers added.
pub open spec fn extends(a: &ProofContext, b: &ProofContext) -> bool {
    &&& *b == (ProofContext { answers: b.answers, ..*a })
    &&& answers_more(a.answers.add_eqs, b.answers.add_eqs)
    &&& answers_more(a.answers.simp, b.answers.simp)
    &&& answers_more(a.answers.split, b.answers.split)
    &&& answers_more(a.answers.reduce, b.answers.reduce)
    &&& answers_more(a.answers.unifiable, b.answers.unifiable)
    &&& answers_more(a.answers.action_sources, b.answers.action_sources)
    &&& answers_more(a.answers.premise_sources, b.answers.premise_sources)
    &&& answers_more(a.answers.simplify, b.answers.simplify)
    &&& answers_more(a.answers.contradictions, b.answers.contradictions)
    &&& answers_more(a.answers.open_goals, b.answers.open_goals)
    &&& answers_more(a.answers.non_redundant, b.answers.non_redundant)
    &&& answers_more(a.answers.induction, b.answers.induction)
}

/// The reduction in another context.
pub open spec fn over<'a>(red: Reduction<'a>, b: &'a ProofContext) -> Reduction<'a> {
    Reduction { ctx: b, ..red }
}

/// Whether `y` is what becomes of the result `x` when answers are added: the same
/// value where there is one; and otherwise `x` asks for an answer that is not
/// there.
pub open spec fn stays<T>(x: Answered<T>, y: Answered<T>, a: &ProofContext) -> bool {
    match x {
        Ok(v) => y == Ok::<T, Query>(v),
        Err(q) => unanswered(a.answers, q),
    }
}

/// The same of a reduction.
pub open spec fn continues<'a>(
    x: Answered<Reduction<'a>>,
    y: Answered<Reduction<'a>>,
    a: &'a ProofContext,
    b: &'a ProofContext,
) -> bool {
    match x {
        Ok(end) => end.ctx == a && y == Ok::<Reduction<'a>, Query>(over(end, b)),
        Err(q) => unanswered(a.answers, q),
    }
}

/// The same of a reduction with a result.
pub open spec fn goes_on<'a, T>(
    x: Answered<(Reduction<'a>, T)>,
    y: Answered<(Reduction<'a>, T)>,
    a: &'a ProofContext,
    b: &'a ProofContext,
) -> bool {
    match x {
        Ok((end, v)) => end.ctx == a && y == Ok::<(Reduction<'a>, T), Query>((over(end, b), v)),
        Err(q) => unanswered(a.answers, q),
    }
}

proof fn lemma_goal<'a>(
    red: Reduction<'a>,
    g: Goal,
    looping: bool,
    b: &'a ProofContext,
)
    requires
        extends(red.ctx, b),
    ensures
        red.goal_inserted(g, looping).ctx == red.ctx,
        over(red, b).goal_inserted(g, looping) == over(red.goal_inserted(g, looping), b),
    decreases goal_weight(g), 0nat,
{
    lemma_goal_parts(g);
    match (g, goal_parts(g)) {
        (Goal::Action(i, _), Some(parts)) => {
            if find(red.sys.goals, g) is None {
                lemma_parts(red.plain_goal(g, looping), parts, i, looping, b);
            }
        },
        _ => {},
    }
}

proof fn lemma_parts<'a>(
    red: Reduction<'a>,
    parts: List<Term>,
    outer: LVar,
    looping: bool,
    b: &'a ProofContext,
)
    requires
        extends(red.ctx, b),
    ensures
        red.parts_inserted(parts, outer, looping).ctx == red.ctx,
        over(red, b).parts_inserted(parts, outer, looping) == over(
            red.parts_inserted(parts, outer, looping),
            b,
        ),
    decreases terms_size(parts), 1nat,
{
    match parts {
        List::Nil => {},
        List::Cons(t, rest) => {
            lemma_term_size(t);
            let idx = after(larger(system_max(red.sys), outer.idx));
            let node = node_var("vk"@, idx);
            let moved = Reduction { supply: red.supply.above(idx), ..red };
            lemma_goal(moved, ku_goal(node, t), looping, b);
            let l = LessAtom { smaller: node, larger: outer, reason: Reason::Adversary };
            let mid = moved.goal_inserted(ku_goal(node, t), looping).less_inserted(l);
            lemma_parts(mid, *rest, outer, looping, b);
        },
    }
}

proof fn lemma_done<'a>(
    red: Reduction<'a>,
    g: Goal,
    b: &'a ProofContext,
)
    requires
        extends(red.ctx, b),
    ensures
        red.goal_done(g).ctx == red.ctx,
        over(red, b).goal_done(g) == over(red.goal_done(g), b),
{
    reveal(Reduction::goal_done);
}

proof fn lemma_ku_before<'a>(
    red: Reduction<'a>,
    i: LVar,
    fa: Fact,
    b: &'a ProofContext,
)
    requires
        extends(red.ctx, b),
    ensures
        red.ku_action_before(i, fa).ctx == red.ctx,
        over(red, b).ku_action_before(i, fa) == over(red.ku_action_before(i, fa), b),
{
    reveal(Reduction::ku_action_before);
    let j = node_var("vk"@, red.clear_supply().next);
    let mid = Reduction { supply: red.clear_supply().taken(1), ..red }.less_inserted(
        LessAtom { smaller: j, larger: i, reason: Reason::Adversary },
    );
    lemma_goal(mid, Goal::Action(j, fa), false, b);
}

proof fn lemma_message<'a>(
    red: Reduction<'a>,
    i: LVar,
    idx: u64,
    fa: Fact,
    b: &'a ProofContext,
)
    requires
        extends(red.ctx, b),
    ensures
        red.message_supplied(i, idx, fa).ctx == red.ctx,
        over(red, b).message_supplied(i, idx, fa) == over(red.message_supplied(i, idx, fa), b),
{
    reveal(Reduction::message_supplied);
    match first_term(fa) {
        None => {},
        Some(m) => {
            let j = node_var("vf"@, red.clear_supply().next);
            let mid = red.supplier_added(isend_rule(m), i, idx);
            lemma_ku_before(mid, j, Fact::plain(FactTag::Ku, List::one(m)), b);
        },
    }
}

proof fn lemma_reopened<'a>(
    red: Reduction<'a>,
    l: List<(Goal, GoalStatus)>,
    b: &'a ProofContext,
)
    requires
        extends(red.ctx, b),
    ensures
        red.goals_reopened(l).ctx == red.ctx,
        over(red, b).goals_reopened(l) == over(red.goals_reopened(l), b),
    decreases l,
{
    match l {
        List::Nil => {},
        List::Cons(g, rest) => {
            lemma_goal(red, g.0, g.1.looping, b);
            lemma_reopened(red.goal_inserted(g.0, g.1.looping), *rest, b);
        },
    }
}

pub proof fn lemma_lesses<'a>(
    red: Reduction<'a>,
    l: List<LessAtom>,
    b: &'a ProofContext,
)
    requires
        extends(red.ctx, b),
    ensures
        red.lesses_inserted(l).ctx == red.ctx,
        over(red, b).lesses_inserted(l) == over(red.lesses_inserted(l), b),
    decreases l,
{
    match l {
        List::Nil => {},
        List::Cons(a, rest) => {
            lemma_lesses(red.less_inserted(a), *rest, b);
        },
    }
}

pub proof fn lemma_disjs<'a>(
    red: Reduction<'a>,
    l: List<EqDisj>,
    b: &'a ProofContext,
)
    requires
        extends(red.ctx, b),
    ensures
        red.disjs_added(l).ctx == red.ctx,
        over(red, b).disjs_added(l) == over(red.disjs_added(l), b),
    decreases l,
{
    match l {
        List::Nil => {},
        List::Cons(d, rest) => {
            lemma_disjs(red.with_store(red.sys.eq_store.with_disj(d.substs)), *rest, b);
        },
    }
}

proof fn lemma_disj_ids<'a>(red: Reduction<'a>, l: List<EqDisj>, b: &'a ProofContext)
    ensures
        over(red, b).disj_ids(l) == red.disj_ids(l),
    decreases l,
{
    match l {
        List::Nil => {},
        List::Cons(d, rest) => {
            lemma_disj_ids(red.with_store(red.sys.eq_store.with_disj(d.substs)), *rest, b);
        },
    }
}

pub proof fn lemma_splits<'a>(
    red: Reduction<'a>,
    ids: List<u64>,
    b: &'a ProofContext,
)
    requires
        extends(red.ctx, b),
    ensures
        red.splits_inserted(ids).ctx == red.ctx,
        over(red, b).splits_inserted(ids) == over(red.splits_inserted(ids), b),
    decreases ids,
{
    match ids {
        List::Nil => {},
        List::Cons(id, rest) => {
            lemma_goal(red, Goal::Split(id), false, b);
            lemma_splits(red.goal_inserted(Goal::Split(id), false), *rest, b);
        },
    }
}

proof fn lemma_finish<'a>(red: Reduction<'a>, cases: List<Case>, name: Text, b: &'a ProofContext)
    ensures
        red.cases_finished(cases, name).0.ctx == red.ctx,
        over(red, b).cases_finished(cases, name).0 == over(red.cases_finished(cases, name).0, b),
        over(red, b).cases_finished(cases, name).1 == red.cases_finished(cases, name).1,
{
    reveal(Reduction::cases_finished);
}

proof fn lemma_simplified(
    a: &ProofContext,
    store: EquationStore,
    checked: Option<System>,
    next: u64,
    b: &ProofContext,
)
    requires
        extends(a, b),
    ensures
        stays(simplified(a, store, checked, next), simplified(b, store, checked, next), a),
{
}

proof fn lemma_arms(
    a: &ProofContext,
    arms: List<EquationStore>,
    checked: Option<System>,
    base: u64,
    last: u64,
    b: &ProofContext,
)
    requires
        extends(a, b),
    ensures
        stays(
            simplified_arms(a, arms, checked, base, last),
            simplified_arms(b, arms, checked, base, last),
            a,
        ),
    decreases arms,
{
    match arms {
        List::Nil => {},
        List::Cons(arm, rest) => {
            lemma_simplified(a, arm, checked, base, b);
            match simplified(a, arm, checked, base) {
                Ok(s) => {
                    lemma_arms(a, *rest, checked, base, s.next, b);
                },
                Err(_) => {},
            }
        },
    }
}

proof fn lemma_split_stores(
    a: &ProofContext,
    store: EquationStore,
    id: u64,
    b: &ProofContext,
)
    requires
        extends(a, b),
    ensures
        stays(split_stores(a, store, id), split_stores(b, store, id), a),
{
}

proof fn lemma_split_done<'a>(
    red: Reduction<'a>,
    id: u64,
    b: &'a ProofContext,
)
    requires
        extends(red.ctx, b),
    ensures
        goes_on(red.split_done(id), over(red, b).split_done(id), red.ctx, b),
{
    let base = red.supply.next;
    lemma_split_stores(red.ctx, red.sys.eq_store, id, b);
    match split_stores(red.ctx, red.sys.eq_store, id) {
        Ok(Some(arms)) => {
            lemma_arms(red.ctx, arms, red.checked(), base, base, b);
        },
        _ => {},
    }
}

proof fn lemma_store<'a>(
    red: Reduction<'a>,
    checked: Option<System>,
    b: &'a ProofContext,
)
    requires
        extends(red.ctx, b),
    ensures
        continues(
            red.store_simplified(checked),
            over(red, b).store_simplified(checked),
            red.ctx,
            b,
        ),
{
    lemma_simplified(red.ctx, red.sys.eq_store, checked, red.supply.next, b);
}

proof fn lemma_eqs_added<'a>(
    red: Reduction<'a>,
    split: Option<u64>,
    strategy: SplitStrategy,
    b: &'a ProofContext,
)
    requires
        extends(red.ctx, b),
    ensures
        goes_on(
            red.eqs_added(split, strategy),
            over(red, b).eqs_added(split, strategy),
            red.ctx,
            b,
        ),
{
    match (split, strategy) {
        (Some(id), SplitStrategy::SplitNow) => {
            lemma_split_done(red, id, b);
        },
        _ => {
            lemma_store(red, red.checked(), b);
            match (split, red.store_simplified(red.checked())) {
                (Some(id), Ok(mid)) => {
                    lemma_goal(mid, Goal::Split(id), false, b);
                },
                _ => {},
            }
        },
    }
}

proof fn lemma_term_eqs<'a>(
    red: Reduction<'a>,
    strategy: SplitStrategy,
    eqs: List<(Term, Term)>,
    b: &'a ProofContext,
)
    requires
        extends(red.ctx, b),
    ensures
        goes_on(red.term_eqs(strategy, eqs), over(red, b).term_eqs(strategy, eqs), red.ctx, b),
{
    reveal(Reduction::term_eqs);
    let pending = nontrivial(eqs);
    match find(red.ctx.answers.add_eqs, red.unifier_query(pending)) {
        Some(AddEqsAnswer::Added(store, split, next)) => {
            lemma_eqs_added(red.with_store(store).at(next), split, strategy, b);
        },
        _ => {},
    }
}

proof fn lemma_node_eqs<'a>(
    red: Reduction<'a>,
    eqs: List<(LVar, LVar)>,
    b: &'a ProofContext,
)
    requires
        extends(red.ctx, b),
    ensures
        goes_on(red.node_eqs(eqs), over(red, b).node_eqs(eqs), red.ctx, b),
{
    reveal(Reduction::node_eqs);
    lemma_term_eqs(red, SplitStrategy::SplitNow, node_terms(eqs), b);
}

proof fn lemma_arms_node_eqs<'a>(
    red: Reduction<'a>,
    arms: List<EquationStore>,
    base: u64,
    eqs: List<(LVar, LVar)>,
    b: &'a ProofContext,
)
    requires
        extends(red.ctx, b),
    ensures
        goes_on(
            red.arms_node_eqs(arms, base, eqs),
            over(red, b).arms_node_eqs(arms, base, eqs),
            red.ctx,
            b,
        ),
    decreases arms,
{
    match arms {
        List::Nil => {},
        List::Cons(arm, rest) => {
            let start = red.with_store(arm).at(base);
            lemma_node_eqs(start, eqs, b);
            match start.node_eqs(eqs) {
                Ok((mid, _)) => {
                    lemma_arms_node_eqs(mid, *rest, base, eqs, b);
                },
                Err(_) => {},
            }
        },
    }
}

/// Equations between nodes that are solved everywhere ask nothing that is
/// answered, and go on when answers are added.
pub proof fn law_node_equations_go_on<'a>(
    red: Reduction<'a>,
    eqs: List<(LVar, LVar)>,
    b: &'a ProofContext,
)
    requires
        extends(red.ctx, b),
    ensures
        goes_on(red.node_eqs_everywhere(eqs), over(red, b).node_eqs_everywhere(eqs), red.ctx, b),
{
    reveal(Reduction::node_eqs_everywhere);
    lemma_node_eqs(red, eqs, b);
    match red.node_eqs(eqs) {
        Ok((mid, _)) => {
            lemma_arms_node_eqs(mid, mid.pending_eq_arms, red.supply.next, eqs, b);
        },
        Err(_) => {},
    }
}

pub proof fn lemma_fact_eqs<'a>(
    red: Reduction<'a>,
    strategy: SplitStrategy,
    eqs: List<(Fact, Fact)>,
    b: &'a ProofContext,
)
    requires
        extends(red.ctx, b),
    ensures
        goes_on(red.fact_eqs(strategy, eqs), over(red, b).fact_eqs(strategy, eqs), red.ctx, b),
{
    reveal(Reduction::fact_eqs);
    lemma_term_eqs(red, strategy, argument_eqs(eqs), b);
}

proof fn lemma_rule_eqs<'a>(
    red: Reduction<'a>,
    strategy: SplitStrategy,
    eqs: List<(RuleACInst, RuleACInst)>,
    b: &'a ProofContext,
)
    requires
        extends(red.ctx, b),
    ensures
        goes_on(red.rule_eqs(strategy, eqs), over(red, b).rule_eqs(strategy, eqs), red.ctx, b),
{
    reveal(Reduction::rule_eqs);
    lemma_fact_eqs(red, strategy, component_eqs(eqs), b);
}

pub proof fn lemma_nodes_set<'a>(
    red: Reduction<'a>,
    nodes: List<(LVar, RuleACInst)>,
    b: &'a ProofContext,
)
    requires
        extends(red.ctx, b),
    ensures
        goes_on(red.nodes_set(nodes), over(red, b).nodes_set(nodes), red.ctx, b),
{
    reveal(Reduction::nodes_set);
    let mid = red.on(System { nodes: first_nodes(nodes), ..red.sys });
    lemma_rule_eqs(mid.touched(), SplitStrategy::SplitLater, collision_eqs(nodes), b);
}

pub proof fn lemma_variants<'a>(
    red: Reduction<'a>,
    substs: Option<List<Subst>>,
    b: &'a ProofContext,
)
    requires
        extends(red.ctx, b),
    ensures
        goes_on(red.variants_required(substs), over(red, b).variants_required(substs), red.ctx, b),
{
    reveal(Reduction::variants_required);
    match substs {
        Some(List::Cons(s, rest)) => {
            let start = red.with_store(red.sys.eq_store.with_disj(List::Cons(s, rest)));
            let g = Goal::Split(red.sys.eq_store.next_split);
            lemma_goal(start, g, false, b);
            lemma_store(start.goal_inserted(g, false), None, b);
        },
        _ => {},
    }
}

pub proof fn lemma_edge<'a>(
    red: Reduction<'a>,
    e: Edge,
    conc: Option<Fact>,
    prem: Option<Fact>,
    b: &'a ProofContext,
)
    requires
        extends(red.ctx, b),
    ensures
        goes_on(
            red.edge_inserted(e, conc, prem),
            over(red, b).edge_inserted(e, conc, prem),
            red.ctx,
            b,
        ),
{
    reveal(Reduction::edge_inserted);
    match (conc, prem) {
        (Some(c), Some(p)) => {
            lemma_fact_eqs(red, SplitStrategy::SplitNow, List::one((c, p)), b);
        },
        _ => {},
    }
}

pub proof fn lemma_last<'a>(
    red: Reduction<'a>,
    i: LVar,
    b: &'a ProofContext,
)
    requires
        extends(red.ctx, b),
    ensures
        goes_on(red.last_inserted(i), over(red, b).last_inserted(i), red.ctx, b),
{
    reveal(Reduction::last_inserted);
    match red.sys.last_atom {
        Some(j) => {
            lemma_node_eqs(red, List::one((i, j)), b);
        },
        None => {},
    }
}

proof fn lemma_reduced(
    a: &ProofContext,
    t: Term,
    b: &ProofContext,
)
    requires
        extends(a, b),
    ensures
        stays(reduced(a, t), reduced(b, t), a),
{
}

proof fn lemma_eq_inserted<'a>(
    red: Reduction<'a>,
    x: Term,
    y: Term,
    b: &'a ProofContext,
)
    requires
        extends(red.ctx, b),
    ensures
        continues(red.eq_inserted(x, y), over(red, b).eq_inserted(x, y), red.ctx, b),
{
    lemma_term_eqs(red, SplitStrategy::SplitNow, List::one((x, y)), b);
}

proof fn lemma_atom<'a>(
    red: Reduction<'a>,
    at: GAtom,
    b: &'a ProofContext,
)
    requires
        extends(red.ctx, b),
    ensures
        goes_on(red.atom_inserted(at), over(red, b).atom_inserted(at), red.ctx, b),
{
    reveal(Reduction::atom_inserted);
    match at {
        GAtom::Eq(x, y) => {
            lemma_reduced(red.ctx, x, b);
            lemma_reduced(red.ctx, y, b);
            match (reduced(red.ctx, x), reduced(red.ctx, y)) {
                (Ok(u), Ok(v)) => {
                    lemma_eq_inserted(red, u, v, b);
                },
                _ => {},
            }
        },
        GAtom::Last(t) => match node_of(t) {
            Some(i) => {
                lemma_last(red, i, b);
            },
            None => {},
        },
        GAtom::Action(fa, t) => match node_of(t) {
            Some(i) => {
                lemma_goal(red, Goal::Action(i, fa), false, b);
            },
            None => {},
        },
        _ => {},
    }
}

proof fn lemma_disj_inserted<'a>(
    red: Reduction<'a>,
    l: List<Guarded>,
    b: &'a ProofContext,
)
    requires
        extends(red.ctx, b),
    ensures
        red.disj_inserted(l).ctx == red.ctx,
        over(red, b).disj_inserted(l) == over(red.disj_inserted(l), b),
{
    lemma_goal(red.formula_kept(Guarded::Disj(Box::new(l))), Goal::Disj(l), false, b);
}

proof fn lemma_denial<'a>(
    red: Reduction<'a>,
    g: Guarded,
    at: GAtom,
    mark: bool,
    b: &'a ProofContext,
)
    requires
        extends(red.ctx, b),
    ensures
        red.denial_inserted(g, at, mark).ctx == red.ctx,
        over(red, b).denial_inserted(g, at, mark) == over(red.denial_inserted(g, at, mark), b),
{
    let marked = red.formula_marked(g, mark);
    match at {
        GAtom::Less(i, j) => {
            lemma_disj_inserted(marked, two(GAtom::Eq(i, j), GAtom::Less(j, i)), b);
        },
        GAtom::Eq(i, j) => {
            lemma_disj_inserted(marked, two(GAtom::Less(i, j), GAtom::Less(j, i)), b);
        },
        GAtom::Last(i) => {
            let last = marked.last_node();
            let mid = marked.on(System { last_atom: Some(last), ..marked.sys });
            let t = Term::Var(last);
            lemma_disj_inserted(mid, two(GAtom::Less(t, i), GAtom::Less(i, t)), b);
        },
        _ => {},
    }
}

pub proof fn lemma_formula<'a>(
    red: Reduction<'a>,
    g: Guarded,
    mark: bool,
    b: &'a ProofContext,
)
    requires
        extends(red.ctx, b),
    ensures
        continues(
            red.formula_inserted(g, mark),
            over(red, b).formula_inserted(g, mark),
            red.ctx,
            b,
        ),
    decreases formula_size(g), 0nat,
{
    if !red.stored(g) {
        match g {
            Guarded::Conj(l) => {
                lemma_formulas(red.formula_marked(g, mark), *l, b);
            },
            Guarded::Disj(l) => {
                lemma_disj_inserted(red, *l, b);
            },
            Guarded::Atom(at) => {
                lemma_atom(red, at, b);
            },
            Guarded::GGuarded(Quant::Ex, vars, guards, body) => {
                let xs = red.witnesses(g, vars, mark);
                lemma_size_instantiated(xs, guards, *body);
                lemma_formula(
                    red.witnesses_taken(g, vars, mark),
                    instantiated(xs, guards, *body),
                    false,
                    b,
                );
            },
            Guarded::GGuarded(Quant::All, _, _, _) => match denied(g) {
                Some(at) => {
                    lemma_denial(red, g, at, mark, b);
                },
                None => {},
            },
        }
    }
}

proof fn lemma_formulas<'a>(
    red: Reduction<'a>,
    l: List<Guarded>,
    b: &'a ProofContext,
)
    requires
        extends(red.ctx, b),
    ensures
        continues(red.formulas_inserted(l), over(red, b).formulas_inserted(l), red.ctx, b),
    decreases formulas_size(l), 1nat,
{
    match l {
        List::Nil => {},
        List::Cons(g, rest) => {
            lemma_formula_size(g);
            lemma_formula(red, g, false, b);
            match red.formula_inserted(g, false) {
                Ok(mid) => {
                    lemma_formulas(mid, *rest, b);
                },
                Err(_) => {},
            }
        },
    }
}

proof fn lemma_collisions<'a>(
    red: Reduction<'a>,
    eqs: List<(Fact, Fact)>,
    b: &'a ProofContext,
)
    requires
        extends(red.ctx, b),
    ensures
        continues(red.collisions_solved(eqs), over(red, b).collisions_solved(eqs), red.ctx, b),
{
    let safe = alike_eqs(eqs);
    let start = if safe.size() == eqs.size() {
        red
    } else {
        red.refuted()
    };
    lemma_fact_eqs(start, SplitStrategy::SplitLater, safe, b);
}

proof fn lemma_goals_passed<'a>(
    red: Reduction<'a>,
    s: Subst,
    fs: FormulaSubst,
    b: &'a ProofContext,
)
    requires
        extends(red.ctx, b),
    ensures
        red.goals_passed(s, fs).ctx == red.ctx,
        over(red, b).goals_passed(s, fs) == over(red.goals_passed(s, fs), b),
{
    let p = passed_goals(s, fs, red.sys.goals);
    lemma_reopened(red.on(System { goals: p.kept, ..red.sys }), p.reopened, b);
}

proof fn lemma_passed<'a>(
    red: Reduction<'a>,
    b: &'a ProofContext,
)
    requires
        extends(red.ctx, b),
    ensures
        goes_on(red.passed(), over(red, b).passed(), red.ctx, b),
{
    reveal(Reduction::passed);
    let s = red.sys.eq_store.subst;
    let fs = red.pass_formula_subst();
    let mid = red.nodes_passed(s).order_passed(s);
    lemma_goals_passed(mid, s, fs, b);
    let end = mid.goals_passed(s, fs).formulas_passed(fs).subterms_passed(s);
    assert(over(red, b).nodes_passed(s).order_passed(s) == over(mid, b));
    assert(over(mid, b).goals_passed(s, fs).formulas_passed(fs).subterms_passed(s) == over(end, b));
    assert(over(red, b).signals() == red.signals());
    lemma_collisions(end, merged_nodes(s, red.sys.nodes).eqs(), b);
}

proof fn lemma_passes<'a>(
    red: Reduction<'a>,
    rounds: nat,
    b: &'a ProofContext,
)
    requires
        extends(red.ctx, b),
    ensures
        continues(red.passes(rounds), over(red, b).passes(rounds), red.ctx, b),
    decreases rounds,
{
    lemma_passed(red, b);
    match red.passed() {
        Ok((mid, _)) => {
            if !(mid.sys.eq_store.subst.size() == red.sys.eq_store.subst.size() || rounds <= 1) {
                lemma_passes(mid, (rounds - 1) as nat, b);
            }
        },
        Err(_) => {},
    }
}

pub proof fn lemma_substituted<'a>(
    red: Reduction<'a>,
    b: &'a ProofContext,
)
    requires
        extends(red.ctx, b),
    ensures
        continues(red.system_substituted(), over(red, b).system_substituted(), red.ctx, b),
{
    reveal(Reduction::system_substituted);
    lemma_passes(red, PASSES as nat, b);
}

pub proof fn lemma_stored<'a>(
    red: Reduction<'a>,
    l: List<Guarded>,
    b: &'a ProofContext,
)
    requires
        extends(red.ctx, b),
    ensures
        continues(red.stored_inserted(l), over(red, b).stored_inserted(l), red.ctx, b),
    decreases l,
{
    match l {
        List::Nil => {},
        List::Cons(g, rest) => {
            lemma_formula(red, normal(g), true, b);
            match red.formula_inserted(normal(g), true) {
                Ok(mid) => {
                    lemma_stored(mid, *rest, b);
                },
                Err(_) => {},
            }
        },
    }
}

proof fn lemma_arms_pending<'a>(
    red: Reduction<'a>,
    base: System,
    arms: List<EquationStore>,
    b: &'a ProofContext,
)
    requires
        extends(red.ctx, b),
    ensures
        continues(red.arms_pending(base, arms), over(red, b).arms_pending(base, arms), red.ctx, b),
    decreases arms,
{
    match arms {
        List::Nil => {},
        List::Cons(arm, rest) => {
            let start = Reduction::inheriting(
                red.ctx,
                System { eq_store: arm, ..base },
                red.supply.next,
            );
            lemma_substituted(start, b);
            match start.system_substituted() {
                Ok(end) => {
                    let mid = if end.sys.eq_store.contradictory {
                        red
                    } else {
                        Reduction {
                            pending_conjoin_arm_systems: red.pending_conjoin_arm_systems.snoc(
                                (end.sys, end.supply.next),
                            ),
                            ..red
                        }
                    };
                    lemma_arms_pending(mid, base, *rest, b);
                },
                Err(_) => {},
            }
        },
    }
}

proof fn lemma_stores_conjoined<'a>(
    red: Reduction<'a>,
    other: System,
    b: &'a ProofContext,
)
    requires
        extends(red.ctx, b),
    ensures
        goes_on(red.stores_conjoined(other), over(red, b).stores_conjoined(other), red.ctx, b),
{
    let added = red.disjs_added(other.eq_store.conj);
    lemma_disjs(red, other.eq_store.conj, b);
    lemma_disj_ids(red, other.eq_store.conj, b);
    let merged = added.on(
        System { subterm_store: added.sys.subterm_store.merged(other.subterm_store), ..added.sys },
    );
    let ids = red.disj_ids(other.eq_store.conj);
    lemma_splits(merged, ids, b);
    let ready = merged.splits_inserted(ids);
    let eqs = subst_eqs(other.eq_store.subst);
    lemma_term_eqs(ready, SplitStrategy::SplitNow, eqs, b);
    match ready.term_eqs(SplitStrategy::SplitNow, eqs) {
        Ok((mid, out)) => {
            lemma_substituted(mid, b);
            match out {
                SolveOutcome::Cases(List::Cons(first, rest)) => {
                    lemma_arms_pending(mid.with_store(first), ready.sys, *rest, b);
                    match mid.with_store(first).arms_pending(ready.sys, *rest) {
                        Ok(end) => {
                            lemma_substituted(end, b);
                        },
                        Err(_) => {},
                    }
                },
                _ => {},
            }
        },
        Err(_) => {},
    }
}

proof fn lemma_rest_conjoined<'a>(
    red: Reduction<'a>,
    other: System,
    b: &'a ProofContext,
)
    requires
        extends(red.ctx, b),
    ensures
        goes_on(red.rest_conjoined(other), over(red, b).rest_conjoined(other), red.ctx, b),
{
    lemma_lesses(red, other.less_atoms, b);
    let ordered = red.lesses_inserted(other.less_atoms);
    let with_goals = ordered.on(with_foreign_goals(ordered.sys, other.goals.sorted()));
    lemma_stored(with_goals, other.formulas, b);
    match with_goals.stored_inserted(other.formulas) {
        Ok(mid) => {
            let nodes = other.nodes.then_all(mid.sys.nodes);
            lemma_nodes_set(mid, nodes, b);
            match mid.nodes_set(nodes) {
                Ok((end, _)) => {
                    lemma_stores_conjoined(end, other, b);
                },
                Err(_) => {},
            }
        },
        Err(_) => {},
    }
}

/// Adding the constraints of another system asks nothing that is answered, and goes
/// on when answers are added.
pub proof fn law_conjoining_goes_on<'a>(
    red: Reduction<'a>,
    other: System,
    b: &'a ProofContext,
)
    requires
        extends(red.ctx, b),
    ensures
        goes_on(red.conjoined(other), over(red, b).conjoined(other), red.ctx, b),
{
    reveal(Reduction::conjoined);
    let sets = red.sets_joined(other);
    match other.last_atom {
        Some(i) => {
            lemma_last(sets, i, b);
            match sets.last_inserted(i) {
                Ok((mid, _)) => {
                    lemma_rest_conjoined(mid, other, b);
                },
                Err(_) => {},
            }
        },
        None => {
            lemma_rest_conjoined(sets, other, b);
        },
    }
}

proof fn lemma_fresh<'a>(
    red: Reduction<'a>,
    i: LVar,
    idx: u64,
    fa: Fact,
    b: &'a ProofContext,
)
    requires
        extends(red.ctx, b),
    ensures
        continues(
            red.fresh_supplied(i, idx, fa),
            over(red, b).fresh_supplied(i, idx, fa),
            red.ctx,
            b,
        ),
{
    reveal(Reduction::fresh_supplied);
    match first_term(fa) {
        None => {},
        Some(m) => {
            let mid = red.supplier_added(fresh_rule(m), i, idx);
            let n = Term::Var(
                LVar {
                    name: text_of("n"@),
                    sort: LSort::Fresh,
                    idx: plus(system_max(mid.sys), 1),
                },
            );
            lemma_term_eqs(mid, SplitStrategy::SplitNow, List::one((m, n)), b);
        },
    }
}

proof fn lemma_premise<'a>(
    red: Reduction<'a>,
    i: LVar,
    idx: u64,
    fa: Fact,
    looping: bool,
    b: &'a ProofContext,
)
    requires
        extends(red.ctx, b),
    ensures
        continues(
            red.premise_exploited(i, idx, fa, looping),
            over(red, b).premise_exploited(i, idx, fa, looping),
            red.ctx,
            b,
        ),
{
    reveal(Reduction::premise_exploited);
    lemma_fresh(red, i, idx, fa, b);
    lemma_message(red, i, idx, fa, b);
    lemma_ku_before(red, i, fa, b);
    lemma_goal(red, Goal::Premise((i, idx), fa), looping, b);
}

proof fn lemma_premises<'a>(
    red: Reduction<'a>,
    i: LVar,
    idx: u64,
    prems: List<Fact>,
    breakers: List<u64>,
    b: &'a ProofContext,
)
    requires
        extends(red.ctx, b),
    ensures
        continues(
            red.premises_exploited(i, idx, prems, breakers),
            over(red, b).premises_exploited(i, idx, prems, breakers),
            red.ctx,
            b,
        ),
    decreases prems,
{
    match prems {
        List::Nil => {},
        List::Cons(fa, rest) => {
            lemma_premise(red, i, idx, fa, breakers.has(idx), b);
            match red.premise_exploited(i, idx, fa, breakers.has(idx)) {
                Ok(mid) => {
                    lemma_premises(mid, i, plus(idx, 1), *rest, breakers, b);
                },
                Err(_) => {},
            }
        },
    }
}

pub proof fn lemma_exploited<'a>(
    red: Reduction<'a>,
    i: LVar,
    ru: RuleACInst,
    b: &'a ProofContext,
)
    requires
        extends(red.ctx, b),
    ensures
        continues(red.rule_exploited(i, ru), over(red, b).rule_exploited(i, ru), red.ctx, b),
{
    reveal(Reduction::rule_exploited);
    lemma_premises(red, i, 0, ru.premises, loop_breakers(ru), b);
}

proof fn lemma_alternatives<'a>(
    red: Reduction<'a>,
    g: Goal,
    alts: List<Guarded>,
    k: u64,
    b: &'a ProofContext,
)
    requires
        extends(red.ctx, b),
    ensures
        stays(
            red.alternative_cases(g, alts, k),
            over(red, b).alternative_cases(g, alts, k),
            red.ctx,
        ),
    decreases alts,
{
    match alts {
        List::Nil => {},
        List::Cons(alt, rest) => {
            let start = Reduction::inheriting(red.ctx, red.sys, red.supply.next);
            lemma_formula(start.on(with_goal_solved(start.sys, g)), normal(alt), true, b);
            lemma_alternatives(red, g, *rest, plus(k, 1), b);
        },
    }
}

proof fn lemma_disj_solved<'a>(
    red: Reduction<'a>,
    alts: List<Guarded>,
    b: &'a ProofContext,
)
    requires
        extends(red.ctx, b),
    ensures
        goes_on(red.disj_solved(alts), over(red, b).disj_solved(alts), red.ctx, b),
{
    let g = Goal::Disj(alts);
    match alts {
        List::Nil => {},
        List::Cons(alt, rest) => {
            lemma_done(red, g, b);
            lemma_formula(red.goal_done(g), normal(alt), true, b);
            lemma_alternatives(red, g, alts, 0, b);
        },
    }
}

proof fn lemma_split_inserted<'a>(
    red: Reduction<'a>,
    split: SubtermSplit,
    single: bool,
    b: &'a ProofContext,
)
    requires
        extends(red.ctx, b),
    ensures
        continues(
            red.split_inserted(split, single),
            over(red, b).split_inserted(split, single),
            red.ctx,
            b,
        ),
{
    match split {
        SubtermSplit::NatSubtermD(s, t) => {
            let v = split_var(LSort::Nat, red.clear_supply().next);
            lemma_formula(
                Reduction { supply: red.clear_supply().taken(1), ..red },
                normal(some_equal(v, ac_with_var(AcSym::NatPlus, s, v), t)),
                true,
                b,
            );
        },
        SubtermSplit::EqualD(l, r) => {
            lemma_formula(red, normal(Guarded::Atom(GAtom::Eq(l, r))), true, b);
        },
        SubtermSplit::AcNewVarD(s, t, v) => {
            lemma_formula(red, normal(some_equal(v, s, t)), true, b);
        },
        _ => {},
    }
}

proof fn lemma_split_cases<'a>(
    red: Reduction<'a>,
    l: List<SubtermSplit>,
    single: bool,
    k: u64,
    b: &'a ProofContext,
)
    requires
        extends(red.ctx, b),
    ensures
        stays(red.split_cases(l, single, k), over(red, b).split_cases(l, single, k), red.ctx),
    decreases l,
{
    match l {
        List::Nil => {},
        List::Cons(split, rest) => {
            let start = Reduction::of_floor(red.ctx, red.sys, red.ctx.refine_floor);
            let moved = Reduction {
                supply: start.supply.above(minus(red.supply.next, 1)),
                ..start
            };
            lemma_split_inserted(moved, split, single, b);
            lemma_split_cases(red, *rest, single, plus(k, 1), b);
        },
    }
}

proof fn lemma_subterm_solved<'a>(
    red: Reduction<'a>,
    small: Term,
    big: Term,
    b: &'a ProofContext,
)
    requires
        extends(red.ctx, b),
    ensures
        goes_on(
            red.subterm_solved(small, big),
            over(red, b).subterm_solved(small, big),
            red.ctx,
            b,
        ),
{
    let moved = red.on(
        System {
            subterm_store: subterm_moved(red.sys.subterm_store, small, big),
            ..red.sys
        },
    ).touched_if(has_subterm(red.sys.subterm_store.subterms, small, big));
    lemma_done(moved, Goal::Subterm(small, big), b);
    let done = red.subterm_done(small, big);
    assert(over(red, b).subterm_done(small, big) == over(done, b));
    let l = splits(done.ctx.reducible, small, big, done.clear_supply().next);
    let mid = Reduction { supply: done.split_supply(small, big), ..done };
    assert(over(done, b).split_supply(small, big) == done.split_supply(small, big));
    lemma_split_cases(mid, l, l.only() is Some, 0, b);
}

proof fn lemma_store_cases<'a>(
    red: Reduction<'a>,
    g: Goal,
    stores: List<EquationStore>,
    b: &'a ProofContext,
)
    requires
        extends(red.ctx, b),
    ensures
        stays(red.store_cases(g, stores), over(red, b).store_cases(g, stores), red.ctx),
    decreases stores,
{
    match stores {
        List::Nil => {},
        List::Cons(s, rest) => {
            lemma_simplified(red.ctx, s, red.checked(), red.supply.next, b);
            lemma_store_cases(red, g, *rest, b);
            match simplified(red.ctx, s, red.checked(), red.supply.next) {
                Ok(a) => {
                    let sys = with_goal_solved(System { eq_store: a.store, ..red.sys }, g);
                    lemma_substituted(
                        Reduction::of_floor(red.ctx, sys, red.ctx.refine_floor),
                        b,
                    );
                },
                Err(_) => {},
            }
        },
    }
}

proof fn lemma_split_solved<'a>(
    red: Reduction<'a>,
    id: u64,
    b: &'a ProofContext,
)
    requires
        extends(red.ctx, b),
    ensures
        goes_on(red.split_solved(id), over(red, b).split_solved(id), red.ctx, b),
{
    let g = Goal::Split(id);
    lemma_split_stores(red.ctx, red.sys.eq_store, id, b);
    match split_stores(red.ctx, red.sys.eq_store, id) {
        Ok(Some(List::Cons(s, rest))) => {
            lemma_store_cases(red, g, List::Cons(s, rest), b);
            lemma_simplified(red.ctx, s, red.checked(), red.supply.next, b);
            match simplified(red.ctx, s, red.checked(), red.supply.next) {
                Ok(a) => {
                    let mid = red.with_store(a.store).at(a.next);
                    lemma_done(mid, g, b);
                    lemma_substituted(mid.goal_done(g), b);
                },
                Err(_) => {},
            }
        },
        _ => {},
    }
}

proof fn lemma_conflated_with(
    a: &ProofContext,
    c: Consumer,
    l: List<Consumer>,
    b: &ProofContext,
)
    requires
        extends(a, b),
    ensures
        stays(conflated_with(a, c, l), conflated_with(b, c, l), a),
    decreases l,
{
    match l {
        List::Nil => {},
        List::Cons(_, rest) => {
            lemma_conflated_with(a, c, *rest, b);
        },
    }
}

proof fn lemma_any_conflated(
    a: &ProofContext,
    l: List<Consumer>,
    b: &ProofContext,
)
    requires
        extends(a, b),
    ensures
        stays(any_conflated(a, l), any_conflated(b, l), a),
    decreases l,
{
    match l {
        List::Nil => {},
        List::Cons(c, rest) => {
            lemma_conflated_with(a, c, *rest, b);
            lemma_any_conflated(a, *rest, b);
        },
    }
}

proof fn lemma_existing<'a>(
    red: Reduction<'a>,
    g: Goal,
    fa: Fact,
    acts: List<Fact>,
    name: Text,
    b: &'a ProofContext,
)
    requires
        extends(red.ctx, b),
    ensures
        stays(
            red.existing_cases(g, fa, acts, name),
            over(red, b).existing_cases(g, fa, acts, name),
            red.ctx,
        ),
    decreases acts,
{
    match acts {
        List::Nil => {},
        List::Cons(act, rest) => {
            let start = Reduction::inheriting(red.ctx, red.sys, red.supply.next);
            lemma_fact_eqs(start, SplitStrategy::SplitNow, List::one((fa, act)), b);
            lemma_existing(red, g, fa, *rest, name, b);
        },
    }
}

proof fn lemma_arms_substituted<'a>(
    red: Reduction<'a>,
    stores: List<EquationStore>,
    b: &'a ProofContext,
)
    requires
        extends(red.ctx, b),
    ensures
        stays(red.arms_substituted(stores), over(red, b).arms_substituted(stores), red.ctx),
    decreases stores,
{
    match stores {
        List::Nil => {},
        List::Cons(s, rest) => {
            let start = Reduction::inheriting(
                red.ctx,
                System { eq_store: s, ..red.sys },
                red.supply.next,
            );
            lemma_substituted(start, b);
            lemma_arms_substituted(red, *rest, b);
        },
    }
}

proof fn lemma_source_systems<'a>(
    red: Reduction<'a>,
    action: Fact,
    fa: Fact,
    b: &'a ProofContext,
)
    requires
        extends(red.ctx, b),
    ensures
        stays(red.source_systems(action, fa), over(red, b).source_systems(action, fa), red.ctx),
{
    let eqs = List::one((action, fa));
    lemma_fact_eqs(red, SplitStrategy::SplitNow, eqs, b);
    match red.fact_eqs(SplitStrategy::SplitNow, eqs) {
        Ok((mid, out)) => {
            lemma_substituted(mid, b);
            match out {
                SolveOutcome::Cases(arms) => {
                    lemma_arms_substituted(mid, arms, b);
                },
                _ => {},
            }
        },
        Err(_) => {},
    }
}

proof fn lemma_source_case<'a>(
    red: Reduction<'a>,
    name: Text,
    b: &'a ProofContext,
)
    requires
        extends(red.ctx, b),
    ensures
        stays(red.source_case(name), over(red, b).source_case(name), red.ctx),
{
    lemma_substituted(red, b);
}

proof fn lemma_source_arms<'a>(
    red: Reduction<'a>,
    name: Text,
    stores: List<EquationStore>,
    b: &'a ProofContext,
)
    requires
        extends(red.ctx, b),
    ensures
        stays(red.source_arms(name, stores), over(red, b).source_arms(name, stores), red.ctx),
    decreases stores,
{
    match stores {
        List::Nil => {},
        List::Cons(s, rest) => {
            let start = Reduction::inheriting(
                red.ctx,
                System { eq_store: s, ..red.sys },
                red.supply.next,
            );
            lemma_source_case(start, name, b);
            lemma_source_arms(red, name, *rest, b);
        },
    }
}

proof fn lemma_linked<'a>(
    red: Reduction<'a>,
    name: Text,
    old_nodes: List<(LVar, RuleACInst)>,
    b: &'a ProofContext,
)
    requires
        extends(red.ctx, b),
    ensures
        stays(
            red.linked_cases(name, old_nodes),
            over(red, b).linked_cases(name, old_nodes),
            red.ctx,
        ),
{
    let links = edge_eqs(red.sys.edges, red.sys.nodes, old_nodes);
    lemma_source_case(red, name, b);
    lemma_fact_eqs(red, SplitStrategy::SplitNow, links.0, b);
    match red.fact_eqs(SplitStrategy::SplitNow, links.0) {
        Ok((mid, out)) => {
            lemma_source_case(mid, name, b);
            match out {
                SolveOutcome::Cases(arms) => {
                    lemma_source_arms(mid, name, arms, b);
                },
                _ => {},
            }
        },
        Err(_) => {},
    }
}

proof fn lemma_all_linked<'a>(
    red: Reduction<'a>,
    name: Text,
    l: List<(System, u64)>,
    b: &'a ProofContext,
)
    requires
        extends(red.ctx, b),
    ensures
        stays(red.all_linked_cases(name, l), over(red, b).all_linked_cases(name, l), red.ctx),
    decreases l,
{
    match l {
        List::Nil => {},
        List::Cons(s, rest) => {
            lemma_linked(Reduction::inheriting(red.ctx, s.0, s.1), name, red.sys.nodes, b);
            lemma_all_linked(red, name, *rest, b);
        },
    }
}

proof fn lemma_action_source_cases<'a>(
    red: Reduction<'a>,
    i: LVar,
    fa: Fact,
    l: List<ActionSourceCase>,
    made: u64,
    b: &'a ProofContext,
)
    requires
        extends(red.ctx, b),
    ensures
        stays(
            red.action_source_cases(i, fa, l, made),
            over(red, b).action_source_cases(i, fa, l, made),
            red.ctx,
        ),
    decreases l,
{
    match l {
        List::Nil => {},
        List::Cons(c, rest) => {
            let name = Reduction::source_name(c, i, made);
            let sys = System {
                goals: entry_solved(c.sys.goals, Goal::Action(i, fa)),
                ..c.sys
            };
            let start = Reduction::inheriting(red.ctx, sys, c.next);
            lemma_source_systems(start, c.action, fa, b);
            match start.source_systems(c.action, fa) {
                Ok(systems) => {
                    lemma_all_linked(red, name, systems, b);
                    match red.all_linked_cases(name, systems) {
                        Ok(here) => {
                            lemma_action_source_cases(
                                red,
                                i,
                                fa,
                                *rest,
                                plus(made, count(here)),
                                b,
                            );
                        },
                        Err(_) => {},
                    }
                },
                Err(_) => {},
            }
        },
    }
}

proof fn lemma_action_sources<'a>(
    red: Reduction<'a>,
    i: LVar,
    fa: Fact,
    b: &'a ProofContext,
)
    requires
        extends(red.ctx, b),
    ensures
        stays(red.action_sources(i, fa), over(red, b).action_sources(i, fa), red.ctx),
{
}

proof fn lemma_sum_cases<'a>(
    red: Reduction<'a>,
    i: LVar,
    fa: Fact,
    m: Term,
    l: List<(List<Term>, List<Term>)>,
    b: &'a ProofContext,
)
    requires
        extends(red.ctx, b),
    ensures
        over(red, b).sum_cases(i, fa, m, l) == red.sum_cases(i, fa, m, l),
    decreases l,
{
    match l {
        List::Nil => {},
        List::Cons(parts, rest) => {
            lemma_sum_cases(red, i, fa, m, *rest, b);
            let start = Reduction::inheriting(red.ctx, red.sys, red.supply.next);
            let x = ac_app(AcSym::Xor, parts.0);
            let y = ac_app(AcSym::Xor, parts.1);
            let coerced = start.on(start.sys.with_node(i, Reduction::coerce_rule(m, fa)));
            let kd = Fact::plain(FactTag::Kd, List::one(m));
            lemma_goal(coerced, Goal::Premise((i, 0), kd), false, b);
            let summed = start.on(start.sys.with_node(i, Reduction::xor_rule(x, y, fa)));
            let known_x = Fact::plain(FactTag::Ku, List::one(x));
            let known_y = Fact::plain(FactTag::Ku, List::one(y));
            lemma_ku_before(summed, i, known_x, b);
            lemma_ku_before(summed.ku_action_before(i, known_x), i, known_y, b);
        },
    }
}

proof fn lemma_instance<'a>(
    red: Reduction<'a>,
    i: LVar,
    fa: Fact,
    ru: RuleWithConstrs,
    act: Fact,
    b: &'a ProofContext,
)
    requires
        extends(red.ctx, b),
    ensures
        stays(
            red.instance_cases(i, fa, ru, act),
            over(red, b).instance_cases(i, fa, ru, act),
            red.ctx,
        ),
{
    let start = Reduction::of_floor(
        red.ctx,
        red.sys.with_node(i, ru.0),
        red.ctx.refine_floor,
    );
    lemma_variants(start, ru.1, b);
    match start.variants_required(ru.1) {
        Ok((mid, false)) => {
            lemma_exploited(mid, i, ru.0, b);
            match mid.rule_exploited(i, ru.0) {
                Ok(ready) => {
                    lemma_fact_eqs(ready, SplitStrategy::SplitNow, List::one((fa, act)), b);
                },
                Err(_) => {},
            }
        },
        _ => {},
    }
}

proof fn lemma_rule_actions<'a>(
    red: Reduction<'a>,
    i: LVar,
    fa: Fact,
    ru: RuleWithConstrs,
    acts: List<Fact>,
    b: &'a ProofContext,
)
    requires
        extends(red.ctx, b),
    ensures
        stays(
            red.rule_action_cases(i, fa, ru, acts),
            over(red, b).rule_action_cases(i, fa, ru, acts),
            red.ctx,
        ),
    decreases acts,
{
    match acts {
        List::Nil => {},
        List::Cons(act, rest) => {
            lemma_instance(red, i, fa, ru, act, b);
            lemma_rule_actions(red, i, fa, ru, *rest, b);
        },
    }
}

proof fn lemma_candidates<'a>(
    red: Reduction<'a>,
    i: LVar,
    fa: Fact,
    l: List<RuleWithConstrs>,
    avoid: u64,
    base: u64,
    last: u64,
    b: &'a ProofContext,
)
    requires
        extends(red.ctx, b),
    ensures
        stays(
            red.candidate_cases(i, fa, l, avoid, base, last),
            over(red, b).candidate_cases(i, fa, l, avoid, base, last),
            red.ctx,
        ),
    decreases l,
{
    match l {
        List::Nil => {},
        List::Cons(ru, rest) => {
            let fresh = freshened(ru, avoid, Supply { next: base });
            lemma_rule_actions(red, i, fa, fresh.0, fresh.0.0.actions, b);
            lemma_candidates(red, i, fa, *rest, avoid, base, fresh.1.next, b);
            lemma_candidates(red, i, fa, *rest, avoid, base, last, b);
        },
    }
}

proof fn lemma_by_rules<'a>(
    red: Reduction<'a>,
    i: LVar,
    fa: Fact,
    b: &'a ProofContext,
)
    requires
        extends(red.ctx, b),
    ensures
        goes_on(red.action_by_rules(i, fa), over(red, b).action_by_rules(i, fa), red.ctx, b),
{
    let l = action_candidates(red.ctx.intruder_rules, red.ctx.rules);
    let base = red.clear_supply().next;
    let start = Reduction { supply: red.clear_supply(), ..red };
    lemma_candidates(start, i, fa, l, system_max(red.sys), base, base, b);
    match start.candidate_cases(i, fa, l, system_max(red.sys), base, base) {
        Ok(t) => {
            lemma_finish(
                Reduction { supply: t.supply(), ..red },
                t.cases,
                first_name(t.cases),
                b,
            );
        },
        Err(_) => {},
    }
}

proof fn lemma_new_node<'a>(
    red: Reduction<'a>,
    i: LVar,
    fa: Fact,
    b: &'a ProofContext,
)
    requires
        extends(red.ctx, b),
    ensures
        goes_on(red.action_at_new_node(i, fa), over(red, b).action_at_new_node(i, fa), red.ctx, b),
{
    lemma_by_rules(red, i, fa, b);
    match Reduction::known_sum(fa) {
        Some((m, args)) => {
            lemma_sum_cases(red, i, fa, m, partitions(args), b);
            let cases = red.sum_cases(i, fa, m, partitions(args));
            lemma_finish(red, cases, first_name(cases), b);
        },
        None => {},
    }
}

proof fn lemma_action_solved<'a>(
    red: Reduction<'a>,
    i: LVar,
    fa: Fact,
    b: &'a ProofContext,
)
    requires
        extends(red.ctx, b),
    ensures
        goes_on(red.action_solved(i, fa), over(red, b).action_solved(i, fa), red.ctx, b),
{
    let g = Goal::Action(i, fa);
    match find(red.sys.nodes, i) {
        Some(ru) => {
            lemma_done(red, g, b);
            lemma_existing(red, g, fa, ru.actions, rule_case(ru), b);
            match red.existing_cases(g, fa, ru.actions, rule_case(ru)) {
                Ok(cases) => {
                    lemma_finish(red, cases, rule_case(ru), b);
                },
                Err(_) => {},
            }
        },
        None => {
            lemma_action_sources(red, i, fa, b);
            match red.action_sources(i, fa) {
                Ok(answer) => {
                    let start = red.at(answer.next);
                    lemma_new_node(start, i, fa, b);
                    match answer.cases {
                        Some(l) => {
                            lemma_action_source_cases(start, i, fa, l, 0, b);
                            match start.action_source_cases(i, fa, l, 0) {
                                Ok(cases) => {
                                    lemma_finish(start, cases, first_name(cases), b);
                                },
                                Err(_) => {},
                            }
                        },
                        None => {},
                    }
                },
                Err(_) => {},
            }
        },
    }
}

proof fn lemma_premise_source_cases<'a>(
    red: Reduction<'a>,
    l: List<PremiseSourceCase>,
    b: &'a ProofContext,
)
    requires
        extends(red.ctx, b),
    ensures
        stays(red.premise_source_cases(l), over(red, b).premise_source_cases(l), red.ctx),
    decreases l,
{
    match l {
        List::Nil => {},
        List::Cons(c, rest) => {
            lemma_any_conflated(red.ctx, consumers(c.sys, c.sys.nodes), b);
            lemma_premise_source_cases(red, *rest, b);
        },
    }
}

proof fn lemma_premise_sources<'a>(
    red: Reduction<'a>,
    p: NodePrem,
    fa: Fact,
    b: &'a ProofContext,
)
    requires
        extends(red.ctx, b),
    ensures
        stays(red.premise_sources(p, fa), over(red, b).premise_sources(p, fa), red.ctx),
{
}

proof fn lemma_supplied<'a>(
    red: Reduction<'a>,
    g: Goal,
    name: Text,
    l: List<System>,
    b: &'a ProofContext,
)
    requires
        extends(red.ctx, b),
    ensures
        stays(red.supplied_cases(g, name, l), over(red, b).supplied_cases(g, name, l), red.ctx),
    decreases l,
{
    match l {
        List::Nil => {},
        List::Cons(sys, rest) => {
            let start = Reduction::inheriting(
                red.ctx,
                with_goal_solved(sys, g),
                red.supply.next,
            );
            lemma_substituted(start, b);
            lemma_supplied(red, g, name, *rest, b);
        },
    }
}

proof fn lemma_conclusions<'a>(
    red: Reduction<'a>,
    p: NodePrem,
    fa: Fact,
    name: Text,
    node: LVar,
    concs: List<Fact>,
    k: u64,
    b: &'a ProofContext,
)
    requires
        extends(red.ctx, b),
    ensures
        stays(
            red.conclusion_cases(p, fa, name, node, concs, k),
            over(red, b).conclusion_cases(p, fa, name, node, concs, k),
            red.ctx,
        ),
    decreases concs,
{
    match concs {
        List::Nil => {},
        List::Cons(fc, rest) => {
            let start = Reduction::inheriting(red.ctx, red.sys, red.supply.next);
            let e = Edge { src: (node, k), tgt: p };
            lemma_edge(start, e, Some(fc), Some(fa), b);
            match start.edge_inserted(e, Some(fc), Some(fa)) {
                Ok((mid, out)) => {
                    lemma_supplied(
                        mid,
                        Goal::Premise(p, fa),
                        name,
                        arm_systems(out, mid.sys),
                        b,
                    );
                },
                Err(_) => {},
            }
            lemma_conclusions(red, p, fa, name, node, *rest, plus(k, 1), b);
        },
    }
}

proof fn lemma_supplier<'a>(
    red: Reduction<'a>,
    p: NodePrem,
    fa: Fact,
    node: LVar,
    ru: RuleWithConstrs,
    next: u64,
    b: &'a ProofContext,
)
    requires
        extends(red.ctx, b),
    ensures
        stays(
            red.supplier_cases(p, fa, node, ru, next),
            over(red, b).supplier_cases(p, fa, node, ru, next),
            red.ctx,
        ),
{
    let start = Reduction::inheriting(red.ctx, red.sys.with_node(node, ru.0), next);
    lemma_variants(start, ru.1, b);
    match start.variants_required(ru.1) {
        Ok((mid, _)) => {
            lemma_exploited(mid, node, ru.0, b);
            match mid.rule_exploited(node, ru.0) {
                Ok(ready) => {
                    lemma_conclusions(
                        ready,
                        p,
                        fa,
                        rule_case(ru.0),
                        node,
                        ru.0.conclusions,
                        0,
                        b,
                    );
                },
                Err(_) => {},
            }
        },
        Err(_) => {},
    }
}

proof fn lemma_premise_candidates<'a>(
    red: Reduction<'a>,
    p: NodePrem,
    fa: Fact,
    node: LVar,
    l: List<RuleWithConstrs>,
    avoid: u64,
    base: u64,
    last: u64,
    b: &'a ProofContext,
)
    requires
        extends(red.ctx, b),
    ensures
        stays(
            red.premise_candidate_cases(p, fa, node, l, avoid, base, last),
            over(red, b).premise_candidate_cases(p, fa, node, l, avoid, base, last),
            red.ctx,
        ),
    decreases l,
{
    match l {
        List::Nil => {},
        List::Cons(ru, rest) => {
            let fresh = freshened(ru, avoid, Supply { next: base });
            lemma_supplier(red, p, fa, node, fresh.0, fresh.1.next, b);
            lemma_premise_candidates(red, p, fa, node, *rest, avoid, base, fresh.1.next, b);
            lemma_premise_candidates(red, p, fa, node, *rest, avoid, base, last, b);
        },
    }
}

proof fn lemma_premise_by_rules<'a>(
    red: Reduction<'a>,
    p: NodePrem,
    fa: Fact,
    b: &'a ProofContext,
)
    requires
        extends(red.ctx, b),
    ensures
        goes_on(red.premise_by_rules(p, fa), over(red, b).premise_by_rules(p, fa), red.ctx, b),
{
    let node = node_var("vr"@, red.clear_supply().next);
    let supply = red.clear_supply().taken(1);
    let base = supply.next;
    let l = premise_candidates(red.ctx.intruder_rules, red.ctx.rules);
    let start = Reduction { supply, ..red };
    lemma_premise_candidates(start, p, fa, node, l, system_max(red.sys), base, base, b);
    match start.premise_candidate_cases(p, fa, node, l, system_max(red.sys), base, base) {
        Ok(t) => {
            lemma_finish(
                Reduction { supply: t.supply(), ..red },
                t.cases,
                first_name(t.cases),
                b,
            );
        },
        Err(_) => {},
    }
}

proof fn lemma_plain_premise<'a>(
    red: Reduction<'a>,
    p: NodePrem,
    fa: Fact,
    b: &'a ProofContext,
)
    requires
        extends(red.ctx, b),
    ensures
        goes_on(
            red.plain_premise_solved(p, fa),
            over(red, b).plain_premise_solved(p, fa),
            red.ctx,
            b,
        ),
{
    lemma_premise_sources(red, p, fa, b);
    match red.premise_sources(p, fa) {
        Ok(answer) => {
            let start = red.at(answer.next);
            lemma_premise_by_rules(start, p, fa, b);
            match answer.cases {
                Some(l) => {
                    lemma_premise_source_cases(start, l, b);
                    match start.premise_source_cases(l) {
                        Ok(cases) => {
                            lemma_finish(start, cases, first_name(cases), b);
                        },
                        Err(_) => {},
                    }
                },
                None => {},
            }
        },
        Err(_) => {},
    }
}

proof fn lemma_chain_started<'a>(
    red: Reduction<'a>,
    p: NodePrem,
    fa: Fact,
    b: &'a ProofContext,
)
    requires
        extends(red.ctx, b),
    ensures
        red.chain_started(p, fa).ctx == red.ctx,
        over(red, b).chain_started(p, fa) == over(red.chain_started(p, fa), b),
{
    let node = node_var("vl"@, red.clear_supply().next);
    let start = Reduction { supply: red.clear_supply().taken(1).taken(1), ..red }.on(
        red.sys.with_node(node, Reduction::irecv_rule(red.learned())),
    );
    let g = Goal::Chain((node, 0), p);
    lemma_goal(start, g, false, b);
    lemma_done(start.goal_inserted(g, false), Goal::Premise(p, fa), b);
}

proof fn lemma_premise_solved<'a>(
    red: Reduction<'a>,
    p: NodePrem,
    fa: Fact,
    b: &'a ProofContext,
)
    requires
        extends(red.ctx, b),
    ensures
        goes_on(red.premise_solved(p, fa), over(red, b).premise_solved(p, fa), red.ctx, b),
{
    if fa.tag is Kd {
        let node = node_var("vl"@, red.clear_supply().next);
        lemma_chain_started(red, p, fa, b);
        lemma_plain_premise(
            red.chain_started(p, fa),
            (node, 0),
            Fact::plain(FactTag::Out, List::one(red.learned())),
            b,
        );
    } else {
        lemma_plain_premise(red, p, fa, b);
    }
}

proof fn lemma_extended<'a>(
    red: Reduction<'a>,
    g: Goal,
    p: NodePrem,
    node: LVar,
    prem: Fact,
    name: Text,
    l: List<System>,
    b: &'a ProofContext,
)
    requires
        extends(red.ctx, b),
    ensures
        over(red, b).extended_cases(g, p, node, prem, name, l) == red.extended_cases(
            g,
            p,
            node,
            prem,
            name,
            l,
        ),
    decreases l,
{
    match l {
        List::Nil => {},
        List::Cons(sys, rest) => {
            let start = Reduction::inheriting(red.ctx, sys, red.supply.next);
            let done = Goal::Premise((node, 0), prem);
            lemma_done(start, done, b);
            lemma_goal(start.goal_done(done), Goal::Chain((node, 0), p), false, b);
            lemma_extended(red, g, p, node, prem, name, *rest, b);
        },
    }
}

proof fn lemma_step<'a>(
    red: Reduction<'a>,
    c: NodeConc,
    p: NodePrem,
    node: LVar,
    prem: Fact,
    name: Text,
    b: &'a ProofContext,
)
    requires
        extends(red.ctx, b),
    ensures
        stays(
            red.step_cases(c, p, node, prem, name),
            over(red, b).step_cases(c, p, node, prem, name),
            red.ctx,
        ),
{
    let e = Edge { src: c, tgt: (node, 0) };
    lemma_edge(red, e, red.source_fact(e), red.target_fact(e), b);
    match red.edge_inserted(e, red.source_fact(e), red.target_fact(e)) {
        Ok((mid, out)) => {
            lemma_extended(
                mid,
                Goal::Chain(c, p),
                p,
                node,
                prem,
                name,
                arm_systems(out, mid.sys),
                b,
            );
        },
        Err(_) => {},
    }
}

proof fn lemma_direct<'a>(
    red: Reduction<'a>,
    c: NodeConc,
    p: NodePrem,
    c_rule: RuleACInst,
    fa: Fact,
    b: &'a ProofContext,
)
    requires
        extends(red.ctx, b),
    ensures
        stays(
            red.direct_cases(c, p, c_rule, fa),
            over(red, b).direct_cases(c, p, c_rule, fa),
            red.ctx,
        ),
{
    let e = Edge { src: c, tgt: p };
    let start = Reduction::inheriting(red.ctx, red.sys, red.supply.next);
    lemma_edge(start, e, start.source_fact(e), start.target_fact(e), b);
}

proof fn lemma_union<'a>(
    red: Reduction<'a>,
    c: NodeConc,
    p: NodePrem,
    node: LVar,
    union: Term,
    args: List<Term>,
    b: &'a ProofContext,
)
    requires
        extends(red.ctx, b),
    ensures
        stays(
            red.union_cases(c, p, node, union, args),
            over(red, b).union_cases(c, p, node, union, args),
            red.ctx,
        ),
    decreases args,
{
    match args {
        List::Nil => {},
        List::Cons(t, rest) => {
            let ru = Reduction::union_rule(union, t);
            let start = Reduction::inheriting(
                red.ctx,
                red.sys.with_node(node, ru),
                red.supply.next,
            );
            let kd = Fact::plain(FactTag::Kd, List::one(union));
            lemma_step(start, c, p, node, kd, rule_case(ru), b);
            lemma_union(red, c, p, node, union, *rest, b);
        },
    }
}

proof fn lemma_destruction<'a>(
    red: Reduction<'a>,
    c: NodeConc,
    p: NodePrem,
    c_rule: RuleACInst,
    fa: Fact,
    node: LVar,
    ru: RuleACInst,
    next: u64,
    b: &'a ProofContext,
)
    requires
        extends(red.ctx, b),
    ensures
        stays(
            red.destruction_cases(c, p, c_rule, fa, node, ru, next),
            over(red, b).destruction_cases(c, p, c_rule, fa, node, ru, next),
            red.ctx,
        ),
{
    match ru.premises {
        List::Nil => {},
        List::Cons(prem, _) => {
            let start = Reduction::inheriting(red.ctx, red.sys.with_node(node, ru), next);
            lemma_exploited(start, node, ru, b);
            match start.rule_exploited(node, ru) {
                Ok(mid) => {
                    lemma_step(mid, c, p, node, prem, rule_case(ru), b);
                },
                Err(_) => {},
            }
        },
    }
}

proof fn lemma_destructions<'a>(
    red: Reduction<'a>,
    c: NodeConc,
    p: NodePrem,
    c_rule: RuleACInst,
    fa: Fact,
    node: LVar,
    l: List<IntrRuleAC>,
    base: u64,
    last: u64,
    b: &'a ProofContext,
)
    requires
        extends(red.ctx, b),
    ensures
        stays(
            red.all_destruction_cases(c, p, c_rule, fa, node, l, base, last),
            over(red, b).all_destruction_cases(c, p, c_rule, fa, node, l, base, last),
            red.ctx,
        ),
    decreases l,
{
    match l {
        List::Nil => {},
        List::Cons(ir, rest) => {
            let fresh = freshened(
                (intr_instance(ir), None),
                system_max(red.sys),
                Supply { next: base },
            );
            let ru = Reduction::budgeted(c_rule, fresh.0.0);
            lemma_destruction(red, c, p, c_rule, fa, node, ru, fresh.1.next, b);
            lemma_destructions(red, c, p, c_rule, fa, node, *rest, base, fresh.1.next, b);
            lemma_destructions(red, c, p, c_rule, fa, node, *rest, base, last, b);
        },
    }
}

proof fn lemma_onward<'a>(
    red: Reduction<'a>,
    c: NodeConc,
    p: NodePrem,
    c_rule: RuleACInst,
    fa: Fact,
    b: &'a ProofContext,
)
    requires
        extends(red.ctx, b),
    ensures
        stays(
            red.onward_cases(c, p, c_rule, fa),
            over(red, b).onward_cases(c, p, c_rule, fa),
            red.ctx,
        ),
{
    let node = node_var("vr"@, red.clear_supply().next);
    let supply = red.clear_supply().taken(1);
    let start = Reduction { supply, ..red };
    match Reduction::reached_union(fa) {
        Some((union, args)) => {
            lemma_union(start, c, p, node, union, args, b);
        },
        None => {
            lemma_destructions(
                start,
                c,
                p,
                c_rule,
                fa,
                node,
                red.ctx.intruder_rules,
                supply.next,
                supply.next,
                b,
            );
        },
    }
}

proof fn lemma_chain_solved<'a>(
    red: Reduction<'a>,
    c: NodeConc,
    p: NodePrem,
    b: &'a ProofContext,
)
    requires
        extends(red.ctx, b),
    ensures
        goes_on(red.chain_solved(c, p), over(red, b).chain_solved(c, p), red.ctx, b),
{
    match find(red.sys.nodes, c.0) {
        None => {},
        Some(c_rule) => match c_rule.conclusions.nth(c.1 as nat) {
            None => {},
            Some(fa) => {
                lemma_direct(red, c, p, c_rule, fa, b);
                lemma_onward(red, c, p, c_rule, fa, b);
                match (red.direct_cases(c, p, c_rule, fa), red.onward_cases(c, p, c_rule, fa)) {
                    (Ok(direct), Ok((onward, supply))) => {
                        let cases = direct.then_all(onward);
                        lemma_finish(Reduction { supply, ..red }, cases, first_name(cases), b);
                    },
                    _ => {},
                }
            },
        },
    }
}

/// Solving a goal asks nothing that is answered; and once it comes to an end, answers
/// that are added do not change how.
pub proof fn law_solving_goes_on<'a>(
    red: Reduction<'a>,
    g: Goal,
    b: &'a ProofContext,
)
    requires
        extends(red.ctx, b),
    ensures
        goes_on(red.dispatched(g), over(red, b).dispatched(g), red.ctx, b),
{
    reveal(Reduction::dispatched);
    match g {
        Goal::Action(i, fa) => {
            lemma_action_solved(red, i, fa, b);
        },
        Goal::Premise(p, fa) => {
            lemma_premise_solved(red, p, fa, b);
        },
        Goal::Chain(c, p) => {
            lemma_chain_solved(red, c, p, b);
        },
        Goal::Split(id) => {
            lemma_split_solved(red, id, b);
        },
        Goal::Disj(l) => {
            lemma_disj_solved(red, l, b);
        },
        Goal::Subterm(small, big) => {
            lemma_subterm_solved(red, small, big, b);
        },
    }
}

/// Whether a system is finished depends on no answer that was not needed, and asks for
/// none that is there.
pub proof fn law_finish_goes_on(
    a: &ProofContext,
    sys: System,
    b: &ProofContext,
)
    requires
        extends(a, b),
    ensures
        stays(finished(a, sys), finished(b, sys), a),
{
}

proof fn lemma_positions(
    a: &ProofContext,
    l: List<System>,
    b: &ProofContext,
)
    requires
        extends(a, b),
    ensures
        stays(kept_positions(a, l), kept_positions(b, l), a),
{
}

proof fn lemma_processed(
    a: &ProofContext,
    cases: List<(Text, System)>,
    b: &ProofContext,
)
    requires
        extends(a, b),
    ensures
        stays(processed(a, cases), processed(b, cases), a),
{
    lemma_positions(a, systems(cases), b);
}

proof fn lemma_simplify(
    a: &ProofContext,
    sys: System,
    seed: Option<u64>,
    b: &ProofContext,
)
    requires
        extends(a, b),
    ensures
        stays(simplified_systems(a, sys, seed), simplified_systems(b, sys, seed), a),
{
}

proof fn lemma_simplify_cases(
    a: &ProofContext,
    sys: System,
    b: &ProofContext,
)
    requires
        extends(a, b),
    ensures
        stays(simplify_cases(a, sys), simplify_cases(b, sys), a),
{
    reveal(simplify_cases);
    lemma_simplify(a, sys, None, b);
    match simplified_systems(a, sys, None) {
        Ok(l) => {
            lemma_positions(a, surviving(l), b);
        },
        Err(_) => {},
    }
}

proof fn lemma_all_simplified(
    a: &ProofContext,
    l: List<Case>,
    b: &ProofContext,
)
    requires
        extends(a, b),
    ensures
        stays(all_simplified(a, l), all_simplified(b, l), a),
    decreases l,
{
    match l {
        List::Nil => {},
        List::Cons(c, rest) => {
            lemma_simplify(a, c.sys, Some(c.next), b);
            lemma_all_simplified(a, *rest, b);
        },
    }
}

proof fn lemma_goal_cases(
    a: &ProofContext,
    g: Goal,
    sys: System,
    b: &ProofContext,
)
    requires
        extends(a, b),
    ensures
        stays(goal_cases(a, g, sys), goal_cases(b, g, sys), a),
{
    reveal(goal_cases);
    let start = Reduction::of_floor(a, sys, a.refine_floor);
    law_solving_goes_on(start, g, b);
    assert(Reduction::of_floor(b, sys, b.refine_floor) == over(start, b));
    match start.dispatched(g) {
        Ok((end, out)) => match outcome_cases(end, out) {
            Some(cases) => {
                lemma_all_simplified(a, cases, b);
                match all_simplified(a, cases) {
                    Ok(kept) => {
                        lemma_processed(a, kept, b);
                    },
                    Err(_) => {},
                }
            },
            None => {},
        },
        Err(_) => {},
    }
}

proof fn lemma_induction_case(
    a: &ProofContext,
    sys: System,
    name: Text,
    fm: Guarded,
    b: &ProofContext,
)
    requires
        extends(a, b),
    ensures
        stays(induction_case(a, sys, name, fm), induction_case(b, sys, name, fm), a),
{
    lemma_simplify(a, System { formulas: List::one(fm), ..sys }, None, b);
}

proof fn lemma_induction_cases(
    a: &ProofContext,
    sys: System,
    b: &ProofContext,
)
    requires
        extends(a, b),
    ensures
        stays(induction_cases(a, sys), induction_cases(b, sys), a),
{
    reveal(induction_cases);
    match sys.formulas {
        List::Nil => {},
        List::Cons(fm, _) => match find(a.answers.induction, fm) {
            Some(Some((base, step))) => {
                let first_name = text_of("empty_trace"@);
                let second_name = text_of("non_empty_trace"@);
                lemma_induction_case(a, sys, first_name, base, b);
                lemma_induction_case(a, sys, second_name, step, b);
                match (
                    induction_case(a, sys, first_name, base),
                    induction_case(a, sys, second_name, step),
                ) {
                    (Ok(first), Ok(second)) => {
                        lemma_processed(a, first.then_all(second), b);
                    },
                    _ => {},
                }
            },
            _ => {},
        },
    }
}

/// Carrying out a proof method asks nothing that is answered; and once it has led to
/// cases, answers that are added do not change them.
pub proof fn law_execution_goes_on(
    a: &ProofContext,
    method: ProofMethod,
    sys: System,
    b: &ProofContext,
)
    requires
        extends(a, b),
    ensures
        stays(executed(a, method, sys), executed(b, method, sys), a),
{
    match method {
        ProofMethod::Simplify => {
            lemma_simplify_cases(a, sys, b);
        },
        ProofMethod::SolveGoal(g) => {
            lemma_goal_cases(a, g, sys, b);
        },
        ProofMethod::Induction => {
            lemma_induction_cases(a, sys, b);
        },
        _ => {},
    }
}

/// The same of a proof method that is checked first.
pub proof fn law_checked_execution_goes_on(
    a: &ProofContext,
    method: ProofMethod,
    sys: System,
    b: &ProofContext,
)
    requires
        extends(a, b),
    ensures
        stays(checked_and_executed(a, method, sys), checked_and_executed(b, method, sys), a),
{
    law_finish_goes_on(a, sys, b);
    law_execution_goes_on(a, method, sys, b);
}

} // verus!
