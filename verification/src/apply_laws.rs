//! What applying the substitution to a system leaves behind.
use crate::bounds::{subst_max, system_max};
use crate::constraints::{Edge, Goal, GoalStatus, LessAtom, Reason, SubtermConstraint};
use crate::context::{AddEqsAnswer, AddEqsQuery, Answers, Query, SimpQuery};
use crate::equations::{argument_eqs, nontrivial};
use crate::facts::{applied_facts, Fact, RuleACInst};
use crate::leaves::FormulaSubst;
use crate::list::{find, List, Ordered};
use crate::list_laws::{
    all, distinct, law_dedup_distinct, lemma_all_nub, lemma_all_snoc, lemma_all_sorted,
    lemma_all_then, lemma_distinct_snoc,
};
use crate::reduction::{
    components, first_term, goal_parts, goal_weight, ku_goal, lemma_goal_parts, lemma_term_size,
    node_var, terms_size, Reduction, SplitStrategy,
};
use crate::subst_laws::{law_orderings_once, law_passed_goals_once, law_untouched_term_stays};
use crate::subst_system::{
    alike_eqs, applied_goal, applied_nodes, applied_pairs, applied_subterms, distinct_lesses,
    facts_touched, goal_touched, merged_nodes, passed_goals, renamed_edge, renamed_edges,
    renamed_less, renamed_lesses, renamed_nodes, renames, rule_touched, GoalPass, NodeMerge, PASSES,
};
use crate::system::{combined, orders, put_goal, System};
use crate::system_laws::{
    law_equations_keep_graph, law_goal_inserted, node_ids, orderly, same_otherwise,
};
use crate::term_ops::{
    after, app, applied, applied_all, flat_term, flat_terms, larger, renamed, touches,
    touches_any, Subst,
};
use crate::terms::{AcSym, FunSym, LVar, Term};
use vstd::prelude::*;

verus! {

/// Whether the substitution binds none of the variables that it puts in place of
/// others.
pub open spec fn resolved(s: Subst) -> bool {
    forall|v: LVar| #[trigger] find(s, v) matches Some(t) ==> !touches(s, t)
}

/// Whether the substitution reaches a term.
pub open spec fn touching(s: Subst) -> spec_fn(Term) -> bool {
    |t: Term| !touches(s, t)
}

proof fn lemma_touching(s: Subst, l: List<Term>)
    ensures
        touches_any(s, l) == !all(l, touching(s)),
    decreases l,
{
    match l {
        List::Nil => {},
        List::Cons(_, rest) => {
            lemma_touching(s, *rest);
        },
    }
}

proof fn lemma_flat_touched(s: Subst, g: AcSym, t: Term)
    ensures
        all(flat_term(g, t), touching(s)) == !touches(s, t),
    decreases t,
{
    match t {
        Term::App(FunSym::Ac(f), args) if f == g => {
            lemma_flats_touched(s, g, *args);
        },
        _ => {
            assert(all(List::Nil, touching(s)));
        },
    }
}

proof fn lemma_flats_touched(s: Subst, g: AcSym, l: List<Term>)
    ensures
        all(flat_terms(g, l), touching(s)) == !touches_any(s, l),
    decreases l,
{
    match l {
        List::Nil => {},
        List::Cons(t, rest) => {
            lemma_flat_touched(s, g, t);
            lemma_flats_touched(s, g, *rest);
            lemma_all_then(flat_term(g, t), flat_terms(g, *rest), touching(s));
        },
    }
}

/// The normal form of an application has the variables of its arguments.
pub proof fn law_normal_form_keeps_variables(s: Subst, f: FunSym, l: List<Term>)
    ensures
        touches(s, app(f, l)) == touches_any(s, l),
{
    match f {
        FunSym::Ac(g) => {
            lemma_flats_touched(s, g, l);
            let flat = flat_terms(g, l);
            lemma_all_sorted(flat, touching(s));
            lemma_touching(s, flat.sorted());
            assert(all(List::Nil, touching(s)));
            assert(!touches_any(s, List::Nil));
        },
        FunSym::EMap => {
            lemma_all_sorted(l, touching(s));
            lemma_touching(s, l);
            lemma_touching(s, l.sorted());
        },
        _ => {},
    }
}

/// A substitution that is resolved leaves no variable that it binds, and applying
/// it again changes nothing.
pub proof fn law_applied_once(s: Subst, t: Term)
    requires
        resolved(s),
    ensures
        !touches(s, applied(s, t)),
        applied(s, applied(s, t)) == applied(s, t),
    decreases t,
{
    match t {
        Term::Var(v) => {
            assert(find(s, v) matches Some(u) ==> !touches(s, u));
        },
        Term::App(f, args) => {
            if touches_any(s, *args) {
                law_all_applied_once(s, *args);
                law_normal_form_keeps_variables(s, f, applied_all(s, *args));
            }
        },
        _ => {},
    }
    law_untouched_term_stays(s, applied(s, t));
}

/// A substitution that is resolved leaves no variable that it binds.
pub proof fn law_all_applied_once(s: Subst, l: List<Term>)
    requires
        resolved(s),
    ensures
        !touches_any(s, applied_all(s, l)),
    decreases l,
{
    match l {
        List::Nil => {},
        List::Cons(t, rest) => {
            law_applied_once(s, t);
            law_all_applied_once(s, *rest);
        },
    }
}

/// A substitution that is resolved renames a variable at most once.
pub proof fn law_renamed_once(s: Subst, v: LVar)
    requires
        resolved(s),
    ensures
        renamed(s, renamed(s, v)) == renamed(s, v),
        !renames(s, renamed(s, v)),
{
    match find(s, v) {
        Some(Term::Var(w)) => {
            assert(!touches(s, Term::Var(w)));
        },
        _ => {},
    }
}

proof fn lemma_facts_applied(s: Subst, l: List<Fact>)
    requires
        resolved(s),
    ensures
        !facts_touched(s, applied_facts(s, l)),
    decreases l,
{
    match l {
        List::Nil => {},
        List::Cons(fa, rest) => {
            law_all_applied_once(s, fa.terms);
            lemma_facts_applied(s, *rest);
        },
    }
}

/// Whether the substitution does not reach a node.
pub open spec fn node_clear(s: Subst) -> spec_fn((LVar, RuleACInst)) -> bool {
    |n: (LVar, RuleACInst)| renamed(s, n.0) == n.0 && !rule_touched(s, n.1)
}

/// Whether the substitution does not reach an edge.
pub open spec fn edge_clear(s: Subst) -> spec_fn(Edge) -> bool {
    |e: Edge| renamed_edge(s, e) == e
}

/// Whether the substitution does not reach an ordering.
pub open spec fn less_clear(s: Subst) -> spec_fn(LessAtom) -> bool {
    |a: LessAtom| renamed_less(s, a) == a
}

/// Whether the substitution does not reach a goal; disjunctions are substituted
/// as formulas are.
pub open spec fn goal_clear(s: Subst) -> spec_fn((Goal, GoalStatus)) -> bool {
    |g: (Goal, GoalStatus)| g.0 is Disj || !goal_touched(s, List::Nil, g.0)
}

/// Whether the substitution does not reach a subterm constraint.
pub open spec fn constraint_clear(s: Subst) -> spec_fn(SubtermConstraint) -> bool {
    |c: SubtermConstraint| !touches(s, c.small) && !touches(s, c.big)
}

/// Whether the substitution does not reach a pair of terms.
pub open spec fn pair_clear(s: Subst) -> spec_fn((Term, Term)) -> bool {
    |p: (Term, Term)| !touches(s, p.0) && !touches(s, p.1)
}

/// Whether an identifier is what it is renamed to.
spec fn id_clear(s: Subst) -> spec_fn((LVar, RuleACInst)) -> bool {
    |n: (LVar, RuleACInst)| renamed(s, n.0) == n.0
}

proof fn lemma_ids_clear(s: Subst, l: List<(LVar, RuleACInst)>)
    requires
        resolved(s),
    ensures
        all(renamed_nodes(s, l), id_clear(s)),
    decreases l,
{
    match l {
        List::Nil => {},
        List::Cons(n, rest) => {
            law_renamed_once(s, n.0);
            lemma_ids_clear(s, *rest);
        },
    }
}

proof fn lemma_merge_clear(m: NodeMerge, l: List<(LVar, RuleACInst)>, s: Subst)
    requires
        all(m.nodes, id_clear(s)),
        all(l, id_clear(s)),
    ensures
        all(m.with_all(l).nodes, id_clear(s)),
    decreases l,
{
    match l {
        List::Nil => {},
        List::Cons(n, rest) => {
            lemma_all_snoc(m.nodes, n, id_clear(s));
            lemma_merge_clear(m.with(n.0, n.1), *rest, s);
        },
    }
}

proof fn lemma_applied_nodes_clear(s: Subst, l: List<(LVar, RuleACInst)>)
    requires
        resolved(s),
        all(l, id_clear(s)),
    ensures
        all(applied_nodes(s, l), node_clear(s)),
    decreases l,
{
    match l {
        List::Nil => {},
        List::Cons(n, rest) => {
            lemma_facts_applied(s, n.1.premises);
            lemma_facts_applied(s, n.1.conclusions);
            lemma_facts_applied(s, n.1.actions);
            law_all_applied_once(s, n.1.new_vars);
            lemma_applied_nodes_clear(s, *rest);
        },
    }
}

proof fn lemma_nodes_clear(s: Subst, l: List<(LVar, RuleACInst)>)
    requires
        resolved(s),
    ensures
        all(applied_nodes(s, merged_nodes(s, l).nodes), node_clear(s)),
{
    lemma_ids_clear(s, l.sorted());
    lemma_merge_clear(NodeMerge::none(), renamed_nodes(s, l.sorted()), s);
    lemma_applied_nodes_clear(s, merged_nodes(s, l).nodes);
}

proof fn lemma_edges_clear(s: Subst, l: List<Edge>)
    requires
        resolved(s),
    ensures
        all(renamed_edges(s, l), edge_clear(s)),
    decreases l,
{
    match l {
        List::Nil => {},
        List::Cons(e, rest) => {
            law_renamed_once(s, e.src.0);
            law_renamed_once(s, e.tgt.0);
            lemma_edges_clear(s, *rest);
        },
    }
}

proof fn lemma_lesses_clear(s: Subst, l: List<LessAtom>)
    requires
        resolved(s),
    ensures
        all(renamed_lesses(s, l), less_clear(s)),
    decreases l,
{
    match l {
        List::Nil => {},
        List::Cons(a, rest) => {
            law_renamed_once(s, a.smaller);
            law_renamed_once(s, a.larger);
            lemma_lesses_clear(s, *rest);
        },
    }
}

proof fn lemma_distinct_clear(s: Subst, acc: List<LessAtom>, l: List<LessAtom>)
    requires
        all(acc, less_clear(s)),
        all(l, less_clear(s)),
    ensures
        all(distinct_lesses(acc, l), less_clear(s)),
    decreases l,
{
    match l {
        List::Nil => {},
        List::Cons(a, rest) => {
            lemma_all_snoc(acc, a, less_clear(s));
            let more = if orders(acc, a.smaller, a.larger) {
                acc
            } else {
                acc.snoc(a)
            };
            lemma_distinct_clear(s, more, *rest);
        },
    }
}

proof fn lemma_subterms_clear(s: Subst, l: List<SubtermConstraint>)
    requires
        resolved(s),
    ensures
        all(applied_subterms(s, l), constraint_clear(s)),
    decreases l,
{
    match l {
        List::Nil => {},
        List::Cons(c, rest) => {
            law_applied_once(s, c.small);
            law_applied_once(s, c.big);
            lemma_subterms_clear(s, *rest);
        },
    }
}

proof fn lemma_pairs_clear(s: Subst, l: List<(Term, Term)>)
    requires
        resolved(s),
    ensures
        all(applied_pairs(s, l), pair_clear(s)),
    decreases l,
{
    match l {
        List::Nil => {},
        List::Cons(p, rest) => {
            law_applied_once(s, p.0);
            law_applied_once(s, p.1);
            lemma_pairs_clear(s, *rest);
        },
    }
}

/// The substitution does not reach a goal to which it has been applied.
pub proof fn law_applied_goal_is_clear(s: Subst, fs: FormulaSubst, g: Goal, status: GoalStatus)
    requires
        resolved(s),
    ensures
        goal_clear(s)((applied_goal(s, fs, g), status)),
{
    match g {
        Goal::Action(i, fa) => {
            law_renamed_once(s, i);
            law_all_applied_once(s, fa.terms);
        },
        Goal::Premise(p, fa) => {
            law_renamed_once(s, p.0);
            law_all_applied_once(s, fa.terms);
        },
        Goal::Chain(c, p) => {
            law_renamed_once(s, c.0);
            law_renamed_once(s, p.0);
        },
        Goal::Subterm(t, u) => {
            law_applied_once(s, t);
            law_applied_once(s, u);
        },
        _ => {},
    }
}

proof fn lemma_put_clear(s: Subst, l: List<(Goal, GoalStatus)>, g: Goal, status: GoalStatus)
    requires
        all(l, goal_clear(s)),
        goal_clear(s)((g, status)),
    ensures
        all(put_goal(l, g, status), goal_clear(s)),
    decreases l,
{
    match l {
        List::Nil => {
            assert(all(List::Nil, goal_clear(s)));
        },
        List::Cons(e, rest) => {
            if e.0 == g {
                assert(goal_clear(s)((g, combined(e.1, status))));
            } else {
                lemma_put_clear(s, *rest, g, status);
            }
        },
    }
}

proof fn lemma_goal_pass_clear(
    p: GoalPass,
    s: Subst,
    fs: FormulaSubst,
    l: List<(Goal, GoalStatus)>,
)
    requires
        resolved(s),
        all(p.kept, goal_clear(s)),
        all(p.reopened, goal_clear(s)),
    ensures
        all(p.with_all(s, fs, l).kept, goal_clear(s)),
        all(p.with_all(s, fs, l).reopened, goal_clear(s)),
    decreases l,
{
    match l {
        List::Nil => {},
        List::Cons(g, rest) => {
            let image = applied_goal(s, fs, g.0);
            law_applied_goal_is_clear(s, fs, g.0, g.1);
            lemma_all_snoc(p.reopened, (image, g.1), goal_clear(s));
            lemma_put_clear(s, p.kept, image, g.1);
            lemma_goal_pass_clear(p.with(s, fs, g.0, g.1), s, fs, *rest);
        },
    }
}

/// The substitution reaches no goal after a pass: none that stays, and none that
/// is taken apart again.
pub proof fn law_passed_goals_are_clear(s: Subst, fs: FormulaSubst, l: List<(Goal, GoalStatus)>)
    requires
        resolved(s),
    ensures
        all(passed_goals(s, fs, l).kept, goal_clear(s)),
        all(passed_goals(s, fs, l).reopened, goal_clear(s)),
{
    let start = GoalPass { kept: List::Nil, reopened: List::Nil, value_changed: false };
    lemma_goal_pass_clear(start, s, fs, l.sorted());
}

/// Whether the substitution reaches neither the nodes nor the edges nor the last
/// node nor the subterm constraints.
pub open spec fn graph_clear(s: Subst, sys: System) -> bool {
    &&& all(sys.nodes, node_clear(s))
    &&& all(sys.edges, edge_clear(s))
    &&& (sys.last_atom matches Some(i) ==> renamed(s, i) == i)
    &&& all(sys.subterm_store.subterms, constraint_clear(s))
    &&& all(sys.subterm_store.solved_subterms, constraint_clear(s))
    &&& all(sys.subterm_store.neg_subterms, pair_clear(s))
}

/// Whether the substitution reaches neither the orderings nor the goals.
pub open spec fn tasks_clear(s: Subst, sys: System) -> bool {
    &&& all(sys.less_atoms, less_clear(s))
    &&& all(sys.goals, goal_clear(s))
}

proof fn lemma_reopened_graph(red: Reduction, l: List<(Goal, GoalStatus)>)
    ensures
        same_otherwise(red.sys, red.goals_reopened(l).sys),
        red.goals_reopened(l).ctx == red.ctx,
    decreases l,
{
    match l {
        List::Nil => {},
        List::Cons(g, rest) => {
            law_goal_inserted(red, g.0, g.1.looping);
            lemma_reopened_graph(red.goal_inserted(g.0, g.1.looping), *rest);
        },
    }
}

proof fn lemma_term_eqs_clear(
    red: Reduction,
    strategy: SplitStrategy,
    eqs: List<(Term, Term)>,
    s: Subst,
)
    requires
        graph_clear(s, red.sys),
    ensures
        red.term_eqs(strategy, eqs) matches Ok((end, _)) ==> graph_clear(s, end.sys) && (
        tasks_clear(s, red.sys) ==> tasks_clear(s, end.sys)),
{
    reveal(Reduction::term_eqs);
    let pending = nontrivial(eqs);
    if pending !is Nil {
        match find(red.ctx.answers.add_eqs, red.unifier_query(pending)) {
            Some(AddEqsAnswer::Added(store, split, next)) => {
                let start = red.with_store(store).at(next);
                match (split, start.store_simplified(start.checked())) {
                    (Some(id), Ok(mid)) => {
                        if tasks_clear(s, red.sys) {
                            let status = GoalStatus {
                                solved: false,
                                looping: false,
                                nr: mid.sys.next_goal_nr,
                            };
                            lemma_put_clear(s, mid.sys.goals, Goal::Split(id), status);
                        }
                    },
                    _ => {},
                }
            },
            _ => {},
        }
    }
}

proof fn lemma_collisions_clear(red: Reduction, eqs: List<(Fact, Fact)>, s: Subst)
    requires
        graph_clear(s, red.sys),
    ensures
        red.collisions_solved(eqs) matches Ok(end) ==> graph_clear(s, end.sys) && (tasks_clear(
            s,
            red.sys,
        ) ==> tasks_clear(s, end.sys)),
{
    let safe = alike_eqs(eqs);
    let start = if safe.size() == eqs.size() {
        red
    } else {
        red.refuted()
    };
    reveal(Reduction::fact_eqs);
    lemma_term_eqs_clear(start, SplitStrategy::SplitLater, argument_eqs(safe), s);
}

/// The last node that a supply of indices has to offer for a goal that is taken
/// apart.
pub open spec fn last_offered() -> LVar {
    node_var("vk"@, u64::MAX)
}

proof fn lemma_bound_index(s: Subst, v: LVar)
    requires
        find(s, v) is Some,
    ensures
        v.idx <= subst_max(s),
    decreases s,
{
    match s {
        List::Nil => {},
        List::Cons(b, rest) => {
            if b.0 != v {
                lemma_bound_index(*rest, v);
            }
        },
    }
}

/// The substitution does not rename the node of a part of a goal: its index is above
/// every variable of the system, unless there is no such index.
proof fn lemma_part_node_clear(sys: System, outer: LVar)
    requires
        !renames(sys.eq_store.subst, last_offered()),
    ensures
        !renames(
            sys.eq_store.subst,
            node_var("vk"@, after(larger(system_max(sys), outer.idx))),
        ),
{
    reveal(system_max);
    let s = sys.eq_store.subst;
    let node = node_var("vk"@, after(larger(system_max(sys), outer.idx)));
    if find(s, node) is Some {
        lemma_bound_index(s, node);
        assert(subst_max(s) <= system_max(sys));
    }
}

proof fn lemma_components_clear(s: Subst, t: Term)
    requires
        !touches(s, t),
    ensures
        components(t) matches Some(l) ==> !touches_any(s, l),
{
    match t {
        Term::App(_, args) => {
            lemma_touching(s, *args);
            lemma_all_sorted(*args, touching(s));
            lemma_touching(s, args.sorted());
        },
        _ => {},
    }
}

proof fn lemma_plain_goal_clear(red: Reduction, s: Subst, g: Goal, looping: bool)
    requires
        tasks_clear(s, red.sys),
        g is Disj || !goal_touched(s, List::Nil, g),
    ensures
        tasks_clear(s, red.plain_goal(g, looping).sys),
{
    let status = GoalStatus { solved: false, looping, nr: red.sys.next_goal_nr };
    lemma_put_clear(s, red.sys.goals, g, status);
}

proof fn lemma_goal_inserted_clear(red: Reduction, s: Subst, g: Goal, looping: bool)
    requires
        resolved(s),
        s == red.sys.eq_store.subst,
        !renames(s, last_offered()),
        tasks_clear(s, red.sys),
        g is Disj || !goal_touched(s, List::Nil, g),
    ensures
        tasks_clear(s, red.goal_inserted(g, looping).sys),
    decreases goal_weight(g), 0nat,
{
    lemma_goal_parts(g);
    lemma_plain_goal_clear(red, s, g, looping);
    match (g, goal_parts(g)) {
        (Goal::Action(i, fa), Some(parts)) => {
            if find(red.sys.goals, g) is None {
                match first_term(fa) {
                    Some(t) => {
                        lemma_components_clear(s, t);
                    },
                    None => {},
                }
                lemma_parts_clear(red.plain_goal(g, looping), s, parts, i, looping);
            }
        },
        _ => {},
    }
}

proof fn lemma_parts_clear(
    red: Reduction,
    s: Subst,
    parts: List<Term>,
    outer: LVar,
    looping: bool,
)
    requires
        resolved(s),
        s == red.sys.eq_store.subst,
        !renames(s, last_offered()),
        !renames(s, outer),
        !touches_any(s, parts),
        tasks_clear(s, red.sys),
    ensures
        tasks_clear(s, red.parts_inserted(parts, outer, looping).sys),
    decreases terms_size(parts), 1nat,
{
    match parts {
        List::Nil => {},
        List::Cons(t, rest) => {
            lemma_term_size(t);
            let idx = after(larger(system_max(red.sys), outer.idx));
            let node = node_var("vk"@, idx);
            lemma_part_node_clear(red.sys, outer);
            let moved = Reduction { supply: red.supply.above(idx), ..red };
            assert(!touches_any(s, List::<Term>::Nil));
            lemma_goal_inserted_clear(moved, s, ku_goal(node, t), looping);
            law_goal_inserted(moved, ku_goal(node, t), looping);
            let a = moved.goal_inserted(ku_goal(node, t), looping);
            let l = LessAtom { smaller: node, larger: outer, reason: Reason::Adversary };
            lemma_all_snoc(a.sys.less_atoms, l, less_clear(s));
            let b = a.less_inserted(l);
            assert(tasks_clear(s, b.sys));
            lemma_parts_clear(b, s, *rest, outer, looping);
        },
    }
}

proof fn lemma_reopened_clear(red: Reduction, s: Subst, l: List<(Goal, GoalStatus)>)
    requires
        resolved(s),
        s == red.sys.eq_store.subst,
        !renames(s, last_offered()),
        tasks_clear(s, red.sys),
        all(l, goal_clear(s)),
    ensures
        tasks_clear(s, red.goals_reopened(l).sys),
    decreases l,
{
    match l {
        List::Nil => {},
        List::Cons(g, rest) => {
            lemma_goal_inserted_clear(red, s, g.0, g.1.looping);
            law_goal_inserted(red, g.0, g.1.looping);
            lemma_reopened_clear(red.goal_inserted(g.0, g.1.looping), s, *rest);
        },
    }
}

/// After a pass of a substitution that is resolved, the substitution reaches no
/// node, no edge, no last node, no subterm constraint, no ordering and no goal: also
/// where nodes came to be the same, and where goals were taken apart again.
pub proof fn law_pass_applies_substitution(red: Reduction, end: Reduction, changed: bool)
    requires
        resolved(red.sys.eq_store.subst),
        red.sys.eq_store.subst !is Nil,
        !renames(red.sys.eq_store.subst, last_offered()),
        red.passed() == Ok::<(Reduction, bool), Query>((end, changed)),
    ensures
        graph_clear(red.sys.eq_store.subst, end.sys),
        tasks_clear(red.sys.eq_store.subst, end.sys),
{
    reveal(Reduction::passed);
    let s = red.sys.eq_store.subst;
    let fs = red.pass_formula_subst();
    let sys = red.sys;
    lemma_nodes_clear(s, sys.nodes);
    let a = red.nodes_passed(s);
    lemma_edges_clear(s, sys.edges);
    lemma_all_sorted(renamed_edges(s, sys.edges), edge_clear(s));
    lemma_all_nub(renamed_edges(s, sys.edges).sorted(), edge_clear(s));
    match sys.last_atom {
        Some(i) => {
            law_renamed_once(s, i);
        },
        None => {},
    }
    lemma_lesses_clear(s, sys.less_atoms);
    assert(all(List::Nil, less_clear(s)));
    lemma_distinct_clear(s, List::Nil, renamed_lesses(s, sys.less_atoms));
    let b = a.order_passed(s);
    law_passed_goals_are_clear(s, fs, sys.goals);
    let p = passed_goals(s, fs, sys.goals);
    let c = b.goals_passed(s, fs);
    let kept = b.on(System { goals: p.kept, ..b.sys });
    lemma_reopened_graph(kept, p.reopened);
    lemma_reopened_clear(kept, s, p.reopened);
    let d = c.formulas_passed(fs).subterms_passed(s);
    lemma_subterms_clear(s, sys.subterm_store.subterms);
    lemma_subterms_clear(s, sys.subterm_store.solved_subterms);
    lemma_pairs_clear(s, sys.subterm_store.neg_subterms);
    lemma_all_nub(applied_pairs(s, sys.subterm_store.neg_subterms), pair_clear(s));
    lemma_all_sorted(applied_pairs(s, sys.subterm_store.neg_subterms).nub(), pair_clear(s));
    assert(graph_clear(s, d.sys));
    assert(tasks_clear(s, d.sys));
    lemma_collisions_clear(d, merged_nodes(s, sys.nodes).eqs(), s);
}

proof fn lemma_found_id(l: List<(LVar, RuleACInst)>, id: LVar)
    ensures
        find(l, id) is Some == node_ids(l).has(id),
    decreases l,
{
    match l {
        List::Nil => {},
        List::Cons(_, rest) => {
            lemma_found_id(*rest, id);
        },
    }
}

proof fn lemma_ids_snoc(l: List<(LVar, RuleACInst)>, n: (LVar, RuleACInst))
    ensures
        node_ids(l.snoc(n)) == node_ids(l).snoc(n.0),
    decreases l,
{
    match l {
        List::Nil => {
            assert(node_ids(List::Nil) == List::<LVar>::Nil);
        },
        List::Cons(_, rest) => {
            lemma_ids_snoc(*rest, n);
        },
    }
}

proof fn lemma_merge_once(m: NodeMerge, l: List<(LVar, RuleACInst)>)
    requires
        distinct(node_ids(m.nodes)),
    ensures
        distinct(node_ids(m.with_all(l).nodes)),
    decreases l,
{
    match l {
        List::Nil => {},
        List::Cons(n, rest) => {
            if find(m.nodes, n.0) is None {
                lemma_found_id(m.nodes, n.0);
                lemma_ids_snoc(m.nodes, (n.0, n.1));
                lemma_distinct_snoc(node_ids(m.nodes), n.0);
            }
            lemma_merge_once(m.with(n.0, n.1), *rest);
        },
    }
}

proof fn lemma_applied_ids(s: Subst, l: List<(LVar, RuleACInst)>)
    ensures
        node_ids(applied_nodes(s, l)) == node_ids(l),
    decreases l,
{
    match l {
        List::Nil => {},
        List::Cons(_, rest) => {
            lemma_applied_ids(s, *rest);
        },
    }
}

/// Whether every node, every edge, every ordering and every goal stands once.
pub open spec fn once_each(sys: System) -> bool {
    distinct(node_ids(sys.nodes)) && orderly(sys)
}

/// After a pass every node, every edge, every ordering and every goal stands once,
/// also where nodes came to be the same.
pub proof fn law_pass_leaves_each_once(red: Reduction, end: Reduction, changed: bool)
    requires
        once_each(red.sys),
        red.passed() == Ok::<(Reduction, bool), Query>((end, changed)),
    ensures
        once_each(end.sys),
{
    reveal(Reduction::passed);
    let s = red.sys.eq_store.subst;
    if s !is Nil {
        let fs = red.pass_formula_subst();
        let sys = red.sys;
        let a = red.nodes_passed(s);
        assert(distinct(node_ids(NodeMerge::none().nodes)));
        lemma_merge_once(NodeMerge::none(), renamed_nodes(s, sys.nodes.sorted()));
        lemma_applied_ids(s, merged_nodes(s, sys.nodes).nodes);
        let b = a.order_passed(s);
        law_dedup_distinct(renamed_edges(s, sys.edges).sorted());
        law_orderings_once(renamed_lesses(s, sys.less_atoms));
        law_passed_goals_once(s, fs, sys.goals);
        let p = passed_goals(s, fs, sys.goals);
        let kept = b.on(System { goals: p.kept, ..b.sys });
        assert(once_each(kept.sys));
        lemma_reopened_once(kept, p.reopened);
        let d = b.goals_passed(s, fs).formulas_passed(fs).subterms_passed(s);
        assert(once_each(d.sys));
        lemma_collisions_once(d, merged_nodes(s, sys.nodes).eqs());
    }
}

proof fn lemma_reopened_once(red: Reduction, l: List<(Goal, GoalStatus)>)
    requires
        once_each(red.sys),
    ensures
        once_each(red.goals_reopened(l).sys),
    decreases l,
{
    match l {
        List::Nil => {},
        List::Cons(g, rest) => {
            law_goal_inserted(red, g.0, g.1.looping);
            lemma_reopened_once(red.goal_inserted(g.0, g.1.looping), *rest);
        },
    }
}

proof fn lemma_collisions_once(red: Reduction, eqs: List<(Fact, Fact)>)
    requires
        once_each(red.sys),
    ensures
        red.collisions_solved(eqs) matches Ok(end) ==> once_each(end.sys),
{
    let safe = alike_eqs(eqs);
    let start = if safe.size() == eqs.size() {
        red
    } else {
        red.refuted()
    };
    reveal(Reduction::fact_eqs);
    law_equations_keep_graph(start, SplitStrategy::SplitLater, argument_eqs(safe));
}

/// An empty substitution changes nothing.
pub proof fn law_empty_substitution(red: Reduction)
    requires
        red.sys.eq_store.subst is Nil,
    ensures
        red.system_substituted() == Ok::<Reduction, Query>(red),
{
    reveal(Reduction::passed);
    reveal(Reduction::system_substituted);
    assert(red.passes(PASSES as nat) == Ok::<Reduction, Query>(red));
}

proof fn lemma_unbound_term(t: Term)
    ensures
        !touches(List::Nil, t),
    decreases t,
{
    match t {
        Term::App(_, args) => {
            lemma_unbound_terms(*args);
        },
        _ => {},
    }
}

proof fn lemma_unbound_terms(l: List<Term>)
    ensures
        !touches_any(List::Nil, l),
    decreases l,
{
    match l {
        List::Nil => {},
        List::Cons(t, rest) => {
            lemma_unbound_term(t);
            lemma_unbound_terms(*rest);
        },
    }
}

proof fn lemma_unbound_facts(l: List<Fact>)
    ensures
        !facts_touched(List::Nil, l),
    decreases l,
{
    match l {
        List::Nil => {},
        List::Cons(fa, rest) => {
            lemma_unbound_terms(fa.terms);
            lemma_unbound_facts(*rest);
        },
    }
}

proof fn lemma_all_true<T>(l: List<T>, p: spec_fn(T) -> bool)
    requires
        forall|x: T| #[trigger] p(x),
    ensures
        all(l, p),
    decreases l,
{
    match l {
        List::Nil => {},
        List::Cons(_, rest) => {
            lemma_all_true(*rest, p);
        },
    }
}

/// An empty substitution reaches nothing.
proof fn lemma_unbound_system(sys: System)
    ensures
        graph_clear(List::Nil, sys),
        tasks_clear(List::Nil, sys),
{
    let s: Subst = List::Nil;
    assert forall|n: (LVar, RuleACInst)| #[trigger] node_clear(s)(n) by {
        lemma_unbound_facts(n.1.premises);
        lemma_unbound_facts(n.1.conclusions);
        lemma_unbound_facts(n.1.actions);
        lemma_unbound_terms(n.1.new_vars);
    }
    lemma_all_true(sys.nodes, node_clear(s));
    assert forall|e: Edge| #[trigger] edge_clear(s)(e) by {}
    lemma_all_true(sys.edges, edge_clear(s));
    assert forall|a: LessAtom| #[trigger] less_clear(s)(a) by {}
    lemma_all_true(sys.less_atoms, less_clear(s));
    assert forall|c: SubtermConstraint| #[trigger] constraint_clear(s)(c) by {
        lemma_unbound_term(c.small);
        lemma_unbound_term(c.big);
    }
    lemma_all_true(sys.subterm_store.subterms, constraint_clear(s));
    lemma_all_true(sys.subterm_store.solved_subterms, constraint_clear(s));
    assert forall|p: (Term, Term)| #[trigger] pair_clear(s)(p) by {
        lemma_unbound_term(p.0);
        lemma_unbound_term(p.1);
    }
    lemma_all_true(sys.subterm_store.neg_subterms, pair_clear(s));
    assert forall|g: (Goal, GoalStatus)| #[trigger] goal_clear(s)(g) by {
        match g.0 {
            Goal::Action(_, fa) => {
                lemma_unbound_terms(fa.terms);
            },
            Goal::Premise(_, fa) => {
                lemma_unbound_terms(fa.terms);
            },
            Goal::Subterm(t, u) => {
                lemma_unbound_term(t);
                lemma_unbound_term(u);
            },
            _ => {},
        }
    }
    lemma_all_true(sys.goals, goal_clear(s));
}

/// The substitution that the last of at most `rounds` passes applies.
pub open spec fn applied_last(red: Reduction, rounds: nat) -> Subst
    decreases rounds,
{
    match red.passed() {
        Ok((next, _)) if rounds > 1 && next.sys.eq_store.subst.size()
            != red.sys.eq_store.subst.size() => applied_last(next, (rounds - 1) as nat),
        _ => red.sys.eq_store.subst,
    }
}

proof fn lemma_passes_applied(red: Reduction, rounds: nat)
    ensures
        red.passes(rounds) matches Ok(end) ==> (end.sys.eq_store.subst == applied_last(red, rounds)
            && resolved(end.sys.eq_store.subst) && !renames(
            end.sys.eq_store.subst,
            last_offered(),
        ) ==> graph_clear(end.sys.eq_store.subst, end.sys) && tasks_clear(
            end.sys.eq_store.subst,
            end.sys,
        )) && (once_each(red.sys) ==> once_each(end.sys)),
    decreases rounds,
{
    match red.passed() {
        Ok((next, changed)) => {
            if once_each(red.sys) {
                law_pass_leaves_each_once(red, next, changed);
            }
            if next.sys.eq_store.subst.size() == red.sys.eq_store.subst.size() || rounds <= 1 {
                let s = red.sys.eq_store.subst;
                if next.sys.eq_store.subst == s && resolved(s) && !renames(s, last_offered()) {
                    if s is Nil {
                        lemma_unbound_system(next.sys);
                    } else {
                        law_pass_applies_substitution(red, next, changed);
                    }
                }
            } else {
                lemma_passes_applied(next, (rounds - 1) as nat);
            }
        },
        Err(_) => {},
    }
}

/// Once the substitution has been applied to the system, every node, every edge,
/// every ordering and every goal stands once, where it did before: nodes that came
/// to be the same are one.  And the substitution that the system ends with reaches
/// no node, no edge, no last node, no subterm constraint, no ordering and no goal,
/// where it is resolved, the last pass has applied it, and it does not rename the
/// last node of the supply.
pub proof fn law_substitution_applied(red: Reduction)
    ensures
        red.system_substituted() matches Ok(end) ==> once_each(red.sys) ==> once_each(end.sys),
        red.system_substituted() matches Ok(end) ==> end.sys.eq_store.subst == applied_last(
            red,
            PASSES as nat,
        ) && resolved(end.sys.eq_store.subst) && !renames(end.sys.eq_store.subst, last_offered())
            ==> graph_clear(end.sys.eq_store.subst, end.sys) && tasks_clear(
            end.sys.eq_store.subst,
            end.sys,
        ),
{
    reveal(Reduction::system_substituted);
    lemma_passes_applied(red, PASSES as nat);
}

/// Whether the substitution `b` is `a` or has more bindings.
pub open spec fn grown(a: Subst, b: Subst) -> bool {
    a.size() <= b.size() && (a.size() == b.size() ==> a == b)
}

/// Whether a store goes on from another: its substitution has grown, if it has
/// changed, and is resolved where the other one is.
pub open spec fn goes_on_from(a: Subst, b: Subst) -> bool {
    grown(a, b) && (resolved(a) ==> resolved(b))
}

/// Whether the stores that unification and simplification answer with go on from
/// those that were asked about.
pub open spec fn answers_go_on(a: Answers) -> bool {
    &&& forall|q: AddEqsQuery| #[trigger]
        find(a.add_eqs, q) matches Some(AddEqsAnswer::Added(store, _, _)) ==> goes_on_from(
            q.store.subst,
            store.subst,
        )
    &&& forall|q: SimpQuery| #[trigger]
        find(a.simp, q) matches Some(answer) ==> goes_on_from(q.store.subst, answer.store.subst)
}

proof fn lemma_term_eqs_go_on(red: Reduction, eqs: List<(Term, Term)>)
    requires
        answers_go_on(red.ctx.answers),
    ensures
        red.term_eqs(SplitStrategy::SplitLater, eqs) matches Ok((end, _)) ==> end.ctx == red.ctx
            && goes_on_from(red.sys.eq_store.subst, end.sys.eq_store.subst),
{
    reveal(Reduction::term_eqs);
    let pending = nontrivial(eqs);
    if pending !is Nil {
        let q = red.unifier_query(pending);
        match find(red.ctx.answers.add_eqs, q) {
            Some(AddEqsAnswer::Added(store, split, next)) => {
                assert(goes_on_from(q.store.subst, store.subst));
                let start = red.with_store(store).at(next);
                let more = SimpQuery { store, checked: start.checked(), next };
                match find(red.ctx.answers.simp, more) {
                    Some(answer) => {
                        assert(goes_on_from(store.subst, answer.store.subst));
                        let mid = start.with_store(answer.store).at(answer.next);
                        match split {
                            Some(id) => {
                                law_goal_inserted(mid, Goal::Split(id), false);
                            },
                            None => {},
                        }
                    },
                    None => {},
                }
            },
            _ => {},
        }
    }
}

proof fn lemma_pass_goes_on(red: Reduction)
    requires
        answers_go_on(red.ctx.answers),
    ensures
        red.passed() matches Ok((end, _)) ==> end.ctx == red.ctx && goes_on_from(
            red.sys.eq_store.subst,
            end.sys.eq_store.subst,
        ),
{
    reveal(Reduction::passed);
    reveal(Reduction::fact_eqs);
    let s = red.sys.eq_store.subst;
    if s !is Nil {
        let fs = red.pass_formula_subst();
        let b = red.nodes_passed(s).order_passed(s);
        let p = passed_goals(s, fs, red.sys.goals);
        lemma_reopened_graph(b.on(System { goals: p.kept, ..b.sys }), p.reopened);
        let d = b.goals_passed(s, fs).formulas_passed(fs).subterms_passed(s);
        assert(d.ctx == red.ctx && d.sys.eq_store.subst == s);
        let eqs = merged_nodes(s, red.sys.nodes).eqs();
        let safe = alike_eqs(eqs);
        let start = if safe.size() == eqs.size() {
            d
        } else {
            d.refuted()
        };
        lemma_term_eqs_go_on(start, argument_eqs(safe));
    }
}

proof fn lemma_passes_go_on(red: Reduction, rounds: nat)
    requires
        answers_go_on(red.ctx.answers),
        resolved(red.sys.eq_store.subst),
    ensures
        red.passes(rounds) matches Ok(end) ==> resolved(end.sys.eq_store.subst) && (
        end.sys.eq_store.subst.size() == applied_last(red, rounds).size()
            ==> end.sys.eq_store.subst == applied_last(red, rounds)),
    decreases rounds,
{
    lemma_pass_goes_on(red);
    match red.passed() {
        Ok((next, _)) => {
            if next.sys.eq_store.subst.size() != red.sys.eq_store.subst.size() && rounds > 1 {
                lemma_passes_go_on(next, (rounds - 1) as nat);
            }
        },
        Err(_) => {},
    }
}

/// Where the substitution is resolved and the answers go on from the stores that
/// were asked about, the system ends with a substitution that is resolved; and where
/// the last pass has added no binding to it, it reaches no node, no edge, no last
/// node, no subterm constraint, no ordering and no goal, unless it renames the last
/// node of the supply.
pub proof fn law_substitution_applied_in_full(red: Reduction)
    requires
        answers_go_on(red.ctx.answers),
        resolved(red.sys.eq_store.subst),
    ensures
        red.system_substituted() matches Ok(end) ==> resolved(end.sys.eq_store.subst) && (
        once_each(red.sys) ==> once_each(end.sys)),
        red.system_substituted() matches Ok(end) ==> end.sys.eq_store.subst.size() == applied_last(
            red,
            PASSES as nat,
        ).size() ==> end.sys.eq_store.subst == applied_last(red, PASSES as nat) && (!renames(
            end.sys.eq_store.subst,
            last_offered(),
        ) ==> graph_clear(end.sys.eq_store.subst, end.sys) && tasks_clear(
            end.sys.eq_store.subst,
            end.sys,
        )),
{
    reveal(Reduction::system_substituted);
    law_substitution_applied(red);
    lemma_passes_go_on(red, PASSES as nat);
}

proof fn lemma_reopened_store(red: Reduction, l: List<(Goal, GoalStatus)>)
    ensures
        red.goals_reopened(l).sys.eq_store == red.sys.eq_store,
{
    lemma_reopened_graph(red, l);
}

/// Where no two nodes come to be the same, one pass applies the substitution, which
/// stays as it is.
pub proof fn law_one_pass_suffices(red: Reduction)
    requires
        merged_nodes(red.sys.eq_store.subst, red.sys.nodes).eqs() is Nil,
    ensures
        red.system_substituted() matches Ok(end) && end.sys.eq_store.subst
            == red.sys.eq_store.subst && applied_last(red, PASSES as nat)
            == red.sys.eq_store.subst && red.passed() == Ok::<(Reduction, bool), Query>(
            (end, red.sys.eq_store.subst !is Nil && red.signals().any()),
        ),
{
    let s = red.sys.eq_store.subst;
    reveal(Reduction::system_substituted);
    reveal(Reduction::passed);
    if s is Nil {
        assert(red.passes(PASSES as nat) == Ok::<Reduction, Query>(red));
    } else {
        let fs = red.pass_formula_subst();
        let b = red.nodes_passed(s).order_passed(s);
        let p = passed_goals(s, fs, red.sys.goals);
        lemma_reopened_store(b.on(System { goals: p.kept, ..b.sys }), p.reopened);
        let d = b.goals_passed(s, fs).formulas_passed(fs).subterms_passed(s);
        assert(red.passed() == Ok::<(Reduction, bool), Query>((d, red.signals().any())));
        assert(d.sys.eq_store.subst == s);
        assert(red.passes(PASSES as nat) == Ok::<Reduction, Query>(d));
    }
}

} // verus!
