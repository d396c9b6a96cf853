//! What a pass of the substitution keeps: everything that was there is there under the
//! substitution, and nothing else is.
use crate::constraints::{Edge, Goal, GoalStatus, LessAtom, SubtermConstraint};
use crate::context::Query;
use crate::equations::argument_eqs;
use crate::facts::{applied_fact, applied_rule, Fact, RuleACInst};
use crate::leaves::{settled_formula, FormulaSubst};
use crate::guarded::Guarded;
use crate::list::{find, List, Ordered};
use crate::list_laws::{
    law_dedup_keeps_once, law_sort_rearranges, lemma_has_snoc, lemma_times_has,
};
use crate::reduction::{Reduction, SplitStrategy};
use crate::subst_laws::lemma_orders_snoc;
use crate::subst_system::{
    alike_eqs, applied_goal, applied_nodes, applied_pairs, applied_subterms, distinct_lesses,
    merged_nodes, passed_goals, renamed_edge, renamed_edges, renamed_lesses, renamed_nodes,
    settled_formulas, GoalPass, NodeMerge,
};
use crate::system::{orders, System};
use crate::system_laws::{
    goals_grow, law_equations_keep_graph, law_goal_inserted, law_goal_put, node_ids,
};
use crate::term_ops::{applied, renamed, Subst};
use crate::terms::{LVar, Term};
use vstd::prelude::*;

verus! {

pub proof fn lemma_sorted_has<T: Ordered>(l: List<T>, x: T)
    ensures
        l.sorted().has(x) == l.has(x),
{
    law_sort_rearranges(l, x);
    lemma_times_has(l, x);
    lemma_times_has(l.sorted(), x);
}

pub proof fn lemma_nub_has<T>(l: List<T>, x: T)
    ensures
        l.nub().has(x) == l.has(x),
{
    law_dedup_keeps_once(l, x);
    lemma_times_has(l, x);
    lemma_times_has(l.nub(), x);
}

proof fn lemma_edge_renamed(s: Subst, l: List<Edge>, e: Edge)
    ensures
        l.has(e) ==> renamed_edges(s, l).has(renamed_edge(s, e)),
        renamed_edges(s, l).has(e) ==> exists|x: Edge| #[trigger]
            l.has(x) && e == renamed_edge(s, x),
    decreases l,
{
    match l {
        List::Nil => {},
        List::Cons(first, rest) => {
            lemma_edge_renamed(s, *rest, e);
            if renamed_edges(s, *rest).has(e) {
                let x = choose|x: Edge| #[trigger] rest.has(x) && e == renamed_edge(s, x);
                assert(l.has(x));
            }
            if e == renamed_edge(s, first) {
                assert(l.has(first));
            }
        },
    }
}

proof fn lemma_distinct_orders(acc: List<LessAtom>, l: List<LessAtom>, x: LVar, y: LVar)
    ensures
        orders(distinct_lesses(acc, l), x, y) == (orders(acc, x, y) || orders(l, x, y)),
    decreases l,
{
    match l {
        List::Nil => {},
        List::Cons(a, rest) => {
            lemma_orders_snoc(acc, a, x, y);
            if orders(acc, a.smaller, a.larger) {
                lemma_distinct_orders(acc, *rest, x, y);
            } else {
                lemma_distinct_orders(acc.snoc(a), *rest, x, y);
            }
        },
    }
}

proof fn lemma_less_renamed(s: Subst, l: List<LessAtom>, x: LVar, y: LVar)
    ensures
        orders(l, x, y) ==> orders(renamed_lesses(s, l), renamed(s, x), renamed(s, y)),
        orders(renamed_lesses(s, l), x, y) ==> exists|v: LVar, w: LVar| #[trigger]
            orders(l, v, w) && x == renamed(s, v) && y == renamed(s, w),
    decreases l,
{
    match l {
        List::Nil => {},
        List::Cons(a, rest) => {
            lemma_less_renamed(s, *rest, x, y);
            if orders(renamed_lesses(s, *rest), x, y) {
                let (v, w) = choose|v: LVar, w: LVar| #[trigger]
                    orders(*rest, v, w) && x == renamed(s, v) && y == renamed(s, w);
                assert(orders(l, v, w));
            } else if orders(renamed_lesses(s, l), x, y) {
                assert(orders(l, a.smaller, a.larger));
            }
        },
    }
}

proof fn lemma_merged_ids(m: NodeMerge, l: List<(LVar, RuleACInst)>, i: LVar)
    ensures
        node_ids(m.nodes).has(i) || node_ids(l).has(i) ==> node_ids(m.with_all(l).nodes).has(i),
    decreases l,
{
    match l {
        List::Nil => {},
        List::Cons(n, rest) => {
            lemma_ids_snoc_has(m.nodes, n, i);
            lemma_found_ids(m.nodes, n.0);
            lemma_merged_ids(m.with(n.0, n.1), *rest, i);
        },
    }
}

proof fn lemma_ids_snoc_has(l: List<(LVar, RuleACInst)>, n: (LVar, RuleACInst), i: LVar)
    ensures
        node_ids(l.snoc((n.0, n.1))).has(i) == (node_ids(l).has(i) || i == n.0),
    decreases l,
{
    match l {
        List::Nil => {
            assert(!node_ids(List::<(LVar, RuleACInst)>::Nil).has(i));
        },
        List::Cons(_, rest) => {
            lemma_ids_snoc_has(*rest, n, i);
        },
    }
}

proof fn lemma_found_ids(l: List<(LVar, RuleACInst)>, i: LVar)
    ensures
        find(l, i) is Some == node_ids(l).has(i),
    decreases l,
{
    match l {
        List::Nil => {},
        List::Cons(_, rest) => {
            lemma_found_ids(*rest, i);
        },
    }
}

proof fn lemma_merged_has(m: NodeMerge, l: List<(LVar, RuleACInst)>, n: (LVar, RuleACInst))
    ensures
        m.with_all(l).nodes.has(n) ==> m.nodes.has(n) || l.has(n),
    decreases l,
{
    match l {
        List::Nil => {},
        List::Cons(first, rest) => {
            lemma_has_snoc(m.nodes, (first.0, first.1), n);
            lemma_merged_has(m.with(first.0, first.1), *rest, n);
        },
    }
}

proof fn lemma_node_renamed(s: Subst, l: List<(LVar, RuleACInst)>, i: LVar, ru: RuleACInst)
    ensures
        node_ids(l).has(i) ==> node_ids(renamed_nodes(s, l)).has(renamed(s, i)),
        renamed_nodes(s, l).has((i, ru)) ==> exists|x: LVar| #[trigger]
            l.has((x, ru)) && i == renamed(s, x),
    decreases l,
{
    match l {
        List::Nil => {},
        List::Cons(n, rest) => {
            lemma_node_renamed(s, *rest, i, ru);
            if renamed_nodes(s, *rest).has((i, ru)) {
                let x = choose|x: LVar| #[trigger] rest.has((x, ru)) && i == renamed(s, x);
                assert(l.has((x, ru)));
            } else if renamed_nodes(s, l).has((i, ru)) {
                assert(n == (n.0, ru));
                assert(l.has((n.0, ru)));
            }
        },
    }
}

proof fn lemma_node_applied(s: Subst, l: List<(LVar, RuleACInst)>, i: LVar, ru: RuleACInst)
    ensures
        node_ids(applied_nodes(s, l)) == node_ids(l),
        applied_nodes(s, l).has((i, ru)) ==> exists|x: RuleACInst| #[trigger]
            l.has((i, x)) && ru == applied_rule(s, x),
    decreases l,
{
    match l {
        List::Nil => {},
        List::Cons(n, rest) => {
            lemma_node_applied(s, *rest, i, ru);
            if applied_nodes(s, *rest).has((i, ru)) {
                let x = choose|x: RuleACInst| #[trigger]
                    rest.has((i, x)) && ru == applied_rule(s, x);
                assert(l.has((i, x)));
            } else if applied_nodes(s, l).has((i, ru)) {
                assert(n == (i, n.1));
                assert(l.has((i, n.1)));
            }
        },
    }
}

proof fn lemma_has_id(l: List<(LVar, RuleACInst)>, i: LVar, ru: RuleACInst)
    ensures
        l.has((i, ru)) ==> node_ids(l).has(i),
    decreases l,
{
    match l {
        List::Nil => {},
        List::Cons(_, rest) => {
            lemma_has_id(*rest, i, ru);
        },
    }
}

/// Substituted nodes are the nodes that were there: each has a node under its new name, and
/// what is there is one of them, under its new name and with its rule substituted.
pub proof fn law_substituted_nodes(red: Reduction, s: Subst, i: LVar, ru: RuleACInst)
    ensures
        red.sys.nodes.has((i, ru)) ==> node_ids(red.nodes_passed(s).sys.nodes).has(renamed(s, i)),
        red.nodes_passed(s).sys.nodes.has((i, ru)) ==> exists|j: LVar, before: RuleACInst|
            #[trigger] red.sys.nodes.has((j, before)) && i == renamed(s, j) && ru == applied_rule(
                s,
                before,
            ),
{
    let l = red.sys.nodes.sorted();
    let named = renamed_nodes(s, l);
    let m = merged_nodes(s, red.sys.nodes);
    if red.sys.nodes.has((i, ru)) {
        lemma_sorted_has(red.sys.nodes, (i, ru));
        lemma_has_id(l, i, ru);
        lemma_node_renamed(s, l, i, ru);
        lemma_merged_ids(NodeMerge::none(), named, renamed(s, i));
        lemma_node_applied(s, m.nodes, i, ru);
    }
    if applied_nodes(s, m.nodes).has((i, ru)) {
        lemma_node_applied(s, m.nodes, i, ru);
        let before = choose|x: RuleACInst| #[trigger]
            m.nodes.has((i, x)) && ru == applied_rule(s, x);
        lemma_merged_has(NodeMerge::none(), named, (i, before));
        lemma_node_renamed(s, l, i, before);
        let j = choose|x: LVar| #[trigger] l.has((x, before)) && i == renamed(s, x);
        lemma_sorted_has(red.sys.nodes, (j, before));
    }
}

/// Substituted edges and orderings are those that were there, between the nodes under their
/// new names; positions stay.
pub proof fn law_substituted_order(red: Reduction, s: Subst, e: Edge, x: LVar, y: LVar)
    ensures
        red.sys.edges.has(e) ==> red.order_passed(s).sys.edges.has(
            Edge { src: (renamed(s, e.src.0), e.src.1), tgt: (renamed(s, e.tgt.0), e.tgt.1) },
        ),
        red.order_passed(s).sys.edges.has(e) ==> exists|before: Edge| #[trigger]
            red.sys.edges.has(before) && e.src == (renamed(s, before.src.0), before.src.1)
                && e.tgt == (renamed(s, before.tgt.0), before.tgt.1),
        orders(red.sys.less_atoms, x, y) ==> orders(
            red.order_passed(s).sys.less_atoms,
            renamed(s, x),
            renamed(s, y),
        ),
        orders(red.order_passed(s).sys.less_atoms, x, y) ==> exists|v: LVar, w: LVar| #[trigger]
            orders(red.sys.less_atoms, v, w) && x == renamed(s, v) && y == renamed(s, w),
        red.sys.last_atom is None ==> red.order_passed(s).sys.last_atom is None,
        red.sys.last_atom == Some(x) ==> red.order_passed(s).sys.last_atom == Some(renamed(s, x)),
{
    let l = renamed_edges(s, red.sys.edges);
    let image = renamed_edge(s, e);
    lemma_edge_renamed(s, red.sys.edges, e);
    lemma_sorted_has(l, image);
    lemma_nub_has(l.sorted(), image);
    lemma_sorted_has(l, e);
    lemma_nub_has(l.sorted(), e);
    let lesses = renamed_lesses(s, red.sys.less_atoms);
    lemma_less_renamed(s, red.sys.less_atoms, x, y);
    lemma_distinct_orders(List::Nil, lesses, x, y);
    lemma_distinct_orders(List::Nil, lesses, renamed(s, x), renamed(s, y));
}

/// Whether a goal that has the status `st` is there, as solved as that says.
spec fn there(l: List<(Goal, GoalStatus)>, g: Goal, st: GoalStatus) -> bool {
    find(l, g) matches Some(more) && (st.solved ==> more.solved)
}

proof fn lemma_pass_stays(
    pass: GoalPass,
    s: Subst,
    fs: FormulaSubst,
    l: List<(Goal, GoalStatus)>,
    g: Goal,
    st: GoalStatus,
)
    ensures
        there(pass.kept, g, st) ==> there(pass.with_all(s, fs, l).kept, g, st),
        pass.reopened.has((g, st)) ==> pass.with_all(s, fs, l).reopened.has((g, st)),
    decreases l,
{
    match l {
        List::Nil => {},
        List::Cons(e, rest) => {
            law_goal_put(pass.kept, applied_goal(s, fs, e.0), e.1, g);
            lemma_has_snoc(pass.reopened, (applied_goal(s, fs, e.0), e.1), (g, st));
            lemma_pass_stays(pass.with(s, fs, e.0, e.1), s, fs, *rest, g, st);
        },
    }
}

proof fn lemma_pass_takes(
    pass: GoalPass,
    s: Subst,
    fs: FormulaSubst,
    l: List<(Goal, GoalStatus)>,
    g: Goal,
    st: GoalStatus,
)
    requires
        l.has((g, st)),
    ensures
        ({
            let end = pass.with_all(s, fs, l);
            let image = applied_goal(s, fs, g);
            there(end.kept, image, st) || (end.reopened.has((image, st)) && !st.solved)
        }),
    decreases l,
{
    match l {
        List::Nil => {},
        List::Cons(e, rest) => {
            let next = pass.with(s, fs, e.0, e.1);
            if e == (g, st) {
                let image = applied_goal(s, fs, g);
                law_goal_put(pass.kept, image, st, image);
                lemma_has_snoc(pass.reopened, (image, st), (image, st));
                lemma_pass_stays(next, s, fs, *rest, image, st);
            } else {
                lemma_pass_takes(next, s, fs, *rest, g, st);
            }
        },
    }
}

proof fn lemma_reopened_has(red: Reduction, l: List<(Goal, GoalStatus)>, g: Goal, st: GoalStatus)
    ensures
        l.has((g, st)) ==> find(red.goals_reopened(l).sys.goals, g) is Some,
        there(red.sys.goals, g, st) ==> there(red.goals_reopened(l).sys.goals, g, st),
    decreases l,
{
    match l {
        List::Nil => {},
        List::Cons(e, rest) => {
            let next = red.goal_inserted(e.0, e.1.looping);
            law_goal_inserted(red, e.0, e.1.looping);
            assert(find(next.sys.goals, g) == find(next.sys.goals, g));
            lemma_reopened_has(next, *rest, g, st);
            let open = GoalStatus { solved: false, ..st };
            lemma_reopened_has(next, *rest, g, open);
        },
    }
}

proof fn lemma_found_goal(l: List<(Goal, GoalStatus)>, g: Goal)
    ensures
        find(l, g) matches Some(st) ==> l.has((g, st)),
    decreases l,
{
    match l {
        List::Nil => {},
        List::Cons(e, rest) => {
            assert(e == (e.0, e.1));
            lemma_found_goal(*rest, g);
        },
    }
}

/// Whether the goal is there, solved where `st` is.
pub open spec fn stays_as(sys: System, g: Goal, st: GoalStatus) -> bool {
    find(sys.goals, g) matches Some(more) && (st.solved ==> more.solved)
}

/// Substituted goals are those that were there: each is there under the substitution, as
/// solved as it was, at the nodes under their new names and about the substituted facts and
/// terms.
pub proof fn law_substituted_goals(
    red: Reduction,
    s: Subst,
    fs: FormulaSubst,
    g: Goal,
    st: GoalStatus,
)
    requires
        find(red.sys.goals, g) == Some(st),
    ensures
        ({
            let end = red.goals_passed(s, fs).sys;
            match g {
                Goal::Action(i, fa) => stays_as(
                    end,
                    Goal::Action(renamed(s, i), applied_fact(s, fa)),
                    st,
                ),
                Goal::Premise(p, fa) => stays_as(
                    end,
                    Goal::Premise((renamed(s, p.0), p.1), applied_fact(s, fa)),
                    st,
                ),
                Goal::Chain(c, p) => stays_as(
                    end,
                    Goal::Chain((renamed(s, c.0), c.1), (renamed(s, p.0), p.1)),
                    st,
                ),
                Goal::Split(_) => stays_as(end, g, st),
                Goal::Subterm(t, u) => stays_as(
                    end,
                    Goal::Subterm(applied(s, t), applied(s, u)),
                    st,
                ),
                Goal::Disj(_) => stays_as(end, applied_goal(s, fs, g), st) && (fs is Nil
                    ==> stays_as(end, g, st)),
            }
        }),
{
    let start = GoalPass { kept: List::Nil, reopened: List::Nil, value_changed: false };
    lemma_found_goal(red.sys.goals, g);
    lemma_sorted_has(red.sys.goals, (g, st));
    lemma_pass_takes(start, s, fs, red.sys.goals.sorted(), g, st);
    let p = passed_goals(s, fs, red.sys.goals);
    let kept = red.on(System { goals: p.kept, ..red.sys });
    lemma_reopened_has(kept, p.reopened, applied_goal(s, fs, g), st);
}

proof fn lemma_subterm_applied(s: Subst, l: List<SubtermConstraint>, c: SubtermConstraint)
    ensures
        l.has(c) ==> applied_subterms(s, l).has(
            SubtermConstraint {
                small: applied(s, c.small),
                big: applied(s, c.big),
                propagated: c.propagated,
            },
        ),
        applied_subterms(s, l).size() == l.size(),
    decreases l,
{
    match l {
        List::Nil => {},
        List::Cons(_, rest) => {
            lemma_subterm_applied(s, *rest, c);
        },
    }
}

proof fn lemma_pair_applied(s: Subst, l: List<(Term, Term)>, t: Term, u: Term)
    ensures
        l.has((t, u)) ==> applied_pairs(s, l).has((applied(s, t), applied(s, u))),
    decreases l,
{
    match l {
        List::Nil => {},
        List::Cons(_, rest) => {
            lemma_pair_applied(s, *rest, t, u);
        },
    }
}

/// Substituted subterm constraints are those that were there, between the substituted
/// terms.
pub proof fn law_substituted_subterms(
    red: Reduction,
    s: Subst,
    c: SubtermConstraint,
    t: Term,
    u: Term,
)
    ensures
        ({
            let before = red.sys.subterm_store;
            let end = red.subterms_passed(s).sys.subterm_store;
            let image = SubtermConstraint {
                small: applied(s, c.small),
                big: applied(s, c.big),
                propagated: c.propagated,
            };
            &&& before.subterms.has(c) ==> end.subterms.has(image)
            &&& end.subterms.size() == before.subterms.size()
            &&& before.solved_subterms.has(c) ==> end.solved_subterms.has(image)
            &&& end.solved_subterms.size() == before.solved_subterms.size()
            &&& before.neg_subterms.has((t, u)) ==> end.neg_subterms.has(
                (applied(s, t), applied(s, u)),
            )
            &&& end.contradictory == before.contradictory
        }),
{
    let st = red.sys.subterm_store;
    lemma_subterm_applied(s, st.subterms, c);
    lemma_subterm_applied(s, st.solved_subterms, c);
    lemma_pair_applied(s, st.neg_subterms, t, u);
    let l = applied_pairs(s, st.neg_subterms);
    let image = (applied(s, t), applied(s, u));
    lemma_nub_has(l, image);
    lemma_sorted_has(l.nub(), image);
}

proof fn lemma_formula_settled(fs: FormulaSubst, l: List<Guarded>, f: Guarded)
    ensures
        l.has(f) ==> settled_formulas(fs, l).has(settled_formula(fs, f)),
    decreases l,
{
    match l {
        List::Nil => {},
        List::Cons(_, rest) => {
            lemma_formula_settled(fs, *rest, f);
        },
    }
}

/// Substituted formulas are those that were there, each among the formulas of its kind.
pub proof fn law_substituted_formulas(red: Reduction, fs: FormulaSubst, f: Guarded)
    requires
        fs !is Nil,
    ensures
        red.sys.formulas.has(f) ==> red.formulas_passed(fs).sys.formulas.has(
            settled_formula(fs, f),
        ),
        red.sys.solved_formulas.has(f) ==> red.formulas_passed(fs).sys.solved_formulas.has(
            settled_formula(fs, f),
        ),
        red.sys.lemmas.has(f) ==> red.formulas_passed(fs).sys.lemmas.has(settled_formula(fs, f)),
{
    let g = settled_formula(fs, f);
    lemma_formula_settled(fs, red.sys.formulas, f);
    lemma_nub_has(settled_formulas(fs, red.sys.formulas), g);
    lemma_formula_settled(fs, red.sys.solved_formulas, f);
    lemma_nub_has(settled_formulas(fs, red.sys.solved_formulas), g);
    lemma_formula_settled(fs, red.sys.lemmas, f);
    lemma_nub_has(settled_formulas(fs, red.sys.lemmas), g);
}

/// Whether nodes, edges, last node and subterm constraints are the same, and goals and
/// orderings have grown.
spec fn same_apart_from_tasks(a: System, b: System) -> bool {
    &&& a.nodes == b.nodes && a.edges == b.edges && a.last_atom == b.last_atom
    &&& a.subterm_store == b.subterm_store
    &&& forall|x: LVar, y: LVar|
        orders(a.less_atoms, x, y) ==> #[trigger] orders(b.less_atoms, x, y)
}

proof fn lemma_reopened_frame(red: Reduction, l: List<(Goal, GoalStatus)>)
    ensures
        same_apart_from_tasks(red.sys, red.goals_reopened(l).sys),
    decreases l,
{
    match l {
        List::Nil => {},
        List::Cons(e, rest) => {
            let next = red.goal_inserted(e.0, e.1.looping);
            law_goal_inserted(red, e.0, e.1.looping);
            lemma_reopened_frame(next, *rest);
            assert forall|x: LVar, y: LVar| orders(red.sys.less_atoms, x, y) implies #[trigger]
                orders(next.goals_reopened(*rest).sys.less_atoms, x, y) by {
                assert(orders(next.sys.less_atoms, x, y));
            }
        },
    }
}

proof fn lemma_collisions_frame(red: Reduction, eqs: List<(Fact, Fact)>)
    ensures
        red.collisions_solved(eqs) matches Ok(end) ==> same_apart_from_tasks(red.sys, end.sys)
            && goals_grow(red.sys, end.sys),
{
    reveal(Reduction::fact_eqs);
    let safe = alike_eqs(eqs);
    let start = if safe.size() == eqs.size() {
        red
    } else {
        red.refuted()
    };
    law_equations_keep_graph(start, SplitStrategy::SplitLater, argument_eqs(safe));
}

/// A pass of the substitution loses nothing and makes nothing up: every node, edge and
/// ordering is there between the nodes under their new names, positions kept, and every
/// subterm constraint between the substituted terms; and a node or an edge that is there
/// was there before.
pub proof fn law_pass_keeps_the_graph(
    red: Reduction,
    end: Reduction,
    changed: bool,
    i: LVar,
    ru: RuleACInst,
    e: Edge,
    x: LVar,
    y: LVar,
    c: SubtermConstraint,
)
    requires
        red.passed() == Ok::<(Reduction, bool), Query>((end, changed)),
        red.sys.eq_store.subst !is Nil,
    ensures
        ({
            let s = red.sys.eq_store.subst;
            &&& red.sys.nodes.has((i, ru)) ==> node_ids(end.sys.nodes).has(renamed(s, i))
            &&& end.sys.nodes.has((i, ru)) ==> exists|j: LVar, before: RuleACInst| #[trigger]
                red.sys.nodes.has((j, before)) && i == renamed(s, j) && ru == applied_rule(
                    s,
                    before,
                )
            &&& red.sys.edges.has(e) ==> end.sys.edges.has(
                Edge { src: (renamed(s, e.src.0), e.src.1), tgt: (renamed(s, e.tgt.0), e.tgt.1) },
            )
            &&& end.sys.edges.has(e) ==> exists|before: Edge| #[trigger]
                red.sys.edges.has(before) && e.src == (renamed(s, before.src.0), before.src.1)
                    && e.tgt == (renamed(s, before.tgt.0), before.tgt.1)
            &&& orders(red.sys.less_atoms, x, y) ==> orders(
                end.sys.less_atoms,
                renamed(s, x),
                renamed(s, y),
            )
            &&& red.sys.last_atom == Some(x) ==> end.sys.last_atom == Some(renamed(s, x))
            &&& red.sys.last_atom is None ==> end.sys.last_atom is None
            &&& red.sys.subterm_store.subterms.has(c) ==> end.sys.subterm_store.subterms.has(
                SubtermConstraint {
                    small: applied(s, c.small),
                    big: applied(s, c.big),
                    propagated: c.propagated,
                },
            )
        }),
{
    reveal(Reduction::passed);
    let s = red.sys.eq_store.subst;
    let fs = red.pass_formula_subst();
    let a = red.nodes_passed(s);
    law_substituted_nodes(red, s, i, ru);
    let b = a.order_passed(s);
    law_substituted_order(a, s, e, x, y);
    let p = passed_goals(s, fs, b.sys.goals);
    lemma_reopened_frame(b.on(System { goals: p.kept, ..b.sys }), p.reopened);
    let g = b.goals_passed(s, fs);
    let d = g.formulas_passed(fs);
    law_substituted_subterms(d, s, c, c.small, c.big);
    let last = d.subterms_passed(s);
    lemma_collisions_frame(last, merged_nodes(s, red.sys.nodes).eqs());
    assert(same_apart_from_tasks(last.sys, end.sys));
    assert(orders(b.sys.less_atoms, renamed(s, x), renamed(s, y)) ==> orders(
        g.sys.less_atoms,
        renamed(s, x),
        renamed(s, y),
    ));
    assert(orders(last.sys.less_atoms, renamed(s, x), renamed(s, y)) ==> orders(
        end.sys.less_atoms,
        renamed(s, x),
        renamed(s, y),
    ));
}

/// A pass of the substitution loses no goal: each is there under the substitution, as
/// solved as it was.
pub proof fn law_pass_keeps_the_goals(
    red: Reduction,
    end: Reduction,
    changed: bool,
    g: Goal,
    st: GoalStatus,
)
    requires
        red.passed() == Ok::<(Reduction, bool), Query>((end, changed)),
        red.sys.eq_store.subst !is Nil,
        find(red.sys.goals, g) == Some(st),
    ensures
        ({
            let s = red.sys.eq_store.subst;
            match g {
                Goal::Action(i, fa) => stays_as(
                    end.sys,
                    Goal::Action(renamed(s, i), applied_fact(s, fa)),
                    st,
                ),
                Goal::Premise(p, fa) => stays_as(
                    end.sys,
                    Goal::Premise((renamed(s, p.0), p.1), applied_fact(s, fa)),
                    st,
                ),
                Goal::Chain(c, p) => stays_as(
                    end.sys,
                    Goal::Chain((renamed(s, c.0), c.1), (renamed(s, p.0), p.1)),
                    st,
                ),
                Goal::Split(_) => stays_as(end.sys, g, st),
                Goal::Subterm(t, u) => stays_as(
                    end.sys,
                    Goal::Subterm(applied(s, t), applied(s, u)),
                    st,
                ),
                Goal::Disj(_) => stays_as(
                    end.sys,
                    applied_goal(s, red.pass_formula_subst(), g),
                    st,
                ),
            }
        }),
{
    reveal(Reduction::passed);
    let s = red.sys.eq_store.subst;
    let fs = red.pass_formula_subst();
    let b = red.nodes_passed(s).order_passed(s);
    law_substituted_goals(b, s, fs, g, st);
    let d = b.goals_passed(s, fs);
    let last = d.formulas_passed(fs).subterms_passed(s);
    assert(last.sys.goals == d.sys.goals);
    lemma_collisions_frame(last, merged_nodes(s, red.sys.nodes).eqs());
    let image = applied_goal(s, fs, g);
    assert(find(end.sys.goals, image) == find(end.sys.goals, image));
}

} // verus!
