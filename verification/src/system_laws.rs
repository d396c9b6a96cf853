//! What every operation on a constraint system keeps, and what it leads to.
use crate::bounds::system_max;
use crate::constraints::{Edge, EqDisj, Goal, GoalStatus, LessAtom, Reason};
use crate::context::{AddEqsAnswer, Query};
use crate::equations::{
    all_alike, collision_eqs, first_nodes, lemma_nodes_besides_size, nodes_besides, node_terms,
    nontrivial, rules_at, same_infos,
};
use crate::facts::{Fact, RuleACInst};
use crate::formulas::{
    denied, formula_size, formulas_size, goal_solved, goal_unsolved, goals_besides, instantiated,
    lemma_formula_size, lemma_size_instantiated, live_splits, node_of, reduced,
    representative, two, without_first,
};
use crate::guarded::{bottom, GAtom, Guarded, Quant};
use crate::list::{find, List};
use crate::list_laws::{all, distinct, lemma_distinct_snoc, lemma_has_snoc, lemma_times_has, times};
use crate::reduction::{
    goal_parts, goal_weight, ku_goal, lemma_goal_parts, lemma_term_size, node_var, terms_size,
    ChangeIndicator, Reduction, SolveOutcome, SplitStrategy,
};
use crate::subst_laws::{goals_once, lemma_ordered_once_snoc, lemma_orders_snoc, ordered_once};
use crate::system::{combined, orders, put_goal, System};
use crate::term_ops::{after, larger};
use crate::terms::{LVar, Term};
use vstd::prelude::*;

verus! {

/// Joining changes is independent of order and grouping; joining with no change
/// or with the same change adds nothing.
pub proof fn law_changes_join(a: ChangeIndicator, b: ChangeIndicator, c: ChangeIndicator)
    ensures
        a.either(b) == b.either(a),
        a.either(b).either(c) == a.either(b.either(c)),
        a.either(a) == a,
        a.either(ChangeIndicator::Unchanged) == a,
        a.either(ChangeIndicator::Changed) == ChangeIndicator::Changed,
{
}

/// Marking a system as one without a model takes hold, and marking it again
/// changes nothing.
pub proof fn law_refuted_stays(red: Reduction)
    ensures
        red.refuted().sys.eq_store.contradictory,
        red.refuted().sys.formulas.has(bottom()),
        !red.refuted().sys.initial(),
        red.refuted().refuted() == red.refuted(),
{
    lemma_has_snoc(red.sys.formulas, bottom(), bottom());
}

/// The entry of a goal after it has been put among the goals.
pub proof fn law_goal_put(l: List<(Goal, GoalStatus)>, g: Goal, status: GoalStatus, h: Goal)
    ensures
        find(put_goal(l, g, status), h) == if h == g {
            match find(l, g) {
                Some(st) => Some(combined(st, status)),
                None => Some(status),
            }
        } else {
            find(l, h)
        },
    decreases l,
{
    match l {
        List::Nil => {
            assert(find(List::<(Goal, GoalStatus)>::Nil, h) is None);
        },
        List::Cons(_, rest) => {
            law_goal_put(*rest, g, status, h);
        },
    }
}

proof fn lemma_put_once(l: List<(Goal, GoalStatus)>, g: Goal, status: GoalStatus)
    requires
        goals_once(l),
    ensures
        goals_once(put_goal(l, g, status)),
    decreases l,
{
    match l {
        List::Nil => {
            assert(find(List::<(Goal, GoalStatus)>::Nil, g) is None);
            assert(goals_once(List::Nil));
        },
        List::Cons(e, rest) => {
            if e.0 != g {
                lemma_put_once(*rest, g, status);
                law_goal_put(*rest, g, status, e.0);
            }
        },
    }
}

/// Whether the system keeps every goal, every edge and every ordering once.
pub open spec fn orderly(sys: System) -> bool {
    &&& goals_once(sys.goals)
    &&& distinct(sys.edges)
    &&& ordered_once(sys.less_atoms)
}

/// The system without constraints is orderly.
pub proof fn law_empty_is_orderly()
    ensures
        orderly(System::none()),
{
}

/// Adding a goal, an edge or an ordering keeps a system orderly.
pub proof fn law_additions_keep_order(sys: System, g: Goal, looping: bool, e: Edge, l: LessAtom)
    requires
        orderly(sys),
    ensures
        orderly(sys.with_goal(g, looping)),
        orderly(sys.with_edge(e)),
        orderly(sys.with_less(l)),
{
    let status = GoalStatus { solved: false, looping, nr: sys.next_goal_nr };
    lemma_put_once(sys.goals, g, status);
    if !sys.edges.has(e) {
        lemma_distinct_snoc(sys.edges, e);
    }
    if !orders(sys.less_atoms, l.smaller, l.larger) {
        lemma_ordered_once_snoc(sys.less_atoms, l);
    }
}

/// What was added is there, and adding an edge or an ordering again changes
/// nothing.
pub proof fn law_additions_stay(sys: System, g: Goal, looping: bool, e: Edge, l: LessAtom)
    ensures
        find(sys.with_goal(g, looping).goals, g) is Some,
        sys.with_edge(e).edges.has(e),
        sys.with_edge(e).with_edge(e) == sys.with_edge(e),
        orders(sys.with_less(l).less_atoms, l.smaller, l.larger),
        sys.with_less(l).with_less(l) == sys.with_less(l),
{
    let status = GoalStatus { solved: false, looping, nr: sys.next_goal_nr };
    law_goal_put(sys.goals, g, status, g);
    lemma_has_snoc(sys.edges, e, e);
    lemma_orders_snoc(sys.less_atoms, l, l.smaller, l.larger);
}

/// Whether the goals of `a` are among those of `b`: solved where they were, loop
/// breakers where they were, and no younger.
pub open spec fn goals_grow(a: System, b: System) -> bool {
    forall|h: Goal|
        #![trigger find(b.goals, h)]
        find(a.goals, h) matches Some(st) ==> find(b.goals, h) matches Some(more) && (st.solved
            ==> more.solved) && (st.looping ==> more.looping) && more.nr <= st.nr
}

/// Whether the orderings of `a` are among those of `b`.
pub open spec fn orderings_grow(a: System, b: System) -> bool {
    forall|x: LVar, y: LVar|
        orders(a.less_atoms, x, y) ==> #[trigger] orders(b.less_atoms, x, y)
}

proof fn lemma_plain_goal(red: Reduction, g: Goal, looping: bool)
    ensures
        goals_grow(red.sys, red.plain_goal(g, looping).sys),
        orderings_grow(red.sys, red.plain_goal(g, looping).sys),
        find(red.plain_goal(g, looping).sys.goals, g) is Some,
        orderly(red.sys) ==> orderly(red.plain_goal(g, looping).sys),
{
    let status = GoalStatus { solved: false, looping, nr: red.sys.next_goal_nr };
    assert forall|h: Goal|
        #![trigger find(red.plain_goal(g, looping).sys.goals, h)]
        find(red.sys.goals, h) matches Some(st) ==> find(
            red.plain_goal(g, looping).sys.goals,
            h,
        ) matches Some(more) && (st.solved ==> more.solved) && (st.looping ==> more.looping)
            && more.nr <= st.nr by {
        law_goal_put(red.sys.goals, g, status, h);
    }
    law_goal_put(red.sys.goals, g, status, g);
    if orderly(red.sys) {
        lemma_put_once(red.sys.goals, g, status);
    }
}

pub proof fn lemma_less_inserted(red: Reduction, l: LessAtom)
    ensures
        goals_grow(red.sys, red.less_inserted(l).sys),
        orderings_grow(red.sys, red.less_inserted(l).sys),
        orders(red.less_inserted(l).sys.less_atoms, l.smaller, l.larger),
        orderly(red.sys) ==> orderly(red.less_inserted(l).sys),
{
    assert forall|x: LVar, y: LVar| orders(red.sys.less_atoms, x, y) implies #[trigger] orders(
        red.less_inserted(l).sys.less_atoms,
        x,
        y,
    ) by {
        lemma_orders_snoc(red.sys.less_atoms, l, x, y);
    }
    lemma_orders_snoc(red.sys.less_atoms, l, l.smaller, l.larger);
    if orderly(red.sys) && !orders(red.sys.less_atoms, l.smaller, l.larger) {
        lemma_ordered_once_snoc(red.sys.less_atoms, l);
    }
}

proof fn lemma_grow_twice(a: System, b: System, c: System)
    requires
        goals_grow(a, b),
        goals_grow(b, c),
        orderings_grow(a, b),
        orderings_grow(b, c),
    ensures
        goals_grow(a, c),
        orderings_grow(a, c),
{
    assert forall|h: Goal|
        #![trigger find(c.goals, h)]
        find(a.goals, h) matches Some(st) ==> find(c.goals, h) matches Some(more) && (st.solved
            ==> more.solved) && (st.looping ==> more.looping) && more.nr <= st.nr by {
        assert(find(b.goals, h) == find(b.goals, h));
    }
    assert forall|x: LVar, y: LVar| orders(a.less_atoms, x, y) implies #[trigger] orders(
        c.less_atoms,
        x,
        y,
    ) by {
        assert(orders(b.less_atoms, x, y));
    }
}

/// Whether `b` differs from `a` at most in its goals and orderings.
pub open spec fn same_otherwise(a: System, b: System) -> bool {
    b == (System {
        goals: b.goals,
        less_atoms: b.less_atoms,
        next_goal_nr: b.next_goal_nr,
        ..a
    })
}

/// An inserted goal is among the goals, together with what it is taken apart
/// into; no goal and no ordering is lost, nothing but goals and orderings is
/// touched, and an orderly system stays one.
pub proof fn law_goal_inserted(red: Reduction, g: Goal, looping: bool)
    ensures
        find(red.goal_inserted(g, looping).sys.goals, g) is Some,
        goals_grow(red.sys, red.goal_inserted(g, looping).sys),
        orderings_grow(red.sys, red.goal_inserted(g, looping).sys),
        same_otherwise(red.sys, red.goal_inserted(g, looping).sys),
        red.supply.next <= red.goal_inserted(g, looping).supply.next,
        red.goal_inserted(g, looping).ctx == red.ctx,
        orderly(red.sys) ==> orderly(red.goal_inserted(g, looping).sys),
    decreases goal_weight(g), 0nat,
{
    lemma_goal_parts(g);
    lemma_plain_goal(red, g, looping);
    match (g, goal_parts(g)) {
        (Goal::Action(i, _), Some(parts)) => {
            if find(red.sys.goals, g) is None {
                let mid = red.plain_goal(g, looping);
                law_parts_inserted(mid, parts, i, looping);
                let end = mid.parts_inserted(parts, i, looping);
                lemma_grow_twice(red.sys, mid.sys, end.sys);
                assert(find(end.sys.goals, g) is Some);
            }
        },
        _ => {},
    }
}

/// The goals for the parts of a term keep what is there.
pub proof fn law_parts_inserted(red: Reduction, parts: List<Term>, outer: LVar, looping: bool)
    ensures
        goals_grow(red.sys, red.parts_inserted(parts, outer, looping).sys),
        orderings_grow(red.sys, red.parts_inserted(parts, outer, looping).sys),
        same_otherwise(red.sys, red.parts_inserted(parts, outer, looping).sys),
        red.supply.next <= red.parts_inserted(parts, outer, looping).supply.next,
        red.parts_inserted(parts, outer, looping).ctx == red.ctx,
        orderly(red.sys) ==> orderly(red.parts_inserted(parts, outer, looping).sys),
    decreases terms_size(parts), 1nat,
{
    match parts {
        List::Nil => {},
        List::Cons(t, rest) => {
            lemma_term_size(t);
            let idx = after(larger(system_max(red.sys), outer.idx));
            let node = node_var("vk"@, idx);
            let moved = Reduction { supply: red.supply.above(idx), ..red };
            let a = moved.goal_inserted(ku_goal(node, t), looping);
            law_goal_inserted(moved, ku_goal(node, t), looping);
            let l = LessAtom { smaller: node, larger: outer, reason: Reason::Adversary };
            let b = a.less_inserted(l);
            lemma_less_inserted(a, l);
            let c = b.parts_inserted(*rest, outer, looping);
            law_parts_inserted(b, *rest, outer, looping);
            lemma_grow_twice(red.sys, a.sys, b.sys);
            lemma_grow_twice(red.sys, b.sys, c.sys);
        },
    }
}

/// A goal that the intruder has to know and that is there already is not taken
/// apart again.
pub proof fn law_known_goal_stays(red: Reduction, g: Goal, looping: bool)
    requires
        goal_parts(g) is Some,
        find(red.sys.goals, g) is Some,
    ensures
        red.goal_inserted(g, looping) == red,
{
    lemma_goal_parts(g);
}

/// Whether all goals have numbers that were handed out.
pub open spec fn numbered_below(l: List<(Goal, GoalStatus)>, n: u64) -> bool {
    all(l, |e: (Goal, GoalStatus)| e.1.nr < n)
}

proof fn lemma_put_numbered(l: List<(Goal, GoalStatus)>, g: Goal, status: GoalStatus, n: u64)
    requires
        numbered_below(l, n),
        status.nr == n,
        n < u64::MAX,
    ensures
        numbered_below(put_goal(l, g, status), after(n)),
    decreases l,
{
    match l {
        List::Nil => {
            assert(numbered_below(List::Nil, after(n)));
        },
        List::Cons(e, rest) => {
            if e.0 == g {
                lemma_numbered_more(*rest, n);
            } else {
                lemma_put_numbered(*rest, g, status, n);
            }
        },
    }
}

proof fn lemma_numbered_more(l: List<(Goal, GoalStatus)>, n: u64)
    requires
        numbered_below(l, n),
        n < u64::MAX,
    ensures
        numbered_below(l, after(n)),
    decreases l,
{
    match l {
        List::Nil => {},
        List::Cons(_, rest) => {
            lemma_numbered_more(*rest, n);
        },
    }
}

/// Goals are numbered in the order in which they come: a new one is younger than
/// all others.
pub proof fn law_goals_numbered(sys: System, g: Goal, looping: bool)
    requires
        numbered_below(sys.goals, sys.next_goal_nr),
        sys.next_goal_nr < u64::MAX,
    ensures
        numbered_below(
            sys.with_goal(g, looping).goals,
            sys.with_goal(g, looping).next_goal_nr,
        ),
        find(sys.goals, g) is None ==> find(sys.with_goal(g, looping).goals, g) == Some(
            GoalStatus { solved: false, looping, nr: sys.next_goal_nr },
        ),
        find(sys.goals, g) matches Some(st) ==> find(sys.with_goal(g, looping).goals, g) == Some(
            GoalStatus { looping: st.looping || looping, ..st },
        ),
{
    let status = GoalStatus { solved: false, looping, nr: sys.next_goal_nr };
    lemma_put_numbered(sys.goals, g, status, sys.next_goal_nr);
    law_goal_put(sys.goals, g, status, g);
    lemma_found_numbered(sys.goals, g, sys.next_goal_nr);
}

proof fn lemma_found_numbered(l: List<(Goal, GoalStatus)>, g: Goal, n: u64)
    requires
        numbered_below(l, n),
    ensures
        find(l, g) matches Some(st) ==> st.nr < n,
    decreases l,
{
    match l {
        List::Nil => {},
        List::Cons(_, rest) => {
            lemma_found_numbered(*rest, g, n);
        },
    }
}

pub proof fn lemma_solved_entry(l: List<(Goal, GoalStatus)>, g: Goal, h: Goal)
    ensures
        find(goal_solved(l, g), h) == (match find(l, h) {
            Some(st) => if h == g {
                Some(GoalStatus { solved: true, ..st })
            } else {
                Some(st)
            },
            None => None,
        }),
        goals_once(l) ==> goals_once(goal_solved(l, g)) && !goal_unsolved(goal_solved(l, g), g),
    decreases l,
{
    match l {
        List::Nil => {},
        List::Cons(e, rest) => {
            lemma_solved_entry(*rest, g, h);
            lemma_solved_entry(*rest, g, e.0);
            if e.0 == g && find(*rest, g) is None {
                lemma_not_unsolved(*rest, g);
            }
        },
    }
}

proof fn lemma_not_unsolved(l: List<(Goal, GoalStatus)>, g: Goal)
    requires
        find(l, g) is None,
    ensures
        !goal_unsolved(l, g),
        goal_solved(l, g) == l,
    decreases l,
{
    match l {
        List::Nil => {},
        List::Cons(_, rest) => {
            lemma_not_unsolved(*rest, g);
        },
    }
}

proof fn lemma_besides_entry(l: List<(Goal, GoalStatus)>, g: Goal, h: Goal)
    ensures
        find(goals_besides(l, g), h) == if h == g {
            None
        } else {
            find(l, h)
        },
        goals_once(l) ==> goals_once(goals_besides(l, g)),
    decreases l,
{
    match l {
        List::Nil => {},
        List::Cons(e, rest) => {
            lemma_besides_entry(*rest, g, h);
            lemma_besides_entry(*rest, g, e.0);
        },
    }
}

proof fn lemma_disj_done_goals(red: Reduction, l: List<Guarded>)
    ensures
        red.disj_done(l).sys.goals == red.sys.goals,
        red.disj_done(l).sys.edges == red.sys.edges,
        red.disj_done(l).sys.less_atoms == red.sys.less_atoms,
{
}

/// A goal that has been solved is no longer open: it is gone or marked as solved.
/// Other goals stay as they are, and an orderly system stays one.
pub proof fn law_goal_done(red: Reduction, g: Goal, h: Goal)
    ensures
        find(red.goal_done(g).sys.goals, g) matches Some(st) ==> st.solved,
        h != g ==> find(red.goal_done(g).sys.goals, h) == find(red.sys.goals, h),
        orderly(red.sys) ==> orderly(red.goal_done(g).sys),
{
    reveal(Reduction::goal_done);
    lemma_besides_entry(red.sys.goals, g, g);
    lemma_besides_entry(red.sys.goals, g, h);
    lemma_solved_entry(red.sys.goals, g, g);
    lemma_solved_entry(red.sys.goals, g, h);
    match g {
        Goal::Disj(l) => {
            lemma_disj_done_goals(red, l);
        },
        _ => {},
    }
}

proof fn lemma_besides_twice(l: List<(Goal, GoalStatus)>, g: Goal)
    ensures
        goals_besides(goals_besides(l, g), g) == goals_besides(l, g),
    decreases l,
{
    match l {
        List::Nil => {},
        List::Cons(_, rest) => {
            lemma_besides_twice(*rest, g);
        },
    }
}

proof fn lemma_solved_twice(l: List<(Goal, GoalStatus)>, g: Goal)
    requires
        goals_once(l),
    ensures
        goal_solved(goal_solved(l, g), g) == goal_solved(l, g),
    decreases l,
{
    match l {
        List::Nil => {},
        List::Cons(e, rest) => {
            lemma_solved_twice(*rest, g);
            if e.0 == g {
                lemma_not_unsolved(*rest, g);
            }
        },
    }
}

proof fn lemma_without_first(l: List<Guarded>, x: Guarded)
    ensures
        times(l, x) <= 1 ==> !without_first(l, x).has(x),
    decreases l,
{
    match l {
        List::Nil => {},
        List::Cons(y, rest) => {
            lemma_without_first(*rest, x);
            if y == x {
                lemma_times_has(*rest, x);
            }
        },
    }
}

/// Solving a goal a second time changes nothing, where every goal has one entry
/// and the formula of a disjunction is stored once.
pub proof fn law_goal_done_once(red: Reduction, g: Goal)
    requires
        goals_once(red.sys.goals),
        g matches Goal::Disj(l) ==> times(red.sys.formulas, Guarded::Disj(Box::new(l))) <= 1,
    ensures
        red.goal_done(g).goal_done(g) == red.goal_done(g),
{
    reveal(Reduction::goal_done);
    lemma_besides_twice(red.sys.goals, g);
    lemma_besides_entry(red.sys.goals, g, g);
    lemma_solved_twice(red.sys.goals, g);
    lemma_solved_entry(red.sys.goals, g, g);
    match g {
        Goal::Disj(l) => {
            let f = Guarded::Disj(Box::new(l));
            lemma_without_first(red.sys.formulas, f);
            lemma_disj_done_goals(red, l);
        },
        _ => {},
    }
}

/// Whether every split that is a goal has its disjunction.
pub open spec fn splits_live(l: List<(Goal, GoalStatus)>, conj: List<EqDisj>) -> bool {
    all(
        l,
        |e: (Goal, GoalStatus)|
            e.0 matches Goal::Split(id) ==> crate::constraints::split_exists(conj, id),
    )
}

proof fn lemma_live_splits(l: List<(Goal, GoalStatus)>, conj: List<EqDisj>)
    ensures
        splits_live(live_splits(l, conj), conj),
        splits_live(l, conj) ==> live_splits(l, conj) == l,
        live_splits(l, conj).size() <= l.size(),
        live_splits(l, conj).size() == l.size() ==> live_splits(l, conj) == l,
    decreases l,
{
    match l {
        List::Nil => {},
        List::Cons(_, rest) => {
            lemma_live_splits(*rest, conj);
        },
    }
}

/// After splits without a disjunction have been removed, every split has its
/// disjunction; removing them again changes nothing.
pub proof fn law_splits_removed(red: Reduction)
    ensures
        splits_live(red.splits_removed().sys.goals, red.splits_removed().sys.eq_store.conj),
        red.splits_removed().splits_removed() == red.splits_removed(),
        splits_live(red.sys.goals, red.sys.eq_store.conj) ==> red.splits_removed() == red,
{
    reveal(Reduction::splits_removed);
    let conj = red.sys.eq_store.conj;
    lemma_live_splits(red.sys.goals, conj);
    lemma_live_splits(live_splits(red.sys.goals, conj), conj);
}

/// The identifiers of the nodes.
pub open spec fn node_ids(l: List<(LVar, RuleACInst)>) -> List<LVar>
    decreases l,
{
    match l {
        List::Nil => List::Nil,
        List::Cons(n, rest) => List::Cons(n.0, Box::new(node_ids(*rest))),
    }
}

proof fn lemma_besides_ids(l: List<(LVar, RuleACInst)>, id: LVar, other: LVar)
    ensures
        node_ids(nodes_besides(l, id)).has(other) == (node_ids(l).has(other) && other != id),
    decreases l,
{
    match l {
        List::Nil => {},
        List::Cons(_, rest) => {
            lemma_besides_ids(*rest, id, other);
        },
    }
}

proof fn lemma_first_ids(l: List<(LVar, RuleACInst)>, id: LVar)
    ensures
        node_ids(first_nodes(l)).has(id) == node_ids(l).has(id),
    decreases l.size(),
{
    match l {
        List::Nil => {},
        List::Cons(n, rest) => {
            lemma_nodes_besides_size(*rest, n.0);
            lemma_first_ids(nodes_besides(*rest, n.0), id);
            lemma_besides_ids(*rest, n.0, id);
        },
    }
}

/// The first node of each identifier: every identifier occurs once, and it is
/// one of the given ones.
pub proof fn law_nodes_once(l: List<(LVar, RuleACInst)>)
    ensures
        distinct(node_ids(first_nodes(l))),
        forall|id: LVar| #[trigger] node_ids(first_nodes(l)).has(id) == node_ids(l).has(id),
    decreases l.size(),
{
    match l {
        List::Nil => {},
        List::Cons(n, rest) => {
            lemma_nodes_besides_size(*rest, n.0);
            let others = nodes_besides(*rest, n.0);
            law_nodes_once(others);
            lemma_first_ids(others, n.0);
            lemma_besides_ids(*rest, n.0, n.0);
        },
    }
    assert forall|id: LVar| #[trigger] node_ids(first_nodes(l)).has(id) == node_ids(l).has(id) by {
        lemma_first_ids(l, id);
    }
}

proof fn lemma_no_collision(l: List<(LVar, RuleACInst)>, id: LVar)
    requires
        !node_ids(l).has(id),
    ensures
        nodes_besides(l, id) == l,
        rules_at(l, id) == List::<RuleACInst>::Nil,
    decreases l,
{
    match l {
        List::Nil => {},
        List::Cons(_, rest) => {
            lemma_no_collision(*rest, id);
        },
    }
}

proof fn lemma_distinct_ids(l: List<(LVar, RuleACInst)>)
    requires
        distinct(node_ids(l)),
    ensures
        first_nodes(l) == l,
        collision_eqs(l) is Nil,
    decreases l.size(),
{
    match l {
        List::Nil => {},
        List::Cons(n, rest) => {
            lemma_no_collision(*rest, n.0);
            lemma_distinct_ids(*rest);
        },
    }
}

/// Nodes with identifiers of their own are set as they are, without equations.
pub proof fn law_distinct_nodes_set(red: Reduction, nodes: List<(LVar, RuleACInst)>)
    requires
        distinct(node_ids(nodes)),
    ensures
        red.nodes_set(nodes) == Ok::<(Reduction, SolveOutcome), Query>(
            (
                red.on(System { nodes, ..red.sys }),
                SolveOutcome::Linear(ChangeIndicator::Unchanged),
            ),
        ),
{
    reveal(Reduction::nodes_set);
    lemma_distinct_ids(nodes);
}

/// Whether the part of the system that equations do not concern is the same: all
/// but goals, orderings, formulas and equations.
pub open spec fn same_graph(a: System, b: System) -> bool {
    a.nodes == b.nodes && a.edges == b.edges && a.last_atom == b.last_atom && a.subterm_store
        == b.subterm_store && a.less_atoms == b.less_atoms
}

/// Equations touch the graph nowhere, and lose no goal.
pub proof fn law_equations_keep_graph(
    red: Reduction,
    strategy: SplitStrategy,
    eqs: List<(Term, Term)>,
)
    ensures
        red.term_eqs(strategy, eqs) matches Ok((end, out)) ==> same_graph(red.sys, end.sys)
            && goals_grow(red.sys, end.sys) && red.sys.formulas == end.sys.formulas
            && red.sys.solved_formulas == end.sys.solved_formulas && red.sys.lemmas
            == end.sys.lemmas && (orderly(red.sys) ==> orderly(end.sys)),
{
    reveal(Reduction::term_eqs);
    let pending = nontrivial(eqs);
    if pending !is Nil {
        match find(red.ctx.answers.add_eqs, red.unifier_query(pending)) {
            Some(AddEqsAnswer::Added(store, split, next)) => {
                let start = red.with_store(store).at(next);
                match (split, start.store_simplified(start.checked())) {
                    (Some(id), Ok(mid)) => {
                        lemma_plain_goal(mid, Goal::Split(id), false);
                    },
                    _ => {},
                }
            },
            _ => {},
        }
    }
}

/// Equations that hold already change nothing.
pub proof fn law_trivial_equations(
    red: Reduction,
    strategy: SplitStrategy,
    eqs: List<(Term, Term)>,
)
    requires
        all(eqs, |e: (Term, Term)| e.0 == e.1),
    ensures
        red.term_eqs(strategy, eqs) == Ok::<(Reduction, SolveOutcome), Query>(
            (red, SolveOutcome::Linear(ChangeIndicator::Unchanged)),
        ),
{
    reveal(Reduction::term_eqs);
    lemma_all_trivial(eqs);
}

proof fn lemma_all_trivial(eqs: List<(Term, Term)>)
    requires
        all(eqs, |e: (Term, Term)| e.0 == e.1),
    ensures
        nontrivial(eqs) is Nil,
    decreases eqs,
{
    match eqs {
        List::Nil => {},
        List::Cons(_, rest) => {
            lemma_all_trivial(*rest);
        },
    }
}

/// Facts with different symbols and rule instances of different rules are never
/// made equal: the equations have no solution, and unification is not asked.
pub proof fn law_mismatch_contradicts(
    red: Reduction,
    strategy: SplitStrategy,
    facts: List<(Fact, Fact)>,
    rules: List<(RuleACInst, RuleACInst)>,
)
    ensures
        !all_alike(facts) ==> red.fact_eqs(strategy, facts) == Ok::<
            (Reduction, SolveOutcome),
            Query,
        >((red.falsified(), SolveOutcome::Contradictory)),
        !same_infos(rules) ==> red.rule_eqs(strategy, rules) == Ok::<
            (Reduction, SolveOutcome),
            Query,
        >((red.falsified(), SolveOutcome::Contradictory)),
{
    reveal(Reduction::fact_eqs);
    reveal(Reduction::rule_eqs);
}

/// An edge whose facts cannot be equal is not added, and the system is marked as
/// one without a model.
pub proof fn law_impossible_edge(red: Reduction, e: Edge, conc: Fact, prem: Fact)
    requires
        !all_alike(List::one((conc, prem))),
        conc != prem,
    ensures
        red.edge_inserted(e, Some(conc), Some(prem)) == Ok::<(Reduction, SolveOutcome), Query>(
            (red.falsified().refuted(), SolveOutcome::Contradictory),
        ),
        red.falsified().refuted().sys.edges == red.sys.edges,
{
    reveal(Reduction::edge_inserted);
    law_mismatch_contradicts(red, SplitStrategy::SplitNow, List::one((conc, prem)), List::Nil);
}

/// An edge whose facts are equal, or not known, is added.
pub proof fn law_edge_added(red: Reduction, e: Edge, conc: Option<Fact>, prem: Option<Fact>)
    requires
        conc is None || prem is None || conc == prem,
    ensures
        red.edge_inserted(e, conc, prem) matches Ok((end, out)) && end.sys == red.sys.with_edge(e)
            && end.sys.edges.has(e) && out == SolveOutcome::Linear(ChangeIndicator::Unchanged),
{
    reveal(Reduction::edge_inserted);
    lemma_has_snoc(red.sys.edges, e, e);
}

/// A formula that is stored already is not inserted again.
pub proof fn law_stored_formula_stays(red: Reduction, g: Guarded, mark: bool)
    requires
        red.stored(g),
    ensures
        red.formula_inserted(g, mark) == Ok::<Reduction, Query>(red),
{
}

/// A disjunction that is inserted becomes a formula and a goal, once.
pub proof fn law_disjunction_inserted(red: Reduction, l: List<Guarded>, mark: bool)
    ensures
        red.formula_inserted(Guarded::Disj(Box::new(l)), mark) matches Ok(end) && end.stored(
            Guarded::Disj(Box::new(l)),
        ) && end.formula_inserted(Guarded::Disj(Box::new(l)), mark) == Ok::<Reduction, Query>(end),
        !red.stored(Guarded::Disj(Box::new(l))) ==> (red.formula_inserted(
            Guarded::Disj(Box::new(l)),
            mark,
        ) matches Ok(end) && find(end.sys.goals, Goal::Disj(l)) is Some),
{
    let g = Guarded::Disj(Box::new(l));
    if !red.stored(g) {
        lemma_has_snoc(red.sys.formulas, g, g);
        let kept = red.formula_kept(g);
        law_goal_inserted(kept, Goal::Disj(l), false);
        let end = kept.goal_inserted(Goal::Disj(l), false).touched();
        assert(end.sys.formulas == kept.sys.formulas);
        law_stored_formula_stays(end, g, mark);
    }
}

/// Whether the formulas of `a` are among those of `b`, and the solved ones among the
/// solved ones.
pub open spec fn formulas_grow(a: System, b: System) -> bool {
    &&& forall|f: Guarded| a.formulas.has(f) ==> #[trigger] b.formulas.has(f)
    &&& forall|f: Guarded| a.solved_formulas.has(f) ==> #[trigger] b.solved_formulas.has(f)
}

/// Whether `b` has everything that `a` has: every goal, solved where it was, every
/// ordering, every formula and every solved formula, the last node where there is
/// one, and the same nodes, edges and lemmas; and whether it is orderly where `a` is.
pub open spec fn outgrows(a: System, b: System) -> bool {
    &&& a.nodes == b.nodes && a.edges == b.edges && a.lemmas == b.lemmas
    &&& a.last_atom is Some ==> b.last_atom == a.last_atom
    &&& goals_grow(a, b)
    &&& orderings_grow(a, b)
    &&& formulas_grow(a, b)
    &&& (orderly(a) ==> orderly(b))
}

proof fn lemma_snoc_grows(l: List<Guarded>, g: Guarded)
    ensures
        forall|f: Guarded| l.has(f) ==> #[trigger] l.snoc(g).has(f),
{
    assert forall|f: Guarded| l.has(f) implies #[trigger] l.snoc(g).has(f) by {
        lemma_has_snoc(l, g, f);
    }
}

proof fn lemma_formula_added(red: Reduction, g: Guarded, mark: bool)
    ensures
        outgrows(red.sys, red.formula_kept(g).sys),
        outgrows(red.sys, red.formula_done(g).sys),
        outgrows(red.sys, red.formula_marked(g, mark).sys),
        outgrows(red.sys, red.refuted().sys),
{
    lemma_snoc_grows(red.sys.formulas, g);
    lemma_snoc_grows(red.sys.solved_formulas, g);
    lemma_snoc_grows(red.sys.formulas, bottom());
}

pub proof fn lemma_outgrows_twice(a: System, b: System, c: System)
    requires
        outgrows(a, b),
        outgrows(b, c),
    ensures
        outgrows(a, c),
{
    lemma_grow_twice(a, b, c);
    assert forall|f: Guarded| a.formulas.has(f) implies #[trigger] c.formulas.has(f) by {
        assert(b.formulas.has(f));
    }
    assert forall|f: Guarded| a.solved_formulas.has(f) implies #[trigger] c.solved_formulas.has(
        f,
    ) by {
        assert(b.solved_formulas.has(f));
    }
}

proof fn lemma_eq_inserted(red: Reduction, x: Term, y: Term)
    ensures
        red.eq_inserted(x, y) matches Ok(end) ==> outgrows(red.sys, end.sys),
{
    law_equations_keep_graph(red, SplitStrategy::SplitNow, List::one((x, y)));
    match red.term_eqs(SplitStrategy::SplitNow, List::one((x, y))) {
        Ok((mid, _)) => {
            lemma_formula_added(mid, bottom(), false);
            lemma_outgrows_twice(red.sys, mid.sys, mid.refuted().sys);
        },
        Err(_) => {},
    }
}

pub proof fn lemma_last_inserted(red: Reduction, i: LVar)
    ensures
        red.last_inserted(i) matches Ok((end, _)) ==> outgrows(red.sys, end.sys),
{
    reveal(Reduction::last_inserted);
    match red.sys.last_atom {
        Some(j) => {
            let eqs = List::one((i, j));
            reveal(Reduction::node_eqs);
            law_equations_keep_graph(red, SplitStrategy::SplitNow, node_terms(eqs));
            match red.node_eqs(eqs) {
                Ok((mid, _)) => {
                    lemma_formula_added(mid, bottom(), false);
                    lemma_outgrows_twice(red.sys, mid.sys, mid.refuted().sys);
                },
                Err(_) => {},
            }
        },
        None => {},
    }
}

/// Inserting an atom loses nothing.
pub proof fn law_atom_loses_nothing(red: Reduction, a: GAtom)
    ensures
        red.atom_inserted(a) matches Ok((end, _)) ==> outgrows(red.sys, end.sys),
{
    reveal(Reduction::atom_inserted);
    match a {
        GAtom::Eq(x, y) => {
            match (reduced(red.ctx, x), reduced(red.ctx, y)) {
                (Ok(u), Ok(v)) => {
                    lemma_eq_inserted(red, u, v);
                },
                _ => {},
            }
        },
        GAtom::Less(s, t) => {
            match (node_of(s), node_of(t)) {
                (Some(i), Some(j)) => {
                    let l = LessAtom {
                        smaller: representative(red.sys.eq_store.subst, i),
                        larger: representative(red.sys.eq_store.subst, j),
                        reason: Reason::Formula,
                    };
                    lemma_less_inserted(red, l);
                },
                _ => {},
            }
        },
        GAtom::Last(t) => {
            match node_of(t) {
                Some(i) => {
                    lemma_last_inserted(red, i);
                },
                None => {},
            }
        },
        GAtom::Action(fa, t) => {
            match node_of(t) {
                Some(i) => {
                    law_goal_inserted(red, Goal::Action(i, fa), false);
                },
                None => {},
            }
        },
        _ => {},
    }
}

proof fn lemma_disj_loses_nothing(red: Reduction, l: List<Guarded>)
    ensures
        outgrows(red.sys, red.disj_inserted(l).sys),
{
    let g = Guarded::Disj(Box::new(l));
    let kept = red.formula_kept(g);
    lemma_formula_added(red, g, false);
    law_goal_inserted(kept, Goal::Disj(l), false);
    lemma_outgrows_twice(red.sys, kept.sys, kept.goal_inserted(Goal::Disj(l), false).sys);
}

proof fn lemma_denial_loses_nothing(red: Reduction, g: Guarded, a: GAtom, mark: bool)
    ensures
        outgrows(red.sys, red.denial_inserted(g, a, mark).sys),
{
    let marked = red.formula_marked(g, mark);
    lemma_formula_added(red, g, mark);
    match a {
        GAtom::Less(i, j) => {
            let l = two(GAtom::Eq(i, j), GAtom::Less(j, i));
            lemma_disj_loses_nothing(marked, l);
            lemma_outgrows_twice(red.sys, marked.sys, marked.disj_inserted(l).sys);
        },
        GAtom::Eq(i, j) => {
            let l = two(GAtom::Less(i, j), GAtom::Less(j, i));
            lemma_disj_loses_nothing(marked, l);
            lemma_outgrows_twice(red.sys, marked.sys, marked.disj_inserted(l).sys);
        },
        GAtom::Last(i) => {
            let last = marked.last_node();
            let mid = marked.on(System { last_atom: Some(last), ..marked.sys });
            let t = Term::Var(last);
            let l = two(GAtom::Less(t, i), GAtom::Less(i, t));
            lemma_disj_loses_nothing(mid, l);
            lemma_outgrows_twice(red.sys, mid.sys, mid.disj_inserted(l).sys);
        },
        _ => {
            lemma_formula_added(marked, g, mark);
            lemma_outgrows_twice(red.sys, marked.sys, marked.formula_kept(g).sys);
        },
    }
}

/// Inserting a formula loses nothing: every goal stays, solved where it was, every
/// ordering, every formula and every solved formula stays, and an orderly system
/// stays one.
pub proof fn law_formula_loses_nothing(red: Reduction, g: Guarded, mark: bool)
    ensures
        red.formula_inserted(g, mark) matches Ok(end) ==> outgrows(red.sys, end.sys),
    decreases formula_size(g), 0nat,
{
    if !red.stored(g) {
        match g {
            Guarded::Conj(l) => {
                let marked = red.formula_marked(g, mark);
                lemma_formula_added(red, g, mark);
                law_formulas_lose_nothing(marked, *l);
                match marked.formulas_inserted(*l) {
                    Ok(end) => {
                        lemma_outgrows_twice(red.sys, marked.sys, end.sys);
                    },
                    Err(_) => {},
                }
            },
            Guarded::Disj(l) => {
                lemma_disj_loses_nothing(red, *l);
            },
            Guarded::Atom(a) => {
                law_atom_loses_nothing(red, a);
                match red.atom_inserted(a) {
                    Ok((mid, _)) => {
                        lemma_formula_added(mid, g, mark);
                        lemma_outgrows_twice(red.sys, mid.sys, mid.formula_done(g).sys);
                    },
                    Err(_) => {},
                }
            },
            Guarded::GGuarded(Quant::Ex, vars, guards, body) => {
                let xs = red.witnesses(g, vars, mark);
                let inst = instantiated(xs, guards, *body);
                let taken = red.witnesses_taken(g, vars, mark);
                lemma_size_instantiated(xs, guards, *body);
                lemma_formula_added(red, g, mark);
                law_formula_loses_nothing(taken, inst, false);
                match taken.formula_inserted(inst, false) {
                    Ok(end) => {
                        lemma_outgrows_twice(red.sys, taken.sys, end.sys);
                    },
                    Err(_) => {},
                }
            },
            Guarded::GGuarded(Quant::All, _, _, _) => {
                match denied(g) {
                    Some(a) => {
                        lemma_denial_loses_nothing(red, g, a, mark);
                    },
                    None => {
                        lemma_formula_added(red, g, mark);
                    },
                }
            },
        }
    }
}

/// Inserting formulas loses nothing.
pub proof fn law_formulas_lose_nothing(red: Reduction, l: List<Guarded>)
    ensures
        red.formulas_inserted(l) matches Ok(end) ==> outgrows(red.sys, end.sys),
    decreases formulas_size(l), 1nat,
{
    match l {
        List::Nil => {},
        List::Cons(g, rest) => {
            lemma_formula_size(g);
            law_formula_loses_nothing(red, g, false);
            match red.formula_inserted(g, false) {
                Ok(mid) => {
                    law_formulas_lose_nothing(mid, *rest);
                    match mid.formulas_inserted(*rest) {
                        Ok(end) => {
                            lemma_outgrows_twice(red.sys, mid.sys, end.sys);
                        },
                        Err(_) => {},
                    }
                },
                Err(_) => {},
            }
        },
    }
}

proof fn lemma_atom_marks_nothing(red: Reduction, a: GAtom)
    ensures
        red.atom_inserted(a) matches Ok((end, _)) ==> end.sys.solved_formulas
            == red.sys.solved_formulas,
{
    reveal(Reduction::atom_inserted);
    match a {
        GAtom::Eq(x, y) => match (reduced(red.ctx, x), reduced(red.ctx, y)) {
            (Ok(u), Ok(v)) => {
                law_equations_keep_graph(red, SplitStrategy::SplitNow, List::one((u, v)));
            },
            _ => {},
        },
        GAtom::Last(t) => match (node_of(t), red.sys.last_atom) {
            (Some(i), Some(j)) => {
                reveal(Reduction::last_inserted);
                reveal(Reduction::node_eqs);
                law_equations_keep_graph(
                    red,
                    SplitStrategy::SplitNow,
                    node_terms(List::one((i, j))),
                );
            },
            _ => {
                reveal(Reduction::last_inserted);
            },
        },
        GAtom::Action(fa, t) => match node_of(t) {
            Some(i) => {
                law_goal_inserted(red, Goal::Action(i, fa), false);
            },
            None => {},
        },
        _ => {},
    }
}

proof fn lemma_disj_marks_nothing(red: Reduction, l: List<Guarded>)
    ensures
        red.disj_inserted(l).sys.solved_formulas == red.sys.solved_formulas,
{
    law_goal_inserted(red.formula_kept(Guarded::Disj(Box::new(l))), Goal::Disj(l), false);
}

/// Only the formula that is inserted itself comes to count as dealt with, and only
/// where it is to be marked: its parts never do.  A conjunction and an existential
/// formula that are new and to be marked always come to.
pub proof fn law_parts_are_not_marked(red: Reduction, g: Guarded, mark: bool)
    ensures
        red.formula_inserted(g, mark) matches Ok(end) ==> end.sys.solved_formulas
            == red.sys.solved_formulas || mark && end.sys.solved_formulas
            == red.sys.solved_formulas.snoc(g),
        red.formula_inserted(g, mark) matches Ok(end) ==> mark && !red.stored(g) && (g is Conj
            || g matches Guarded::GGuarded(Quant::Ex, _, _, _)) ==> end.sys.solved_formulas
            == red.sys.solved_formulas.snoc(g),
    decreases formula_size(g), 0nat,
{
    if !red.stored(g) {
        match g {
            Guarded::Conj(l) => {
                lemma_formulas_mark_nothing(red.formula_marked(g, mark), *l);
            },
            Guarded::Disj(l) => {
                lemma_disj_marks_nothing(red, *l);
            },
            Guarded::Atom(a) => {
                lemma_atom_marks_nothing(red, a);
            },
            Guarded::GGuarded(Quant::Ex, vars, guards, body) => {
                let xs = red.witnesses(g, vars, mark);
                lemma_size_instantiated(xs, guards, *body);
                law_parts_are_not_marked(
                    red.witnesses_taken(g, vars, mark),
                    instantiated(xs, guards, *body),
                    false,
                );
            },
            Guarded::GGuarded(Quant::All, _, _, _) => match denied(g) {
                Some(a) => {
                    let marked = red.formula_marked(g, mark);
                    match a {
                        GAtom::Less(i, j) => {
                            let l = two(GAtom::Eq(i, j), GAtom::Less(j, i));
                            lemma_disj_marks_nothing(marked, l);
                        },
                        GAtom::Eq(i, j) => {
                            let l = two(GAtom::Less(i, j), GAtom::Less(j, i));
                            lemma_disj_marks_nothing(marked, l);
                        },
                        GAtom::Last(i) => {
                            let last = marked.last_node();
                            let mid = marked.on(System { last_atom: Some(last), ..marked.sys });
                            let t = Term::Var(last);
                            let l = two(GAtom::Less(t, i), GAtom::Less(i, t));
                            lemma_disj_marks_nothing(mid, l);
                        },
                        _ => {},
                    }
                },
                None => {},
            },
        }
    }
}

proof fn lemma_formulas_mark_nothing(red: Reduction, l: List<Guarded>)
    ensures
        red.formulas_inserted(l) matches Ok(end) ==> end.sys.solved_formulas
            == red.sys.solved_formulas,
    decreases formulas_size(l), 1nat,
{
    match l {
        List::Nil => {},
        List::Cons(g, rest) => {
            lemma_formula_size(g);
            law_parts_are_not_marked(red, g, false);
            match red.formula_inserted(g, false) {
                Ok(mid) => {
                    lemma_formulas_mark_nothing(mid, *rest);
                },
                Err(_) => {},
            }
        },
    }
}

} // verus!
