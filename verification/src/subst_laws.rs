//! What a pass of the substitution does to a system.
use crate::constraints::{Goal, GoalStatus, LessAtom};
use crate::context::Query;
use crate::leaves::FormulaSubst;
use crate::list::{find, List};
use crate::list_laws::{lemma_snoc_then, lemma_then_nil};
use crate::reduction::Reduction;
use crate::rename_precise::distinct_goals;
use crate::subst_system::{applied_goal, distinct_lesses, passed_goals, GoalPass, PASSES};
use crate::system::{orders, put_goal};
use crate::term_ops::{applied, touches, Subst};
use crate::terms::{LVar, Term};
use vstd::prelude::*;

verus! {

/// A term in which no variable is bound stays as it is.
pub proof fn law_untouched_term_stays(s: Subst, t: Term)
    requires
        !touches(s, t),
    ensures
        applied(s, t) == t,
{
}

/// Whether every pair of nodes is ordered at most once.
pub open spec fn ordered_once(l: List<LessAtom>) -> bool
    decreases l,
{
    match l {
        List::Nil => true,
        List::Cons(a, rest) => !orders(*rest, a.smaller, a.larger) && ordered_once(*rest),
    }
}

pub proof fn lemma_orders_snoc(l: List<LessAtom>, a: LessAtom, x: LVar, y: LVar)
    ensures
        orders(l.snoc(a), x, y) == (orders(l, x, y) || (a.smaller == x && a.larger == y)),
    decreases l,
{
    match l {
        List::Nil => {
            assert(!orders(List::Nil, x, y));
        },
        List::Cons(_, rest) => {
            lemma_orders_snoc(*rest, a, x, y);
        },
    }
}

pub proof fn lemma_ordered_once_snoc(l: List<LessAtom>, a: LessAtom)
    requires
        ordered_once(l),
        !orders(l, a.smaller, a.larger),
    ensures
        ordered_once(l.snoc(a)),
    decreases l,
{
    match l {
        List::Nil => {
            assert(ordered_once(List::Nil));
            assert(!orders(List::Nil, a.smaller, a.larger));
        },
        List::Cons(b, rest) => {
            lemma_ordered_once_snoc(*rest, a);
            lemma_orders_snoc(*rest, a, b.smaller, b.larger);
        },
    }
}

proof fn lemma_distinct_lesses_once(acc: List<LessAtom>, l: List<LessAtom>)
    requires
        ordered_once(acc),
    ensures
        ordered_once(distinct_lesses(acc, l)),
    decreases l,
{
    match l {
        List::Nil => {},
        List::Cons(a, rest) => {
            if orders(acc, a.smaller, a.larger) {
                lemma_distinct_lesses_once(acc, *rest);
            } else {
                lemma_ordered_once_snoc(acc, a);
                lemma_distinct_lesses_once(acc.snoc(a), *rest);
            }
        },
    }
}

/// Whether no ordering of `l` is among those of `acc`.
pub open spec fn none_ordered(acc: List<LessAtom>, l: List<LessAtom>) -> bool
    decreases l,
{
    match l {
        List::Nil => true,
        List::Cons(a, rest) => !orders(acc, a.smaller, a.larger) && none_ordered(acc, *rest),
    }
}

proof fn lemma_none_ordered_snoc(acc: List<LessAtom>, a: LessAtom, l: List<LessAtom>)
    requires
        none_ordered(acc, l),
        !orders(l, a.smaller, a.larger),
    ensures
        none_ordered(acc.snoc(a), l),
    decreases l,
{
    match l {
        List::Nil => {},
        List::Cons(b, rest) => {
            lemma_none_ordered_snoc(acc, a, *rest);
            lemma_orders_snoc(acc, a, b.smaller, b.larger);
        },
    }
}

proof fn lemma_distinct_lesses_keep(acc: List<LessAtom>, l: List<LessAtom>)
    requires
        ordered_once(l),
        none_ordered(acc, l),
    ensures
        distinct_lesses(acc, l) == acc.then_all(l),
    decreases l,
{
    match l {
        List::Nil => {
            lemma_then_nil(acc);
        },
        List::Cons(a, rest) => {
            lemma_none_ordered_snoc(acc, a, *rest);
            lemma_distinct_lesses_keep(acc.snoc(a), *rest);
            lemma_snoc_then(acc, a, *rest);
        },
    }
}

proof fn lemma_none_ordered_nil(l: List<LessAtom>)
    ensures
        none_ordered(List::Nil, l),
    decreases l,
{
    match l {
        List::Nil => {},
        List::Cons(a, rest) => {
            assert(!orders(List::Nil, a.smaller, a.larger));
            lemma_none_ordered_nil(*rest);
        },
    }
}

/// After duplicates have been dropped, every pair of nodes is ordered at most
/// once, and dropping duplicates again changes nothing.
pub proof fn law_orderings_once(l: List<LessAtom>)
    ensures
        ordered_once(distinct_lesses(List::Nil, l)),
        distinct_lesses(List::Nil, distinct_lesses(List::Nil, l)) == distinct_lesses(List::Nil, l),
{
    assert(ordered_once(List::Nil));
    lemma_distinct_lesses_once(List::Nil, l);
    let d = distinct_lesses(List::Nil, l);
    lemma_none_ordered_nil(d);
    lemma_distinct_lesses_keep(List::Nil, d);
}

/// Whether every goal has one entry.
pub open spec fn goals_once(l: List<(Goal, GoalStatus)>) -> bool
    decreases l,
{
    match l {
        List::Nil => true,
        List::Cons(g, rest) => find(*rest, g.0) is None && goals_once(*rest),
    }
}

proof fn lemma_find_goal_snoc(l: List<(Goal, GoalStatus)>, g: (Goal, GoalStatus), h: Goal)
    ensures
        (find(l.snoc(g), h) is None) == (find(l, h) is None && g.0 != h),
    decreases l,
{
    match l {
        List::Nil => {
            assert(find(List::<(Goal, GoalStatus)>::Nil, h) is None);
        },
        List::Cons(_, rest) => {
            lemma_find_goal_snoc(*rest, g, h);
        },
    }
}

proof fn lemma_goals_once_snoc(l: List<(Goal, GoalStatus)>, g: (Goal, GoalStatus))
    requires
        goals_once(l),
        find(l, g.0) is None,
    ensures
        goals_once(l.snoc(g)),
    decreases l,
{
    match l {
        List::Nil => {
            assert(goals_once(List::Nil));
            assert(find(List::<(Goal, GoalStatus)>::Nil, g.0) is None);
        },
        List::Cons(h, rest) => {
            lemma_goals_once_snoc(*rest, g);
            lemma_find_goal_snoc(*rest, g, h.0);
        },
    }
}

proof fn lemma_distinct_goals_once(acc: List<(Goal, GoalStatus)>, l: List<(Goal, GoalStatus)>)
    requires
        goals_once(acc),
    ensures
        goals_once(distinct_goals(acc, l)),
    decreases l,
{
    match l {
        List::Nil => {},
        List::Cons(g, rest) => {
            if find(acc, g.0) is Some {
                lemma_distinct_goals_once(acc, *rest);
            } else {
                lemma_goals_once_snoc(acc, g);
                lemma_distinct_goals_once(acc.snoc(g), *rest);
            }
        },
    }
}

/// Whether no goal of `l` has an entry in `acc`.
pub open spec fn none_found(acc: List<(Goal, GoalStatus)>, l: List<(Goal, GoalStatus)>) -> bool
    decreases l,
{
    match l {
        List::Nil => true,
        List::Cons(g, rest) => find(acc, g.0) is None && none_found(acc, *rest),
    }
}

proof fn lemma_none_found_snoc(
    acc: List<(Goal, GoalStatus)>,
    g: (Goal, GoalStatus),
    l: List<(Goal, GoalStatus)>,
)
    requires
        none_found(acc, l),
        find(l, g.0) is None,
    ensures
        none_found(acc.snoc(g), l),
    decreases l,
{
    match l {
        List::Nil => {},
        List::Cons(h, rest) => {
            lemma_none_found_snoc(acc, g, *rest);
            lemma_find_goal_snoc(acc, g, h.0);
        },
    }
}

proof fn lemma_distinct_goals_keep(acc: List<(Goal, GoalStatus)>, l: List<(Goal, GoalStatus)>)
    requires
        goals_once(l),
        none_found(acc, l),
    ensures
        distinct_goals(acc, l) == acc.then_all(l),
    decreases l,
{
    match l {
        List::Nil => {
            lemma_then_nil(acc);
        },
        List::Cons(g, rest) => {
            lemma_none_found_snoc(acc, g, *rest);
            lemma_distinct_goals_keep(acc.snoc(g), *rest);
            lemma_snoc_then(acc, g, *rest);
        },
    }
}

proof fn lemma_none_found_nil(l: List<(Goal, GoalStatus)>)
    ensures
        none_found(List::Nil, l),
    decreases l,
{
    match l {
        List::Nil => {},
        List::Cons(g, rest) => {
            assert(find(List::<(Goal, GoalStatus)>::Nil, g.0) is None);
            lemma_none_found_nil(*rest);
        },
    }
}

/// After duplicates have been dropped, every goal has one entry, and dropping
/// duplicates again changes nothing.
pub proof fn law_goals_once(l: List<(Goal, GoalStatus)>)
    ensures
        goals_once(distinct_goals(List::Nil, l)),
        distinct_goals(List::Nil, distinct_goals(List::Nil, l)) == distinct_goals(List::Nil, l),
{
    assert(goals_once(List::Nil));
    lemma_distinct_goals_once(List::Nil, l);
    let d = distinct_goals(List::Nil, l);
    lemma_none_found_nil(d);
    lemma_distinct_goals_keep(List::Nil, d);
}

proof fn lemma_put_finds(l: List<(Goal, GoalStatus)>, g: Goal, status: GoalStatus, h: Goal)
    ensures
        find(put_goal(l, g, status), h) is None <==> find(l, h) is None && h != g,
    decreases l,
{
    match l {
        List::Nil => {
            assert(find(List::<(Goal, GoalStatus)>::Nil, h) is None);
        },
        List::Cons(_, rest) => {
            lemma_put_finds(*rest, g, status, h);
        },
    }
}

proof fn lemma_put_once(l: List<(Goal, GoalStatus)>, g: Goal, status: GoalStatus)
    requires
        goals_once(l),
    ensures
        goals_once(put_goal(l, g, status)),
    decreases l,
{
    match l {
        List::Nil => {
            assert(find(List::<(Goal, GoalStatus)>::Nil, g) is None);
            assert(goals_once(List::Nil));
        },
        List::Cons(e, rest) => {
            if e.0 != g {
                lemma_put_once(*rest, g, status);
                lemma_put_finds(*rest, g, status, e.0);
            }
        },
    }
}

proof fn lemma_goal_pass_once(
    p: GoalPass,
    s: Subst,
    fs: FormulaSubst,
    l: List<(Goal, GoalStatus)>,
)
    requires
        goals_once(p.kept),
    ensures
        goals_once(p.with_all(s, fs, l).kept),
    decreases l,
{
    match l {
        List::Nil => {},
        List::Cons(g, rest) => {
            lemma_put_once(p.kept, applied_goal(s, fs, g.0), g.1);
            lemma_goal_pass_once(p.with(s, fs, g.0, g.1), s, fs, *rest);
        },
    }
}

/// After a pass every goal that stays has one entry.
pub proof fn law_passed_goals_once(s: Subst, fs: FormulaSubst, l: List<(Goal, GoalStatus)>)
    ensures
        goals_once(passed_goals(s, fs, l).kept),
{
    let start = GoalPass { kept: List::Nil, reopened: List::Nil, value_changed: false };
    assert(goals_once(start.kept));
    lemma_goal_pass_once(start, s, fs, l.sorted());
}

/// A pass that signals no change changes nothing at all: no value, no order, and
/// not the mark of a change.
pub proof fn law_silent_pass_changes_nothing(red: Reduction, end: Reduction)
    requires
        red.passed() == Ok::<(Reduction, bool), Query>((end, false)),
    ensures
        end == red,
{
    reveal(Reduction::passed);
    let s = red.sys.eq_store.subst;
    if s !is Nil {
        let fs = red.pass_formula_subst();
        assert(!red.signals().any());
        let a = red.nodes_passed(s);
        assert(a == red);
        let b = a.order_passed(s);
        assert(b == red);
        let c = b.goals_passed(s, fs);
        assert(c == red);
        let d = c.formulas_passed(fs);
        assert(d == red);
        assert(d.subterms_passed(s) == red);
    }
}

/// Once a pass has signalled no change, applying the substitution changes nothing.
pub proof fn law_silent_pass_is_final(red: Reduction, end: Reduction)
    requires
        red.passed() == Ok::<(Reduction, bool), Query>((end, false)),
    ensures
        end.passed() == Ok::<(Reduction, bool), Query>((end, false)),
        end.system_substituted() == Ok::<Reduction, Query>(end),
{
    law_silent_pass_changes_nothing(red, end);
    reveal(Reduction::system_substituted);
    assert(red.passes(PASSES as nat) == Ok::<Reduction, Query>(red));
}

} // verus!
