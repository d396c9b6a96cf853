//! Where the cases of a proof method come from.
use crate::case_laws::law_telling_apart_keeps_systems;
use crate::constraints::Goal;
use crate::context::{ProofContext, Query, SimplifyQuery};
use crate::goal_laws::leads_to;
use crate::goals::{Case, GoalCases};
use crate::guarded::Guarded;
use crate::list::{find, List};
use crate::names::decimal;
use crate::proof_method::{
    all_simplified, case_of_several, distinguished, goal_cases, induction_cases, named, numbered,
    outcome_cases, picked, processed, simplified_systems, simplify_cases, surviving, systems,
    told_apart, with_seeds,
};
use crate::reduction::Reduction;
use crate::rename_precise::cleaned;
use crate::system::System;
use crate::term_ops::after;
use crate::text::{text_of, Text};
use vstd::prelude::*;

verus! {

/// Whether a case of the name `name` is shown under the name `shown`: under its own, or
/// under its own with a number.
pub open spec fn presents(shown: Text, name: Text) -> bool {
    shown == name || exists|n: u64, total: u64| shown == #[trigger] case_of_several(name, n, total)
}

/// Whether `s` is one of the systems to which `start` simplifies, one with a solution,
/// cleaned up.
pub open spec fn simplifies_to(
    ctx: &ProofContext,
    start: System,
    seed: Option<u64>,
    s: System,
) -> bool {
    find(ctx.answers.simplify, SimplifyQuery { sys: start, seed }) matches Some(l) && exists|
        x: System,
    | #[trigger]
        l.has(x) && !x.eq_store.contradictory && s == cleaned(x)
}

/// What survives of systems: those whose equations have a solution, cleaned up, and
/// nothing else.
pub proof fn law_survivors(l: List<System>, s: System)
    ensures
        surviving(l).has(s) <==> exists|x: System| #[trigger]
            l.has(x) && !x.eq_store.contradictory && s == cleaned(x),
    decreases l,
{
    match l {
        List::Nil => {},
        List::Cons(x, rest) => {
            law_survivors(*rest, s);
            if surviving(*rest).has(s) {
                let y = choose|y: System| #[trigger]
                    rest.has(y) && !y.eq_store.contradictory && s == cleaned(y);
                assert(l.has(y));
            }
            if !x.eq_store.contradictory && s == cleaned(x) {
                assert(l.has(x));
            }
            if exists|y: System| #[trigger]
                l.has(y) && !y.eq_store.contradictory && s == cleaned(y) {
                let y = choose|y: System| #[trigger]
                    l.has(y) && !y.eq_store.contradictory && s == cleaned(y);
                if y != x {
                    assert(rest.has(y));
                }
            }
        },
    }
}

proof fn lemma_picked_has<T>(l: List<T>, positions: List<u64>, x: T)
    requires
        picked(l, positions).has(x),
    ensures
        l.has(x),
    decreases positions,
{
    match positions {
        List::Nil => {},
        List::Cons(i, rest) => {
            match l.nth(i as nat) {
                Some(y) => {
                    lemma_nth_has(l, i as nat);
                    if y != x {
                        lemma_picked_has(l, *rest, x);
                    }
                },
                None => {
                    lemma_picked_has(l, *rest, x);
                },
            }
        },
    }
}

proof fn lemma_nth_has<T>(l: List<T>, i: nat)
    ensures
        l.nth(i) matches Some(y) ==> l.has(y),
    decreases l,
{
    match l {
        List::Nil => {},
        List::Cons(_, rest) => {
            if i > 0 {
                lemma_nth_has(*rest, (i - 1) as nat);
            }
        },
    }
}

/// The elements at positions that a list has: as many as positions, each the element
/// at its position, in the order of the positions.
pub proof fn law_picked_by_position<T>(l: List<T>, positions: List<u64>, k: nat)
    requires
        forall|i: u64| #[trigger] positions.has(i) ==> i < l.size(),
    ensures
        picked(l, positions).size() == positions.size(),
        picked(l, positions).nth(k) == (match positions.nth(k) {
            Some(i) => l.nth(i as nat),
            None => None,
        }),
    decreases positions,
{
    match positions {
        List::Nil => {},
        List::Cons(i, rest) => {
            assert(positions.has(i));
            lemma_nth_within(l, i as nat);
            assert forall|j: u64| #[trigger] rest.has(j) implies j < l.size() by {
                assert(positions.has(j));
            }
            if k > 0 {
                law_picked_by_position(l, *rest, (k - 1) as nat);
            } else {
                law_picked_by_position(l, *rest, 0);
            }
        },
    }
}

proof fn lemma_nth_within<T>(l: List<T>, i: nat)
    ensures
        i < l.size() <==> l.nth(i) is Some,
    decreases l,
{
    match l {
        List::Nil => {},
        List::Cons(_, rest) => {
            if i > 0 {
                lemma_nth_within(*rest, (i - 1) as nat);
            }
        },
    }
}

proof fn lemma_told_has(
    before: List<(Text, System)>,
    l: List<(Text, System)>,
    whole: List<(Text, System)>,
    shown: Text,
    s: System,
)
    requires
        told_apart(before, l, whole).has((shown, s)),
    ensures
        exists|n: Text| #[trigger] l.has((n, s)) && presents(shown, n),
    decreases l,
{
    match l {
        List::Nil => {},
        List::Cons(c, rest) => {
            if told_apart(before.snoc(c), *rest, whole).has((shown, s)) {
                lemma_told_has(before.snoc(c), *rest, whole, shown, s);
                let n = choose|n: Text| #[trigger] rest.has((n, s)) && presents(shown, n);
                assert(l.has((n, s)));
            } else {
                assert(c == (c.0, s));
                assert(l.has((c.0, s)));
                assert(presents(shown, c.0));
            }
        },
    }
}

proof fn lemma_processed_has(
    ctx: &ProofContext,
    cases: List<(Text, System)>,
    shown: Text,
    s: System,
)
    ensures
        processed(ctx, cases) matches Ok(l) ==> l.has((shown, s)) ==> exists|n: Text| #[trigger]
            cases.has((n, s)) && presents(shown, n),
{
    match find(ctx.answers.non_redundant, systems(cases)) {
        Some(positions) => {
            let kept = picked(cases, positions);
            if distinguished(kept).has((shown, s)) {
                lemma_told_has(List::Nil, kept, kept, shown, s);
                let n = choose|n: Text| #[trigger] kept.has((n, s)) && presents(shown, n);
                lemma_picked_has(cases, positions, (n, s));
            }
        },
        None => {},
    }
}

proof fn lemma_named_has(name: Text, l: List<System>, n: Text, s: System)
    ensures
        named(name, l).has((n, s)) <==> n == name && l.has(s),
    decreases l,
{
    match l {
        List::Nil => {},
        List::Cons(_, rest) => {
            lemma_named_has(name, *rest, n, s);
        },
    }
}

pub proof fn lemma_has_then<T>(a: List<T>, b: List<T>, x: T)
    ensures
        a.then_all(b).has(x) == (a.has(x) || b.has(x)),
    decreases a,
{
    match a {
        List::Nil => {},
        List::Cons(_, rest) => {
            lemma_has_then(*rest, b, x);
        },
    }
}

/// The cases of an induction: where `base` is to be shown for the empty trace and `step`
/// for the longer ones, a case comes from simplifying the system whose only formula is
/// `base` and is called after the empty trace, or from simplifying the one whose only
/// formula is `step` and is called after the longer ones.
pub proof fn law_induction_cases_come_from(
    ctx: &ProofContext,
    sys: System,
    fm: Guarded,
    base: Guarded,
    step: Guarded,
    shown: Text,
    s: System,
)
    requires
        sys.formulas.nth(0) == Some(fm),
        find(ctx.answers.induction, fm) == Some(Some((base, step))),
    ensures
        induction_cases(ctx, sys) matches Ok(cases) ==> cases is Some,
        induction_cases(ctx, sys) matches Ok(Some(l)) ==> l.has((shown, s)) ==> {
            ||| presents(shown, text_of("empty_trace"@)) && simplifies_to(
                ctx,
                System { formulas: List::one(base), ..sys },
                None,
                s,
            )
            ||| presents(shown, text_of("non_empty_trace"@)) && simplifies_to(
                ctx,
                System { formulas: List::one(step), ..sys },
                None,
                s,
            )
        },
{
    reveal(induction_cases);
    let empty = System { formulas: List::one(base), ..sys };
    let longer = System { formulas: List::one(step), ..sys };
    match (simplified_systems(ctx, empty, None), simplified_systems(ctx, longer, None)) {
        (Ok(a), Ok(b)) => {
            let first = named(text_of("empty_trace"@), surviving(a));
            let second = named(text_of("non_empty_trace"@), surviving(b));
            lemma_processed_has(ctx, first.then_all(second), shown, s);
            match processed(ctx, first.then_all(second)) {
                Ok(l) => {
                    if l.has((shown, s)) {
                        let n = choose|n: Text| #[trigger]
                            first.then_all(second).has((n, s)) && presents(shown, n);
                        lemma_has_then(first, second, (n, s));
                        lemma_named_has(text_of("empty_trace"@), surviving(a), n, s);
                        lemma_named_has(text_of("non_empty_trace"@), surviving(b), n, s);
                        law_survivors(a, s);
                        law_survivors(b, s);
                    }
                },
                Err(_) => {},
            }
        },
        _ => {},
    }
}

proof fn lemma_systems_picked(l: List<(Text, System)>, positions: List<u64>)
    ensures
        systems(picked(l, positions)) == picked(systems(l), positions),
    decreases positions,
{
    match positions {
        List::Nil => {},
        List::Cons(i, rest) => {
            lemma_systems_nth(l, i as nat);
            lemma_systems_picked(l, *rest);
        },
    }
}

proof fn lemma_systems_nth(l: List<(Text, System)>, i: nat)
    ensures
        systems(l).nth(i) == (match l.nth(i) {
            Some(c) => Some(c.1),
            None => None,
        }),
        systems(l).size() == l.size(),
    decreases l,
{
    match l {
        List::Nil => {},
        List::Cons(_, rest) => {
            if i > 0 {
                lemma_systems_nth(*rest, (i - 1) as nat);
            } else {
                lemma_systems_nth(*rest, 0);
            }
        },
    }
}

/// Processing cases keeps what is not redundant: the system of the case at each place is
/// the one at the position that is named there, and there are as many as positions.
pub proof fn law_processed_by_position(
    ctx: &ProofContext,
    cases: List<(Text, System)>,
    positions: List<u64>,
    k: nat,
)
    requires
        find(ctx.answers.non_redundant, systems(cases)) == Some(positions),
        forall|i: u64| #[trigger] positions.has(i) ==> i < cases.size(),
    ensures
        processed(ctx, cases) matches Ok(l) && l.size() == positions.size() && systems(l).nth(k)
            == (match positions.nth(k) {
            Some(i) => systems(cases).nth(i as nat),
            None => None,
        }),
{
    let kept = picked(cases, positions);
    law_telling_apart_keeps_systems(List::Nil, kept, kept);
    lemma_systems_picked(cases, positions);
    lemma_systems_nth(cases, 0);
    lemma_systems_nth(kept, 0);
    lemma_systems_nth(distinguished(kept), 0);
    law_picked_by_position(systems(cases), positions, k);
}

proof fn lemma_simplified_has(ctx: &ProofContext, l: List<Case>, name: Text, s: System)
    ensures
        all_simplified(ctx, l) matches Ok(kept) ==> (kept.has((name, s)) <==> exists|c: Case|
            #[trigger] l.has(c) && c.name == name && simplifies_to(ctx, c.sys, Some(c.next), s)),
    decreases l,
{
    match l {
        List::Nil => {},
        List::Cons(c, rest) => {
            lemma_simplified_has(ctx, *rest, name, s);
            match (simplified_systems(ctx, c.sys, Some(c.next)), all_simplified(ctx, *rest)) {
                (Ok(here), Ok(more)) => {
                    lemma_has_then(named(c.name, surviving(here)), more, (name, s));
                    lemma_named_has(c.name, surviving(here), name, s);
                    law_survivors(here, s);
                    if c.name == name && simplifies_to(ctx, c.sys, Some(c.next), s) {
                        assert(l.has(c));
                    }
                    if more.has((name, s)) {
                        let d = choose|d: Case| #[trigger]
                            rest.has(d) && d.name == name && simplifies_to(
                                ctx,
                                d.sys,
                                Some(d.next),
                                s,
                            );
                        assert(l.has(d));
                    }
                    if exists|d: Case| #[trigger]
                        l.has(d) && d.name == name && simplifies_to(ctx, d.sys, Some(d.next), s) {
                        let d = choose|d: Case| #[trigger]
                            l.has(d) && d.name == name && simplifies_to(
                                ctx,
                                d.sys,
                                Some(d.next),
                                s,
                            );
                        if d != c {
                            assert(rest.has(d));
                        }
                    }
                },
                _ => {},
            }
        },
    }
}

proof fn lemma_seeded_has(l: List<(Text, System)>, seeds: List<u64>, next: u64, c: Case)
    ensures
        with_seeds(l, seeds, next).has(c) ==> l.has((c.name, c.sys)),
    decreases l,
{
    match l {
        List::Nil => {},
        List::Cons(_, rest) => match seeds {
            List::Nil => {
                lemma_seeded_has(*rest, List::Nil, next, c);
            },
            List::Cons(_, more) => {
                lemma_seeded_has(*rest, *more, next, c);
            },
        },
    }
}

/// Whether the goal that ended in `end` with `out` has led to a system from which `s`
/// comes by simplifying it, and which is called as `shown` says.
pub open spec fn comes_from(
    ctx: &ProofContext,
    end: Reduction,
    out: GoalCases,
    shown: Text,
    s: System,
) -> bool {
    exists|c: Case|
        leads_to(end, out, c.name, c.sys) && presents(shown, c.name) && #[trigger] simplifies_to(
            ctx,
            c.sys,
            Some(c.next),
            s,
        )
}

proof fn lemma_outcome_leads(end: Reduction, out: GoalCases, c: Case)
    ensures
        outcome_cases(end, out) matches Some(cases) ==> cases.has(c) ==> leads_to(
            end,
            out,
            c.name,
            c.sys,
        ),
{
    reveal_with_fuel(List::has, 2);
    match out {
        GoalCases::Cases(l) => {
            lemma_seeded_has(l, end.last_case_counters, end.supply.next, c);
        },
        _ => {},
    }
}

proof fn lemma_kept_comes_from(
    ctx: &ProofContext,
    end: Reduction,
    out: GoalCases,
    cases: List<Case>,
    kept: List<(Text, System)>,
    shown: Text,
    s: System,
)
    requires
        outcome_cases(end, out) == Some(cases),
        all_simplified(ctx, cases) == Ok::<List<(Text, System)>, Query>(kept),
    ensures
        processed(ctx, kept) matches Ok(l) ==> l.has((shown, s)) ==> comes_from(
            ctx,
            end,
            out,
            shown,
            s,
        ),
{
    lemma_processed_has(ctx, kept, shown, s);
    match processed(ctx, kept) {
        Ok(l) => {
            if l.has((shown, s)) {
                let n = choose|n: Text| #[trigger] kept.has((n, s)) && presents(shown, n);
                lemma_simplified_has(ctx, cases, n, s);
                let c = choose|c: Case| #[trigger]
                    cases.has(c) && c.name == n && simplifies_to(ctx, c.sys, Some(c.next), s);
                lemma_outcome_leads(end, out, c);
            }
        },
        Err(_) => {},
    }
}

/// The cases of a solved goal: each comes from simplifying a system to which the goal
/// has led, and is called as that one.
pub proof fn law_goal_cases_come_from(
    ctx: &ProofContext,
    g: Goal,
    sys: System,
    end: Reduction,
    out: GoalCases,
    shown: Text,
    s: System,
)
    requires
        Reduction::of_floor(ctx, sys, ctx.refine_floor).dispatched(g) == Ok::<
            (Reduction, GoalCases),
            Query,
        >((end, out)),
    ensures
        goal_cases(ctx, g, sys) matches Ok(Some(l)) ==> l.has((shown, s)) ==> comes_from(
            ctx,
            end,
            out,
            shown,
            s,
        ),
{
    reveal(goal_cases);
    match outcome_cases(end, out) {
        Some(cases) => match all_simplified(ctx, cases) {
            Ok(kept) => {
                lemma_kept_comes_from(ctx, end, out, cases, kept, shown, s);
            },
            Err(_) => {},
        },
        None => {},
    }
}

proof fn lemma_numbered(n: u64, l: List<System>, k: nat)
    ensures
        systems(numbered(n, l)) == l,
        n + k < u64::MAX ==> (numbered(n, l).nth(k) matches Some(c) ==> c.0 == decimal(
            (n + k) as u64,
        )),
    decreases l,
{
    match l {
        List::Nil => {},
        List::Cons(_, rest) => {
            if k > 0 {
                lemma_numbered(after(n), *rest, (k - 1) as nat);
            } else {
                lemma_numbered(after(n), *rest, 0);
            }
        },
    }
}

proof fn lemma_systems_has(l: List<(Text, System)>, name: Text, s: System)
    ensures
        l.has((name, s)) ==> systems(l).has(s),
    decreases l,
{
    match l {
        List::Nil => {},
        List::Cons(_, rest) => {
            lemma_systems_has(*rest, name, s);
        },
    }
}

/// The cases of the systems that a simplification leaves.
spec fn left_over(kept: List<System>, r: List<(Text, System)>) -> bool {
    match kept.only() {
        Some(s) => r == List::one((Text { chars: List::Nil }, s)),
        None => r == numbered(1, kept),
    }
}

proof fn lemma_simplify_shape(ctx: &ProofContext, sys: System)
    ensures
        simplify_cases(ctx, sys) matches Ok(Some(r)) ==> r is Nil || (find(
            ctx.answers.simplify,
            SimplifyQuery { sys, seed: None },
        ) matches Some(l) && (find(ctx.answers.non_redundant, surviving(l)) matches Some(positions)
            && left_over(picked(surviving(l), positions), r))),
{
    reveal(simplify_cases);
}

proof fn lemma_left_over(
    kept: List<System>,
    r: List<(Text, System)>,
    shown: Text,
    s: System,
    k: nat,
)
    requires
        left_over(kept, r),
    ensures
        r.has((shown, s)) ==> kept.has(s),
        r.only() matches Some(c) ==> c.0.chars is Nil,
        r.only() is None && 1 + k < u64::MAX ==> (r.nth(k) matches Some(c) ==> c.0 == decimal(
            (1 + k) as u64,
        )),
{
    lemma_numbered(1, kept, k);
    lemma_systems_has(r, shown, s);
    match kept.only() {
        Some(only) => {
            let c = (Text { chars: List::Nil }, only);
            assert(systems(List::one(c)) == List::one(only)) by {
                reveal_with_fuel(systems, 2);
            }
            assert(kept == List::one(only));
            assert(r.only() == Some(c));
        },
        None => {
            match kept {
                List::Nil => {},
                List::Cons(_, rest) => match *rest {
                    List::Nil => {},
                    List::Cons(_, _) => {
                        reveal_with_fuel(numbered, 2);
                    },
                },
            }
        },
    }
}

/// The cases of a simplification: each comes from simplifying the system; a single one has no
/// name, and several are numbered from one on.
pub proof fn law_simplify_cases_come_from(
    ctx: &ProofContext,
    sys: System,
    shown: Text,
    s: System,
    k: nat,
)
    ensures
        simplify_cases(ctx, sys) matches Ok(Some(l)) ==> (l.has((shown, s)) ==> simplifies_to(
            ctx,
            sys,
            None,
            s,
        )),
        simplify_cases(ctx, sys) matches Ok(Some(l)) ==> (l.only() matches Some(c)
            ==> c.0.chars is Nil),
        simplify_cases(ctx, sys) matches Ok(Some(l)) ==> (l.only() is None && 1 + k < u64::MAX ==> (
        l.nth(k) matches Some(c) ==> c.0 == decimal((1 + k) as u64))),
{
    lemma_simplify_shape(ctx, sys);
    match simplify_cases(ctx, sys) {
        Ok(Some(r)) => {
            if r !is Nil {
                let l = find(ctx.answers.simplify, SimplifyQuery { sys, seed: None })->0;
                let positions = find(ctx.answers.non_redundant, surviving(l))->0;
                let kept = picked(surviving(l), positions);
                lemma_left_over(kept, r, shown, s, k);
                law_survivors(l, s);
                if kept.has(s) {
                    lemma_picked_has(surviving(l), positions, s);
                }
            }
        },
        _ => {},
    }
}

} // verus!
