//! What splitting a system leads to: the alternatives of a disjunction, the stores of a
//! disjunction of equations, and the ways in which a subterm constraint can hold.
use crate::constraints::{EquationStore, Goal, SubtermConstraint, SubtermStore};
use crate::context::{Answered, ProofContext, Query, SimpQuery};
use crate::effect_laws::{law_formula_is_taken_up, lemma_taken_up_stays, taken_up};
use crate::equation_laws::{answers_unify, follows, lemma_follows_twice};
use crate::equations::simplified_arms;
use crate::follow_laws::law_substituted_system_follows;
use crate::goals::{
    all_named, has_subterm, subterm_case, subterm_moved, subterms_besides, with_goal_solved,
    with_stores,
};
use crate::guarded::{normal, Guarded};
use crate::leaves::plus;
use crate::list::{find, List};
use crate::list_laws::{all, lemma_has_snoc};
use crate::names::numbered_case;
use crate::origin_laws::lemma_has_then;
use crate::pass_laws::{lemma_nub_has, lemma_sorted_has};
use crate::premise_laws::lemma_with_store_has;
use crate::reduction::Reduction;
use crate::subterms::{
    below_arguments, below_operands, known_subterm, maybe_nat, split_step, splits, SubtermSplit,
};
use crate::system::System;
use crate::term_ops::{flat_term, sort_of};
use crate::terms::{AcSym, FunSym, LSort, Term};
use crate::text::{text_of, Text};
use vstd::prelude::*;

verus! {

/// The system in which an alternative of the disjunction `g` is to hold.
pub open spec fn to_alternative(red: Reduction, g: Goal) -> Reduction {
    let start = Reduction::inheriting(red.ctx, red.sys, red.supply.next);
    start.on(with_goal_solved(start.sys, g))
}

/// The cases of the alternative numbered `k`.
#[verifier::opaque]
spec fn alternative_here(red: Reduction, g: Goal, alt: Guarded, k: u64) -> Answered<
    List<(Text, System)>,
> {
    match to_alternative(red, g).formula_inserted(normal(alt), true) {
        Err(q) => Err(q),
        Ok(end) => Ok(
            all_named(
                numbered_case(k),
                List::Cons(end.sys, Box::new(with_stores(end.sys, end.pending_eq_arms))),
            ),
        ),
    }
}

/// The cases of the alternatives from number `k` on.
#[verifier::opaque]
spec fn alternatives_from(red: Reduction, g: Goal, alts: List<Guarded>, k: u64) -> Answered<
    List<(Text, System)>,
> {
    red.alternative_cases(g, alts, k)
}

proof fn lemma_alternatives(red: Reduction, g: Goal, alt: Guarded, rest: List<Guarded>, k: u64)
    ensures
        alternatives_from(red, g, List::Cons(alt, Box::new(rest)), k) == (match alternative_here(
            red,
            g,
            alt,
            k,
        ) {
            Err(q) => Err(q),
            Ok(here) => match alternatives_from(red, g, rest, plus(k, 1)) {
                Err(q) => Err(q),
                Ok(more) => Ok(here.then_all(more)),
            },
        }),
        alternatives_from(red, g, List::Nil, k) == Ok::<List<(Text, System)>, Query>(List::Nil),
{
    reveal(alternative_here);
    reveal(alternatives_from);
}

proof fn lemma_all_named_has(name: Text, l: List<System>, n: Text, sys: System)
    ensures
        all_named(name, l).has((n, sys)) <==> n == name && l.has(sys),
    decreases l,
{
    match l {
        List::Nil => {},
        List::Cons(_, rest) => {
            lemma_all_named_has(name, *rest, n, sys);
        },
    }
}

proof fn lemma_alternative_has(
    red: Reduction,
    g: Goal,
    alt: Guarded,
    k: u64,
    end: Reduction,
    store: EquationStore,
)
    requires
        to_alternative(red, g).formula_inserted(normal(alt), true) == Ok::<Reduction, Query>(end),
    ensures
        alternative_here(red, g, alt, k) matches Ok(cases) ==> cases.has(
            (numbered_case(k), end.sys),
        ) && (end.pending_eq_arms.has(store) ==> cases.has(
            (numbered_case(k), System { eq_store: store, ..end.sys }),
        )),
{
    reveal(alternative_here);
    let arms = List::Cons(end.sys, Box::new(with_stores(end.sys, end.pending_eq_arms)));
    let other = System { eq_store: store, ..end.sys };
    lemma_all_named_has(numbered_case(k), arms, numbered_case(k), end.sys);
    lemma_all_named_has(numbered_case(k), arms, numbered_case(k), other);
    if end.pending_eq_arms.has(store) {
        lemma_with_store_has(end.sys, end.pending_eq_arms, store);
    }
}

proof fn lemma_every_alternative(
    red: Reduction,
    g: Goal,
    alts: List<Guarded>,
    k: u64,
    j: nat,
    alt: Guarded,
    end: Reduction,
    store: EquationStore,
)
    requires
        alts.nth(j) == Some(alt),
        k + j <= u64::MAX,
        to_alternative(red, g).formula_inserted(normal(alt), true) == Ok::<Reduction, Query>(end),
    ensures
        alternatives_from(red, g, alts, k) matches Ok(cases) ==> cases.has(
            (numbered_case((k + j) as u64), end.sys),
        ) && (end.pending_eq_arms.has(store) ==> cases.has(
            (numbered_case((k + j) as u64), System { eq_store: store, ..end.sys }),
        )),
    decreases alts,
{
    match alts {
        List::Nil => {},
        List::Cons(first, rest) => {
            if j > 0 {
                lemma_every_alternative(
                    red,
                    g,
                    *rest,
                    plus(k, 1),
                    (j - 1) as nat,
                    alt,
                    end,
                    store,
                );
            } else {
                lemma_alternative_has(red, g, alt, k, end, store);
            }
            lemma_alternatives(red, g, first, *rest, k);
            match (
                alternative_here(red, g, first, k),
                alternatives_from(red, g, *rest, plus(k, 1)),
            ) {
                (Ok(here), Ok(more)) => {
                    let name = numbered_case((k + j) as u64);
                    let other = System { eq_store: store, ..end.sys };
                    lemma_has_then(here, more, (name, end.sys));
                    lemma_has_then(here, more, (name, other));
                },
                _ => {},
            }
        },
    }
}


/// Every alternative of a disjunction gives cases: one with the system in which it holds,
/// and one for each further store of it, all under the alternative's number.
pub proof fn law_every_alternative_is_a_case(
    red: Reduction,
    g: Goal,
    alts: List<Guarded>,
    k: u64,
    j: nat,
    alt: Guarded,
    end: Reduction,
    store: EquationStore,
)
    requires
        alts.nth(j) == Some(alt),
        k + j <= u64::MAX,
        to_alternative(red, g).formula_inserted(normal(alt), true) == Ok::<Reduction, Query>(end),
    ensures
        red.alternative_cases(g, alts, k) matches Ok(cases) ==> cases.has(
            (numbered_case((k + j) as u64), end.sys),
        ) && (end.pending_eq_arms.has(store) ==> cases.has(
            (numbered_case((k + j) as u64), System { eq_store: store, ..end.sys }),
        )),
{
    reveal(alternatives_from);
    lemma_every_alternative(red, g, alts, k, j, alt, end, store);
}

/// Whether an alternative of the disjunction, from number `k` on, is taken up in the system,
/// under whose number the case is called.
pub open spec fn holds_alternative(alts: List<Guarded>, k: u64, name: Text, sys: System) -> bool {
    exists|j: nat, alt: Guarded|
        #[trigger] alts.nth(j) == Some(alt) && (k + j <= u64::MAX ==> name == numbered_case((k + j) as u64))
            && #[trigger] taken_up(sys, normal(alt)) && j < alts.size()
}

proof fn lemma_store_taken_up(sys: System, store: EquationStore, g: Guarded)
    requires
        taken_up(sys, g),
    ensures
        taken_up(System { eq_store: store, ..sys }, g),
{
    lemma_taken_up_stays(sys, System { eq_store: store, ..sys }, g);
}

proof fn lemma_arms_taken_up(sys: System, stores: List<EquationStore>, g: Guarded, end: System)
    requires
        taken_up(sys, g),
        with_stores(sys, stores).has(end),
    ensures
        taken_up(end, g),
    decreases stores,
{
    match stores {
        List::Nil => {},
        List::Cons(s, rest) => {
            if end == (System { eq_store: s, ..sys }) {
                lemma_store_taken_up(sys, s, g);
            } else {
                lemma_arms_taken_up(sys, *rest, g, end);
            }
        },
    }
}

proof fn lemma_alternative_taken_up(
    red: Reduction,
    g: Goal,
    alt: Guarded,
    k: u64,
    name: Text,
    sys: System,
)
    ensures
        alternative_here(red, g, alt, k) matches Ok(cases) ==> cases.has((name, sys)) ==> name
            == numbered_case(k) && taken_up(sys, normal(alt)),
{
    reveal(alternative_here);
    let start = to_alternative(red, g);
    law_formula_is_taken_up(start, normal(alt), true);
    match start.formula_inserted(normal(alt), true) {
        Ok(end) => {
            let arms = List::Cons(end.sys, Box::new(with_stores(end.sys, end.pending_eq_arms)));
            lemma_all_named_has(numbered_case(k), arms, name, sys);
            if arms.has(sys) && sys != end.sys {
                lemma_arms_taken_up(end.sys, end.pending_eq_arms, normal(alt), sys);
            }
        },
        Err(_) => {},
    }
}

proof fn lemma_holds_an_alternative(
    red: Reduction,
    g: Goal,
    alts: List<Guarded>,
    k: u64,
    name: Text,
    sys: System,
)
    ensures
        alternatives_from(red, g, alts, k) matches Ok(cases) ==> cases.has((name, sys))
            ==> holds_alternative(alts, k, name, sys),
    decreases alts,
{
    match alts {
        List::Nil => {
            lemma_alternatives(red, g, crate::guarded::bottom(), List::Nil, k);
        },
        List::Cons(alt, rest) => {
            lemma_holds_an_alternative(red, g, *rest, plus(k, 1), name, sys);
            lemma_alternative_taken_up(red, g, alt, k, name, sys);
            lemma_alternatives(red, g, alt, *rest, k);
            match (
                alternative_here(red, g, alt, k),
                alternatives_from(red, g, *rest, plus(k, 1)),
            ) {
                (Ok(here), Ok(more)) => {
                    lemma_has_then(here, more, (name, sys));
                    if more.has((name, sys)) {
                        let (j, other) = choose|j: nat, other: Guarded|
                            #[trigger] rest.nth(j) == Some(other) && (plus(k, 1) + j <= u64::MAX
                                ==> name == numbered_case((plus(k, 1) + j) as u64))
                                && #[trigger] taken_up(sys, normal(other)) && j < rest.size();
                        assert(alts.nth(j + 1) == Some(other));
                        assert(taken_up(sys, normal(other)) && j + 1 < alts.size());
                    } else if here.has((name, sys)) {
                        assert(alts.nth(0) == Some(alt));
                    }
                },
                _ => {},
            }
        },
    }
}


/// In every case of a disjunction one of its alternatives is taken up, the one after whose
/// number the case is called.
pub proof fn law_cases_hold_an_alternative(
    red: Reduction,
    g: Goal,
    alts: List<Guarded>,
    k: u64,
    name: Text,
    sys: System,
)
    ensures
        red.alternative_cases(g, alts, k) matches Ok(cases) ==> cases.has((name, sys))
            ==> holds_alternative(alts, k, name, sys),
{
    reveal(alternatives_from);
    lemma_holds_an_alternative(red, g, alts, k, name, sys);
}

/// Of the stores of a split those that have a solution are kept: a store is among them if and
/// only if one of the stores simplifies to it and it has a solution.
pub proof fn law_live_stores(
    ctx: &ProofContext,
    arms: List<EquationStore>,
    checked: Option<System>,
    base: u64,
    last: u64,
    store: EquationStore,
)
    ensures
        simplified_arms(ctx, arms, checked, base, last) matches Ok(out) ==> (out.live.has(store)
            <==> !store.contradictory && exists|arm: EquationStore| #[trigger]
            arms.has(arm) && (find(
                ctx.answers.simp,
                SimpQuery { store: arm, checked, next: base },
            ) matches Some(a) && a.store == store)),
    decreases arms,
{
    match arms {
        List::Nil => {},
        List::Cons(arm, rest) => {
            let q = SimpQuery { store: arm, checked, next: base };
            match find(ctx.answers.simp, q) {
                Some(a) => {
                    law_live_stores(ctx, *rest, checked, base, a.next, store);
                    if a.store == store {
                        assert(arms.has(arm));
                    }
                    if exists|x: EquationStore| #[trigger]
                        rest.has(x) && (find(
                            ctx.answers.simp,
                            SimpQuery { store: x, checked, next: base },
                        ) matches Some(b) && b.store == store) {
                        let x = choose|x: EquationStore| #[trigger]
                            rest.has(x) && (find(
                                ctx.answers.simp,
                                SimpQuery { store: x, checked, next: base },
                            ) matches Some(b) && b.store == store);
                        assert(arms.has(x));
                    }
                    if exists|x: EquationStore| #[trigger]
                        arms.has(x) && (find(
                            ctx.answers.simp,
                            SimpQuery { store: x, checked, next: base },
                        ) matches Some(b) && b.store == store) {
                        let x = choose|x: EquationStore| #[trigger]
                            arms.has(x) && (find(
                                ctx.answers.simp,
                                SimpQuery { store: x, checked, next: base },
                            ) matches Some(b) && b.store == store);
                        if x != arm {
                            assert(rest.has(x));
                        }
                    }
                },
                None => {},
            }
        },
    }
}

/// The cases of a split of equations are as many as its stores, all of the same name, and in
/// the case at each position the store at that position holds, where the answers are
/// unifiers.
pub proof fn law_split_cases_by_position(
    red: Reduction,
    g: Goal,
    stores: List<EquationStore>,
    j: nat,
)
    requires
        answers_unify(red.ctx.answers),
    ensures
        red.store_cases(g, stores) matches Ok(cases) ==> cases.size() == stores.size() && (
        stores.nth(j) matches Some(store) ==> cases.nth(j) matches Some(c) && c.name == text_of(
            "split"@,
        ) && follows(store, c.sys.eq_store)),
    decreases stores,
{
    match stores {
        List::Nil => {},
        List::Cons(s, rest) => {
            let before = if j > 0 {
                (j - 1) as nat
            } else {
                0
            };
            law_split_cases_by_position(red, g, *rest, before);
            let q = SimpQuery { store: s, checked: red.checked(), next: red.supply.next };
            match find(red.ctx.answers.simp, q) {
                Some(a) => {
                    let sys = with_goal_solved(System { eq_store: a.store, ..red.sys }, g);
                    reveal(with_goal_solved);
                    let start = Reduction::of_floor(red.ctx, sys, red.ctx.refine_floor);
                    law_substituted_system_follows(start);
                    match start.system_substituted() {
                        Ok(end) => {
                            lemma_follows_twice(s, a.store, end.sys.eq_store);
                        },
                        Err(_) => {},
                    }
                },
                None => {},
            }
        },
    }
}

proof fn lemma_below_arguments(small: Term, l: List<Term>, x: SubtermSplit)
    ensures
        below_arguments(small, l).has(x) <==> exists|t: Term| #[trigger]
            l.has(t) && (x == SubtermSplit::SubtermD(small, t) || x == SubtermSplit::EqualD(
                small,
                t,
            )),
    decreases l,
{
    match l {
        List::Nil => {},
        List::Cons(first, rest) => {
            lemma_below_arguments(small, *rest, x);
            reveal_with_fuel(List::has, 3);
            if below_arguments(small, *rest).has(x) {
                let t = choose|t: Term| #[trigger]
                    rest.has(t) && (x == SubtermSplit::SubtermD(small, t) || x
                        == SubtermSplit::EqualD(small, t));
                assert(l.has(t));
            }
            if x == SubtermSplit::SubtermD(small, first) || x == SubtermSplit::EqualD(
                small,
                first,
            ) {
                assert(l.has(first));
            }
            if exists|t: Term| #[trigger]
                l.has(t) && (x == SubtermSplit::SubtermD(small, t) || x == SubtermSplit::EqualD(
                    small,
                    t,
                )) {
                let t = choose|t: Term| #[trigger]
                    l.has(t) && (x == SubtermSplit::SubtermD(small, t) || x
                        == SubtermSplit::EqualD(small, t));
                if t != first {
                    assert(rest.has(t));
                }
            }
        },
    }
}

/// The ways in which a term can be a subterm of an application that no equation reduces,
/// where it is not known whether it is one: it is a subterm of an argument or equal to one,
/// for every argument, and there is no other way.
pub proof fn law_splits_of_an_application(
    reducible: List<FunSym>,
    small: Term,
    f: FunSym,
    args: List<Term>,
    idx: u64,
    x: SubtermSplit,
)
    requires
        f is NoEq,
        !reducible.has(f),
        known_subterm(reducible, small, Term::App(f, Box::new(args))) is None,
        !(maybe_nat(small) && sort_of(Term::App(f, Box::new(args))) == LSort::Nat),
    ensures
        splits(reducible, small, Term::App(f, Box::new(args)), idx).has(x) <==> exists|t: Term|
            #[trigger] args.has(t) && (x == SubtermSplit::SubtermD(small, t) || x
                == SubtermSplit::EqualD(small, t)),
{
    let l = below_arguments(small, args);
    lemma_below_arguments(small, args, x);
    lemma_sorted_has(l, x);
    lemma_nub_has(l.sorted(), x);
}

proof fn lemma_below_operands(small: Term, l: List<Term>, t: Term)
    ensures
        l.has(t) ==> below_operands(small, l).has(SubtermSplit::SubtermD(small, t)),
    decreases l,
{
    match l {
        List::Nil => {},
        List::Cons(_, rest) => {
            lemma_below_operands(small, *rest, t);
        },
    }
}

/// A term can be a subterm of every operand of a sum that no equation reduces, where it is
/// not known whether it is a subterm of the sum.
pub proof fn law_splits_of_a_sum(
    reducible: List<FunSym>,
    small: Term,
    f: AcSym,
    args: List<Term>,
    idx: u64,
    t: Term,
)
    requires
        !reducible.has(FunSym::Ac(f)),
        known_subterm(reducible, small, Term::App(FunSym::Ac(f), Box::new(args))) is None,
        !(maybe_nat(small) && sort_of(Term::App(FunSym::Ac(f), Box::new(args))) == LSort::Nat),
        flat_term(f, Term::App(FunSym::Ac(f), Box::new(args))).has(t),
    ensures
        splits(reducible, small, Term::App(FunSym::Ac(f), Box::new(args)), idx).has(
            SubtermSplit::SubtermD(small, t),
        ),
{
    let big = Term::App(FunSym::Ac(f), Box::new(args));
    let x = SubtermSplit::SubtermD(small, t);
    lemma_below_operands(small, flat_term(f, big), t);
    match split_step(reducible, small, big, idx) {
        Some(l) => {
            lemma_sorted_has(l, x);
            lemma_nub_has(l.sorted(), x);
        },
        None => {},
    }
}

/// The cases of a subterm constraint are as many as the ways in which it can hold, the one at
/// each position called after it; and where the way is that a term is a subterm of a part,
/// the case has that constraint.
pub proof fn law_subterm_cases_by_position(
    red: Reduction,
    l: List<SubtermSplit>,
    single: bool,
    k: u64,
    j: nat,
)
    requires
        k + l.size() <= u64::MAX,
    ensures
        red.split_cases(l, single, k) matches Ok(cases) ==> cases.size() == l.size() && (l.nth(
            j,
        ) matches Some(split) ==> cases.nth(j) matches Some(c) && c.0 == subterm_case(
            (k + j) as u64,
        ) && (split matches SubtermSplit::SubtermD(s, t) ==> c.1.subterm_store.subterms.has(
            SubtermConstraint { small: s, big: t, propagated: false },
        ))),
    decreases l,
{
    match l {
        List::Nil => {},
        List::Cons(split, rest) => {
            let before = if j > 0 {
                (j - 1) as nat
            } else {
                0
            };
            law_subterm_cases_by_position(red, *rest, single, plus(k, 1), before);
            match split {
                SubtermSplit::SubtermD(s, t) => {
                    let c = SubtermConstraint { small: s, big: t, propagated: false };
                    lemma_has_snoc(red.sys.subterm_store.subterms, c, c);
                },
                _ => {},
            }
        },
    }
}

proof fn lemma_besides_has(l: List<SubtermConstraint>, small: Term, big: Term, c: SubtermConstraint)
    ensures
        subterms_besides(l, small, big).has(c) <==> l.has(c) && !(c.small == small && c.big == big),
        has_subterm(l, small, big) <==> exists|d: SubtermConstraint| #[trigger]
            l.has(d) && d.small == small && d.big == big,
    decreases l,
{
    match l {
        List::Nil => {},
        List::Cons(first, rest) => {
            lemma_besides_has(*rest, small, big, c);
            if first.small == small && first.big == big {
                assert(l.has(first));
            }
            if has_subterm(*rest, small, big) {
                let d = choose|d: SubtermConstraint| #[trigger]
                    rest.has(d) && d.small == small && d.big == big;
                assert(l.has(d));
            }
            if exists|d: SubtermConstraint| #[trigger]
                l.has(d) && d.small == small && d.big == big {
                let d = choose|d: SubtermConstraint| #[trigger]
                    l.has(d) && d.small == small && d.big == big;
                if d != first {
                    assert(rest.has(d));
                }
            }
        },
    }
}

/// A subterm constraint that is solved is no constraint any more and counts as solved, where
/// it was one; every other constraint stays, and no other one is added.
pub proof fn law_subterm_solved_once(
    st: SubtermStore,
    small: Term,
    big: Term,
    c: SubtermConstraint,
    there: SubtermConstraint,
)
    requires
        st.subterms.has(there),
        there.small == small,
        there.big == big,
    ensures
        subterm_moved(st, small, big).subterms.has(c) <==> st.subterms.has(c) && !(c.small == small
            && c.big == big),
        exists|d: SubtermConstraint| #[trigger]
            subterm_moved(st, small, big).solved_subterms.has(d) && d.small == small && d.big
                == big,
        st.solved_subterms.has(c) ==> subterm_moved(st, small, big).solved_subterms.has(c),
{
    lemma_besides_has(st.subterms, small, big, c);
    lemma_besides_has(st.solved_subterms, small, big, c);
    let d = SubtermConstraint { small, big, propagated: true };
    lemma_has_snoc(st.solved_subterms, d, d);
    lemma_has_snoc(st.solved_subterms, d, c);
    if !has_subterm(st.solved_subterms, small, big) {
        assert(subterm_moved(st, small, big).solved_subterms.has(d));
    }
}

} // verus!
