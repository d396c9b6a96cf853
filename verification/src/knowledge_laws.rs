//! What the intruder has to know, and what that leads to.
use crate::action_laws::{lemma_named_case, law_finished_cases_are_led_to};
use crate::constraints::{Goal, LessAtom, Reason};
use crate::context::{PremiseSourceCase, Query};
use crate::exploit_laws::known_before;
use crate::facts::{Fact, FactTag};
use crate::goal_laws::leads_to;
use crate::goals::{first_name, Case};
use crate::list::{find, List};
use crate::pass_laws::lemma_sorted_has;
use crate::reduction::{
    components, goal_parts, ku_goal, lemma_goal_parts, lemma_term_size, node_var, Reduction,
};
use crate::rule_goals::{fresh_conflated, partitions};
use crate::system::{orders, System};
use crate::system_laws::{
    law_goal_inserted, law_parts_inserted, lemma_less_inserted,
};
use crate::term_ops::{after, applies, larger};
use crate::terms::{AcSym, FunSym, LVar, Term};
use vstd::prelude::*;

verus! {

/// The fact that the intruder knows `t`.
pub open spec fn knows(t: Term) -> Fact {
    Fact::plain(FactTag::Ku, List::one(t))
}

proof fn lemma_known_stays(a: System, b: System, i: LVar, fa: Fact)
    requires
        known_before(a, i, fa),
        crate::system_laws::goals_grow(a, b),
        crate::system_laws::orderings_grow(a, b),
    ensures
        known_before(b, i, fa),
{
    let j = choose|j: LVar|
        #[trigger] orders(a.less_atoms, j, i) && find(a.goals, Goal::Action(j, fa)) is Some;
    assert(orders(b.less_atoms, j, i));
    assert(find(b.goals, Goal::Action(j, fa)) is Some);
}

proof fn lemma_part_known(
    red: Reduction,
    parts: List<Term>,
    outer: LVar,
    looping: bool,
    t: Term,
)
    requires
        parts.has(t),
    ensures
        known_before(red.parts_inserted(parts, outer, looping).sys, outer, knows(t)),
    decreases parts,
{
    match parts {
        List::Nil => {},
        List::Cons(first, rest) => {
            lemma_term_size(first);
            let idx = after(larger(crate::bounds::system_max(red.sys), outer.idx));
            let node = node_var("vk"@, idx);
            let moved = Reduction { supply: red.supply.above(idx), ..red };
            let l = LessAtom { smaller: node, larger: outer, reason: Reason::Adversary };
            let mid = moved.goal_inserted(ku_goal(node, first), looping);
            law_goal_inserted(moved, ku_goal(node, first), looping);
            let next = mid.less_inserted(l);
            lemma_less_inserted(mid, l);
            law_parts_inserted(next, *rest, outer, looping);
            if first == t {
                assert(orders(next.sys.less_atoms, node, outer));
                assert(find(next.sys.goals, Goal::Action(node, knows(t))) is Some);
                lemma_known_stays(
                    next.sys,
                    next.parts_inserted(*rest, outer, looping).sys,
                    outer,
                    knows(t),
                );
            } else {
                lemma_part_known(next, *rest, outer, looping, t);
            }
        },
    }
}

/// To know a pair, an inverse, a product or a union, the intruder has to know each of the
/// terms it is made of, before: when the goal is new, each of them is a goal at an earlier
/// node.
pub proof fn law_parts_are_known_before(
    red: Reduction,
    i: LVar,
    f: FunSym,
    args: List<Term>,
    looping: bool,
    t: Term,
)
    requires
        ({
            let whole = Term::App(f, Box::new(args));
            applies(whole, "pair"@, 2) || applies(whole, "inv"@, 1) || f == FunSym::Ac(AcSym::Mult)
                || f == FunSym::Ac(AcSym::Union)
        }),
        find(
            red.sys.goals,
            Goal::Action(i, knows(Term::App(f, Box::new(args)))),
        ) is None,
        args.has(t),
    ensures
        known_before(
            red.goal_inserted(
                Goal::Action(i, knows(Term::App(f, Box::new(args)))),
                looping,
            ).sys,
            i,
            knows(t),
        ),
{
    let whole = Term::App(f, Box::new(args));
    let g = Goal::Action(i, knows(whole));
    lemma_goal_parts(g);
    lemma_sorted_has(args, t);
    match components(whole) {
        Some(parts) => {
            assert(parts.has(t));
            assert(goal_parts(g) == Some(parts));
            lemma_part_known(red.plain_goal(g, looping), parts, i, looping, t);
        },
        None => {},
    }
}

proof fn lemma_sum_has(
    red: Reduction,
    i: LVar,
    fa: Fact,
    m: Term,
    l: List<(List<Term>, List<Term>)>,
    parts: (List<Term>, List<Term>),
)
    requires
        l.has(parts),
    ensures
        red.sum_cases(i, fa, m, l).has(red.sum_case(i, fa, m, parts)),
    decreases l,
{
    match l {
        List::Nil => {},
        List::Cons(first, rest) => {
            if first != parts {
                lemma_sum_has(red, i, fa, m, *rest, parts);
            }
        },
    }
}

/// A sum that the intruder has to know at a new node is known in every way in which its
/// operands can be split in two: for each there is a case.
pub proof fn law_every_partition_is_tried(
    red: Reduction,
    i: LVar,
    m: Term,
    args: List<Term>,
    parts: (List<Term>, List<Term>),
)
    requires
        m == Term::App(FunSym::Ac(AcSym::Xor), Box::new(args)),
        partitions(args).has(parts),
    ensures
        red.action_at_new_node(i, knows(m)) matches Ok((end, out)) && leads_to(
            end,
            out,
            red.sum_case(i, knows(m), m, parts).name,
            red.sum_case(i, knows(m), m, parts).sys,
        ),
{
    let fa = knows(m);
    let cases = red.sum_cases(i, fa, m, partitions(args));
    let c = red.sum_case(i, fa, m, parts);
    lemma_sum_has(red, i, fa, m, partitions(args), parts);
    lemma_named_case(cases, c);
    assert(Reduction::known_sum(fa) == Some((m, args)));
    law_finished_cases_are_led_to(red, cases, first_name(cases), c.name, c.sys);
}

/// Of the precomputed cases of a premise those are kept in which no two nodes consume the same
/// fresh value, each under its label and with its system, in which it is on record.
pub proof fn law_sources_of_a_premise(
    red: Reduction,
    l: List<PremiseSourceCase>,
    c: PremiseSourceCase,
)
    requires
        l.has(c),
        fresh_conflated(red.ctx, c.sys) == Ok::<bool, Query>(false),
    ensures
        red.premise_source_cases(l) matches Ok(cases) ==> cases.has(
            Case {
                name: c.label,
                sys: System { used_sources: c.sys.used_sources.snoc(c.label), ..c.sys },
                next: c.next,
            },
        ),
    decreases l,
{
    match l {
        List::Nil => {},
        List::Cons(first, rest) => {
            if first != c {
                law_sources_of_a_premise(red, *rest, c);
            }
        },
    }
}

} // verus!
