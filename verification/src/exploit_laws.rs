//! What exploiting the premises of a rule leaves: every premise is supplied, or is a
//! goal.
use crate::constraints::{Edge, Goal, LessAtom, Reason};
use crate::facts::{Fact, FactTag, RuleACInst};
use crate::goals::loop_breakers;
use crate::leaves::plus;
use crate::list::{find, List};
use crate::list_laws::lemma_has_snoc;
use crate::reduction::{node_var, Reduction, SplitStrategy};
use crate::rules::{fresh_rule, isend_rule};
use crate::system::{orders, System};
use crate::system_laws::{
    goals_grow, law_equations_keep_graph, law_goal_inserted, lemma_less_inserted, orderings_grow,
};
use crate::term_ops::larger;
use crate::terms::{LVar, Term};
use vstd::prelude::*;

verus! {

/// Whether `b` has the nodes, the edges, the goals and the orderings of `a`, and finds at a
/// node of `a` the rule that `a` finds there.
pub open spec fn keeps(a: System, b: System) -> bool {
    &&& forall|i: LVar| find(a.nodes, i) is Some ==> #[trigger] find(b.nodes, i) == find(a.nodes, i)
    &&& forall|n: (LVar, RuleACInst)| a.nodes.has(n) ==> #[trigger] b.nodes.has(n)
    &&& forall|e: Edge| a.edges.has(e) ==> #[trigger] b.edges.has(e)
    &&& goals_grow(a, b)
    &&& orderings_grow(a, b)
}

pub proof fn lemma_keeps_twice(a: System, b: System, c: System)
    requires
        keeps(a, b),
        keeps(b, c),
    ensures
        keeps(a, c),
{
    assert forall|i: LVar| find(a.nodes, i) is Some implies #[trigger] find(c.nodes, i) == find(
        a.nodes,
        i,
    ) by {
        assert(find(b.nodes, i) == find(a.nodes, i));
    }
    assert forall|n: (LVar, RuleACInst)| a.nodes.has(n) implies #[trigger] c.nodes.has(n) by {
        assert(b.nodes.has(n));
    }
    assert forall|e: Edge| a.edges.has(e) implies #[trigger] c.edges.has(e) by {
        assert(b.edges.has(e));
    }
    assert forall|h: Goal|
        #![trigger find(c.goals, h)]
        find(a.goals, h) matches Some(st) ==> find(c.goals, h) matches Some(more) && (st.solved
            ==> more.solved) && (st.looping ==> more.looping) && more.nr <= st.nr by {
        assert(find(b.goals, h) == find(b.goals, h));
    }
    assert forall|x: LVar, y: LVar| orders(a.less_atoms, x, y) implies #[trigger] orders(
        c.less_atoms,
        x,
        y,
    ) by {
        assert(orders(b.less_atoms, x, y));
    }
}

/// Whether a node with the conclusion `fa` and nothing else is linked to the premise.
pub open spec fn linked(sys: System, i: LVar, k: u64, fa: Fact) -> bool {
    exists|j: LVar, ru: RuleACInst|
        ru.conclusions == List::one(fa) && sys.edges.has(
            Edge { src: (j, 0), tgt: (i, k) },
        ) && #[trigger] sys.nodes.has((j, ru))
}

/// Whether the intruder has to know, before `i`, what the fact says.
pub open spec fn known_before(sys: System, i: LVar, fa: Fact) -> bool {
    exists|j: LVar|
        #[trigger] orders(sys.less_atoms, j, i) && find(sys.goals, Goal::Action(j, fa)) is Some
}

/// Whether the premise at position `k` of the node `i` is taken care of: a fresh value
/// and a message come from a new node, what the intruder has to know is a goal at an
/// earlier node, and any other premise is a goal itself.
pub open spec fn supplied(sys: System, i: LVar, k: u64, fa: Fact) -> bool {
    match (fa.tag, fa.terms) {
        (FactTag::Fresh, List::Nil) => true,
        (FactTag::Fresh, List::Cons(m, _)) => linked(
            sys,
            i,
            k,
            Fact::plain(FactTag::Fresh, List::one(m)),
        ),
        (FactTag::In, List::Nil) => true,
        (FactTag::In, List::Cons(m, _)) => linked(
            sys,
            i,
            k,
            Fact::plain(FactTag::In, List::one(m)),
        ),
        (FactTag::Ku, _) => known_before(sys, i, fa),
        _ => find(sys.goals, Goal::Premise((i, k), fa)) is Some,
    }
}

proof fn lemma_supplied_stays(a: System, b: System, i: LVar, k: u64, fa: Fact)
    requires
        keeps(a, b),
        supplied(a, i, k, fa),
    ensures
        supplied(b, i, k, fa),
{
    match (fa.tag, fa.terms) {
        (FactTag::Fresh, List::Cons(m, _)) => {
            lemma_linked_stays(a, b, i, k, Fact::plain(FactTag::Fresh, List::one(m)));
        },
        (FactTag::In, List::Cons(m, _)) => {
            lemma_linked_stays(a, b, i, k, Fact::plain(FactTag::In, List::one(m)));
        },
        (FactTag::Ku, _) => {
            let j = choose|j: LVar|
                #[trigger] orders(a.less_atoms, j, i) && find(
                    a.goals,
                    Goal::Action(j, fa),
                ) is Some;
            assert(orders(b.less_atoms, j, i));
            assert(find(b.goals, Goal::Action(j, fa)) is Some);
        },
        _ => {
            assert(find(b.goals, Goal::Premise((i, k), fa)) == find(
                b.goals,
                Goal::Premise((i, k), fa),
            ));
        },
    }
}

proof fn lemma_linked_stays(a: System, b: System, i: LVar, k: u64, fa: Fact)
    requires
        keeps(a, b),
        linked(a, i, k, fa),
    ensures
        linked(b, i, k, fa),
{
    let (j, ru) = choose|j: LVar, ru: RuleACInst|
        ru.conclusions == List::one(fa) && a.edges.has(
            Edge { src: (j, 0), tgt: (i, k) },
        ) && #[trigger] a.nodes.has((j, ru));
    assert(b.nodes.has((j, ru)));
    assert(b.edges.has(Edge { src: (j, 0), tgt: (i, k) }));
}

pub proof fn lemma_found_first(l: List<(LVar, RuleACInst)>, n: (LVar, RuleACInst), i: LVar)
    ensures
        find(l.snoc(n), i) == (match find(l, i) {
            Some(ru) => Some(ru),
            None => if n.0 == i {
                Some(n.1)
            } else {
                None
            },
        }),
    decreases l,
{
    match l {
        List::Nil => {
            assert(find(List::<(LVar, RuleACInst)>::Nil, i) is None);
        },
        List::Cons(_, rest) => {
            lemma_found_first(*rest, n, i);
        },
    }
}

proof fn lemma_supplier(red: Reduction, ru: RuleACInst, i: LVar, idx: u64, fa: Fact)
    requires
        ru.conclusions == List::one(fa),
    ensures
        keeps(red.sys, red.supplier_added(ru, i, idx).sys),
        linked(red.supplier_added(ru, i, idx).sys, i, idx, fa),
{
    let j = node_var("vf"@, red.clear_supply().next);
    let e = Edge { src: (j, 0), tgt: (i, idx) };
    let end = red.supplier_added(ru, i, idx).sys;
    assert forall|n: LVar| find(red.sys.nodes, n) is Some implies #[trigger] find(end.nodes, n)
        == find(red.sys.nodes, n) by {
        lemma_found_first(red.sys.nodes, (j, ru), n);
    }
    assert forall|n: (LVar, RuleACInst)| red.sys.nodes.has(n) implies #[trigger] end.nodes.has(
        n,
    ) by {
        lemma_has_snoc(red.sys.nodes, (j, ru), n);
    }
    assert forall|x: Edge| red.sys.edges.has(x) implies #[trigger] end.edges.has(x) by {
        lemma_has_snoc(red.sys.edges, e, x);
    }
    lemma_has_snoc(red.sys.nodes, (j, ru), (j, ru));
    lemma_has_snoc(red.sys.edges, e, e);
    assert(end.nodes.has((j, ru)));
    assert(end.edges.has(e));
}

proof fn lemma_known_before(red: Reduction, i: LVar, fa: Fact)
    ensures
        keeps(red.sys, red.ku_action_before(i, fa).sys),
        known_before(red.ku_action_before(i, fa).sys, i, fa),
{
    reveal(Reduction::ku_action_before);
    let j = node_var("vk"@, red.clear_supply().next);
    let start = Reduction { supply: red.clear_supply().taken(1), ..red };
    let l = LessAtom { smaller: j, larger: i, reason: Reason::Adversary };
    let mid = start.less_inserted(l);
    lemma_less_inserted(start, l);
    law_goal_inserted(mid, Goal::Action(j, fa), false);
    let end = mid.goal_inserted(Goal::Action(j, fa), false);
    assert(keeps(start.sys, mid.sys));
    assert(keeps(mid.sys, end.sys));
    lemma_keeps_twice(red.sys, mid.sys, end.sys);
    assert(orders(mid.sys.less_atoms, j, i));
    assert(orders(end.sys.less_atoms, j, i));
    assert(find(end.sys.goals, Goal::Action(j, fa)) is Some);
}

/// A premise is taken care of, and nothing is lost.
pub proof fn law_premise_exploited(red: Reduction, i: LVar, idx: u64, fa: Fact, looping: bool)
    ensures
        red.premise_exploited(i, idx, fa, looping) matches Ok(end) ==> keeps(red.sys, end.sys)
            && supplied(end.sys, i, idx, fa),
{
    reveal(Reduction::premise_exploited);
    match (fa.tag, fa.terms) {
        (FactTag::Fresh, List::Cons(m, _)) => {
            reveal(Reduction::fresh_supplied);
            let conc = Fact::plain(FactTag::Fresh, List::one(m));
            let mid = red.supplier_added(fresh_rule(m), i, idx);
            lemma_supplier(red, fresh_rule(m), i, idx, conc);
            let n = Term::Var(
                LVar {
                    name: crate::text::text_of("n"@),
                    sort: crate::terms::LSort::Fresh,
                    idx: plus(crate::bounds::system_max(mid.sys), 1),
                },
            );
            let eqs = List::one((m, n));
            law_equations_keep_graph(mid, SplitStrategy::SplitNow, eqs);
            match red.fresh_supplied(i, idx, fa) {
                Ok(end) => {
                    assert(keeps(mid.sys, end.sys));
                    lemma_keeps_twice(red.sys, mid.sys, end.sys);
                    lemma_linked_stays(mid.sys, end.sys, i, idx, conc);
                },
                Err(_) => {},
            }
        },
        (FactTag::In, List::Cons(m, _)) => {
            reveal(Reduction::message_supplied);
            let conc = Fact::plain(FactTag::In, List::one(m));
            let ku = Fact::plain(FactTag::Ku, List::one(m));
            let j = node_var("vf"@, red.clear_supply().next);
            let mid = red.supplier_added(isend_rule(m), i, idx);
            lemma_supplier(red, isend_rule(m), i, idx, conc);
            lemma_known_before(mid, j, ku);
            let end = mid.ku_action_before(j, ku);
            lemma_keeps_twice(red.sys, mid.sys, end.sys);
            lemma_linked_stays(mid.sys, end.sys, i, idx, conc);
        },
        (FactTag::Fresh, List::Nil) => {
            reveal(Reduction::fresh_supplied);
        },
        (FactTag::In, List::Nil) => {
            reveal(Reduction::message_supplied);
        },
        (FactTag::Ku, _) => {
            lemma_known_before(red, i, fa);
        },
        _ => {
            law_goal_inserted(red, Goal::Premise((i, idx), fa), looping);
        },
    }
}

proof fn lemma_premises_exploited(
    red: Reduction,
    i: LVar,
    idx: u64,
    prems: List<Fact>,
    breakers: List<u64>,
    k: nat,
)
    ensures
        red.premises_exploited(i, idx, prems, breakers) matches Ok(end) ==> keeps(red.sys, end.sys)
            && (idx + prems.size() <= u64::MAX ==> (prems.nth(k) matches Some(fa) ==> supplied(
            end.sys,
            i,
            (idx + k) as u64,
            fa,
        ))),
    decreases prems,
{
    match prems {
        List::Nil => {
            assert(keeps(red.sys, red.sys));
        },
        List::Cons(fa, rest) => {
            law_premise_exploited(red, i, idx, fa, breakers.has(idx));
            match red.premise_exploited(i, idx, fa, breakers.has(idx)) {
                Ok(mid) => {
                    let before = if k > 0 {
                        (k - 1) as nat
                    } else {
                        0
                    };
                    lemma_premises_exploited(mid, i, plus(idx, 1), *rest, breakers, before);
                    match mid.premises_exploited(i, plus(idx, 1), *rest, breakers) {
                        Ok(end) => {
                            lemma_keeps_twice(red.sys, mid.sys, end.sys);
                            if k == 0 {
                                lemma_supplied_stays(mid.sys, end.sys, i, idx, fa);
                            } else if idx + prems.size() <= u64::MAX {
                                lemma_within(*rest, before);
                            }
                        },
                        Err(_) => {},
                    }
                },
                Err(_) => {},
            }
        },
    }
}

proof fn lemma_within(l: List<Fact>, k: nat)
    ensures
        l.nth(k) is Some ==> k < l.size(),
    decreases l,
{
    match l {
        List::Nil => {},
        List::Cons(_, rest) => {
            if k > 0 {
                lemma_within(*rest, (k - 1) as nat);
            }
        },
    }
}

/// Exploiting the premises of a rule takes care of every premise, at its own position,
/// and loses nothing.
pub proof fn law_premises_supplied(red: Reduction, i: LVar, ru: RuleACInst, k: nat)
    ensures
        red.rule_exploited(i, ru) matches Ok(end) ==> keeps(red.sys, end.sys) && (
        ru.premises.size() <= u64::MAX ==> (ru.premises.nth(k) matches Some(fa) ==> supplied(
            end.sys,
            i,
            k as u64,
            fa,
        ))),
{
    reveal(Reduction::rule_exploited);
    lemma_premises_exploited(red, i, 0, ru.premises, loop_breakers(ru), k);
}

} // verus!
