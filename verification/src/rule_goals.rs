//! Solving goals by rules: actions, premises and deconstruction chains.
use crate::bounds::{bounds_max, system_max};
use crate::conjoin::{entry_solved, solve_entry};
use crate::constraints::{Edge, EquationStore, Goal, NodeConc, NodePrem};
use crate::context::{
    ActionSourceCase, ActionSourcesAnswer, ActionSourcesQuery, Answered, PremiseSourceCase,
    PremiseSourcesAnswer, PremiseSourcesQuery, ProofContext, Query, UnifiableQuery,
};
use crate::facts::{
    alike, are_alike, kd_fact, ku_fact, out_fact, Fact, FactTag, IntrRuleACInfo, RuleACInst,
    RuleInfo,
};
use crate::formulas::{count, get_count};
use crate::goals::{
    arm_stores, arm_systems, fanout_arm_systems, first_name, get_arm_stores, get_first_name,
    make_solved_arms, set_goal_solved, solved_arms, with_goal_solved, Case, GoalCases,
};
use crate::leaves::{minus, plus};
use crate::list::{find, look_up, List, Value};
use crate::names::{
    chain_direct, chain_direct_text, numbered_case, numbered_case_text, rule_case, rule_case_text,
    rule_name, rule_name_text,
};
use crate::reduction::{
    ends, first_term, get_first_term, make_node_var, node_var, ChangeIndicator, Reduction,
    SolveOutcome, SplitStrategy,
};
use crate::rules::{
    action_candidates, class_of, coerce_illegal, edge_forbidden, forbidden_edge, freshen_rule,
    freshen_rule_with_constrs, freshened, get_remaining_rule_applications, illegal_coerce,
    intr_instance, intr_rule_to_rule_ac_inst, is_destr_rule_info,
    non_silent_rule_insts_with_constrs, premise_candidates,
    premise_solving_rule_insts_with_constrs, remaining, set_remaining_rule_applications,
    with_remaining, IntrClass, IntrRuleAC, RuleWithConstrs, Supply,
};
use crate::system::System;
use crate::term_ops::{
    ac_app, applied, apply_term, f_app_ac, is_var_of_sort, larger, max_of, var_of_sort,
};
use crate::terms::{AcSym, FunSym, LSort, LVar, Term};
use crate::text::{chars_of, text_of, Text};
use vstd::prelude::*;

verus! {

/// Whether a fact of the list has the same symbol and number of arguments.
pub open spec fn any_alike(l: List<Fact>, fa: Fact) -> bool
    decreases l,
{
    match l {
        List::Nil => false,
        List::Cons(f, rest) => alike(f, fa) || any_alike(*rest, fa),
    }
}

fn is_any_alike(l: &List<Fact>, fa: &Fact) -> (r: bool)
    ensures
        r == any_alike(*l, *fa),
    decreases l,
{
    match l {
        List::Nil => false,
        List::Cons(f, rest) => are_alike(f, fa) || is_any_alike(rest, fa),
    }
}

/// The characters after the prefix, if the text starts with it.
pub open spec fn after_prefix(t: List<char>, p: List<char>) -> Option<List<char>>
    decreases p,
{
    match (t, p) {
        (_, List::Nil) => Some(t),
        (List::Cons(a, l), List::Cons(b, m)) => if a == b {
            after_prefix(*l, *m)
        } else {
            None
        },
        _ => None,
    }
}

fn strip_prefix(t: &List<char>, p: &List<char>) -> (r: Option<List<char>>)
    ensures
        r == after_prefix(*t, *p),
    decreases p,
{
    match (t, p) {
        (_, List::Nil) => Some(t.dup()),
        (List::Cons(a, l), List::Cons(b, m)) => if *a == *b {
            strip_prefix(l, m)
        } else {
            None
        },
        _ => None,
    }
}

/// Whether a label says nothing of the rule that solves the goal: it is empty,
/// the name of a first case, or a numbered coercion.
pub open spec fn label_empty(label: Text) -> bool {
    ||| label.chars is Nil
    ||| label == text_of("case_1"@)
    ||| match after_prefix(label.chars, chars_of("coerce_case_"@)) {
        Some(rest) => !rest.has('_'),
        None => false,
    }
}

fn is_label_empty(label: &Text) -> (r: bool)
    ensures
        r == label_empty(*label),
{
    if label.chars.is_empty() || label.same(&Text::new("case_1")) {
        return true;
    }
    match strip_prefix(&label.chars, &Text::new("coerce_case_").chars) {
        Some(rest) => !rest.contains(&'_'),
        None => false,
    }
}

/// The list split in two in all ways in which the last element is in the first
/// part.
pub open spec fn partitions(l: List<Term>) -> List<(List<Term>, List<Term>)>
    decreases l,
{
    match l {
        List::Nil => List::Nil,
        List::Cons(x, rest) => if *rest is Nil {
            List::one((l, List::Nil))
        } else {
            let ps = partitions(*rest);
            with_first(x, ps).then_all(with_second(x, ps))
        },
    }
}

/// `x` added to the first parts.
pub open spec fn with_first(x: Term, l: List<(List<Term>, List<Term>)>) -> List<
    (List<Term>, List<Term>),
>
    decreases l,
{
    match l {
        List::Nil => List::Nil,
        List::Cons(p, rest) => List::Cons(
            (List::Cons(x, Box::new(p.0)), p.1),
            Box::new(with_first(x, *rest)),
        ),
    }
}

/// `x` added to the second parts.
pub open spec fn with_second(x: Term, l: List<(List<Term>, List<Term>)>) -> List<
    (List<Term>, List<Term>),
>
    decreases l,
{
    match l {
        List::Nil => List::Nil,
        List::Cons(p, rest) => List::Cons(
            (p.0, List::Cons(x, Box::new(p.1))),
            Box::new(with_second(x, *rest)),
        ),
    }
}

fn put_first(x: &Term, l: &List<(List<Term>, List<Term>)>) -> (r: List<(List<Term>, List<Term>)>)
    ensures
        r == with_first(*x, *l),
    decreases l,
{
    match l {
        List::Nil => List::Nil,
        List::Cons(p, rest) => List::Cons(
            (List::Cons(x.dup(), Box::new(p.0.dup())), p.1.dup()),
            Box::new(put_first(x, rest)),
        ),
    }
}

fn put_second(x: &Term, l: &List<(List<Term>, List<Term>)>) -> (r: List<(List<Term>, List<Term>)>)
    ensures
        r == with_second(*x, *l),
    decreases l,
{
    match l {
        List::Nil => List::Nil,
        List::Cons(p, rest) => List::Cons(
            (p.0.dup(), List::Cons(x.dup(), Box::new(p.1.dup()))),
            Box::new(put_second(x, rest)),
        ),
    }
}

/// The list split in two in all ways in which the last element is in the first
/// part.
pub fn two_partitions(l: &List<Term>) -> (r: List<(List<Term>, List<Term>)>)
    ensures
        r == partitions(*l),
    decreases l,
{
    match l {
        List::Nil => List::Nil,
        List::Cons(x, rest) => if rest.is_empty() {
            List::single((l.dup(), List::Nil))
        } else {
            let ps = two_partitions(rest);
            put_first(x, &ps).concat(put_second(x, &ps))
        },
    }
}

/// The equations between the facts at the two ends of edges, edges between old
/// nodes left aside; and whether the facts of an edge can never be equal.
pub open spec fn edge_eqs(
    l: List<Edge>,
    nodes: List<(LVar, RuleACInst)>,
    old_nodes: List<(LVar, RuleACInst)>,
) -> (List<(Fact, Fact)>, bool)
    decreases l,
{
    match l {
        List::Nil => (List::Nil, false),
        List::Cons(e, rest) => {
            let more = edge_eqs(*rest, nodes, old_nodes);
            if find(old_nodes, e.src.0) is Some && find(old_nodes, e.tgt.0) is Some {
                more
            } else {
                match edge_facts(e, nodes) {
                    None => more,
                    Some((fc, fp)) => if !alike(fc, fp) {
                        (more.0, true)
                    } else if fc == fp {
                        more
                    } else {
                        (List::Cons((fc, fp), Box::new(more.0)), more.1)
                    },
                }
            }
        },
    }
}

/// The facts at the two ends of an edge, if its nodes are there.
pub open spec fn edge_facts(e: Edge, nodes: List<(LVar, RuleACInst)>) -> Option<(Fact, Fact)> {
    match (find(nodes, e.src.0), find(nodes, e.tgt.0)) {
        (Some(src), Some(tgt)) => match (
            src.conclusions.nth(e.src.1 as nat),
            tgt.premises.nth(e.tgt.1 as nat),
        ) {
            (Some(fc), Some(fp)) => Some((fc, fp)),
            _ => None,
        },
        _ => None,
    }
}

fn get_edge_facts(e: &Edge, nodes: &List<(LVar, RuleACInst)>) -> (r: Option<(Fact, Fact)>)
    ensures
        r == edge_facts(*e, *nodes),
{
    match (look_up(nodes, &e.src.0), look_up(nodes, &e.tgt.0)) {
        (Some(src), Some(tgt)) => match (src.conclusions.get(e.src.1), tgt.premises.get(e.tgt.1)) {
            (Some(fc), Some(fp)) => Some((fc, fp)),
            _ => None,
        },
        _ => None,
    }
}

fn is_node(nodes: &List<(LVar, RuleACInst)>, i: &LVar) -> (r: bool)
    ensures
        r == (find(*nodes, *i) is Some),
{
    match look_up(nodes, i) {
        Some(_) => true,
        None => false,
    }
}

fn collect_edge_eqs(
    l: &List<Edge>,
    nodes: &List<(LVar, RuleACInst)>,
    old_nodes: &List<(LVar, RuleACInst)>,
) -> (r: (List<(Fact, Fact)>, bool))
    ensures
        r == edge_eqs(*l, *nodes, *old_nodes),
    decreases l,
{
    match l {
        List::Nil => (List::Nil, false),
        List::Cons(e, rest) => {
            let (eqs, clash) = collect_edge_eqs(rest, nodes, old_nodes);
            if is_node(old_nodes, &e.src.0) && is_node(old_nodes, &e.tgt.0) {
                (eqs, clash)
            } else {
                match get_edge_facts(e, nodes) {
                    None => (eqs, clash),
                    Some((fc, fp)) => if !are_alike(&fc, &fp) {
                        (eqs, true)
                    } else if fc.same(&fp) {
                        (eqs, clash)
                    } else {
                        (List::Cons((fc, fp), Box::new(eqs)), clash)
                    },
                }
            }
        },
    }
}

/// A node that consumes a fresh value.
pub struct Consumer {
    pub node: LVar,
    pub value: LVar,
    pub rule: RuleACInst,
}

/// The fresh values that the premises consume.
pub open spec fn premise_consumers(
    sys: System,
    node: LVar,
    rule: RuleACInst,
    prems: List<Fact>,
) -> List<Consumer>
    decreases prems,
{
    match prems {
        List::Nil => List::Nil,
        List::Cons(fa, rest) => {
            let more = premise_consumers(sys, node, rule, *rest);
            match (fa.tag, first_term(fa)) {
                (FactTag::Fresh, Some(t)) => match applied(sys.eq_store.subst, t) {
                    Term::Var(v) => if v.sort == LSort::Fresh {
                        List::Cons(Consumer { node, value: v, rule }, Box::new(more))
                    } else {
                        more
                    },
                    _ => more,
                },
                _ => more,
            }
        },
    }
}

fn collect_premise_consumers(
    sys: &System,
    node: &LVar,
    rule: &RuleACInst,
    prems: &List<Fact>,
) -> (r: List<Consumer>)
    ensures
        r == premise_consumers(*sys, *node, *rule, *prems),
    decreases prems,
{
    match prems {
        List::Nil => List::Nil,
        List::Cons(fa, rest) => {
            let more = collect_premise_consumers(sys, node, rule, rest);
            match (&fa.tag, get_first_term(fa)) {
                (FactTag::Fresh, Some(t)) => match apply_term(&sys.eq_store.subst, &t) {
                    Term::Var(v) => if v.sort == LSort::Fresh {
                        List::Cons(
                            Consumer { node: node.dup(), value: v, rule: rule.dup() },
                            Box::new(more),
                        )
                    } else {
                        more
                    },
                    _ => more,
                },
                _ => more,
            }
        },
    }
}

/// The nodes that consume a fresh value.
pub open spec fn consumers(sys: System, l: List<(LVar, RuleACInst)>) -> List<Consumer>
    decreases l,
{
    match l {
        List::Nil => List::Nil,
        List::Cons(n, rest) => premise_consumers(sys, n.0, n.1, n.1.premises).then_all(
            consumers(sys, *rest),
        ),
    }
}

fn append_consumers(a: List<Consumer>, b: List<Consumer>) -> (r: List<Consumer>)
    ensures
        r == a.then_all(b),
    decreases a,
{
    match a {
        List::Nil => b,
        List::Cons(c, rest) => List::Cons(c, Box::new(append_consumers(*rest, b))),
    }
}

fn collect_consumers(sys: &System, l: &List<(LVar, RuleACInst)>) -> (r: List<Consumer>)
    ensures
        r == consumers(*sys, *l),
    decreases l,
{
    match l {
        List::Nil => List::Nil,
        List::Cons(n, rest) => append_consumers(
            collect_premise_consumers(sys, &n.0, &n.1, &n.1.premises),
            collect_consumers(sys, rest),
        ),
    }
}

/// Whether one of `l` consumes the same value as `c` at another node by a rule
/// that does not unify.
pub open spec fn conflated_with(
    ctx: &ProofContext,
    c: Consumer,
    l: List<Consumer>,
) -> Answered<bool>
    decreases l,
{
    match l {
        List::Nil => Ok(false),
        List::Cons(d, rest) => if c.value != d.value || c.node == d.node {
            conflated_with(ctx, c, *rest)
        } else {
            let q = UnifiableQuery { left: c.rule, right: d.rule };
            match find(ctx.answers.unifiable, q) {
                None => Err(Query::Unifiable(q)),
                Some(Some(false)) => Ok(true),
                Some(_) => conflated_with(ctx, c, *rest),
            }
        },
    }
}

fn is_conflated_with(ctx: &ProofContext, c: &Consumer, l: &List<Consumer>) -> (r: Answered<bool>)
    ensures
        r == conflated_with(ctx, *c, *l),
    decreases l,
{
    match l {
        List::Nil => Ok(false),
        List::Cons(d, rest) => if !c.value.same(&d.value) || c.node.same(&d.node) {
            is_conflated_with(ctx, c, rest)
        } else {
            let q = UnifiableQuery { left: c.rule.dup(), right: d.rule.dup() };
            match look_up(&ctx.answers.unifiable, &q) {
                None => Err(Query::Unifiable(q)),
                Some(Some(false)) => Ok(true),
                Some(_) => is_conflated_with(ctx, c, rest),
            }
        },
    }
}

/// Whether two of the consumers share a value that only one can have.
pub open spec fn any_conflated(ctx: &ProofContext, l: List<Consumer>) -> Answered<bool>
    decreases l,
{
    match l {
        List::Nil => Ok(false),
        List::Cons(c, rest) => match conflated_with(ctx, c, *rest) {
            Err(q) => Err(q),
            Ok(true) => Ok(true),
            Ok(false) => any_conflated(ctx, *rest),
        },
    }
}

fn is_any_conflated(ctx: &ProofContext, l: &List<Consumer>) -> (r: Answered<bool>)
    ensures
        r == any_conflated(ctx, *l),
    decreases l,
{
    match l {
        List::Nil => Ok(false),
        List::Cons(c, rest) => match is_conflated_with(ctx, c, rest) {
            Err(q) => Err(q),
            Ok(true) => Ok(true),
            Ok(false) => is_any_conflated(ctx, rest),
        },
    }
}

/// Whether two nodes with rules that do not unify consume the same fresh value.
pub open spec fn fresh_conflated(ctx: &ProofContext, sys: System) -> Answered<bool> {
    any_conflated(ctx, consumers(sys, sys.nodes))
}

/// Whether two nodes with rules that do not unify consume the same fresh value.
pub fn has_fresh_consumer_conflation(ctx: &ProofContext, sys: &System) -> (r: Answered<bool>)
    ensures
        r == fresh_conflated(ctx, *sys),
{
    is_any_conflated(ctx, &collect_consumers(sys, &sys.nodes))
}

/// The system with a further source on record.
pub open spec fn with_source(sys: System, name: Text) -> System {
    System { used_sources: sys.used_sources.snoc(name), ..sys }
}

/// Cases that result from trying rules: the cases, and how far the supply went
/// on the last rule and on any rule.
pub struct Tried {
    pub cases: List<Case>,
    pub last: u64,
    pub high: u64,
}

impl Tried {
    /// The state of the supply after all rules have been tried.
    pub open spec fn supply(self) -> Supply {
        Supply { next: self.last }.above(minus(self.high, 1))
    }

    fn get_supply(&self) -> (r: Supply)
        ensures
            r == self.supply(),
    {
        let mut s = Supply { next: self.last };
        s.ensure_above(self.high.saturating_sub(1));
        s
    }
}

impl<'a> Reduction<'a> {
    /// The cases in which one of the actions of an existing node is the action
    /// of the goal.
    pub open spec fn existing_cases(
        self,
        g: Goal,
        fa: Fact,
        acts: List<Fact>,
        name: Text,
    ) -> Answered<
        List<Case>,
    >
        decreases acts,
    {
        match acts {
            List::Nil => Ok(List::Nil),
            List::Cons(act, rest) => match Reduction::inheriting(
                self.ctx,
                self.sys,
                self.supply.next,
            ).fact_eqs(SplitStrategy::SplitNow, List::one((fa, act))) {
                Err(q) => Err(q),
                Ok((red, out)) => match self.existing_cases(g, fa, *rest, name) {
                    Err(q) => Err(q),
                    Ok(more) => Ok(
                        if out.dead() {
                            more
                        } else {
                            solved_arms(
                                name,
                                red.sys,
                                arm_stores(out, red.sys.eq_store),
                                g,
                                red.supply.next,
                            ).then_all(more)
                        },
                    ),
                },
            },
        }
    }

    fn try_existing(&self, g: &Goal, fa: &Fact, acts: &List<Fact>, name: &Text) -> (r: Answered<
        List<Case>,
    >)
        ensures
            r == self.existing_cases(*g, *fa, *acts, *name),
        decreases acts,
    {
        match acts {
            List::Nil => Ok(List::Nil),
            List::Cons(act, rest) => {
                let mut sub = Reduction::new_inheriting(
                    self.ctx,
                    self.sys.dup(),
                    self.supply.next,
                );
                let eqs = List::single((fa.dup(), act.dup()));
                let out = match sub.solve_fact_eqs(SplitStrategy::SplitNow, &eqs) {
                    Err(q) => {
                        return Err(q);
                    },
                    Ok(out) => out,
                };
                let more = match self.try_existing(g, fa, rest, name) {
                    Err(q) => {
                        return Err(q);
                    },
                    Ok(more) => more,
                };
                if out.is_dead() {
                    Ok(more)
                } else {
                    let stores = get_arm_stores(out, &sub.sys.eq_store);
                    let here = make_solved_arms(name, &sub.sys, &stores, g, sub.supply.next);
                    Ok(here.concat(more))
                }
            },
        }
    }

    /// The systems of a precomputed case after its action has been equated with
    /// the goal's, one for each store that has a solution.
    pub open spec fn arms_substituted(self, stores: List<EquationStore>) -> Answered<
        List<(System, u64)>,
    >
        decreases stores,
    {
        match stores {
            List::Nil => Ok(List::Nil),
            List::Cons(s, rest) => match Reduction::inheriting(
                self.ctx,
                System { eq_store: s, ..self.sys },
                self.supply.next,
            ).system_substituted() {
                Err(q) => Err(q),
                Ok(red) => match self.arms_substituted(*rest) {
                    Err(q) => Err(q),
                    Ok(more) => Ok(
                        if red.sys.eq_store.contradictory {
                            more
                        } else {
                            List::Cons((red.sys, red.supply.next), Box::new(more))
                        },
                    ),
                },
            },
        }
    }

    fn subst_arms(&self, stores: &List<EquationStore>) -> (r: Answered<List<(System, u64)>>)
        ensures
            r == self.arms_substituted(*stores),
        decreases stores,
    {
        match stores {
            List::Nil => Ok(List::Nil),
            List::Cons(s, rest) => {
                let mut arm = self.sys.dup();
                arm.eq_store = s.dup();
                let mut sub = Reduction::new_inheriting(self.ctx, arm, self.supply.next);
                match sub.subst_system() {
                    Err(q) => {
                        return Err(q);
                    },
                    Ok(()) => {},
                }
                match self.subst_arms(rest) {
                    Err(q) => Err(q),
                    Ok(more) => if sub.sys.eq_store.is_false() {
                        Ok(more)
                    } else {
                        let next: u64 = sub.supply.next;
                        Ok(List::Cons((sub.sys, next), Box::new(more)))
                    },
                }
            },
        }
    }

    /// The systems of a precomputed case in which its action is the goal's.
    pub open spec fn source_systems(self, action: Fact, fa: Fact) -> Answered<List<(System, u64)>> {
        match self.fact_eqs(SplitStrategy::SplitNow, List::one((action, fa))) {
            Err(q) => Err(q),
            Ok((red, out)) => match out {
                SolveOutcome::Contradictory => Ok(List::Nil),
                SolveOutcome::Failed => Ok(List::Nil),
                SolveOutcome::Cases(arms) => red.arms_substituted(arms),
                SolveOutcome::Linear(_) => match red.system_substituted() {
                    Err(q) => Err(q),
                    Ok(end) => Ok(List::one((end.sys, end.supply.next))),
                },
            },
        }
    }

    fn get_source_systems(&mut self, action: &Fact, fa: &Fact) -> (r: Answered<List<(System, u64)>>)
        ensures
            r == old(self).source_systems(*action, *fa),
    {
        let eqs = List::single((action.dup(), fa.dup()));
        match self.solve_fact_eqs(SplitStrategy::SplitNow, &eqs) {
            Err(q) => Err(q),
            Ok(SolveOutcome::Contradictory) => Ok(List::Nil),
            Ok(SolveOutcome::Failed) => Ok(List::Nil),
            Ok(SolveOutcome::Cases(arms)) => self.subst_arms(&arms),
            Ok(SolveOutcome::Linear(_)) => match self.subst_system() {
                Err(q) => Err(q),
                Ok(()) => Ok(List::single((self.sys.dup(), self.supply.next))),
            },
        }
    }

    /// The case with the substitution applied and its source on record.
    pub open spec fn source_case(self, name: Text) -> Answered<Case> {
        match self.system_substituted() {
            Err(q) => Err(q),
            Ok(red) => Ok(Case { name, sys: with_source(red.sys, name), next: red.supply.next }),
        }
    }

    fn make_source_case(&mut self, name: &Text) -> (r: Answered<Case>)
        ensures
            r == old(self).source_case(*name),
    {
        match self.subst_system() {
            Err(q) => Err(q),
            Ok(()) => {
                let mut sys = self.sys.dup();
                sys.used_sources = sys.used_sources.with_last(name.dup());
                Ok(Case { name: name.dup(), sys, next: self.supply.next })
            },
        }
    }

    /// The cases of a precomputed system whose edges fork: one for each store
    /// that has a solution.
    pub open spec fn source_arms(self, name: Text, stores: List<EquationStore>) -> Answered<
        List<Case>,
    >
        decreases stores,
    {
        match stores {
            List::Nil => Ok(List::Nil),
            List::Cons(s, rest) => match Reduction::inheriting(
                self.ctx,
                System { eq_store: s, ..self.sys },
                self.supply.next,
            ).source_case(name) {
                Err(q) => Err(q),
                Ok(c) => match self.source_arms(name, *rest) {
                    Err(q) => Err(q),
                    Ok(more) => Ok(
                        if c.sys.eq_store.contradictory {
                            more
                        } else {
                            List::Cons(c, Box::new(more))
                        },
                    ),
                },
            },
        }
    }

    fn make_source_arms(&self, name: &Text, stores: &List<EquationStore>) -> (r: Answered<
        List<Case>,
    >)
        ensures
            r == self.source_arms(*name, *stores),
        decreases stores,
    {
        match stores {
            List::Nil => Ok(List::Nil),
            List::Cons(s, rest) => {
                let mut arm = self.sys.dup();
                arm.eq_store = s.dup();
                let mut sub = Reduction::new_inheriting(self.ctx, arm, self.supply.next);
                let c = match sub.make_source_case(name) {
                    Err(q) => {
                        return Err(q);
                    },
                    Ok(c) => c,
                };
                match self.make_source_arms(name, rest) {
                    Err(q) => Err(q),
                    Ok(more) => if c.sys.eq_store.is_false() {
                        Ok(more)
                    } else {
                        Ok(List::Cons(c, Box::new(more)))
                    },
                }
            },
        }
    }

    /// The cases of a precomputed system: the facts at the two ends of its new
    /// edges have to be equal.
    pub open spec fn linked_cases(
        self,
        name: Text,
        old_nodes: List<(LVar, RuleACInst)>,
    ) -> Answered<
        List<Case>,
    > {
        let links = edge_eqs(self.sys.edges, self.sys.nodes, old_nodes);
        if links.1 {
            Ok(List::Nil)
        } else if links.0 is Nil {
            match self.source_case(name) {
                Err(q) => Err(q),
                Ok(c) => Ok(List::one(c)),
            }
        } else {
            match self.fact_eqs(SplitStrategy::SplitNow, links.0) {
                Err(q) => Err(q),
                Ok((red, out)) => match out {
                    SolveOutcome::Contradictory => Ok(List::Nil),
                    SolveOutcome::Failed => Ok(List::Nil),
                    SolveOutcome::Cases(arms) => red.source_arms(name, arms),
                    SolveOutcome::Linear(_) => match red.source_case(name) {
                        Err(q) => Err(q),
                        Ok(c) => Ok(List::one(c)),
                    },
                },
            }
        }
    }

    fn make_linked_cases(&mut self, name: &Text, old_nodes: &List<(LVar, RuleACInst)>) -> (r:
        Answered<List<Case>>)
        ensures
            r == old(self).linked_cases(*name, *old_nodes),
    {
        let (eqs, clash) = collect_edge_eqs(&self.sys.edges, &self.sys.nodes, old_nodes);
        if clash {
            return Ok(List::Nil);
        }
        if !eqs.is_empty() {
            match self.solve_fact_eqs(SplitStrategy::SplitNow, &eqs) {
                Err(q) => {
                    return Err(q);
                },
                Ok(SolveOutcome::Contradictory) => {
                    return Ok(List::Nil);
                },
                Ok(SolveOutcome::Failed) => {
                    return Ok(List::Nil);
                },
                Ok(SolveOutcome::Cases(arms)) => {
                    return self.make_source_arms(name, &arms);
                },
                Ok(SolveOutcome::Linear(_)) => {},
            }
        }
        match self.make_source_case(name) {
            Err(q) => Err(q),
            Ok(c) => Ok(List::single(c)),
        }
    }

    /// The cases of the precomputed systems.
    pub open spec fn all_linked_cases(
        self,
        name: Text,
        l: List<(System, u64)>,
    ) -> Answered<List<Case>>
        decreases l,
    {
        match l {
            List::Nil => Ok(List::Nil),
            List::Cons(s, rest) => match Reduction::inheriting(self.ctx, s.0, s.1).linked_cases(
                name,
                self.sys.nodes,
            ) {
                Err(q) => Err(q),
                Ok(here) => match self.all_linked_cases(name, *rest) {
                    Err(q) => Err(q),
                    Ok(more) => Ok(here.then_all(more)),
                },
            },
        }
    }

    fn make_all_linked_cases(&self, name: &Text, l: &List<(System, u64)>) -> (r: Answered<
        List<Case>,
    >)
        ensures
            r == self.all_linked_cases(*name, *l),
        decreases l,
    {
        match l {
            List::Nil => Ok(List::Nil),
            List::Cons(s, rest) => {
                let mut sub = Reduction::new_inheriting(self.ctx, s.0.dup(), s.1);
                let here = match sub.make_linked_cases(name, &self.sys.nodes) {
                    Err(q) => {
                        return Err(q);
                    },
                    Ok(here) => here,
                };
                match self.make_all_linked_cases(name, rest) {
                    Err(q) => Err(q),
                    Ok(more) => Ok(here.concat(more)),
                }
            },
        }
    }

    /// The name of a precomputed case: its label, or the rule at the goal's
    /// node where the label says nothing, or a number where there is no such
    /// node.
    pub open spec fn source_name(c: ActionSourceCase, i: LVar, made: u64) -> Text {
        if label_empty(c.label) {
            match find(c.sys.nodes, i) {
                Some(ru) => rule_case(ru),
                None => numbered_case(made),
            }
        } else {
            c.label
        }
    }

    fn get_source_name(c: &ActionSourceCase, i: &LVar, made: u64) -> (r: Text)
        ensures
            r == Reduction::source_name(*c, *i, made),
    {
        if is_label_empty(&c.label) {
            match look_up(&c.sys.nodes, i) {
                Some(ru) => rule_case_text(&ru),
                None => numbered_case_text(made),
            }
        } else {
            c.label.dup()
        }
    }

    /// The cases of an action goal that the precomputed sources give, after
    /// `made` have been made already.
    pub open spec fn action_source_cases(
        self,
        i: LVar,
        fa: Fact,
        l: List<ActionSourceCase>,
        made: u64,
    ) -> Answered<List<Case>>
        decreases l,
    {
        match l {
            List::Nil => Ok(List::Nil),
            List::Cons(c, rest) => {
                let name = Reduction::source_name(c, i, made);
                let sys = System {
                    goals: entry_solved(c.sys.goals, Goal::Action(i, fa)),
                    ..c.sys
                };
                match Reduction::inheriting(self.ctx, sys, c.next).source_systems(c.action, fa) {
                    Err(q) => Err(q),
                    Ok(systems) => match self.all_linked_cases(name, systems) {
                        Err(q) => Err(q),
                        Ok(here) => match self.action_source_cases(
                            i,
                            fa,
                            *rest,
                            plus(made, count(here)),
                        ) {
                            Err(q) => Err(q),
                            Ok(more) => Ok(here.then_all(more)),
                        },
                    },
                }
            },
        }
    }

    fn make_action_source_cases(
        &self,
        i: &LVar,
        fa: &Fact,
        l: &List<ActionSourceCase>,
        made: u64,
    ) -> (r: Answered<List<Case>>)
        ensures
            r == self.action_source_cases(*i, *fa, *l, made),
        decreases l,
    {
        match l {
            List::Nil => Ok(List::Nil),
            List::Cons(c, rest) => {
                let name = Reduction::get_source_name(c, i, made);
                let mut sys = c.sys.dup();
                sys.goals = solve_entry(&sys.goals, &Goal::Action(i.dup(), fa.dup()));
                let mut sub = Reduction::new_inheriting(self.ctx, sys, c.next);
                let systems = match sub.get_source_systems(&c.action, fa) {
                    Err(q) => {
                        return Err(q);
                    },
                    Ok(systems) => systems,
                };
                let here = match self.make_all_linked_cases(&name, &systems) {
                    Err(q) => {
                        return Err(q);
                    },
                    Ok(here) => here,
                };
                let total: u64 = made.saturating_add(get_count(&here));
                match self.make_action_source_cases(i, fa, rest, total) {
                    Err(q) => Err(q),
                    Ok(more) => Ok(here.concat(more)),
                }
            },
        }
    }

    /// The precomputed cases of an action goal; none where sources do not apply.
    pub open spec fn action_sources(self, i: LVar, fa: Fact) -> Answered<
        ActionSourcesAnswer,
    > {
        if !self.ctx.in_initial_sources && fa.tag is Ku && self.ctx.has_sources {
            let q = ActionSourcesQuery {
                sys: self.sys,
                node: i,
                fact: fa,
                avoid: system_max(self.sys),
                next: self.supply.next,
            };
            match find(self.ctx.answers.action_sources, q) {
                None => Err(Query::ActionSources(q)),
                Some(a) => Ok(a),
            }
        } else {
            Ok(ActionSourcesAnswer { cases: None, next: self.supply.next })
        }
    }

    fn get_action_sources(&self, i: &LVar, fa: &Fact) -> (r: Answered<
        ActionSourcesAnswer,
    >)
        ensures
            r == self.action_sources(*i, *fa),
    {
        let is_ku = match &fa.tag {
            FactTag::Ku => true,
            _ => false,
        };
        if !self.ctx.in_initial_sources && is_ku && self.ctx.has_sources {
            let q = ActionSourcesQuery {
                sys: self.sys.dup(),
                node: i.dup(),
                fact: fa.dup(),
                avoid: bounds_max(&self.sys),
                next: self.supply.next,
            };
            match look_up(&self.ctx.answers.action_sources, &q) {
                None => Err(Query::ActionSources(q)),
                Some(a) => Ok(a),
            }
        } else {
            Ok(ActionSourcesAnswer { cases: None, next: self.supply.next })
        }
    }

    /// The rule by which the intruder uses a sum as it is.
    pub open spec fn coerce_rule(m: Term, fa: Fact) -> RuleACInst {
        RuleACInst::of(
            RuleInfo::Intr(IntrRuleACInfo::Coerce),
            List::one(Fact::plain(FactTag::Kd, List::one(m))),
            List::one(fa),
            List::one(fa),
        )
    }

    /// The rule by which the intruder adds two terms up.
    pub open spec fn xor_rule(a: Term, b: Term, fa: Fact) -> RuleACInst {
        RuleACInst::of(
            RuleInfo::Intr(IntrRuleACInfo::ConstrRule(text_of("_xor"@))),
            List::Cons(
                Fact::plain(FactTag::Ku, List::one(a)),
                Box::new(List::one(Fact::plain(FactTag::Ku, List::one(b)))),
            ),
            List::one(fa),
            List::one(fa),
        )
    }

    /// The case in which the intruder knows a sum whose operands are split in
    /// two: it adds the two parts up, or uses the sum as it is where the second
    /// part is empty.
    pub open spec fn sum_case(
        self,
        i: LVar,
        fa: Fact,
        m: Term,
        parts: (List<Term>, List<Term>),
    ) -> Case {
        let g = Goal::Action(i, fa);
        let start = Reduction::inheriting(self.ctx, self.sys, self.supply.next);
        if parts.1 is Nil {
            let red = start.on(
                start.sys.with_node(i, Reduction::coerce_rule(m, fa)),
            ).goal_inserted(
                Goal::Premise((i, 0), Fact::plain(FactTag::Kd, List::one(m))),
                false,
            );
            Case {
                name: text_of("coerce"@),
                sys: with_goal_solved(red.sys, g),
                next: red.supply.next,
            }
        } else {
            let a = ac_app(AcSym::Xor, parts.0);
            let b = ac_app(AcSym::Xor, parts.1);
            let red = start.on(
                start.sys.with_node(i, Reduction::xor_rule(a, b, fa)),
            ).ku_action_before(i, Fact::plain(FactTag::Ku, List::one(a))).ku_action_before(
                i,
                Fact::plain(FactTag::Ku, List::one(b)),
            );
            Case {
                name: text_of("c_xor"@),
                sys: with_goal_solved(red.sys, g),
                next: red.supply.next,
            }
        }
    }

    fn make_sum_case(&self, i: &LVar, fa: &Fact, m: &Term, parts: &(List<Term>, List<Term>)) -> (r:
        Case)
        ensures
            r == self.sum_case(*i, *fa, *m, *parts),
    {
        let g = Goal::Action(i.dup(), fa.dup());
        let mut sub = Reduction::new_inheriting(self.ctx, self.sys.dup(), self.supply.next);
        if parts.1.is_empty() {
            let kd_m = kd_fact(m.dup());
            let ru = RuleACInst::new(
                RuleInfo::Intr(IntrRuleACInfo::Coerce),
                List::single(kd_m.dup()),
                List::single(fa.dup()),
                List::single(fa.dup()),
            );
            sub.sys.add_node(i.dup(), ru);
            sub.insert_goal(Goal::Premise((i.dup(), 0), kd_m));
            set_goal_solved(&mut sub.sys, &g);
            Case { name: Text::new("coerce"), sys: sub.sys, next: sub.supply.next }
        } else {
            let ku_a = ku_fact(f_app_ac(AcSym::Xor, &parts.0));
            let ku_b = ku_fact(f_app_ac(AcSym::Xor, &parts.1));
            let ru = RuleACInst::new(
                RuleInfo::Intr(IntrRuleACInfo::ConstrRule(Text::new("_xor"))),
                List::Cons(ku_a.dup(), Box::new(List::single(ku_b.dup()))),
                List::single(fa.dup()),
                List::single(fa.dup()),
            );
            sub.sys.add_node(i.dup(), ru);
            sub.add_ku_action_before(i, &ku_a);
            sub.add_ku_action_before(i, &ku_b);
            set_goal_solved(&mut sub.sys, &g);
            Case { name: Text::new("c_xor"), sys: sub.sys, next: sub.supply.next }
        }
    }

    /// The cases of a sum that the intruder has to know.
    pub open spec fn sum_cases(
        self,
        i: LVar,
        fa: Fact,
        m: Term,
        l: List<(List<Term>, List<Term>)>,
    ) -> List<Case>
        decreases l,
    {
        match l {
            List::Nil => List::Nil,
            List::Cons(parts, rest) => List::Cons(
                self.sum_case(i, fa, m, parts),
                Box::new(self.sum_cases(i, fa, m, *rest)),
            ),
        }
    }

    fn make_sum_cases(
        &self,
        i: &LVar,
        fa: &Fact,
        m: &Term,
        l: &List<(List<Term>, List<Term>)>,
    ) -> (r: List<Case>)
        ensures
            r == self.sum_cases(*i, *fa, *m, *l),
        decreases l,
    {
        match l {
            List::Nil => List::Nil,
            List::Cons(parts, rest) => List::Cons(
                self.make_sum_case(i, fa, m, parts),
                Box::new(self.make_sum_cases(i, fa, m, rest)),
            ),
        }
    }

    /// The operands of the sum that the intruder has to know, if the goal is
    /// about one.
    pub open spec fn known_sum(fa: Fact) -> Option<(Term, List<Term>)> {
        match (fa.tag, fa.terms.only()) {
            (FactTag::Ku, Some(m)) => match m {
                Term::App(FunSym::Ac(AcSym::Xor), args) => Some((m, *args)),
                _ => None,
            },
            _ => None,
        }
    }

    fn get_known_sum(fa: &Fact) -> (r: Option<(Term, List<Term>)>)
        ensures
            r == Reduction::known_sum(*fa),
    {
        match (&fa.tag, fa.terms.get_only()) {
            (FactTag::Ku, Some(m)) => match &m {
                Term::App(FunSym::Ac(AcSym::Xor), args) => Some((m.dup(), args.dup())),
                _ => None,
            },
            _ => None,
        }
    }

    /// The cases in which the goal's action is `act`, an action of `ru`, which is
    /// an instance with fresh variables.
    pub open spec fn instance_cases(
        self,
        i: LVar,
        fa: Fact,
        ru: RuleWithConstrs,
        act: Fact,
    ) -> Answered<
        List<Case>,
    > {
        let start = Reduction::of_floor(
            self.ctx,
            self.sys.with_node(i, ru.0),
            self.ctx.refine_floor,
        );
        match start.variants_required(ru.1) {
            Err(q) => Err(q),
            Ok((_, true)) => Ok(List::Nil),
            Ok((red, false)) => match red.rule_exploited(i, ru.0) {
                Err(q) => Err(q),
                Ok(ready) => match ready.fact_eqs(
                    SplitStrategy::SplitNow,
                    List::one((fa, act)),
                ) {
                    Err(q) => Err(q),
                    Ok((end, out)) => Ok(
                        if out.dead() {
                            List::Nil
                        } else {
                            solved_arms(
                                rule_case(ru.0),
                                end.sys,
                                arm_stores(out, end.sys.eq_store),
                                Goal::Action(i, fa),
                                end.supply.next,
                            )
                        },
                    ),
                },
            },
        }
    }

    fn try_instance(&self, i: &LVar, fa: &Fact, ru: RuleWithConstrs, act: &Fact) -> (r: Answered<
        List<Case>,
    >)
        ensures
            r == self.instance_cases(*i, *fa, ru, *act),
    {
        let (renamed, constrs) = ru;
        let mut sys = self.sys.dup();
        sys.add_node(i.dup(), renamed.dup());
        let mut sub = Reduction::new(self.ctx, sys);
        match sub.solve_rule_constraints(constrs) {
            Err(q) => {
                return Err(q);
            },
            Ok(true) => {
                return Ok(List::Nil);
            },
            Ok(false) => {},
        }
        match sub.exploit_prems(i, &renamed) {
            Err(q) => {
                return Err(q);
            },
            Ok(()) => {},
        }
        let eqs = List::single((fa.dup(), act.dup()));
        match sub.solve_fact_eqs(SplitStrategy::SplitNow, &eqs) {
            Err(q) => Err(q),
            Ok(out) => if out.is_dead() {
                Ok(List::Nil)
            } else {
                let stores = get_arm_stores(out, &sub.sys.eq_store);
                Ok(
                    make_solved_arms(
                        &rule_case_text(&renamed),
                        &sub.sys,
                        &stores,
                        &Goal::Action(i.dup(), fa.dup()),
                        sub.supply.next,
                    ),
                )
            },
        }
    }

    /// The cases in which the goal's action is one of `acts`, actions of the rule
    /// instance.  Every action is tried with the same instance.
    pub open spec fn rule_action_cases(
        self,
        i: LVar,
        fa: Fact,
        ru: RuleWithConstrs,
        acts: List<Fact>,
    ) -> Answered<List<Case>>
        decreases acts,
    {
        match acts {
            List::Nil => Ok(List::Nil),
            List::Cons(act, rest) => {
                let here = if alike(act, fa) {
                    self.instance_cases(i, fa, ru, act)
                } else {
                    Ok(List::Nil)
                };
                match here {
                    Err(q) => Err(q),
                    Ok(cases) => match self.rule_action_cases(i, fa, ru, *rest) {
                        Err(q) => Err(q),
                        Ok(more) => Ok(cases.then_all(more)),
                    },
                }
            },
        }
    }

    fn try_rule_actions(&self, i: &LVar, fa: &Fact, ru: &RuleWithConstrs, acts: &List<Fact>) -> (r:
        Answered<List<Case>>)
        ensures
            r == self.rule_action_cases(*i, *fa, *ru, *acts),
        decreases acts,
    {
        match acts {
            List::Nil => Ok(List::Nil),
            List::Cons(act, rest) => {
                let cases = if are_alike(act, fa) {
                    match self.try_instance(i, fa, ru.dup(), act) {
                        Err(q) => {
                            return Err(q);
                        },
                        Ok(cases) => cases,
                    }
                } else {
                    List::Nil
                };
                match self.try_rule_actions(i, fa, ru, rest) {
                    Err(q) => Err(q),
                    Ok(more) => Ok(cases.concat(more)),
                }
            },
        }
    }

    /// The cases in which the goal's action is an action of one of the rules.
    pub open spec fn candidate_cases(
        self,
        i: LVar,
        fa: Fact,
        l: List<RuleWithConstrs>,
        avoid: u64,
        base: u64,
        last: u64,
    ) -> Answered<Tried>
        decreases l,
    {
        match l {
            List::Nil => Ok(Tried { cases: List::Nil, last, high: base }),
            List::Cons(ru, rest) => if any_alike(ru.0.actions, fa) {
                let fresh = freshened(ru, avoid, Supply { next: base });
                match self.rule_action_cases(i, fa, fresh.0, fresh.0.0.actions) {
                    Err(q) => Err(q),
                    Ok(cases) => match self.candidate_cases(
                        i,
                        fa,
                        *rest,
                        avoid,
                        base,
                        fresh.1.next,
                    ) {
                        Err(q) => Err(q),
                        Ok(more) => Ok(
                            Tried {
                                cases: cases.then_all(more.cases),
                                last: more.last,
                                high: larger(fresh.1.next, more.high),
                            },
                        ),
                    },
                }
            } else {
                self.candidate_cases(i, fa, *rest, avoid, base, last)
            },
        }
    }

    fn try_candidates(
        &self,
        i: &LVar,
        fa: &Fact,
        l: &List<RuleWithConstrs>,
        avoid: u64,
        base: u64,
        last: u64,
    ) -> (r: Answered<Tried>)
        ensures
            r == self.candidate_cases(*i, *fa, *l, avoid, base, last),
        decreases l,
    {
        match l {
            List::Nil => Ok(Tried { cases: List::Nil, last, high: base }),
            List::Cons(ru, rest) => if is_any_alike(&ru.0.actions, fa) {
                let mut supply = Supply { next: base };
                let fresh = freshen_rule_with_constrs(ru.dup(), avoid, &mut supply);
                let cases = match self.try_rule_actions(i, fa, &fresh, &fresh.0.actions) {
                    Err(q) => {
                        return Err(q);
                    },
                    Ok(cases) => cases,
                };
                match self.try_candidates(i, fa, rest, avoid, base, supply.next) {
                    Err(q) => Err(q),
                    Ok(more) => {
                        let high: u64 = max_of(supply.next, more.high);
                        Ok(Tried { cases: cases.concat(more.cases), last: more.last, high })
                    },
                }
            } else {
                self.try_candidates(i, fa, rest, avoid, base, last)
            },
        }
    }

    /// The reduction after an action has been solved by the rules.
    pub open spec fn action_by_rules(self, i: LVar, fa: Fact) -> Answered<(Self, GoalCases)> {
        let l = action_candidates(self.ctx.intruder_rules, self.ctx.rules);
        if l is Nil {
            Ok((self, GoalCases::Contradictory))
        } else {
            let base = self.clear_supply().next;
            match (Reduction { supply: self.clear_supply(), ..self }).candidate_cases(
                i,
                fa,
                l,
                system_max(self.sys),
                base,
                base,
            ) {
                Err(q) => Err(q),
                Ok(t) => Ok(
                    Reduction { supply: t.supply(), ..self }.cases_finished(
                        t.cases,
                        first_name(t.cases),
                    ),
                ),
            }
        }
    }

    fn solve_action_by_rules(&mut self, i: &LVar, fa: &Fact) -> (r: Answered<GoalCases>)
        ensures
            ends(old(self).action_by_rules(*i, *fa), *final(self), r),
    {
        let l = non_silent_rule_insts_with_constrs(&self.ctx.intruder_rules, &self.ctx.rules);
        if l.is_empty() {
            return Ok(GoalCases::Contradictory);
        }
        let avoid: u64 = bounds_max(&self.sys);
        self.supply.ensure_above(avoid);
        let base: u64 = self.supply.next;
        match self.try_candidates(i, fa, &l, avoid, base, base) {
            Err(q) => Err(q),
            Ok(t) => {
                self.supply = t.get_supply();
                let name = get_first_name(&t.cases);
                Ok(self.finish_goal_cases(t.cases, name))
            },
        }
    }

    /// The reduction after an action has been solved at a new node, without
    /// precomputed sources.
    pub open spec fn action_at_new_node(self, i: LVar, fa: Fact) -> Answered<(Self, GoalCases)> {
        match Reduction::known_sum(fa) {
            Some((m, args)) => {
                let cases = self.sum_cases(i, fa, m, partitions(args));
                if cases is Nil {
                    self.action_by_rules(i, fa)
                } else {
                    Ok(self.cases_finished(cases, first_name(cases)))
                }
            },
            None => self.action_by_rules(i, fa),
        }
    }

    fn solve_action_at_new_node(&mut self, i: &LVar, fa: &Fact) -> (r: Answered<GoalCases>)
        ensures
            ends(old(self).action_at_new_node(*i, *fa), *final(self), r),
    {
        match Reduction::get_known_sum(fa) {
            Some((m, args)) => {
                let cases = self.make_sum_cases(i, fa, &m, &two_partitions(&args));
                if !cases.is_empty() {
                    let name = get_first_name(&cases);
                    return Ok(self.finish_goal_cases(cases, name));
                }
            },
            None => {},
        }
        self.solve_action_by_rules(i, fa)
    }

    /// The reduction after an action has been solved.  At an existing node one
    /// of its actions has to be the goal's; else the precomputed sources are
    /// tried, and then a sum is taken apart or the rules are tried.
    pub open spec fn action_solved(self, i: LVar, fa: Fact) -> Answered<(Self, GoalCases)> {
        let g = Goal::Action(i, fa);
        match find(self.sys.nodes, i) {
            Some(ru) => if ru.actions.has(fa) {
                Ok((self.goal_done(g), GoalCases::LinearNamed(rule_case(ru))))
            } else {
                match self.existing_cases(g, fa, ru.actions, rule_case(ru)) {
                    Err(q) => Err(q),
                    Ok(cases) => Ok(self.cases_finished(cases, rule_case(ru))),
                }
            },
            None => match self.action_sources(i, fa) {
                Err(q) => Err(q),
                Ok(answer) => match answer.cases {
                    None => self.at(answer.next).action_at_new_node(i, fa),
                    Some(l) => if l is Nil {
                        Ok((self.at(answer.next), GoalCases::Contradictory))
                    } else {
                        match self.at(answer.next).action_source_cases(i, fa, l, 0) {
                            Err(q) => Err(q),
                            Ok(cases) => if cases is Nil {
                                self.at(answer.next).action_at_new_node(i, fa)
                            } else {
                                Ok(
                                    self.at(answer.next).cases_finished(
                                        cases,
                                        first_name(cases),
                                    ),
                                )
                            },
                        }
                    },
                },
            },
        }
    }

    /// Solves an action goal.
    pub fn solve_action_goal(&mut self, i: &LVar, fa: &Fact) -> (r: Answered<GoalCases>)
        ensures
            ends(old(self).action_solved(*i, *fa), *final(self), r),
    {
        let g = Goal::Action(i.dup(), fa.dup());
        match look_up(&self.sys.nodes, i) {
            Some(ru) => {
                let name = rule_case_text(&ru);
                if ru.actions.contains(fa) {
                    self.mark_goal_as_solved(&g);
                    return Ok(GoalCases::LinearNamed(name));
                }
                match self.try_existing(&g, fa, &ru.actions, &name) {
                    Err(q) => Err(q),
                    Ok(cases) => Ok(self.finish_goal_cases(cases, name)),
                }
            },
            None => {
                let answer = match self.get_action_sources(i, fa) {
                    Err(q) => {
                        return Err(q);
                    },
                    Ok(answer) => answer,
                };
                self.supply = Supply { next: answer.next };
                match answer.cases {
                    None => {},
                    Some(l) => {
                        if l.is_empty() {
                            return Ok(GoalCases::Contradictory);
                        }
                        match self.make_action_source_cases(i, fa, &l, 0) {
                            Err(q) => {
                                return Err(q);
                            },
                            Ok(cases) => {
                                if !cases.is_empty() {
                                    let name = get_first_name(&cases);
                                    return Ok(self.finish_goal_cases(cases, name));
                                }
                            },
                        }
                    },
                }
                self.solve_action_at_new_node(i, fa)
            },
        }
    }

    /// The precomputed cases of a premise goal that are kept: those in which no
    /// fresh value is consumed twice.
    pub open spec fn premise_source_cases(self, l: List<PremiseSourceCase>) -> Answered<List<Case>>
        decreases l,
    {
        match l {
            List::Nil => Ok(List::Nil),
            List::Cons(c, rest) => match fresh_conflated(self.ctx, c.sys) {
                Err(q) => Err(q),
                Ok(conflated) => match self.premise_source_cases(*rest) {
                    Err(q) => Err(q),
                    Ok(more) => Ok(
                        if conflated {
                            more
                        } else {
                            List::Cons(
                                Case {
                                    name: c.label,
                                    sys: with_source(c.sys, c.label),
                                    next: c.next,
                                },
                                Box::new(more),
                            )
                        },
                    ),
                },
            },
        }
    }

    fn make_premise_source_cases(&self, l: &List<PremiseSourceCase>) -> (r: Answered<List<Case>>)
        ensures
            r == self.premise_source_cases(*l),
        decreases l,
    {
        match l {
            List::Nil => Ok(List::Nil),
            List::Cons(c, rest) => {
                let conflated = match has_fresh_consumer_conflation(self.ctx, &c.sys) {
                    Err(q) => {
                        return Err(q);
                    },
                    Ok(conflated) => conflated,
                };
                match self.make_premise_source_cases(rest) {
                    Err(q) => Err(q),
                    Ok(more) => if conflated {
                        Ok(more)
                    } else {
                        let mut sys = c.sys.dup();
                        sys.used_sources = sys.used_sources.with_last(c.label.dup());
                        Ok(
                            List::Cons(
                                Case { name: c.label.dup(), sys, next: c.next },
                                Box::new(more),
                            ),
                        )
                    },
                }
            },
        }
    }

    /// The precomputed cases of a premise goal; none where sources do not apply.
    pub open spec fn premise_sources(self, p: NodePrem, fa: Fact) -> Answered<
        PremiseSourcesAnswer,
    > {
        if !self.ctx.in_precompute && self.ctx.has_sources {
            let q = PremiseSourcesQuery {
                sys: self.sys,
                premise: p,
                fact: fa,
                next: self.supply.next,
            };
            match find(self.ctx.answers.premise_sources, q) {
                None => Err(Query::PremiseSources(q)),
                Some(a) => Ok(a),
            }
        } else {
            Ok(PremiseSourcesAnswer { cases: None, next: self.supply.next })
        }
    }

    fn get_premise_sources(&self, p: &NodePrem, fa: &Fact) -> (r: Answered<
        PremiseSourcesAnswer,
    >)
        ensures
            r == self.premise_sources(*p, *fa),
    {
        if !self.ctx.in_precompute && self.ctx.has_sources {
            let q = PremiseSourcesQuery {
                sys: self.sys.dup(),
                premise: p.dup(),
                fact: fa.dup(),
                next: self.supply.next,
            };
            match look_up(&self.ctx.answers.premise_sources, &q) {
                None => Err(Query::PremiseSources(q)),
                Some(a) => Ok(a),
            }
        } else {
            Ok(PremiseSourcesAnswer { cases: None, next: self.supply.next })
        }
    }

    /// The cases of a premise goal after an edge to it: one for each system, in
    /// which the goal is solved and the substitution is applied.
    pub open spec fn supplied_cases(self, g: Goal, name: Text, l: List<System>) -> Answered<
        List<Case>,
    >
        decreases l,
    {
        match l {
            List::Nil => Ok(List::Nil),
            List::Cons(sys, rest) => match Reduction::inheriting(
                self.ctx,
                with_goal_solved(sys, g),
                self.supply.next,
            ).system_substituted() {
                Err(q) => Err(q),
                Ok(red) => match self.supplied_cases(g, name, *rest) {
                    Err(q) => Err(q),
                    Ok(more) => Ok(
                        List::Cons(
                            Case { name, sys: red.sys, next: red.supply.next },
                            Box::new(more),
                        ),
                    ),
                },
            },
        }
    }

    fn make_supplied_cases(&self, g: &Goal, name: &Text, l: &List<System>) -> (r: Answered<
        List<Case>,
    >)
        ensures
            r == self.supplied_cases(*g, *name, *l),
        decreases l,
    {
        match l {
            List::Nil => Ok(List::Nil),
            List::Cons(sys, rest) => {
                let mut arm = sys.dup();
                set_goal_solved(&mut arm, g);
                let mut sub = Reduction::new_inheriting(self.ctx, arm, self.supply.next);
                match sub.subst_system() {
                    Err(q) => {
                        return Err(q);
                    },
                    Ok(()) => {},
                }
                match self.make_supplied_cases(g, name, rest) {
                    Err(q) => Err(q),
                    Ok(more) => Ok(
                        List::Cons(
                            Case { name: name.dup(), sys: sub.sys, next: sub.supply.next },
                            Box::new(more),
                        ),
                    ),
                }
            },
        }
    }

    /// The cases in which one of the conclusions of `node`, from position `k`
    /// on, supplies the premise.
    pub open spec fn conclusion_cases(
        self,
        p: NodePrem,
        fa: Fact,
        name: Text,
        node: LVar,
        concs: List<Fact>,
        k: u64,
    ) -> Answered<List<Case>>
        decreases concs,
    {
        match concs {
            List::Nil => Ok(List::Nil),
            List::Cons(fc, rest) => {
                let here = if alike(fc, fa) {
                    match Reduction::inheriting(
                        self.ctx,
                        self.sys,
                        self.supply.next,
                    ).edge_inserted(Edge { src: (node, k), tgt: p }, Some(fc), Some(fa)) {
                        Err(q) => Err(q),
                        Ok((red, out)) => if out.dead() {
                            Ok(List::Nil)
                        } else {
                            red.supplied_cases(
                                Goal::Premise(p, fa),
                                name,
                                arm_systems(out, red.sys),
                            )
                        },
                    }
                } else {
                    Ok(List::Nil)
                };
                match here {
                    Err(q) => Err(q),
                    Ok(cases) => match self.conclusion_cases(
                        p,
                        fa,
                        name,
                        node,
                        *rest,
                        plus(k, 1),
                    ) {
                        Err(q) => Err(q),
                        Ok(more) => Ok(cases.then_all(more)),
                    },
                }
            },
        }
    }

    fn try_conclusion(&self, p: &NodePrem, fa: &Fact, name: &Text, node: &LVar, fc: &Fact, k: u64) -> (r:
        Answered<List<Case>>)
        ensures
            r == (match Reduction::inheriting(
                self.ctx,
                self.sys,
                self.supply.next,
            ).edge_inserted(Edge { src: (*node, k), tgt: *p }, Some(*fc), Some(*fa)) {
                Err(q) => Err(q),
                Ok((red, out)) => if out.dead() {
                    Ok(List::Nil)
                } else {
                    red.supplied_cases(Goal::Premise(*p, *fa), *name, arm_systems(out, red.sys))
                },
            }),
    {
        let mut sub = Reduction::new_inheriting(self.ctx, self.sys.dup(), self.supply.next);
        let e = Edge { src: (node.dup(), k), tgt: p.dup() };
        match sub.insert_edge_labeled_with_facts(e, fc, fa) {
            Err(q) => Err(q),
            Ok(out) => if out.is_dead() {
                Ok(List::Nil)
            } else {
                let systems = fanout_arm_systems(out, sub.sys.dup());
                sub.make_supplied_cases(&Goal::Premise(p.dup(), fa.dup()), name, &systems)
            },
        }
    }

    fn try_conclusions(
        &self,
        p: &NodePrem,
        fa: &Fact,
        name: &Text,
        node: &LVar,
        concs: &List<Fact>,
        k: u64,
    ) -> (r: Answered<List<Case>>)
        ensures
            r == self.conclusion_cases(*p, *fa, *name, *node, *concs, k),
        decreases concs,
    {
        match concs {
            List::Nil => Ok(List::Nil),
            List::Cons(fc, rest) => {
                let cases = if are_alike(fc, fa) {
                    match self.try_conclusion(p, fa, name, node, fc, k) {
                        Err(q) => {
                            return Err(q);
                        },
                        Ok(cases) => cases,
                    }
                } else {
                    List::Nil
                };
                match self.try_conclusions(p, fa, name, node, rest, k.saturating_add(1)) {
                    Err(q) => Err(q),
                    Ok(more) => Ok(cases.concat(more)),
                }
            },
        }
    }

    /// The cases in which a new node with the rule instance supplies the
    /// premise.
    pub open spec fn supplier_cases(
        self,
        p: NodePrem,
        fa: Fact,
        node: LVar,
        ru: RuleWithConstrs,
        next: u64,
    ) -> Answered<List<Case>> {
        match Reduction::inheriting(
            self.ctx,
            self.sys.with_node(node, ru.0),
            next,
        ).variants_required(ru.1) {
            Err(q) => Err(q),
            Ok((red, _)) => match red.rule_exploited(node, ru.0) {
                Err(q) => Err(q),
                Ok(ready) => ready.conclusion_cases(
                    p,
                    fa,
                    rule_case(ru.0),
                    node,
                    ru.0.conclusions,
                    0,
                ),
            },
        }
    }

    fn try_supplier(
        &self,
        p: &NodePrem,
        fa: &Fact,
        node: &LVar,
        ru: RuleWithConstrs,
        next: u64,
    ) -> (r: Answered<List<Case>>)
        ensures
            r == self.supplier_cases(*p, *fa, *node, ru, next),
    {
        let (renamed, constrs) = ru;
        let mut sys = self.sys.dup();
        sys.add_node(node.dup(), renamed.dup());
        let mut sub = Reduction::new_inheriting(self.ctx, sys, next);
        match sub.solve_rule_constraints(constrs) {
            Err(q) => {
                return Err(q);
            },
            Ok(_) => {},
        }
        match sub.exploit_prems(node, &renamed) {
            Err(q) => {
                return Err(q);
            },
            Ok(()) => {},
        }
        sub.try_conclusions(p, fa, &rule_case_text(&renamed), node, &renamed.conclusions, 0)
    }

    /// The cases in which one of the rules supplies the premise, at the node
    /// `node`.
    pub open spec fn premise_candidate_cases(
        self,
        p: NodePrem,
        fa: Fact,
        node: LVar,
        l: List<RuleWithConstrs>,
        avoid: u64,
        base: u64,
        last: u64,
    ) -> Answered<Tried>
        decreases l,
    {
        match l {
            List::Nil => Ok(Tried { cases: List::Nil, last, high: base }),
            List::Cons(ru, rest) => if any_alike(ru.0.conclusions, fa) {
                let fresh = freshened(ru, avoid, Supply { next: base });
                match self.supplier_cases(p, fa, node, fresh.0, fresh.1.next) {
                    Err(q) => Err(q),
                    Ok(cases) => match self.premise_candidate_cases(
                        p,
                        fa,
                        node,
                        *rest,
                        avoid,
                        base,
                        fresh.1.next,
                    ) {
                        Err(q) => Err(q),
                        Ok(more) => Ok(
                            Tried {
                                cases: cases.then_all(more.cases),
                                last: more.last,
                                high: larger(fresh.1.next, more.high),
                            },
                        ),
                    },
                }
            } else {
                self.premise_candidate_cases(p, fa, node, *rest, avoid, base, last)
            },
        }
    }

    fn try_premise_candidates(
        &self,
        p: &NodePrem,
        fa: &Fact,
        node: &LVar,
        l: &List<RuleWithConstrs>,
        avoid: u64,
        base: u64,
        last: u64,
    ) -> (r: Answered<Tried>)
        ensures
            r == self.premise_candidate_cases(*p, *fa, *node, *l, avoid, base, last),
        decreases l,
    {
        match l {
            List::Nil => Ok(Tried { cases: List::Nil, last, high: base }),
            List::Cons(ru, rest) => if is_any_alike(&ru.0.conclusions, fa) {
                let mut supply = Supply { next: base };
                let fresh = freshen_rule_with_constrs(ru.dup(), avoid, &mut supply);
                let cases = match self.try_supplier(p, fa, node, fresh, supply.next) {
                    Err(q) => {
                        return Err(q);
                    },
                    Ok(cases) => cases,
                };
                match self.try_premise_candidates(
                    p,
                    fa,
                    node,
                    rest,
                    avoid,
                    base,
                    supply.next,
                ) {
                    Err(q) => Err(q),
                    Ok(more) => {
                        let high: u64 = max_of(supply.next, more.high);
                        Ok(Tried { cases: cases.concat(more.cases), last: more.last, high })
                    },
                }
            } else {
                self.try_premise_candidates(p, fa, node, rest, avoid, base, last)
            },
        }
    }

    /// The reduction after a premise has been solved by the rules.
    pub open spec fn premise_by_rules(self, p: NodePrem, fa: Fact) -> Answered<(Self, GoalCases)> {
        let node = node_var("vr"@, self.clear_supply().next);
        let supply = self.clear_supply().taken(1);
        let base = supply.next;
        match (Reduction { supply, ..self }).premise_candidate_cases(
            p,
            fa,
            node,
            premise_candidates(self.ctx.intruder_rules, self.ctx.rules),
            system_max(self.sys),
            base,
            base,
        ) {
            Err(q) => Err(q),
            Ok(t) => Ok(
                Reduction { supply: t.supply(), ..self }.cases_finished(
                    t.cases,
                    first_name(t.cases),
                ),
            ),
        }
    }

    fn solve_premise_by_rules(&mut self, p: &NodePrem, fa: &Fact) -> (r: Answered<GoalCases>)
        ensures
            ends(old(self).premise_by_rules(*p, *fa), *final(self), r),
    {
        let l = premise_solving_rule_insts_with_constrs(
            &self.ctx.intruder_rules,
            &self.ctx.rules,
        );
        let avoid: u64 = bounds_max(&self.sys);
        let vr: u64 = self.next_fresh_node_idx();
        let base: u64 = self.supply.next;
        let node = make_node_var("vr", vr);
        match self.try_premise_candidates(p, fa, &node, &l, avoid, base, base) {
            Err(q) => Err(q),
            Ok(t) => {
                self.supply = t.get_supply();
                let name = get_first_name(&t.cases);
                Ok(self.finish_goal_cases(t.cases, name))
            },
        }
    }

    /// The reduction after a premise that is no deconstructed knowledge has
    /// been solved: by the precomputed sources, else by the rules.
    pub open spec fn plain_premise_solved(self, p: NodePrem, fa: Fact) -> Answered<
        (Self, GoalCases),
    > {
        match self.premise_sources(p, fa) {
            Err(q) => Err(q),
            Ok(answer) => match answer.cases {
                None => self.at(answer.next).premise_by_rules(p, fa),
                Some(l) => match self.at(answer.next).premise_source_cases(l) {
                    Err(q) => Err(q),
                    Ok(cases) => if cases is Nil {
                        self.at(answer.next).premise_by_rules(p, fa)
                    } else {
                        Ok(self.at(answer.next).cases_finished(cases, first_name(cases)))
                    },
                },
            },
        }
    }

    fn solve_plain_premise(&mut self, p: &NodePrem, fa: &Fact) -> (r: Answered<GoalCases>)
        ensures
            ends(old(self).plain_premise_solved(*p, *fa), *final(self), r),
    {
        let answer = match self.get_premise_sources(p, fa) {
            Err(q) => {
                return Err(q);
            },
            Ok(answer) => answer,
        };
        self.supply = Supply { next: answer.next };
        match answer.cases {
            None => {},
            Some(l) => match self.make_premise_source_cases(&l) {
                Err(q) => {
                    return Err(q);
                },
                Ok(cases) => {
                    if !cases.is_empty() {
                        let name = get_first_name(&cases);
                        return Ok(self.finish_goal_cases(cases, name));
                    }
                },
            },
        }
        self.solve_premise_by_rules(p, fa)
    }

    /// The rule by which the intruder receives a message.
    pub open spec fn irecv_rule(m: Term) -> RuleACInst {
        RuleACInst::of(
            RuleInfo::Intr(IntrRuleACInfo::IRecv),
            List::one(Fact::plain(FactTag::Out, List::one(m))),
            List::one(Fact::plain(FactTag::Kd, List::one(m))),
            List::Nil,
        )
    }

    /// The message that the intruder receives at a new node.
    pub open spec fn learned(self) -> Term {
        Term::Var(
            LVar {
                name: text_of("t"@),
                sort: LSort::Msg,
                idx: self.clear_supply().taken(1).next,
            },
        )
    }

    /// The reduction in which the intruder receives a message at a new node,
    /// from which a chain leads to the premise.
    pub open spec fn chain_started(self, p: NodePrem, fa: Fact) -> Self {
        let node = node_var("vl"@, self.clear_supply().next);
        Reduction { supply: self.clear_supply().taken(1).taken(1), ..self }.on(
            self.sys.with_node(node, Reduction::irecv_rule(self.learned())),
        ).goal_inserted(Goal::Chain((node, 0), p), false).goal_done(
            Goal::Premise(p, fa),
        ).touched()
    }

    fn start_chain(&mut self, p: &NodePrem, fa: &Fact) -> (r: (LVar, Term))
        ensures
            *final(self) == old(self).chain_started(*p, *fa),
            r.0 == node_var("vl"@, old(self).clear_supply().next),
            r.1 == old(self).learned(),
    {
        let vl: u64 = self.next_fresh_node_idx();
        let t: u64 = self.supply.fresh_idx();
        let node = make_node_var("vl", vl);
        let m = Term::Var(LVar { name: Text::new("t"), sort: LSort::Msg, idx: t });
        let ru = RuleACInst::new(
            RuleInfo::Intr(IntrRuleACInfo::IRecv),
            List::single(out_fact(m.dup())),
            List::single(kd_fact(m.dup())),
            List::Nil,
        );
        self.sys.add_node(node.dup(), ru);
        self.insert_goal(Goal::Chain((node.dup(), 0), p.dup()));
        self.mark_goal_as_solved(&Goal::Premise(p.dup(), fa.dup()));
        self.changed = ChangeIndicator::Changed;
        (node, m)
    }

    /// The reduction after a premise has been solved.  What the intruder has
    /// taken apart comes by a chain from a message that it received, which is
    /// the premise to solve then.
    pub open spec fn premise_solved(self, p: NodePrem, fa: Fact) -> Answered<(Self, GoalCases)> {
        if fa.tag is Kd {
            if fa.terms is Nil {
                Ok((self, GoalCases::Contradictory))
            } else {
                let node = node_var("vl"@, self.clear_supply().next);
                self.chain_started(p, fa).plain_premise_solved(
                    (node, 0),
                    Fact::plain(FactTag::Out, List::one(self.learned())),
                )
            }
        } else {
            self.plain_premise_solved(p, fa)
        }
    }

    /// Solves a premise goal.
    pub fn solve_premise_goal(&mut self, p: &NodePrem, fa_prem: &Fact) -> (r: Answered<GoalCases>)
        ensures
            ends(old(self).premise_solved(*p, *fa_prem), *final(self), r),
    {
        match &fa_prem.tag {
            FactTag::Kd => {
                if fa_prem.terms.is_empty() {
                    return Ok(GoalCases::Contradictory);
                }
                let (node, m) = self.start_chain(p, fa_prem);
                self.solve_plain_premise(&(node, 0), &out_fact(m))
            },
            _ => self.solve_plain_premise(p, fa_prem),
        }
    }

    /// The cases of a chain that goes on from `node`: one for each system, with
    /// the rest of the chain as a goal.
    pub open spec fn extended_cases(
        self,
        g: Goal,
        p: NodePrem,
        node: LVar,
        prem: Fact,
        name: Text,
        l: List<System>,
    ) -> List<Case>
        decreases l,
    {
        match l {
            List::Nil => List::Nil,
            List::Cons(sys, rest) => {
                let red = Reduction::inheriting(self.ctx, sys, self.supply.next).goal_done(
                    Goal::Premise((node, 0), prem),
                ).goal_inserted(Goal::Chain((node, 0), p), false);
                List::Cons(
                    Case { name, sys: with_goal_solved(red.sys, g), next: red.supply.next },
                    Box::new(self.extended_cases(g, p, node, prem, name, *rest)),
                )
            },
        }
    }

    fn make_extended_cases(
        &self,
        g: &Goal,
        p: &NodePrem,
        node: &LVar,
        prem: &Fact,
        name: &Text,
        l: &List<System>,
    ) -> (r: List<Case>)
        ensures
            r == self.extended_cases(*g, *p, *node, *prem, *name, *l),
        decreases l,
    {
        match l {
            List::Nil => List::Nil,
            List::Cons(sys, rest) => {
                let mut sub = Reduction::new_inheriting(self.ctx, sys.dup(), self.supply.next);
                sub.mark_goal_as_solved(&Goal::Premise((node.dup(), 0), prem.dup()));
                sub.insert_goal(Goal::Chain((node.dup(), 0), p.dup()));
                set_goal_solved(&mut sub.sys, g);
                List::Cons(
                    Case { name: name.dup(), sys: sub.sys, next: sub.supply.next },
                    Box::new(self.make_extended_cases(g, p, node, prem, name, rest)),
                )
            },
        }
    }

    /// The cases in which the chain goes on through `node`, which is in the
    /// system already and has the premise `prem` first.
    pub open spec fn step_cases(
        self,
        c: NodeConc,
        p: NodePrem,
        node: LVar,
        prem: Fact,
        name: Text,
    ) -> Answered<List<Case>> {
        let e = Edge { src: c, tgt: (node, 0) };
        match self.edge_inserted(e, self.source_fact(e), self.target_fact(e)) {
            Err(q) => Err(q),
            Ok((red, out)) => Ok(
                if out.dead() {
                    List::Nil
                } else {
                    red.extended_cases(
                        Goal::Chain(c, p),
                        p,
                        node,
                        prem,
                        name,
                        arm_systems(out, red.sys),
                    )
                },
            ),
        }
    }

    fn take_step(&mut self, c: &NodeConc, p: &NodePrem, node: &LVar, prem: &Fact, name: &Text) -> (r:
        Answered<List<Case>>)
        ensures
            r == old(self).step_cases(*c, *p, *node, *prem, *name),
    {
        match self.insert_edge_labeled(Edge { src: c.dup(), tgt: (node.dup(), 0) }) {
            Err(q) => Err(q),
            Ok(out) => if out.is_dead() {
                Ok(List::Nil)
            } else {
                let systems = fanout_arm_systems(out, self.sys.dup());
                let g = Goal::Chain(c.dup(), p.dup());
                Ok(self.make_extended_cases(&g, p, node, prem, name, &systems))
            },
        }
    }

    /// The cases in which the chain ends: the conclusion is the premise.
    pub open spec fn direct_cases(
        self,
        c: NodeConc,
        p: NodePrem,
        c_rule: RuleACInst,
        fa: Fact,
    ) -> Answered<
        List<Case>,
    > {
        match find(self.sys.nodes, p.0) {
            None => Ok(List::Nil),
            Some(p_rule) => if p_rule.premises.nth(p.1 as nat) is None || edge_forbidden(
                c_rule,
                p_rule,
            ) || coerce_illegal(p_rule, fa) {
                Ok(List::Nil)
            } else {
                let e = Edge { src: c, tgt: p };
                let start = Reduction::inheriting(self.ctx, self.sys, self.supply.next);
                match start.edge_inserted(e, start.source_fact(e), start.target_fact(e)) {
                    Err(q) => Err(q),
                    Ok((red, out)) => Ok(
                        if out.dead() {
                            List::Nil
                        } else {
                            ended_cases(
                                match chain_direct(fa) {
                                    Some(name) => name,
                                    None => rule_case(c_rule),
                                },
                                Goal::Chain(c, p),
                                arm_systems(out, red.sys),
                                red.supply.next,
                            )
                        },
                    ),
                }
            },
        }
    }

    fn try_direct(&self, c: &NodeConc, p: &NodePrem, c_rule: &RuleACInst, fa: &Fact) -> (r: Answered<
        List<Case>,
    >)
        ensures
            r == self.direct_cases(*c, *p, *c_rule, *fa),
    {
        let p_rule = match look_up(&self.sys.nodes, &p.0) {
            None => {
                return Ok(List::Nil);
            },
            Some(p_rule) => p_rule,
        };
        let has_premise = match p_rule.premises.get(p.1) {
            Some(_) => true,
            None => false,
        };
        if !has_premise || forbidden_edge(c_rule, &p_rule) || illegal_coerce(&p_rule, fa) {
            return Ok(List::Nil);
        }
        let mut sub = Reduction::new_inheriting(self.ctx, self.sys.dup(), self.supply.next);
        match sub.insert_edge_labeled(Edge { src: c.dup(), tgt: p.dup() }) {
            Err(q) => Err(q),
            Ok(out) => if out.is_dead() {
                Ok(List::Nil)
            } else {
                let name = match chain_direct_text(fa) {
                    Some(name) => name,
                    None => rule_case_text(c_rule),
                };
                let systems = fanout_arm_systems(out, sub.sys.dup());
                Ok(
                    make_ended_cases(
                        &name,
                        &Goal::Chain(c.dup(), p.dup()),
                        &systems,
                        sub.supply.next,
                    ),
                )
            },
        }
    }

    /// The rule that takes the operand `t` out of a union.
    pub open spec fn union_rule(union: Term, t: Term) -> RuleACInst {
        RuleACInst::of(
            RuleInfo::Intr(IntrRuleACInfo::DestrRule(text_of("_union"@), 0, true, false)),
            List::one(Fact::plain(FactTag::Kd, List::one(union))),
            List::one(Fact::plain(FactTag::Kd, List::one(t))),
            List::Nil,
        )
    }

    /// The cases in which the chain goes on from one of the operands of a union.
    pub open spec fn union_cases(
        self,
        c: NodeConc,
        p: NodePrem,
        node: LVar,
        union: Term,
        args: List<Term>,
    ) -> Answered<List<Case>>
        decreases args,
    {
        match args {
            List::Nil => Ok(List::Nil),
            List::Cons(t, rest) => {
                let ru = Reduction::union_rule(union, t);
                match Reduction::inheriting(
                    self.ctx,
                    self.sys.with_node(node, ru),
                    self.supply.next,
                ).step_cases(
                    c,
                    p,
                    node,
                    Fact::plain(FactTag::Kd, List::one(union)),
                    rule_case(ru),
                ) {
                    Err(q) => Err(q),
                    Ok(cases) => match self.union_cases(c, p, node, union, *rest) {
                        Err(q) => Err(q),
                        Ok(more) => Ok(cases.then_all(more)),
                    },
                }
            },
        }
    }

    fn try_union(&self, c: &NodeConc, p: &NodePrem, node: &LVar, union: &Term, args: &List<Term>) -> (r:
        Answered<List<Case>>)
        ensures
            r == self.union_cases(*c, *p, *node, *union, *args),
        decreases args,
    {
        match args {
            List::Nil => Ok(List::Nil),
            List::Cons(t, rest) => {
                let prem = kd_fact(union.dup());
                let ru = RuleACInst::new(
                    RuleInfo::Intr(
                        IntrRuleACInfo::DestrRule(Text::new("_union"), 0, true, false),
                    ),
                    List::single(prem.dup()),
                    List::single(kd_fact(t.dup())),
                    List::Nil,
                );
                let name = rule_case_text(&ru);
                let mut sys = self.sys.dup();
                sys.add_node(node.dup(), ru);
                let mut sub = Reduction::new_inheriting(self.ctx, sys, self.supply.next);
                let cases = match sub.take_step(c, p, node, &prem, &name) {
                    Err(q) => {
                        return Err(q);
                    },
                    Ok(cases) => cases,
                };
                match self.try_union(c, p, node, union, rest) {
                    Err(q) => Err(q),
                    Ok(more) => Ok(cases.concat(more)),
                }
            },
        }
    }

    /// The destruction rule with which a chain goes on after `c_rule`: one that
    /// follows itself has one application less left.
    pub open spec fn budgeted(c_rule: RuleACInst, ru: RuleACInst) -> RuleACInst {
        if rule_name(c_rule).chars !is Nil && rule_name(c_rule) == rule_name(ru) && remaining(
            c_rule,
        ) > 1 {
            with_remaining(ru, (remaining(c_rule) - 1) as i64)
        } else {
            ru
        }
    }

    fn apply_budget(c_rule: &RuleACInst, ru: RuleACInst) -> (r: RuleACInst)
        ensures
            r == Reduction::budgeted(*c_rule, ru),
    {
        let cn = rule_name_text(c_rule);
        let left: i64 = get_remaining_rule_applications(c_rule);
        if !cn.chars.is_empty() && cn.same(&rule_name_text(&ru)) && left > 1 {
            set_remaining_rule_applications(ru, left - 1)
        } else {
            ru
        }
    }

    /// The cases in which the chain goes on through the instance `ru` of a
    /// destruction rule.
    pub open spec fn destruction_cases(
        self,
        c: NodeConc,
        p: NodePrem,
        c_rule: RuleACInst,
        fa: Fact,
        node: LVar,
        ru: RuleACInst,
        next: u64,
    ) -> Answered<List<Case>> {
        match ru.premises {
            List::Nil => Ok(List::Nil),
            List::Cons(prem, _) => if !alike(prem, fa) || edge_forbidden(c_rule, ru)
                || ru.conclusions is Nil {
                Ok(List::Nil)
            } else {
                match Reduction::inheriting(
                    self.ctx,
                    self.sys.with_node(node, ru),
                    next,
                ).rule_exploited(node, ru) {
                    Err(q) => Err(q),
                    Ok(red) => if red.sys.eq_store.contradictory {
                        Ok(List::Nil)
                    } else {
                        red.step_cases(c, p, node, prem, rule_case(ru))
                    },
                }
            },
        }
    }

    fn try_destruction(
        &self,
        c: &NodeConc,
        p: &NodePrem,
        c_rule: &RuleACInst,
        fa: &Fact,
        node: &LVar,
        ru: &RuleACInst,
        next: u64,
    ) -> (r: Answered<List<Case>>)
        ensures
            r == self.destruction_cases(*c, *p, *c_rule, *fa, *node, *ru, next),
    {
        let prem = match &ru.premises {
            List::Nil => {
                return Ok(List::Nil);
            },
            List::Cons(prem, _) => prem,
        };
        if !are_alike(prem, fa) || forbidden_edge(c_rule, ru) || ru.conclusions.is_empty() {
            return Ok(List::Nil);
        }
        let mut sys = self.sys.dup();
        sys.add_node(node.dup(), ru.dup());
        let mut sub = Reduction::new_inheriting(self.ctx, sys, next);
        match sub.exploit_prems(node, ru) {
            Err(q) => {
                return Err(q);
            },
            Ok(()) => {},
        }
        if sub.sys.eq_store.is_false() {
            return Ok(List::Nil);
        }
        sub.take_step(c, p, node, prem, &rule_case_text(ru))
    }

    /// The cases in which the chain goes on through one of the destruction
    /// rules.
    pub open spec fn all_destruction_cases(
        self,
        c: NodeConc,
        p: NodePrem,
        c_rule: RuleACInst,
        fa: Fact,
        node: LVar,
        l: List<IntrRuleAC>,
        base: u64,
        last: u64,
    ) -> Answered<Tried>
        decreases l,
    {
        match l {
            List::Nil => Ok(Tried { cases: List::Nil, last, high: base }),
            List::Cons(ir, rest) => if class_of(ir.info) == IntrClass::Destruction {
                let fresh = freshened(
                    (intr_instance(ir), None),
                    system_max(self.sys),
                    Supply { next: base },
                );
                let ru = Reduction::budgeted(c_rule, fresh.0.0);
                match self.destruction_cases(c, p, c_rule, fa, node, ru, fresh.1.next) {
                    Err(q) => Err(q),
                    Ok(cases) => match self.all_destruction_cases(
                        c,
                        p,
                        c_rule,
                        fa,
                        node,
                        *rest,
                        base,
                        fresh.1.next,
                    ) {
                        Err(q) => Err(q),
                        Ok(more) => Ok(
                            Tried {
                                cases: cases.then_all(more.cases),
                                last: more.last,
                                high: larger(fresh.1.next, more.high),
                            },
                        ),
                    },
                }
            } else {
                self.all_destruction_cases(c, p, c_rule, fa, node, *rest, base, last)
            },
        }
    }

    fn try_destructions(
        &self,
        c: &NodeConc,
        p: &NodePrem,
        c_rule: &RuleACInst,
        fa: &Fact,
        node: &LVar,
        l: &List<IntrRuleAC>,
        base: u64,
        last: u64,
    ) -> (r: Answered<Tried>)
        ensures
            r == self.all_destruction_cases(*c, *p, *c_rule, *fa, *node, *l, base, last),
        decreases l,
    {
        match l {
            List::Nil => Ok(Tried { cases: List::Nil, last, high: base }),
            List::Cons(ir, rest) => if is_destr_rule_info(&ir.info) {
                let mut supply = Supply { next: base };
                let avoid: u64 = bounds_max(&self.sys);
                let inst = intr_rule_to_rule_ac_inst(ir.dup());
                let fresh = freshen_rule(inst, avoid, &mut supply);
                let ru = Reduction::apply_budget(c_rule, fresh);
                let cases = match self.try_destruction(
                    c,
                    p,
                    c_rule,
                    fa,
                    node,
                    &ru,
                    supply.next,
                ) {
                    Err(q) => {
                        return Err(q);
                    },
                    Ok(cases) => cases,
                };
                match self.try_destructions(c, p, c_rule, fa, node, rest, base, supply.next) {
                    Err(q) => Err(q),
                    Ok(more) => {
                        let high: u64 = max_of(supply.next, more.high);
                        Ok(Tried { cases: cases.concat(more.cases), last: more.last, high })
                    },
                }
            } else {
                self.try_destructions(c, p, c_rule, fa, node, rest, base, last)
            },
        }
    }

    /// The union that a chain has reached, with at least two operands.
    pub open spec fn reached_union(fa: Fact) -> Option<(Term, List<Term>)> {
        match first_term(fa) {
            Some(t) => match t {
                Term::App(FunSym::Ac(AcSym::Union), args) => match *args {
                    List::Cons(_, rest) => if *rest is Nil {
                        None
                    } else {
                        Some((t, *args))
                    },
                    List::Nil => None,
                },
                _ => None,
            },
            None => None,
        }
    }

    fn get_reached_union(fa: &Fact) -> (r: Option<(Term, List<Term>)>)
        ensures
            r == Reduction::reached_union(*fa),
    {
        match get_first_term(fa) {
            Some(t) => match &t {
                Term::App(FunSym::Ac(AcSym::Union), args) => match &**args {
                    List::Cons(_, rest) => if rest.is_empty() {
                        None
                    } else {
                        Some((t.dup(), args.dup()))
                    },
                    List::Nil => None,
                },
                _ => None,
            },
            None => None,
        }
    }

    /// Whether a chain has reached a message variable, at which it cannot go on.
    pub open spec fn reached_variable(fa: Fact) -> bool {
        match first_term(fa) {
            Some(t) => var_of_sort(t, LSort::Msg),
            None => false,
        }
    }

    /// The cases in which the chain goes on from the conclusion `fa`, and the
    /// supply thereafter: from the operands of a union, and through the
    /// destruction rules from any other term but a message variable.
    pub open spec fn onward_cases(
        self,
        c: NodeConc,
        p: NodePrem,
        c_rule: RuleACInst,
        fa: Fact,
    ) -> Answered<
        (List<Case>, Supply),
    > {
        let node = node_var("vr"@, self.clear_supply().next);
        let supply = self.clear_supply().taken(1);
        match Reduction::reached_union(fa) {
            Some((union, args)) => match (Reduction { supply, ..self }).union_cases(
                c,
                p,
                node,
                union,
                args,
            ) {
                Err(q) => Err(q),
                Ok(cases) => Ok((cases, supply)),
            },
            None => if Reduction::reached_variable(fa) {
                Ok((List::Nil, self.supply))
            } else {
                match (Reduction { supply, ..self }).all_destruction_cases(
                    c,
                    p,
                    c_rule,
                    fa,
                    node,
                    self.ctx.intruder_rules,
                    supply.next,
                    supply.next,
                ) {
                    Err(q) => Err(q),
                    Ok(t) => Ok((t.cases, t.supply())),
                }
            },
        }
    }

    fn try_onward(&mut self, c: &NodeConc, p: &NodePrem, c_rule: &RuleACInst, fa: &Fact) -> (r:
        Answered<List<Case>>)
        ensures
            match old(self).onward_cases(*c, *p, *c_rule, *fa) {
                Err(q) => r == Err::<List<Case>, Query>(q),
                Ok((cases, supply)) => r == Ok::<List<Case>, Query>(cases) && *final(self) == (
                Reduction { supply, ..*old(self) }),
            },
    {
        match Reduction::get_reached_union(fa) {
            Some((union, args)) => {
                let vr: u64 = self.next_fresh_node_idx();
                self.try_union(c, p, &make_node_var("vr", vr), &union, &args)
            },
            None => {
                let stuck = match get_first_term(fa) {
                    Some(t) => is_var_of_sort(&t, LSort::Msg),
                    None => false,
                };
                if stuck {
                    return Ok(List::Nil);
                }
                let vr: u64 = self.next_fresh_node_idx();
                let base: u64 = self.supply.next;
                match self.try_destructions(
                    c,
                    p,
                    c_rule,
                    fa,
                    &make_node_var("vr", vr),
                    &self.ctx.intruder_rules,
                    base,
                    base,
                ) {
                    Err(q) => Err(q),
                    Ok(t) => {
                        self.supply = t.get_supply();
                        Ok(t.cases)
                    },
                }
            },
        }
    }

    /// The reduction after a chain has been solved: it ends at the premise, or
    /// goes on for a step.
    pub open spec fn chain_solved(self, c: NodeConc, p: NodePrem) -> Answered<(Self, GoalCases)> {
        match find(self.sys.nodes, c.0) {
            None => Ok((self, GoalCases::Contradictory)),
            Some(c_rule) => match c_rule.conclusions.nth(c.1 as nat) {
                None => Ok((self, GoalCases::Contradictory)),
                Some(fa) => match self.direct_cases(c, p, c_rule, fa) {
                    Err(q) => Err(q),
                    Ok(direct) => match self.onward_cases(c, p, c_rule, fa) {
                        Err(q) => Err(q),
                        Ok((onward, supply)) => {
                            let cases = direct.then_all(onward);
                            Ok(
                                Reduction { supply, ..self }.cases_finished(
                                    cases,
                                    first_name(cases),
                                ),
                            )
                        },
                    },
                },
            },
        }
    }

    /// Solves a chain goal.
    pub fn solve_chain_goal(&mut self, c: &NodeConc, p: &NodePrem) -> (r: Answered<GoalCases>)
        ensures
            ends(old(self).chain_solved(*c, *p), *final(self), r),
    {
        let c_rule = match look_up(&self.sys.nodes, &c.0) {
            None => {
                return Ok(GoalCases::Contradictory);
            },
            Some(c_rule) => c_rule,
        };
        let fa = match c_rule.conclusions.get(c.1) {
            None => {
                return Ok(GoalCases::Contradictory);
            },
            Some(fa) => fa,
        };
        let direct = match self.try_direct(c, p, &c_rule, &fa) {
            Err(q) => {
                return Err(q);
            },
            Ok(direct) => direct,
        };
        let onward = match self.try_onward(c, p, &c_rule, &fa) {
            Err(q) => {
                return Err(q);
            },
            Ok(onward) => onward,
        };
        let cases = direct.concat(onward);
        let name = get_first_name(&cases);
        Ok(self.finish_goal_cases(cases, name))
    }
}

/// Cases of the same name, one for each system, in which `g` is solved.
pub open spec fn ended_cases(name: Text, g: Goal, l: List<System>, next: u64) -> List<Case>
    decreases l,
{
    match l {
        List::Nil => List::Nil,
        List::Cons(sys, rest) => List::Cons(
            Case { name, sys: with_goal_solved(sys, g), next },
            Box::new(ended_cases(name, g, *rest, next)),
        ),
    }
}

fn make_ended_cases(name: &Text, g: &Goal, l: &List<System>, next: u64) -> (r: List<Case>)
    ensures
        r == ended_cases(*name, *g, *l, next),
    decreases l,
{
    match l {
        List::Nil => List::Nil,
        List::Cons(sys, rest) => {
            let mut arm = sys.dup();
            set_goal_solved(&mut arm, g);
            List::Cons(
                Case { name: name.dup(), sys: arm, next },
                Box::new(make_ended_cases(name, g, rest, next)),
            )
        },
    }
}

} // verus!
