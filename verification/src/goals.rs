//! Solving goals: supplying premises, and the goals that split a system
//! without choosing a rule.
use crate::bounds::{bounds_max, system_max};
use crate::constraints::{
    Edge,
    EquationStore,
    Goal,
    LessAtom,
    Reason,
    SubtermConstraint,
    SubtermStore,
};
use crate::context::{Answered, Query};
use crate::equations::{perform_split, simp_store, simplified, split_stores};
use crate::facts::{Fact, FactTag, RuleACInst, RuleInfo};
use crate::formulas::{goal_solved, solve_goal_entry};
use crate::guarded::{normal, GAtom, Guarded};
use crate::leaves::{minus, plus};
use crate::list::{List, Value};
use crate::names::{cat, decimal, numbered_case, numbered_case_text, prefixed, to_decimal};
use crate::reduction::{
    ends, first_term, get_first_term, make_node_var, node_var, ChangeIndicator, Reduction,
    SolveOutcome, SplitStrategy,
};
use crate::rules::{fresh_rule, isend_rule, make_fresh_rule, make_isend_rule, Supply};
use crate::subterms::{
    ac_with_var, close_guarded_ex_eq, make_ac_with_var, make_split_var, some_equal, split_draws,
    split_subterm_single, split_var, splits, SubtermSplit,
};
use crate::system::System;
use crate::term_ops::{after, next_after};
use crate::terms::{AcSym, LSort, LVar, NameTag, Term};
use crate::text::{text_of, Text};
use vstd::prelude::*;

verus! {

/// What becomes of a reduction when a goal is solved.
#[derive(Debug, PartialEq, Eq)]
pub enum GoalCases {
    /// The reduction goes on.
    Linear,
    /// The reduction goes on, in the only case, which has a name.
    LinearNamed(Text),
    /// Several cases, each with its name.
    Cases(List<(Text, System)>),
    /// No case.
    Contradictory,
}

/// A case: its name, its system, and the state of its supply.
#[derive(Debug, PartialEq, Eq)]
pub struct Case {
    pub name: Text,
    pub sys: System,
    pub next: u64,
}

impl Value for Case {
    fn dup(&self) -> (copy: Self) {
        Case { name: self.name.dup(), sys: self.sys.dup(), next: self.next }
    }

    fn same(&self, other: &Self) -> (answer: bool) {
        self.next == other.next && self.name.same(&other.name) && self.sys.same(&other.sys)
    }
}

/// The names and systems of the cases.
pub open spec fn named_systems(l: List<Case>) -> List<(Text, System)>
    decreases l,
{
    match l {
        List::Nil => List::Nil,
        List::Cons(c, rest) => List::Cons((c.name, c.sys), Box::new(named_systems(*rest))),
    }
}

pub fn to_named_systems(l: &List<Case>) -> (r: List<(Text, System)>)
    ensures
        r == named_systems(*l),
    decreases l,
{
    match l {
        List::Nil => List::Nil,
        List::Cons(c, rest) => List::Cons(
            (c.name.dup(), c.sys.dup()),
            Box::new(to_named_systems(rest)),
        ),
    }
}

/// The states of the supplies of the cases.
pub open spec fn counters(l: List<Case>) -> List<u64>
    decreases l,
{
    match l {
        List::Nil => List::Nil,
        List::Cons(c, rest) => List::Cons(c.next, Box::new(counters(*rest))),
    }
}

fn to_counters(l: &List<Case>) -> (r: List<u64>)
    ensures
        r == counters(*l),
    decreases l,
{
    match l {
        List::Nil => List::Nil,
        List::Cons(c, rest) => List::Cons(c.next, Box::new(to_counters(rest))),
    }
}

/// The name of the first case, and the empty name where there is none.
pub open spec fn first_name(l: List<Case>) -> Text {
    match l {
        List::Cons(c, _) => c.name,
        List::Nil => Text { chars: List::Nil },
    }
}

pub fn get_first_name(l: &List<Case>) -> (r: Text)
    ensures
        r == first_name(*l),
{
    match l {
        List::Cons(c, _) => c.name.dup(),
        List::Nil => Text { chars: List::Nil },
    }
}

/// The system with `g` marked as solved.
#[verifier::opaque]
pub open spec fn with_goal_solved(sys: System, g: Goal) -> System {
    System { goals: goal_solved(sys.goals, g), ..sys }
}

pub fn set_goal_solved(sys: &mut System, g: &Goal)
    ensures
        *final(sys) == with_goal_solved(*old(sys), *g),
{
    proof {
        reveal(with_goal_solved);
    }
    let (goals, _) = solve_goal_entry(&sys.goals, g);
    sys.goals = goals;
}

/// The stores with which a reduction goes on after an outcome that is not dead.
pub open spec fn arm_stores(out: SolveOutcome, store: EquationStore) -> List<EquationStore> {
    match out {
        SolveOutcome::Cases(arms) => arms,
        _ => List::one(store),
    }
}

pub fn get_arm_stores(out: SolveOutcome, store: &EquationStore) -> (r: List<EquationStore>)
    ensures
        r == arm_stores(out, *store),
{
    match out {
        SolveOutcome::Cases(arms) => arms,
        _ => List::single(store.dup()),
    }
}

/// The system once for each store.
pub open spec fn with_stores(sys: System, stores: List<EquationStore>) -> List<System>
    decreases stores,
{
    match stores {
        List::Nil => List::Nil,
        List::Cons(s, rest) => List::Cons(
            System { eq_store: s, ..sys },
            Box::new(with_stores(sys, *rest)),
        ),
    }
}

fn put_stores(sys: &System, stores: &List<EquationStore>) -> (r: List<System>)
    ensures
        r == with_stores(*sys, *stores),
    decreases stores,
{
    match stores {
        List::Nil => List::Nil,
        List::Cons(s, rest) => {
            let mut arm = sys.dup();
            arm.eq_store = s.dup();
            List::Cons(arm, Box::new(put_stores(sys, rest)))
        },
    }
}

/// The systems with which a reduction goes on after an outcome: one for each
/// store of a case distinction, else `base` itself.
#[verifier::opaque]
pub open spec fn arm_systems(out: SolveOutcome, base: System) -> List<System> {
    match out {
        SolveOutcome::Cases(arms) => with_stores(base, arms),
        _ => List::one(base),
    }
}

/// The systems with which a reduction goes on after an outcome.
pub fn fanout_arm_systems(outcome: SolveOutcome, base: System) -> (r: List<System>)
    ensures
        r == arm_systems(outcome, base),
{
    proof {
        reveal(arm_systems);
    }
    match outcome {
        SolveOutcome::Cases(arms) => put_stores(&base, &arms),
        _ => List::single(base),
    }
}

/// Cases of the same name, one for each store, in which `g` is solved.
#[verifier::opaque]
pub open spec fn solved_arms(
    name: Text,
    sys: System,
    stores: List<EquationStore>,
    g: Goal,
    next: u64,
) -> List<Case>
    decreases stores,
{
    match stores {
        List::Nil => List::Nil,
        List::Cons(s, rest) => List::Cons(
            Case { name, sys: with_goal_solved(System { eq_store: s, ..sys }, g), next },
            Box::new(solved_arms(name, sys, *rest, g, next)),
        ),
    }
}

pub fn make_solved_arms(
    name: &Text,
    sys: &System,
    stores: &List<EquationStore>,
    g: &Goal,
    next: u64,
) -> (r: List<Case>)
    ensures
        r == solved_arms(*name, *sys, *stores, *g, next),
    decreases stores,
{
    proof {
        reveal(solved_arms);
    }
    match stores {
        List::Nil => List::Nil,
        List::Cons(s, rest) => {
            let mut arm = sys.dup();
            arm.eq_store = s.dup();
            set_goal_solved(&mut arm, g);
            List::Cons(
                Case { name: name.dup(), sys: arm, next },
                Box::new(make_solved_arms(name, sys, rest, g, next)),
            )
        },
    }
}

/// Whether the term is fresh: a fresh variable or a fresh constant.
pub open spec fn is_fresh(t: Term) -> bool {
    match t {
        Term::Var(v) => v.sort == LSort::Fresh,
        Term::Con(c) => c.tag == NameTag::Fresh,
        _ => false,
    }
}

fn is_fresh_term(t: &Term) -> (r: bool)
    ensures
        r == is_fresh(*t),
{
    match t {
        Term::Var(v) => v.sort == LSort::Fresh,
        Term::Con(c) => c.tag == NameTag::Fresh,
        _ => false,
    }
}

/// The premises that break loops.
pub open spec fn loop_breakers(ru: RuleACInst) -> List<u64> {
    match ru.info {
        RuleInfo::Proto(p) => p.loop_breakers,
        RuleInfo::Intr(_) => List::Nil,
    }
}

fn get_loop_breakers(ru: &RuleACInst) -> (r: List<u64>)
    ensures
        r == loop_breakers(*ru),
{
    match &ru.info {
        RuleInfo::Proto(p) => p.loop_breakers.dup(),
        RuleInfo::Intr(_) => List::Nil,
    }
}

/// The store without the constraint that `small` is a subterm of `big`, which
/// counts as solved where it was there.
pub open spec fn subterm_moved(st: SubtermStore, small: Term, big: Term) -> SubtermStore {
    if has_subterm(st.subterms, small, big) {
        SubtermStore {
            subterms: subterms_besides(st.subterms, small, big),
            solved_subterms: if has_subterm(st.solved_subterms, small, big) {
                st.solved_subterms
            } else {
                st.solved_subterms.snoc(SubtermConstraint { small, big, propagated: true })
            },
            ..st
        }
    } else {
        st
    }
}

pub open spec fn has_subterm(l: List<SubtermConstraint>, small: Term, big: Term) -> bool
    decreases l,
{
    match l {
        List::Nil => false,
        List::Cons(c, rest) => (c.small == small && c.big == big) || has_subterm(*rest, small, big),
    }
}

pub fn does_have_subterm(l: &List<SubtermConstraint>, small: &Term, big: &Term) -> (r: bool)
    ensures
        r == has_subterm(*l, *small, *big),
    decreases l,
{
    match l {
        List::Nil => false,
        List::Cons(c, rest) => (c.small.same(small) && c.big.same(big)) || does_have_subterm(
            rest,
            small,
            big,
        ),
    }
}

pub open spec fn subterms_besides(l: List<SubtermConstraint>, small: Term, big: Term) -> List<
    SubtermConstraint,
>
    decreases l,
{
    match l {
        List::Nil => List::Nil,
        List::Cons(c, rest) => if c.small == small && c.big == big {
            subterms_besides(*rest, small, big)
        } else {
            List::Cons(c, Box::new(subterms_besides(*rest, small, big)))
        },
    }
}

fn keep_subterms_besides(l: &List<SubtermConstraint>, small: &Term, big: &Term) -> (r: List<
    SubtermConstraint,
>)
    ensures
        r == subterms_besides(*l, *small, *big),
    decreases l,
{
    match l {
        List::Nil => List::Nil,
        List::Cons(c, rest) => if c.small.same(small) && c.big.same(big) {
            keep_subterms_besides(rest, small, big)
        } else {
            List::Cons(c.dup(), Box::new(keep_subterms_besides(rest, small, big)))
        },
    }
}

/// The name of the case of a subterm split at position `i`.
pub open spec fn subterm_case(i: u64) -> Text {
    cat(text_of("SubtermSplit"@), decimal(after(i)))
}

impl<'a> Reduction<'a> {
    /// The reduction that goes on with the cases: none is contradictory, a
    /// single one is taken over under the given name, several are handed out.
    #[verifier::opaque]
    pub open spec fn cases_finished(self, cases: List<Case>, single_name: Text) -> (
        Self,
        GoalCases,
    ) {
        match cases {
            List::Nil => (self, GoalCases::Contradictory),
            List::Cons(c, rest) => if *rest is Nil {
                (self.on(c.sys).at(c.next).touched(), GoalCases::LinearNamed(single_name))
            } else {
                (
                    Reduction { last_case_counters: counters(cases), ..self }.touched(),
                    GoalCases::Cases(named_systems(cases)),
                )
            },
        }
    }

    /// Goes on with the cases.
    pub fn finish_goal_cases(&mut self, cases: List<Case>, single_name: Text) -> (r: GoalCases)
        ensures
            (*final(self), r) == old(self).cases_finished(cases, single_name),
    {
        proof {
            reveal(Reduction::cases_finished);
        }
        match &cases {
            List::Nil => GoalCases::Contradictory,
            List::Cons(c, rest) => {
                self.changed = ChangeIndicator::Changed;
                if rest.is_empty() {
                    self.sys = c.sys.dup();
                    self.supply = Supply { next: c.next };
                    GoalCases::LinearNamed(single_name)
                } else {
                    self.last_case_counters = to_counters(&cases);
                    GoalCases::Cases(to_named_systems(&cases))
                }
            },
        }
    }

    /// The reduction in which the intruder knows, at a new node before `i`, what
    /// the fact says.
    #[verifier::opaque]
    pub open spec fn ku_action_before(self, i: LVar, fa: Fact) -> Self {
        let j = node_var("vk"@, self.clear_supply().next);
        Reduction { supply: self.clear_supply().taken(1), ..self }.less_inserted(
            LessAtom { smaller: j, larger: i, reason: Reason::Adversary },
        ).goal_inserted(Goal::Action(j, fa), false)
    }

    /// Requires that the intruder knows, at a new node before `i`, what the fact
    /// says.
    pub fn add_ku_action_before(&mut self, i: &LVar, fa: &Fact)
        ensures
            *final(self) == old(self).ku_action_before(*i, *fa),
    {
        proof {
            reveal(Reduction::ku_action_before);
        }
        let next: u64 = self.next_fresh_node_idx();
        let j = make_node_var("vk", next);
        self.insert_less(
            LessAtom { smaller: j.dup(), larger: i.dup(), reason: Reason::Adversary },
        );
        self.insert_goal(Goal::Action(j, fa.dup()));
    }

    /// The reduction with a new node that carries `ru` and supplies a premise.
    pub open spec fn supplier_added(self, ru: RuleACInst, i: LVar, idx: u64) -> Self {
        let j = node_var("vf"@, self.clear_supply().next);
        Reduction { supply: self.clear_supply().taken(1), ..self }.on(
            self.sys.with_node(j, ru).with_edge(Edge { src: (j, 0), tgt: (i, idx) }),
        )
    }

    fn add_supplier(&mut self, ru: RuleACInst, i: &LVar, idx: u64) -> (j: LVar)
        ensures
            *final(self) == old(self).supplier_added(ru, *i, idx),
            j == node_var("vf"@, old(self).clear_supply().next),
    {
        let next: u64 = self.next_fresh_node_idx();
        let j = make_node_var("vf", next);
        self.sys.add_node(j.dup(), ru);
        self.sys.add_edge(Edge { src: (j.dup(), 0), tgt: (i.dup(), idx) });
        j
    }

    /// The reduction in which a fresh value is supplied.  A value that is not
    /// fresh by its form has to equal a new fresh variable.
    #[verifier::opaque]
    pub open spec fn fresh_supplied(self, i: LVar, idx: u64, fa: Fact) -> Answered<Self> {
        match first_term(fa) {
            None => Ok(self),
            Some(m) => {
                let red = self.supplier_added(fresh_rule(m), i, idx);
                if is_fresh(m) {
                    Ok(red.touched())
                } else {
                    let n = Term::Var(
                        LVar {
                            name: text_of("n"@),
                            sort: LSort::Fresh,
                            idx: plus(system_max(red.sys), 1),
                        },
                    );
                    match red.term_eqs(SplitStrategy::SplitNow, List::one((m, n))) {
                        Err(q) => Err(q),
                        Ok((end, out)) => if out.dead() {
                            Ok(end.refuted().touched())
                        } else {
                            Ok(end.touched())
                        },
                    }
                }
            },
        }
    }

    /// Supplies a fresh value.
    pub fn add_fresh_supplier_for(&mut self, i: &LVar, idx: u64, fa: &Fact) -> (r: Answered<()>)
        ensures
            match old(self).fresh_supplied(*i, idx, *fa) {
                Ok(red) => r == Ok::<(), Query>(()) && *final(self) == red,
                Err(q) => r == Err::<(), Query>(q),
            },
    {
        proof {
            reveal(Reduction::fresh_supplied);
        }
        let m = match get_first_term(fa) {
            None => {
                return Ok(());
            },
            Some(m) => m,
        };
        let _ = self.add_supplier(make_fresh_rule(m.dup()), i, idx);
        if !is_fresh_term(&m) {
            let n = LVar {
                name: Text::new("n"),
                sort: LSort::Fresh,
                idx: bounds_max(&self.sys).saturating_add(1),
            };
            match self.solve_term_eqs(SplitStrategy::SplitNow, &List::single((m, Term::Var(n)))) {
                Err(q) => {
                    return Err(q);
                },
                Ok(out) => {
                    if out.is_dead() {
                        self.mark_contradictory();
                    }
                },
            }
        }
        self.changed = ChangeIndicator::Changed;
        Ok(())
    }

    /// The reduction in which the intruder sends a message, which it has to
    /// know.
    #[verifier::opaque]
    pub open spec fn message_supplied(self, i: LVar, idx: u64, fa: Fact) -> Self {
        match first_term(fa) {
            None => self,
            Some(m) => {
                let j = node_var("vf"@, self.clear_supply().next);
                self.supplier_added(isend_rule(m), i, idx).ku_action_before(
                    j,
                    Fact::plain(FactTag::Ku, List::one(m)),
                ).touched()
            },
        }
    }

    /// Lets the intruder send a message.
    pub fn add_isend_supplier_for(&mut self, i: &LVar, idx: u64, fa: &Fact)
        ensures
            *final(self) == old(self).message_supplied(*i, idx, *fa),
    {
        proof {
            reveal(Reduction::message_supplied);
        }
        let m = match get_first_term(fa) {
            None => {
                return;
            },
            Some(m) => m,
        };
        let j = self.add_supplier(make_isend_rule(m.dup()), i, idx);
        let ku = crate::facts::ku_fact(m);
        self.add_ku_action_before(&j, &ku);
        self.changed = ChangeIndicator::Changed;
    }

    /// The reduction in which the premise is supplied, or is a goal.
    #[verifier::opaque]
    pub open spec fn premise_exploited(
        self,
        i: LVar,
        idx: u64,
        fa: Fact,
        looping: bool,
    ) -> Answered<
        Self,
    > {
        match fa.tag {
            FactTag::Fresh => self.fresh_supplied(i, idx, fa),
            FactTag::In => Ok(self.message_supplied(i, idx, fa)),
            FactTag::Ku => Ok(self.ku_action_before(i, fa)),
            _ => Ok(self.goal_inserted(Goal::Premise((i, idx), fa), looping)),
        }
    }

    /// Supplies a premise or makes it a goal.
    pub fn exploit_one_prem(&mut self, i: &LVar, idx: u64, fa: &Fact, is_loop_breaker: bool) -> (r:
        Answered<()>)
        ensures
            match old(self).premise_exploited(*i, idx, *fa, is_loop_breaker) {
                Ok(red) => r == Ok::<(), Query>(()) && *final(self) == red,
                Err(q) => r == Err::<(), Query>(q),
            },
    {
        proof {
            reveal(Reduction::premise_exploited);
        }
        match &fa.tag {
            FactTag::Fresh => {
                return self.add_fresh_supplier_for(i, idx, fa);
            },
            FactTag::In => {
                self.add_isend_supplier_for(i, idx, fa);
            },
            FactTag::Ku => {
                self.add_ku_action_before(i, fa);
            },
            _ => {
                self.insert_goal_with_loop_flag(
                    Goal::Premise((i.dup(), idx), fa.dup()),
                    is_loop_breaker,
                );
            },
        }
        Ok(())
    }

    /// The reduction in which the premises from position `idx` on are supplied,
    /// or are goals.
    pub open spec fn premises_exploited(
        self,
        i: LVar,
        idx: u64,
        prems: List<Fact>,
        breakers: List<u64>,
    ) -> Answered<Self>
        decreases prems,
    {
        match prems {
            List::Nil => Ok(self),
            List::Cons(fa, rest) => match self.premise_exploited(i, idx, fa, breakers.has(idx)) {
                Err(q) => Err(q),
                Ok(red) => red.premises_exploited(i, plus(idx, 1), *rest, breakers),
            },
        }
    }

    fn exploit_prems_from(
        &mut self,
        i: &LVar,
        idx: u64,
        prems: &List<Fact>,
        breakers: &List<u64>,
    ) -> (r: Answered<()>)
        ensures
            match old(self).premises_exploited(*i, idx, *prems, *breakers) {
                Ok(red) => r == Ok::<(), Query>(()) && *final(self) == red,
                Err(q) => r == Err::<(), Query>(q),
            },
        decreases prems,
    {
        match prems {
            List::Nil => Ok(()),
            List::Cons(fa, rest) => match self.exploit_one_prem(
                i,
                idx,
                fa,
                breakers.contains(&idx),
            ) {
                Err(q) => Err(q),
                Ok(()) => self.exploit_prems_from(i, idx.saturating_add(1), rest, breakers),
            },
        }
    }

    /// The reduction in which the premises of the rule at node `i` are
    /// supplied, or are goals.
    #[verifier::opaque]
    pub open spec fn rule_exploited(self, i: LVar, ru: RuleACInst) -> Answered<Self> {
        self.premises_exploited(i, 0, ru.premises, loop_breakers(ru))
    }

    /// Supplies the premises of the rule at node `i`, or makes them goals.
    pub fn exploit_prems(&mut self, i: &LVar, rule: &RuleACInst) -> (r: Answered<()>)
        ensures
            match old(self).rule_exploited(*i, *rule) {
                Ok(red) => r == Ok::<(), Query>(()) && *final(self) == red,
                Err(q) => r == Err::<(), Query>(q),
            },
    {
        proof {
            reveal(Reduction::rule_exploited);
        }
        let breakers = get_loop_breakers(rule);
        self.exploit_prems_from(i, 0, &rule.premises, &breakers)
    }

    /// The cases of a disjunction from position `k` on: in each, one of the
    /// alternatives holds; a case with several stores is several cases of the
    /// same name.
    pub open spec fn alternative_cases(self, g: Goal, alts: List<Guarded>, k: u64) -> Answered<
        List<(Text, System)>,
    >
        decreases alts,
    {
        match alts {
            List::Nil => Ok(List::Nil),
            List::Cons(alt, rest) => {
                let start = Reduction::inheriting(self.ctx, self.sys, self.supply.next);
                match start.on(with_goal_solved(start.sys, g)).formula_inserted(
                    normal(alt),
                    true,
                ) {
                    Err(q) => Err(q),
                    Ok(red) => match self.alternative_cases(g, *rest, plus(k, 1)) {
                        Err(q) => Err(q),
                        Ok(more) => Ok(
                            all_named(
                                numbered_case(k),
                                List::Cons(
                                    red.sys,
                                    Box::new(with_stores(red.sys, red.pending_eq_arms)),
                                ),
                            ).then_all(more),
                        ),
                    },
                }
            },
        }
    }

    fn solve_alternatives(&self, g: &Goal, alts: &List<Guarded>, k: u64) -> (r: Answered<
        List<(Text, System)>,
    >)
        ensures
            r == self.alternative_cases(*g, *alts, k),
        decreases alts,
    {
        match alts {
            List::Nil => Ok(List::Nil),
            List::Cons(alt, rest) => {
                let mut sub = Reduction::new_inheriting(
                    self.ctx,
                    self.sys.dup(),
                    self.supply.next,
                );
                set_goal_solved(&mut sub.sys, g);
                match sub.insert_formula(alt) {
                    Err(q) => {
                        return Err(q);
                    },
                    Ok(()) => {},
                }
                let more = match self.solve_alternatives(g, rest, k.saturating_add(1)) {
                    Err(q) => {
                        return Err(q);
                    },
                    Ok(more) => more,
                };
                let arms = put_stores(&sub.sys, &sub.pending_eq_arms);
                let here = name_all(
                    &numbered_case_text(k),
                    &List::Cons(sub.sys, Box::new(arms)),
                );
                Ok(here.concat(more))
            },
        }
    }

    /// The reduction after a disjunction has been solved.
    pub open spec fn disj_solved(self, alts: List<Guarded>) -> Answered<(Self, GoalCases)> {
        let g = Goal::Disj(alts);
        match alts {
            List::Nil => Ok((self, GoalCases::Contradictory)),
            List::Cons(alt, rest) => if *rest is Nil {
                match self.goal_done(g).formula_inserted(normal(alt), true) {
                    Err(q) => Err(q),
                    Ok(red) => Ok(
                        (
                            Reduction { pending_eq_arms: List::Nil, ..red },
                            GoalCases::LinearNamed(text_of("case_1"@)),
                        ),
                    ),
                }
            } else {
                match self.alternative_cases(g, alts, 0) {
                    Err(q) => Err(q),
                    Ok(cases) => Ok((self.touched(), GoalCases::Cases(cases))),
                }
            },
        }
    }

    /// Solves a disjunction: one case for each alternative.
    pub fn solve_disj_goal(&mut self, disj: &List<Guarded>) -> (r: Answered<GoalCases>)
        ensures
            ends(old(self).disj_solved(*disj), *final(self), r),
    {
        let g = Goal::Disj(disj.dup());
        match disj {
            List::Nil => Ok(GoalCases::Contradictory),
            List::Cons(alt, rest) => if rest.is_empty() {
                self.mark_goal_as_solved(&g);
                match self.insert_formula(alt) {
                    Err(q) => {
                        return Err(q);
                    },
                    Ok(()) => {},
                }
                self.pending_eq_arms = List::Nil;
                Ok(GoalCases::LinearNamed(Text::new("case_1")))
            } else {
                match self.solve_alternatives(&g, disj, 0) {
                    Err(q) => Err(q),
                    Ok(cases) => {
                        self.changed = ChangeIndicator::Changed;
                        Ok(GoalCases::Cases(cases))
                    },
                }
            },
        }
    }

    /// The reduction with a further subterm constraint.
    pub open spec fn subterm_added(self, small: Term, big: Term) -> Self {
        self.on(
            System { subterm_store: self.sys.subterm_store.with_subterm(small, big), ..self.sys },
        )
    }

    /// The reduction in which the constraint holds in one of its ways, which is
    /// the only one where `single` is set.
    pub open spec fn split_inserted(self, split: SubtermSplit, single: bool) -> Answered<Self> {
        match split {
            SubtermSplit::TrueD => Ok(self),
            SubtermSplit::SubtermD(s, t) => Ok(self.subterm_added(s, t)),
            SubtermSplit::NatSubtermD(s, t) => if single {
                let v = split_var(LSort::Nat, self.clear_supply().next);
                Reduction { supply: self.clear_supply().taken(1), ..self }.formula_inserted(
                    normal(some_equal(v, ac_with_var(AcSym::NatPlus, s, v), t)),
                    true,
                )
            } else {
                Ok(self.subterm_added(s, t))
            },
            SubtermSplit::EqualD(l, r) => self.formula_inserted(
                normal(Guarded::Atom(GAtom::Eq(l, r))),
                true,
            ),
            SubtermSplit::AcNewVarD(s, t, v) => self.formula_inserted(
                normal(some_equal(v, s, t)),
                true,
            ),
        }
    }

    fn insert_split(&mut self, split: &SubtermSplit, single: bool) -> (r: Answered<()>)
        ensures
            match old(self).split_inserted(*split, single) {
                Ok(red) => r == Ok::<(), Query>(()) && *final(self) == red,
                Err(q) => r == Err::<(), Query>(q),
            },
    {
        match split {
            SubtermSplit::TrueD => Ok(()),
            SubtermSplit::SubtermD(s, t) => {
                self.sys.subterm_store.add(s.dup(), t.dup());
                Ok(())
            },
            SubtermSplit::NatSubtermD(s, t) => if single {
                let idx: u64 = self.next_fresh_node_idx();
                let v = make_split_var(LSort::Nat, idx);
                let s_plus = make_ac_with_var(AcSym::NatPlus, s, &v);
                self.insert_formula(&close_guarded_ex_eq(&v, &s_plus, t))
            } else {
                self.sys.subterm_store.add(s.dup(), t.dup());
                Ok(())
            },
            SubtermSplit::EqualD(l, r) => self.insert_formula(
                &Guarded::Atom(GAtom::Eq(l.dup(), r.dup())),
            ),
            SubtermSplit::AcNewVarD(s, t, v) => self.insert_formula(
                &close_guarded_ex_eq(v, s, t),
            ),
        }
    }

    /// The cases of a subterm constraint from position `k` on.
    pub open spec fn split_cases(self, l: List<SubtermSplit>, single: bool, k: u64) -> Answered<
        List<(Text, System)>,
    >
        decreases l,
    {
        match l {
            List::Nil => Ok(List::Nil),
            List::Cons(split, rest) => {
                let start = Reduction::of_floor(self.ctx, self.sys, self.ctx.refine_floor);
                match (Reduction {
                    supply: start.supply.above(minus(self.supply.next, 1)),
                    ..start
                }).split_inserted(split, single) {
                    Err(q) => Err(q),
                    Ok(red) => match self.split_cases(*rest, single, plus(k, 1)) {
                        Err(q) => Err(q),
                        Ok(more) => Ok(List::Cons((subterm_case(k), red.sys), Box::new(more))),
                    },
                }
            },
        }
    }

    fn solve_splits(&self, l: &List<SubtermSplit>, single: bool, k: u64) -> (r: Answered<
        List<(Text, System)>,
    >)
        ensures
            r == self.split_cases(*l, single, k),
        decreases l,
    {
        match l {
            List::Nil => Ok(List::Nil),
            List::Cons(split, rest) => {
                let mut sub = Reduction::new(self.ctx, self.sys.dup());
                let least: u64 = self.supply.next.saturating_sub(1);
                sub.supply.ensure_above(least);
                match sub.insert_split(split, single) {
                    Err(q) => {
                        return Err(q);
                    },
                    Ok(()) => {},
                }
                match self.solve_splits(rest, single, k.saturating_add(1)) {
                    Err(q) => Err(q),
                    Ok(more) => {
                        let name = prefixed("SubtermSplit", to_decimal(next_after(k)));
                        Ok(List::Cons((name, sub.sys), Box::new(more)))
                    },
                }
            },
        }
    }

    /// The reduction in which the subterm goal counts as solved.
    pub open spec fn subterm_done(self, small: Term, big: Term) -> Self {
        self.on(
            System {
                subterm_store: subterm_moved(self.sys.subterm_store, small, big),
                ..self.sys
            },
        ).touched_if(has_subterm(self.sys.subterm_store.subterms, small, big)).goal_done(
            Goal::Subterm(small, big),
        )
    }

    /// The supply after a subterm constraint has been split.
    pub open spec fn split_supply(self, small: Term, big: Term) -> Supply {
        let s = self.clear_supply();
        if split_draws(self.ctx.reducible, small, big, s.next) {
            s.taken(1)
        } else {
            s
        }
    }

    /// The reduction after a subterm goal has been solved.
    pub open spec fn subterm_solved(self, small: Term, big: Term) -> Answered<(Self, GoalCases)> {
        let done = self.subterm_done(small, big);
        let l = splits(done.ctx.reducible, small, big, done.clear_supply().next);
        let red = Reduction { supply: done.split_supply(small, big), ..done };
        if l is Nil {
            Ok(
                (
                    red.on(
                        System {
                            subterm_store: SubtermStore {
                                contradictory: true,
                                ..red.sys.subterm_store
                            },
                            ..red.sys
                        },
                    ),
                    GoalCases::Contradictory,
                ),
            )
        } else {
            match red.split_cases(l, l.only() is Some, 0) {
                Err(q) => Err(q),
                Ok(cases) => match cases.only() {
                    Some(c) => Ok((red.on(c.1).touched(), GoalCases::LinearNamed(c.0))),
                    None => Ok((red.touched(), GoalCases::Cases(cases))),
                },
            }
        }
    }

    /// Solves a subterm goal: one case for each way in which it can hold.
    pub fn solve_subterm_goal(&mut self, small: &Term, big: &Term) -> (r: Answered<GoalCases>)
        ensures
            ends(old(self).subterm_solved(*small, *big), *final(self), r),
    {
        if does_have_subterm(&self.sys.subterm_store.subterms, small, big) {
            self.sys.subterm_store.subterms = keep_subterms_besides(
                &self.sys.subterm_store.subterms,
                small,
                big,
            );
            if !does_have_subterm(&self.sys.subterm_store.solved_subterms, small, big) {
                self.sys.subterm_store.solved_subterms =
                self.sys.subterm_store.solved_subterms.with_last(
                    SubtermConstraint { small: small.dup(), big: big.dup(), propagated: true },
                );
            }
            self.changed = ChangeIndicator::Changed;
        }
        self.mark_goal_as_solved(&Goal::Subterm(small.dup(), big.dup()));
        let avoid: u64 = self.fresh_var_baseline();
        self.supply.ensure_above(avoid);
        let l = split_subterm_single(&self.ctx.reducible, small, big, &mut self.supply);
        if l.is_empty() {
            self.sys.subterm_store.contradictory = true;
            return Ok(GoalCases::Contradictory);
        }
        let single = match l.get_only() {
            Some(_) => true,
            None => false,
        };
        let cases = match self.solve_splits(&l, single, 0) {
            Err(q) => {
                return Err(q);
            },
            Ok(cases) => cases,
        };
        self.changed = ChangeIndicator::Changed;
        match cases.get_only() {
            Some((name, sys)) => {
                self.sys = sys;
                Ok(GoalCases::LinearNamed(name))
            },
            None => Ok(GoalCases::Cases(cases)),
        }
    }

    /// The cases of a split: in each, one of the stores holds.  The supply of a
    /// case is where the simplification of its store has left it.
    pub open spec fn store_cases(self, g: Goal, stores: List<EquationStore>) -> Answered<List<Case>>
        decreases stores,
    {
        match stores {
            List::Nil => Ok(List::Nil),
            List::Cons(s, rest) => match simplified(
                self.ctx,
                s,
                self.checked(),
                self.supply.next,
            ) {
                Err(q) => Err(q),
                Ok(a) => {
                    let sys = with_goal_solved(System { eq_store: a.store, ..self.sys }, g);
                    match Reduction::of_floor(
                        self.ctx,
                        sys,
                        self.ctx.refine_floor,
                    ).system_substituted() {
                        Err(q) => Err(q),
                        Ok(red) => match self.store_cases(g, *rest) {
                            Err(q) => Err(q),
                            Ok(more) => Ok(
                                List::Cons(
                                    Case { name: text_of("split"@), sys: red.sys, next: a.next },
                                    Box::new(more),
                                ),
                            ),
                        },
                    }
                },
            },
        }
    }

    fn solve_stores(&self, g: &Goal, stores: &List<EquationStore>) -> (r: Answered<List<Case>>)
        ensures
            r == self.store_cases(*g, *stores),
        decreases stores,
    {
        match stores {
            List::Nil => Ok(List::Nil),
            List::Cons(s, rest) => {
                let a = match simp_store(
                    self.ctx,
                    s.dup(),
                    self.get_checked(),
                    self.supply.next,
                ) {
                    Err(q) => {
                        return Err(q);
                    },
                    Ok(a) => a,
                };
                let mut sys = self.sys.dup();
                sys.eq_store = a.store;
                set_goal_solved(&mut sys, g);
                let mut sub = Reduction::new(self.ctx, sys);
                match sub.subst_system() {
                    Err(q) => {
                        return Err(q);
                    },
                    Ok(()) => {},
                }
                match self.solve_stores(g, rest) {
                    Err(q) => Err(q),
                    Ok(more) => Ok(
                        List::Cons(
                            Case { name: Text::new("split"), sys: sub.sys, next: a.next },
                            Box::new(more),
                        ),
                    ),
                }
            },
        }
    }

    /// The reduction after a disjunction of equations has been split.
    pub open spec fn split_solved(self, id: u64) -> Answered<(Self, GoalCases)> {
        let g = Goal::Split(id);
        match split_stores(self.ctx, self.sys.eq_store, id) {
            Err(q) => Err(q),
            Ok(None) => Ok((self, GoalCases::Contradictory)),
            Ok(Some(List::Nil)) => Ok((self, GoalCases::Contradictory)),
            Ok(Some(List::Cons(s, rest))) => if *rest is Nil {
                match simplified(self.ctx, s, self.checked(), self.supply.next) {
                    Err(q) => Err(q),
                    Ok(a) => match self.with_store(a.store).at(a.next).goal_done(
                        g,
                    ).system_substituted() {
                        Err(q) => Err(q),
                        Ok(red) => Ok((red, GoalCases::Linear)),
                    },
                }
            } else {
                match self.store_cases(g, List::Cons(s, rest)) {
                    Err(q) => Err(q),
                    Ok(cases) => Ok(
                        (
                            Reduction {
                                supply: Supply { next: last_next(cases, self.supply.next) },
                                last_case_counters: counters(cases),
                                ..self
                            }.touched(),
                            GoalCases::Cases(named_systems(cases)),
                        ),
                    ),
                }
            },
        }
    }

    /// Splits a disjunction of equations.
    pub fn solve_split_goal(&mut self, id: u64) -> (r: Answered<GoalCases>)
        ensures
            ends(old(self).split_solved(id), *final(self), r),
    {
        let g = Goal::Split(id);
        let stores = match perform_split(self.ctx, &self.sys.eq_store, id) {
            Err(q) => {
                return Err(q);
            },
            Ok(None) => {
                return Ok(GoalCases::Contradictory);
            },
            Ok(Some(stores)) => stores,
        };
        match &stores {
            List::Nil => Ok(GoalCases::Contradictory),
            List::Cons(s, rest) => if rest.is_empty() {
                let a = match simp_store(
                    self.ctx,
                    s.dup(),
                    self.get_checked(),
                    self.supply.next,
                ) {
                    Err(q) => {
                        return Err(q);
                    },
                    Ok(a) => a,
                };
                self.sys.eq_store = a.store;
                self.supply = Supply { next: a.next };
                self.mark_goal_as_solved(&g);
                match self.subst_system() {
                    Err(q) => Err(q),
                    Ok(()) => Ok(GoalCases::Linear),
                }
            } else {
                let cases = match self.solve_stores(&g, &stores) {
                    Err(q) => {
                        return Err(q);
                    },
                    Ok(cases) => cases,
                };
                self.supply = Supply { next: get_last_next(&cases, self.supply.next) };
                self.changed = ChangeIndicator::Changed;
                self.last_case_counters = to_counters(&cases);
                Ok(GoalCases::Cases(to_named_systems(&cases)))
            },
        }
    }
}

/// The systems, all under the same name.
pub open spec fn all_named(name: Text, l: List<System>) -> List<(Text, System)>
    decreases l,
{
    match l {
        List::Nil => List::Nil,
        List::Cons(s, rest) => List::Cons((name, s), Box::new(all_named(name, *rest))),
    }
}

fn name_all(name: &Text, l: &List<System>) -> (r: List<(Text, System)>)
    ensures
        r == all_named(*name, *l),
    decreases l,
{
    match l {
        List::Nil => List::Nil,
        List::Cons(s, rest) => List::Cons(
            (name.dup(), s.dup()),
            Box::new(name_all(name, rest)),
        ),
    }
}

/// The state of the supply of the last case; `next` where there is none.
pub open spec fn last_next(l: List<Case>, next: u64) -> u64
    decreases l,
{
    match l {
        List::Nil => next,
        List::Cons(c, rest) => last_next(*rest, c.next),
    }
}

fn get_last_next(l: &List<Case>, next: u64) -> (r: u64)
    ensures
        r == last_next(*l, next),
    decreases l,
{
    match l {
        List::Nil => next,
        List::Cons(c, rest) => get_last_next(rest, c.next),
    }
}

} // verus!
