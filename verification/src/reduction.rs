//! The state of a reduction and the insertion of single constraints.
use crate::bounds::{bounds_max, first_unused, first_unused_index, system_max};
use crate::constraints::{EquationStore, Goal, LessAtom, Reason};
use crate::context::{refine_floor, Answered, ProofContext, Query};
use crate::facts::{ku_fact, Fact, FactTag};
use crate::guarded::{bottom, gfalse};
use crate::leaves::plus;
use crate::list::{find, List, Value};
use crate::rules::Supply;
use crate::system::{orders, System};
use crate::term_ops::{
    after,
    applies,
    headed_by,
    is_headed_by,
    is_inverse,
    is_pair,
    larger,
    max_of,
    next_after,
};
use crate::terms::{AcSym, LSort, LVar, Term};
use crate::text::{text_of, Text};
use vstd::prelude::*;

verus! {

/// Whether a step has changed the system.
#[derive(Debug, Clone, Copy, PartialEq, Eq, Structural)]
pub enum ChangeIndicator {
    Changed,
    Unchanged,
}

impl ChangeIndicator {
    /// Changed where one of the two is.
    pub open spec fn either(self, other: Self) -> Self {
        if self is Changed || other is Changed {
            ChangeIndicator::Changed
        } else {
            ChangeIndicator::Unchanged
        }
    }

    /// Changed where one of the two is.
    pub fn or(self, other: Self) -> (r: Self)
        ensures
            r == self.either(other),
    {
        if self == ChangeIndicator::Changed || other == ChangeIndicator::Changed {
            ChangeIndicator::Changed
        } else {
            ChangeIndicator::Unchanged
        }
    }
}

/// Whether to split a disjunction of unifiers at once or to leave a goal.
#[derive(Debug, Clone, Copy, PartialEq, Eq, Structural)]
pub enum SplitStrategy {
    SplitNow,
    SplitLater,
}

/// The outcome of solving equations.
#[derive(Debug, PartialEq, Eq)]
pub enum SolveOutcome {
    /// The reduction goes on.
    Linear(ChangeIndicator),
    /// The reduction goes on once for each of several stores.
    Cases(List<EquationStore>),
    /// The equations have no solution.
    Contradictory,
    /// Unification failed to give an answer.
    Failed,
}

impl SolveOutcome {
    /// Whether the branch has to be given up.
    pub open spec fn dead(self) -> bool {
        self is Contradictory || self is Failed
    }

    pub fn is_dead(&self) -> (r: bool)
        ensures
            r == self.dead(),
    {
        match self {
            SolveOutcome::Contradictory => true,
            SolveOutcome::Failed => true,
            _ => false,
        }
    }
}

/// A reduction: a system that is being worked on, with a supply of fresh
/// indices.
pub struct Reduction<'a> {
    pub ctx: &'a ProofContext,
    pub sys: System,
    pub supply: Supply,
    /// Whether the system has changed since this was last reset.
    pub changed: ChangeIndicator,
    /// Further stores with which the reduction has to go on.
    pub pending_eq_arms: List<EquationStore>,
    /// Further systems with which the reduction has to go on, each with the
    /// state of its supply.
    pub pending_conjoin_arm_systems: List<(System, u64)>,
    /// The state of the supply in each case of the last case distinction.
    pub last_case_counters: List<u64>,
}

/// Whether a step ended as expected: in the expected state with the expected
/// result, or with the expected question.
pub open spec fn ends<'a, T>(
    expected: Answered<(Reduction<'a>, T)>,
    state: Reduction<'a>,
    result: Answered<T>,
) -> bool {
    match expected {
        Ok((red, value)) => state == red && result == Ok::<T, Query>(value),
        Err(q) => result == Err::<T, Query>(q),
    }
}

/// The first index that a supply hands out above the floor.
pub open spec fn above_floor(floor: u64) -> u64 {
    if floor == 0 {
        0
    } else {
        plus(floor, 1)
    }
}

/// The node variable called `name`.
pub open spec fn node_var(name: Seq<char>, idx: u64) -> LVar {
    LVar { name: text_of(name), sort: LSort::Node, idx }
}

pub fn make_node_var(name: &str, idx: u64) -> (r: LVar)
    ensures
        r == node_var(name@, idx),
{
    LVar { name: Text::new(name), sort: LSort::Node, idx }
}

/// The number of symbols of a term.
pub open spec fn term_size(t: Term) -> nat
    decreases t,
{
    match t {
        Term::App(_, args) => 1 + terms_size(*args),
        _ => 1,
    }
}

/// The number of symbols of the terms.
pub open spec fn terms_size(l: List<Term>) -> nat
    decreases l,
{
    match l {
        List::Nil => 0,
        List::Cons(t, rest) => term_size(t) + terms_size(*rest),
    }
}

pub proof fn lemma_term_size(t: Term)
    ensures
        term_size(t) >= 1,
{
}

proof fn lemma_with_sorted_size(l: List<Term>, x: Term)
    ensures
        terms_size(l.with_sorted(x)) == term_size(x) + terms_size(l),
    decreases l,
{
    match l {
        List::Nil => {
            assert(terms_size(List::<Term>::Nil) == 0);
            assert(terms_size(l.with_sorted(x)) == term_size(x) + terms_size(List::<Term>::Nil));
        },
        List::Cons(_, rest) => {
            lemma_with_sorted_size(*rest, x);
        },
    }
}

pub proof fn lemma_sorted_size(l: List<Term>)
    ensures
        terms_size(l.sorted()) == terms_size(l),
    decreases l,
{
    match l {
        List::Nil => {},
        List::Cons(t, rest) => {
            lemma_sorted_size(*rest);
            lemma_with_sorted_size(rest.sorted(), t);
        },
    }
}

/// The terms that the intruder has to know in order to know `t`: the
/// components of a pair, the argument of an inverse, and the operands of a
/// product or a union.
pub open spec fn components(t: Term) -> Option<List<Term>> {
    match t {
        Term::App(_, args) => if applies(t, "pair"@, 2) || applies(t, "inv"@, 1) {
            Some(*args)
        } else if headed_by(t, AcSym::Mult) || headed_by(t, AcSym::Union) {
            Some(args.sorted())
        } else {
            None
        },
        _ => None,
    }
}

/// The terms that the intruder has to know in order to know `t`.
pub fn ku_decomp_subterms(t: &Term) -> (r: Option<List<Term>>)
    ensures
        r == components(*t),
{
    match t {
        Term::App(_, args) => if is_pair(t) || is_inverse(t) {
            Some(args.dup())
        } else if is_headed_by(t, AcSym::Mult) || is_headed_by(t, AcSym::Union) {
            Some(args.sort())
        } else {
            None
        },
        _ => None,
    }
}

pub proof fn lemma_components_size(t: Term)
    ensures
        components(t) matches Some(l) ==> terms_size(l) < term_size(t),
{
    match t {
        Term::App(_, args) => {
            lemma_sorted_size(*args);
        },
        _ => {},
    }
}

/// Whether the term is a product or a union.
pub open spec fn product_or_union(t: Term) -> bool {
    headed_by(t, AcSym::Mult) || headed_by(t, AcSym::Union)
}

/// Whether the term is a product or a union.
pub fn is_product_or_union(t: &Term) -> (r: bool)
    ensures
        r == product_or_union(*t),
{
    is_headed_by(t, AcSym::Mult) || is_headed_by(t, AcSym::Union)
}

/// The first term of the fact.
pub open spec fn first_term(fa: Fact) -> Option<Term> {
    match fa.terms {
        List::Cons(t, _) => Some(t),
        List::Nil => None,
    }
}

pub fn get_first_term(fa: &Fact) -> (r: Option<Term>)
    ensures
        r == first_term(*fa),
{
    match &fa.terms {
        List::Cons(t, _) => Some(t.dup()),
        List::Nil => None,
    }
}

/// The parts into which a goal is taken apart: the components of a term that
/// the intruder has to know.
pub open spec fn goal_parts(g: Goal) -> Option<List<Term>> {
    match g {
        Goal::Action(_, fa) => match (fa.tag, first_term(fa)) {
            (FactTag::Ku, Some(t)) => components(t),
            _ => None,
        },
        _ => None,
    }
}

fn get_goal_parts(g: &Goal) -> (r: Option<List<Term>>)
    ensures
        r == goal_parts(*g),
{
    match g {
        Goal::Action(_, fa) => match (&fa.tag, get_first_term(fa)) {
            (FactTag::Ku, Some(t)) => ku_decomp_subterms(&t),
            _ => None,
        },
        _ => None,
    }
}

/// The size of the term that a goal is about.
pub open spec fn goal_weight(g: Goal) -> nat {
    match g {
        Goal::Action(_, fa) => match first_term(fa) {
            Some(t) => term_size(t),
            None => 0,
        },
        _ => 0,
    }
}

pub proof fn lemma_goal_parts(g: Goal)
    ensures
        goal_parts(g) matches Some(l) ==> g is Action && terms_size(l) < goal_weight(g),
{
    match g {
        Goal::Action(_, fa) => match first_term(fa) {
            Some(t) => {
                lemma_components_size(t);
            },
            None => {},
        },
        _ => {},
    }
}

/// The goal that the intruder knows `t` at node `i`.
pub open spec fn ku_goal(i: LVar, t: Term) -> Goal {
    Goal::Action(i, Fact::plain(FactTag::Ku, List::one(t)))
}

impl<'a> Reduction<'a> {
    /// The reduction of `sys` whose supply starts at `next`.
    pub open spec fn started(ctx: &'a ProofContext, sys: System, next: u64) -> Self {
        Reduction {
            ctx,
            sys,
            supply: Supply { next },
            changed: ChangeIndicator::Unchanged,
            pending_eq_arms: List::Nil,
            pending_conjoin_arm_systems: List::Nil,
            last_case_counters: List::Nil,
        }
    }

    /// The reduction of `sys` whose supply is above every variable of the
    /// system and above `floor`.
    pub open spec fn of_floor(ctx: &'a ProofContext, sys: System, floor: u64) -> Self {
        Reduction::started(ctx, sys, larger(first_unused(sys), above_floor(floor)))
    }

    /// The reduction of `sys` that goes on with a supply at `inherited`.
    pub open spec fn inheriting(ctx: &'a ProofContext, sys: System, inherited: u64) -> Self {
        Reduction::started(
            ctx,
            sys,
            larger(larger(first_unused(sys), above_floor(ctx.refine_floor)), inherited),
        )
    }

    /// A reduction of `sys` whose supply is above every variable of the system.
    pub fn new(ctx: &'a ProofContext, sys: System) -> (r: Self)
        ensures
            r == Reduction::of_floor(ctx, sys, ctx.refine_floor),
    {
        Reduction::new_with_floor(ctx, sys, refine_floor(ctx))
    }

    /// A reduction of `sys` whose supply is also above `floor`.
    pub fn new_with_floor(ctx: &'a ProofContext, sys: System, floor: u64) -> (r: Self)
        ensures
            r == Reduction::of_floor(ctx, sys, floor),
    {
        let least: u64 = if floor == 0 {
            0
        } else {
            floor.saturating_add(1)
        };
        let next: u64 = max_of(first_unused_index(&sys), least);
        Reduction {
            ctx,
            sys,
            supply: Supply { next },
            changed: ChangeIndicator::Unchanged,
            pending_eq_arms: List::Nil,
            pending_conjoin_arm_systems: List::Nil,
            last_case_counters: List::Nil,
        }
    }

    /// A reduction of `sys` that goes on with the supply of an enclosing one.
    pub fn new_inheriting(ctx: &'a ProofContext, sys: System, inherit_next: u64) -> (r: Self)
        ensures
            r == Reduction::inheriting(ctx, sys, inherit_next),
    {
        let mut red = Reduction::new(ctx, sys);
        red.supply = Supply { next: max_of(red.supply.next, inherit_next) };
        red
    }

    /// The reduction with the system replaced.
    pub open spec fn on(self, sys: System) -> Self {
        Reduction { sys, ..self }
    }

    /// The reduction, marked as changed.
    pub open spec fn touched(self) -> Self {
        Reduction { changed: ChangeIndicator::Changed, ..self }
    }

    /// The reduction, marked as changed where `c` holds.
    pub open spec fn touched_if(self, c: bool) -> Self {
        if c {
            self.touched()
        } else {
            self
        }
    }

    /// The reduction with the equations replaced.
    pub open spec fn with_store(self, store: EquationStore) -> Self {
        self.on(System { eq_store: store, ..self.sys })
    }

    /// The reduction with the supply at `next`.
    pub open spec fn at(self, next: u64) -> Self {
        Reduction { supply: Supply { next }, ..self }
    }

    /// The reduction with equations that have no solution.
    pub open spec fn falsified(self) -> Self {
        self.with_store(self.sys.eq_store.falsified())
    }

    /// Marks the equations as having no solution; says whether they were not
    /// marked before.
    pub fn set_eq_store_false(&mut self) -> (flipped: bool)
        ensures
            *final(self) == old(self).falsified(),
            flipped == !old(self).sys.eq_store.contradictory,
    {
        if self.sys.eq_store.contradictory {
            false
        } else {
            self.sys.eq_store.contradictory = true;
            true
        }
    }

    /// The reduction of a system without a model: falsity among its formulas
    /// and equations without a solution.
    pub open spec fn refuted(self) -> Self {
        let there = self.sys.formulas.has(bottom());
        let marked = if there {
            self
        } else {
            self.on(System { formulas: self.sys.formulas.snoc(bottom()), ..self.sys })
        };
        marked.falsified().touched_if(!there || !self.sys.eq_store.contradictory)
    }

    /// Marks the system as having no model.
    pub fn mark_contradictory(&mut self)
        ensures
            *final(self) == old(self).refuted(),
    {
        let bot = gfalse();
        let added = if self.sys.formulas.contains(&bot) {
            false
        } else {
            self.sys.formulas = self.sys.formulas.with_last(bot);
            true
        };
        let flipped = self.set_eq_store_false();
        if added || flipped {
            self.changed = ChangeIndicator::Changed;
        }
    }

    /// The reduction with a further ordering.
    pub open spec fn less_inserted(self, l: LessAtom) -> Self {
        self.on(self.sys.with_less(l)).touched_if(
            !orders(self.sys.less_atoms, l.smaller, l.larger),
        )
    }

    /// Adds an ordering of nodes.
    pub fn insert_less(&mut self, l: LessAtom)
        ensures
            *final(self) == old(self).less_inserted(l),
    {
        if self.sys.add_less(l) {
            self.changed = ChangeIndicator::Changed;
        }
    }

    /// The reduction with a further goal that is not taken apart.
    pub open spec fn plain_goal(self, g: Goal, looping: bool) -> Self {
        self.on(self.sys.with_goal(g, looping)).touched_if(find(self.sys.goals, g) is None)
    }

    fn insert_plain_goal(&mut self, g: Goal, looping: bool)
        ensures
            *final(self) == old(self).plain_goal(g, looping),
    {
        if self.sys.add_goal_with_loop_flag(g, looping) {
            self.changed = ChangeIndicator::Changed;
        }
    }

    /// The reduction with a further goal.  A goal about a term that the
    /// intruder has to know is taken apart when it is new: each part becomes a
    /// goal at a new earlier node.
    pub open spec fn goal_inserted(self, g: Goal, looping: bool) -> Self
        decreases goal_weight(g), 0nat,
    {
        proof {
            lemma_goal_parts(g);
        }
        match (g, goal_parts(g)) {
            (Goal::Action(i, _), Some(parts)) => if find(self.sys.goals, g) is Some {
                self
            } else {
                self.plain_goal(g, looping).parts_inserted(parts, i, looping)
            },
            _ => self.plain_goal(g, looping),
        }
    }

    /// The reduction with the goals that the intruder knows the terms, each at
    /// a new node before `outer`.
    pub open spec fn parts_inserted(self, parts: List<Term>, outer: LVar, looping: bool) -> Self
        decreases terms_size(parts), 1nat,
    {
        match parts {
            List::Nil => self,
            List::Cons(t, rest) => {
                proof {
                    lemma_term_size(t);
                }
                let idx = after(larger(system_max(self.sys), outer.idx));
                let node = node_var("vk"@, idx);
                let moved = Reduction { supply: self.supply.above(idx), ..self };
                moved.goal_inserted(ku_goal(node, t), looping).less_inserted(
                    LessAtom { smaller: node, larger: outer, reason: Reason::Adversary },
                ).parts_inserted(*rest, outer, looping)
            },
        }
    }

    /// Adds a goal.
    pub fn insert_goal(&mut self, g: Goal)
        ensures
            *final(self) == old(self).goal_inserted(g, false),
    {
        self.insert_goal_with_loop_flag(g, false);
    }

    /// Adds a goal, as a loop breaker where `looping` is set.
    pub fn insert_goal_with_loop_flag(&mut self, g: Goal, looping: bool)
        ensures
            *final(self) == old(self).goal_inserted(g, looping),
        decreases goal_weight(g), 0nat,
    {
        let parts = get_goal_parts(&g);
        proof {
            lemma_goal_parts(g);
        }
        match (&g, parts) {
            (Goal::Action(i, _), Some(parts)) => {
                let known = match crate::list::look_up(&self.sys.goals, &g) {
                    Some(_) => true,
                    None => false,
                };
                if !known {
                    let outer = i.dup();
                    self.insert_plain_goal(g.dup(), looping);
                    self.insert_parts(&parts, &outer, looping);
                }
            },
            _ => {
                self.insert_plain_goal(g.dup(), looping);
            },
        }
    }

    fn insert_parts(&mut self, parts: &List<Term>, outer: &LVar, looping: bool)
        ensures
            *final(self) == old(self).parts_inserted(*parts, *outer, looping),
        decreases terms_size(*parts), 1nat,
    {
        match parts {
            List::Nil => {},
            List::Cons(t, rest) => {
                let idx: u64 = next_after(max_of(bounds_max(&self.sys), outer.idx));
                let node = make_node_var("vk", idx);
                self.supply.ensure_above(idx);
                self.insert_goal_with_loop_flag(
                    Goal::Action(node.dup(), ku_fact(t.dup())),
                    looping,
                );
                self.insert_less(
                    LessAtom { smaller: node, larger: outer.dup(), reason: Reason::Adversary },
                );
                self.insert_parts(rest, outer, looping);
            },
        }
    }

    /// The largest index of a variable of the system.
    pub fn fresh_var_baseline(&self) -> (r: u64)
        ensures
            r == system_max(self.sys),
    {
        bounds_max(&self.sys)
    }

    /// The supply past every variable of the system.
    pub open spec fn clear_supply(self) -> Supply {
        self.supply.above(system_max(self.sys))
    }

    /// Takes an index above every variable of the system.
    pub fn next_fresh_node_idx(&mut self) -> (idx: u64)
        ensures
            idx == old(self).clear_supply().next,
            *final(self) == (Reduction { supply: old(self).clear_supply().taken(1), ..*old(self) }),
    {
        let bm: u64 = bounds_max(&self.sys);
        self.supply.ensure_above(bm);
        self.supply.fresh_idx()
    }
}

} // verus!
