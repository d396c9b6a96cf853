//! Solving equations between terms, nodes, facts and rule instances.
use crate::bounds::{bounds_max, system_max};
use crate::constraints::{has_split, split_exists, Edge, EquationStore, Goal};
use crate::context::{
    AddEqsAnswer, AddEqsQuery, Answered, ProofContext, Query, SimpAnswer, SimpQuery, SplitQuery,
};
use crate::facts::{alike, are_alike, Fact, RuleACInst};
use crate::leaves::minus;
use crate::list::{find, look_up, List, Value};
use crate::reduction::{ends, ChangeIndicator, Reduction, SolveOutcome, SplitStrategy};
use crate::rules::Supply;
use crate::system::System;
use crate::term_ops::{larger, max_of, Subst};
use crate::terms::{LVar, Term};
use vstd::prelude::*;

verus! {

/// The equations whose two sides differ.
pub open spec fn nontrivial(eqs: List<(Term, Term)>) -> List<(Term, Term)>
    decreases eqs,
{
    match eqs {
        List::Nil => List::Nil,
        List::Cons(e, rest) => if e.0 == e.1 {
            nontrivial(*rest)
        } else {
            List::Cons(e, Box::new(nontrivial(*rest)))
        },
    }
}

fn drop_trivial(eqs: &List<(Term, Term)>) -> (r: List<(Term, Term)>)
    ensures
        r == nontrivial(*eqs),
    decreases eqs,
{
    match eqs {
        List::Nil => List::Nil,
        List::Cons(e, rest) => if e.0.same(&e.1) {
            drop_trivial(rest)
        } else {
            List::Cons(e.dup(), Box::new(drop_trivial(rest)))
        },
    }
}

/// The simplified store and the next unused index.
pub open spec fn simplified(
    ctx: &ProofContext,
    store: EquationStore,
    checked: Option<System>,
    next: u64,
) -> Answered<SimpAnswer> {
    let q = SimpQuery { store, checked, next };
    match find(ctx.answers.simp, q) {
        Some(a) => Ok(a),
        None => Err(Query::Simp(q)),
    }
}

/// The simplified store and the next unused index.
pub fn simp_store(
    ctx: &ProofContext,
    store: EquationStore,
    checked: Option<System>,
    next: u64,
) -> (r: Answered<SimpAnswer>)
    ensures
        r == simplified(ctx, store, checked, next),
{
    let q = SimpQuery { store, checked, next };
    match look_up(&ctx.answers.simp, &q) {
        Some(a) => Ok(a),
        None => Err(Query::Simp(q)),
    }
}

/// What becomes of the stores of a split: those that have a solution after
/// simplification, the largest index reached, and the index reached last.
pub struct Arms {
    pub live: List<EquationStore>,
    pub high: u64,
    pub last: u64,
}

/// The stores of a split, each simplified with indices from `base` on.
pub open spec fn simplified_arms(
    ctx: &ProofContext,
    arms: List<EquationStore>,
    checked: Option<System>,
    base: u64,
    last: u64,
) -> Answered<Arms>
    decreases arms,
{
    match arms {
        List::Nil => Ok(Arms { live: List::Nil, high: base, last }),
        List::Cons(arm, rest) => match simplified(ctx, arm, checked, base) {
            Err(q) => Err(q),
            Ok(a) => match simplified_arms(ctx, *rest, checked, base, a.next) {
                Err(q) => Err(q),
                Ok(more) => Ok(
                    Arms {
                        live: if a.store.contradictory {
                            more.live
                        } else {
                            List::Cons(a.store, Box::new(more.live))
                        },
                        high: larger(a.next, more.high),
                        last: more.last,
                    },
                ),
            },
        },
    }
}

fn simp_arms(
    ctx: &ProofContext,
    arms: &List<EquationStore>,
    checked: &Option<System>,
    base: u64,
    last: u64,
) -> (r: Answered<Arms>)
    ensures
        r == simplified_arms(ctx, *arms, *checked, base, last),
    decreases arms,
{
    match arms {
        List::Nil => Ok(Arms { live: List::Nil, high: base, last }),
        List::Cons(arm, rest) => match simp_store(ctx, arm.dup(), checked.dup(), base) {
            Err(q) => Err(q),
            Ok(a) => match simp_arms(ctx, rest, checked, base, a.next) {
                Err(q) => Err(q),
                Ok(more) => {
                    let high: u64 = max_of(a.next, more.high);
                    let live = if a.store.contradictory {
                        more.live
                    } else {
                        List::Cons(a.store, Box::new(more.live))
                    };
                    Ok(Arms { live, high, last: more.last })
                },
            },
        },
    }
}

/// The stores that result from the disjunction numbered `id`.
pub open spec fn split_stores(ctx: &ProofContext, store: EquationStore, id: u64) -> Answered<
    Option<List<EquationStore>>,
> {
    if split_exists(store.conj, id) {
        let q = SplitQuery { store, id };
        match find(ctx.answers.split, q) {
            Some(l) => Ok(Some(l)),
            None => Err(Query::Split(q)),
        }
    } else {
        Ok(None)
    }
}

/// The stores that result from the disjunction numbered `id`; none where there
/// is no such disjunction.
pub fn perform_split(ctx: &ProofContext, store: &EquationStore, id: u64) -> (r: Answered<
    Option<List<EquationStore>>,
>)
    ensures
        r == split_stores(ctx, *store, id),
{
    if has_split(&store.conj, id) {
        let q = SplitQuery { store: store.dup(), id };
        match look_up(&ctx.answers.split, &q) {
            Some(l) => Ok(Some(l)),
            None => Err(Query::Split(q)),
        }
    } else {
        Ok(None)
    }
}

/// The equations between the terms of two lists, position by position.
pub open spec fn zipped<T>(a: List<T>, b: List<T>) -> List<(T, T)>
    decreases a,
{
    match (a, b) {
        (List::Cons(x, l), List::Cons(y, m)) => List::Cons((x, y), Box::new(zipped(*l, *m))),
        _ => List::Nil,
    }
}

pub fn zip<T: Value>(a: &List<T>, b: &List<T>) -> (r: List<(T, T)>)
    ensures
        r == zipped(*a, *b),
    decreases a,
{
    match (a, b) {
        (List::Cons(x, l), List::Cons(y, m)) => List::Cons((x.dup(), y.dup()), Box::new(zip(l, m))),
        _ => List::Nil,
    }
}

/// Whether the two facts of every equation agree on symbol and number of
/// arguments.
pub open spec fn all_alike(eqs: List<(Fact, Fact)>) -> bool
    decreases eqs,
{
    match eqs {
        List::Nil => true,
        List::Cons(e, rest) => alike(e.0, e.1) && all_alike(*rest),
    }
}

fn are_all_alike(eqs: &List<(Fact, Fact)>) -> (r: bool)
    ensures
        r == all_alike(*eqs),
    decreases eqs,
{
    match eqs {
        List::Nil => true,
        List::Cons(e, rest) => are_alike(&e.0, &e.1) && are_all_alike(rest),
    }
}

/// The equations between the arguments of the facts.
pub open spec fn argument_eqs(eqs: List<(Fact, Fact)>) -> List<(Term, Term)>
    decreases eqs,
{
    match eqs {
        List::Nil => List::Nil,
        List::Cons(e, rest) => zipped(e.0.terms, e.1.terms).then_all(argument_eqs(*rest)),
    }
}

fn collect_argument_eqs(eqs: &List<(Fact, Fact)>) -> (r: List<(Term, Term)>)
    ensures
        r == argument_eqs(*eqs),
    decreases eqs,
{
    match eqs {
        List::Nil => List::Nil,
        List::Cons(e, rest) => zip(&e.0.terms, &e.1.terms).concat(collect_argument_eqs(rest)),
    }
}

/// Whether the two rule instances of every equation come from the same rule.
pub open spec fn same_infos(eqs: List<(RuleACInst, RuleACInst)>) -> bool
    decreases eqs,
{
    match eqs {
        List::Nil => true,
        List::Cons(e, rest) => e.0.info == e.1.info && same_infos(*rest),
    }
}

fn have_same_infos(eqs: &List<(RuleACInst, RuleACInst)>) -> (r: bool)
    ensures
        r == same_infos(*eqs),
    decreases eqs,
{
    match eqs {
        List::Nil => true,
        List::Cons(e, rest) => e.0.info.same(&e.1.info) && have_same_infos(rest),
    }
}

/// The equations between the conclusions of the rule instances.
pub open spec fn conclusion_eqs(eqs: List<(RuleACInst, RuleACInst)>) -> List<(Fact, Fact)>
    decreases eqs,
{
    match eqs {
        List::Nil => List::Nil,
        List::Cons(e, rest) => zipped(e.0.conclusions, e.1.conclusions).then_all(
            conclusion_eqs(*rest),
        ),
    }
}

/// The equations between the premises of the rule instances.
pub open spec fn premise_eqs(eqs: List<(RuleACInst, RuleACInst)>) -> List<(Fact, Fact)>
    decreases eqs,
{
    match eqs {
        List::Nil => List::Nil,
        List::Cons(e, rest) => zipped(e.0.premises, e.1.premises).then_all(premise_eqs(*rest)),
    }
}

/// The equations between the actions of the rule instances.
pub open spec fn action_eqs(eqs: List<(RuleACInst, RuleACInst)>) -> List<(Fact, Fact)>
    decreases eqs,
{
    match eqs {
        List::Nil => List::Nil,
        List::Cons(e, rest) => zipped(e.0.actions, e.1.actions).then_all(action_eqs(*rest)),
    }
}

fn collect_conclusion_eqs(eqs: &List<(RuleACInst, RuleACInst)>) -> (r: List<(Fact, Fact)>)
    ensures
        r == conclusion_eqs(*eqs),
    decreases eqs,
{
    match eqs {
        List::Nil => List::Nil,
        List::Cons(e, rest) => zip(&e.0.conclusions, &e.1.conclusions).concat(
            collect_conclusion_eqs(rest),
        ),
    }
}

fn collect_premise_eqs(eqs: &List<(RuleACInst, RuleACInst)>) -> (r: List<(Fact, Fact)>)
    ensures
        r == premise_eqs(*eqs),
    decreases eqs,
{
    match eqs {
        List::Nil => List::Nil,
        List::Cons(e, rest) => zip(&e.0.premises, &e.1.premises).concat(collect_premise_eqs(rest)),
    }
}

fn collect_action_eqs(eqs: &List<(RuleACInst, RuleACInst)>) -> (r: List<(Fact, Fact)>)
    ensures
        r == action_eqs(*eqs),
    decreases eqs,
{
    match eqs {
        List::Nil => List::Nil,
        List::Cons(e, rest) => zip(&e.0.actions, &e.1.actions).concat(collect_action_eqs(rest)),
    }
}

/// The equations between rule instances as equations between facts: all
/// conclusions, all premises, all actions.
pub open spec fn component_eqs(eqs: List<(RuleACInst, RuleACInst)>) -> List<(Fact, Fact)> {
    conclusion_eqs(eqs).then_all(premise_eqs(eqs).then_all(action_eqs(eqs)))
}

pub fn collect_component_eqs(eqs: &List<(RuleACInst, RuleACInst)>) -> (r: List<(Fact, Fact)>)
    ensures
        r == component_eqs(*eqs),
{
    let acts = collect_action_eqs(eqs);
    let prems = collect_premise_eqs(eqs).concat(acts);
    collect_conclusion_eqs(eqs).concat(prems)
}

/// The equations between nodes as equations between terms.
pub open spec fn node_terms(eqs: List<(LVar, LVar)>) -> List<(Term, Term)>
    decreases eqs,
{
    match eqs {
        List::Nil => List::Nil,
        List::Cons(e, rest) => List::Cons(
            (Term::Var(e.0), Term::Var(e.1)),
            Box::new(node_terms(*rest)),
        ),
    }
}

fn to_node_terms(eqs: &List<(LVar, LVar)>) -> (r: List<(Term, Term)>)
    ensures
        r == node_terms(*eqs),
    decreases eqs,
{
    match eqs {
        List::Nil => List::Nil,
        List::Cons(e, rest) => List::Cons(
            (Term::Var(e.0.dup()), Term::Var(e.1.dup())),
            Box::new(to_node_terms(rest)),
        ),
    }
}

/// The rules at node `id`.
pub open spec fn rules_at(l: List<(LVar, RuleACInst)>, id: LVar) -> List<RuleACInst>
    decreases l,
{
    match l {
        List::Nil => List::Nil,
        List::Cons(n, rest) => if n.0 == id {
            List::Cons(n.1, Box::new(rules_at(*rest, id)))
        } else {
            rules_at(*rest, id)
        },
    }
}

fn collect_rules_at(l: &List<(LVar, RuleACInst)>, id: &LVar) -> (r: List<RuleACInst>)
    ensures
        r == rules_at(*l, *id),
    decreases l,
{
    match l {
        List::Nil => List::Nil,
        List::Cons(n, rest) => if n.0.same(id) {
            List::Cons(n.1.dup(), Box::new(collect_rules_at(rest, id)))
        } else {
            collect_rules_at(rest, id)
        },
    }
}

/// The nodes other than `id`.
pub open spec fn nodes_besides(l: List<(LVar, RuleACInst)>, id: LVar) -> List<(LVar, RuleACInst)>
    decreases l,
{
    match l {
        List::Nil => List::Nil,
        List::Cons(n, rest) => if n.0 == id {
            nodes_besides(*rest, id)
        } else {
            List::Cons(n, Box::new(nodes_besides(*rest, id)))
        },
    }
}

pub proof fn lemma_nodes_besides_size(l: List<(LVar, RuleACInst)>, id: LVar)
    ensures
        nodes_besides(l, id).size() <= l.size(),
    decreases l,
{
    match l {
        List::Nil => {},
        List::Cons(_, rest) => {
            lemma_nodes_besides_size(*rest, id);
        },
    }
}

fn collect_nodes_besides(l: &List<(LVar, RuleACInst)>, id: &LVar) -> (r: List<(LVar, RuleACInst)>)
    ensures
        r == nodes_besides(*l, *id),
    decreases l,
{
    match l {
        List::Nil => List::Nil,
        List::Cons(n, rest) => if n.0.same(id) {
            collect_nodes_besides(rest, id)
        } else {
            List::Cons(n.dup(), Box::new(collect_nodes_besides(rest, id)))
        },
    }
}

/// The nodes with the first rule of each.
pub open spec fn first_nodes(l: List<(LVar, RuleACInst)>) -> List<(LVar, RuleACInst)>
    decreases l.size(),
{
    match l {
        List::Nil => List::Nil,
        List::Cons(n, rest) => {
            proof {
                lemma_nodes_besides_size(*rest, n.0);
            }
            List::Cons(n, Box::new(first_nodes(nodes_besides(*rest, n.0))))
        },
    }
}

/// The rule `kept` equated with each of the others.
pub open spec fn kept_eqs(kept: RuleACInst, l: List<RuleACInst>) -> List<(RuleACInst, RuleACInst)>
    decreases l,
{
    match l {
        List::Nil => List::Nil,
        List::Cons(ru, rest) => List::Cons((kept, ru), Box::new(kept_eqs(kept, *rest))),
    }
}

fn collect_kept_eqs(kept: &RuleACInst, l: &List<RuleACInst>) -> (r: List<(RuleACInst, RuleACInst)>)
    ensures
        r == kept_eqs(*kept, *l),
    decreases l,
{
    match l {
        List::Nil => List::Nil,
        List::Cons(ru, rest) => List::Cons(
            (kept.dup(), ru.dup()),
            Box::new(collect_kept_eqs(kept, rest)),
        ),
    }
}

/// The equations that identify the rules at each node.
pub open spec fn collision_eqs(l: List<(LVar, RuleACInst)>) -> List<(RuleACInst, RuleACInst)>
    decreases l.size(),
{
    match l {
        List::Nil => List::Nil,
        List::Cons(n, rest) => {
            proof {
                lemma_nodes_besides_size(*rest, n.0);
            }
            kept_eqs(n.1, rules_at(*rest, n.0)).then_all(
                collision_eqs(nodes_besides(*rest, n.0)),
            )
        },
    }
}

fn collect_first_nodes(l: &List<(LVar, RuleACInst)>) -> (r: List<(LVar, RuleACInst)>)
    ensures
        r == first_nodes(*l),
    decreases l.size(),
{
    match l {
        List::Nil => List::Nil,
        List::Cons(n, rest) => {
            proof {
                lemma_nodes_besides_size(**rest, n.0);
            }
            let others = collect_nodes_besides(rest, &n.0);
            List::Cons(n.dup(), Box::new(collect_first_nodes(&others)))
        },
    }
}

fn collect_collision_eqs(l: &List<(LVar, RuleACInst)>) -> (r: List<(RuleACInst, RuleACInst)>)
    ensures
        r == collision_eqs(*l),
    decreases l.size(),
{
    match l {
        List::Nil => List::Nil,
        List::Cons(n, rest) => {
            proof {
                lemma_nodes_besides_size(**rest, n.0);
            }
            let others = collect_nodes_besides(rest, &n.0);
            let here = collect_kept_eqs(&n.1, &collect_rules_at(rest, &n.0));
            here.concat(collect_collision_eqs(&others))
        },
    }
}

impl<'a> Reduction<'a> {
    /// The system that is checked for reducible terms: none where no symbol is
    /// reducible.
    pub open spec fn checked(self) -> Option<System> {
        if self.ctx.reducible is Nil {
            None
        } else {
            Some(self.sys)
        }
    }

    pub fn get_checked(&self) -> (r: Option<System>)
        ensures
            r == self.checked(),
    {
        if self.ctx.reducible.is_empty() {
            None
        } else {
            Some(self.sys.dup())
        }
    }

    /// The question for the unifiers of the equations.
    pub open spec fn unifier_query(self, eqs: List<(Term, Term)>) -> AddEqsQuery {
        AddEqsQuery {
            store: self.sys.eq_store,
            eqs,
            avoid: system_max(self.sys),
            next: self.supply.next,
        }
    }

    /// The reduction after the store has been simplified.
    pub open spec fn store_simplified(self, checked: Option<System>) -> Answered<Self> {
        match simplified(self.ctx, self.sys.eq_store, checked, self.supply.next) {
            Err(q) => Err(q),
            Ok(a) => Ok(self.with_store(a.store).at(a.next)),
        }
    }

    /// The reduction after the disjunction numbered `id` has been split.  Of
    /// the resulting stores those without a solution are dropped; the supply
    /// goes on past the indices of all of them.
    pub open spec fn split_done(self, id: u64) -> Answered<(Self, SolveOutcome)> {
        let base = self.supply.next;
        match split_stores(self.ctx, self.sys.eq_store, id) {
            Err(q) => Err(q),
            Ok(None) => Ok((self.with_store(EquationStore::none()), SolveOutcome::Failed)),
            Ok(Some(arms)) => match simplified_arms(self.ctx, arms, self.checked(), base, base) {
                Err(q) => Err(q),
                Ok(a) => {
                    let past = Reduction {
                        supply: Supply { next: a.last }.above(minus(a.high, 1)),
                        ..self
                    };
                    match a.live {
                        List::Nil => Ok(
                            (
                                past.with_store(EquationStore::none().falsified()),
                                SolveOutcome::Contradictory,
                            ),
                        ),
                        List::Cons(store, rest) => if *rest is Nil {
                            Ok(
                                (
                                    past.with_store(store).touched(),
                                    SolveOutcome::Linear(ChangeIndicator::Changed),
                                ),
                            )
                        } else {
                            Ok(
                                (
                                    past.with_store(EquationStore::none()).touched(),
                                    SolveOutcome::Cases(a.live),
                                ),
                            )
                        },
                    }
                },
            },
        }
    }

    /// The reduction after the unifiers have been added to the store.
    pub open spec fn eqs_added(self, split: Option<u64>, strategy: SplitStrategy) -> Answered<
        (Self, SolveOutcome),
    > {
        match (split, strategy) {
            (Some(id), SplitStrategy::SplitNow) => self.split_done(id),
            _ => match self.store_simplified(self.checked()) {
                Err(q) => Err(q),
                Ok(red) => if red.sys.eq_store.contradictory {
                    Ok((red, SolveOutcome::Contradictory))
                } else {
                    let kept = match split {
                        Some(id) => red.goal_inserted(Goal::Split(id), false),
                        None => red,
                    };
                    Ok((kept.touched(), SolveOutcome::Linear(ChangeIndicator::Changed)))
                },
            },
        }
    }

    /// The reduction after the equations between terms have been solved.
    #[verifier::opaque]
    pub open spec fn term_eqs(self, strategy: SplitStrategy, eqs: List<(Term, Term)>) -> Answered<
        (Self, SolveOutcome),
    > {
        let pending = nontrivial(eqs);
        if pending is Nil {
            Ok((self, SolveOutcome::Linear(ChangeIndicator::Unchanged)))
        } else {
            let q = self.unifier_query(pending);
            match find(self.ctx.answers.add_eqs, q) {
                None => Err(Query::AddEqs(q)),
                Some(AddEqsAnswer::Failed) => Ok((self, SolveOutcome::Failed)),
                Some(AddEqsAnswer::Added(store, split, next)) => self.with_store(store).at(
                    next,
                ).eqs_added(split, strategy),
            }
        }
    }

    fn simp_own_store(&mut self, checked: Option<System>) -> (r: Answered<()>)
        ensures
            match old(self).store_simplified(checked) {
                Ok(red) => r == Ok::<(), Query>(()) && *final(self) == red,
                Err(q) => r == Err::<(), Query>(q),
            },
    {
        match simp_store(self.ctx, self.sys.eq_store.dup(), checked, self.supply.next) {
            Err(q) => Err(q),
            Ok(a) => {
                self.sys.eq_store = a.store;
                self.supply = Supply { next: a.next };
                Ok(())
            },
        }
    }

    fn split_now(&mut self, id: u64) -> (r: Answered<SolveOutcome>)
        ensures
            ends(old(self).split_done(id), *final(self), r),
    {
        let base: u64 = self.supply.next;
        let checked = self.get_checked();
        let arms = match perform_split(self.ctx, &self.sys.eq_store, id) {
            Err(q) => {
                return Err(q);
            },
            Ok(None) => {
                self.sys.eq_store = EquationStore::empty();
                return Ok(SolveOutcome::Failed);
            },
            Ok(Some(arms)) => arms,
        };
        let a = match simp_arms(self.ctx, &arms, &checked, base, base) {
            Err(q) => {
                return Err(q);
            },
            Ok(a) => a,
        };
        let high: u64 = a.high;
        self.supply = Supply { next: a.last };
        self.supply.ensure_above(high.saturating_sub(1));
        match a.live {
            List::Nil => {
                self.sys.eq_store = EquationStore::empty().set_false();
                Ok(SolveOutcome::Contradictory)
            },
            List::Cons(store, rest) => {
                self.changed = ChangeIndicator::Changed;
                if rest.is_empty() {
                    self.sys.eq_store = store;
                    Ok(SolveOutcome::Linear(ChangeIndicator::Changed))
                } else {
                    self.sys.eq_store = EquationStore::empty();
                    Ok(SolveOutcome::Cases(List::Cons(store, rest)))
                }
            },
        }
    }

    /// Solves equations between terms.
    pub fn solve_term_eqs(&mut self, strategy: SplitStrategy, eqs: &List<(Term, Term)>) -> (r:
        Answered<SolveOutcome>)
        ensures
            ends(old(self).term_eqs(strategy, *eqs), *final(self), r),
    {
        proof {
            reveal(Reduction::term_eqs);
        }
        let pending = drop_trivial(eqs);
        if pending.is_empty() {
            return Ok(SolveOutcome::Linear(ChangeIndicator::Unchanged));
        }
        let q = AddEqsQuery {
            store: self.sys.eq_store.dup(),
            eqs: pending,
            avoid: bounds_max(&self.sys),
            next: self.supply.next,
        };
        let (store, split, next) = match look_up(&self.ctx.answers.add_eqs, &q) {
            None => {
                return Err(Query::AddEqs(q));
            },
            Some(AddEqsAnswer::Failed) => {
                return Ok(SolveOutcome::Failed);
            },
            Some(AddEqsAnswer::Added(store, split, next)) => (store, split, next),
        };
        self.sys.eq_store = store;
        self.supply = Supply { next };
        match (split, strategy) {
            (Some(id), SplitStrategy::SplitNow) => self.split_now(id),
            _ => {
                let checked = self.get_checked();
                match self.simp_own_store(checked) {
                    Err(q) => {
                        return Err(q);
                    },
                    Ok(()) => {},
                }
                if self.sys.eq_store.is_false() {
                    return Ok(SolveOutcome::Contradictory);
                }
                match split {
                    Some(id) => {
                        self.insert_goal(Goal::Split(id));
                    },
                    None => {},
                }
                self.changed = ChangeIndicator::Changed;
                Ok(SolveOutcome::Linear(ChangeIndicator::Changed))
            },
        }
    }

    /// The reduction after the equations between nodes have been solved.
    #[verifier::opaque]
    pub open spec fn node_eqs(self, eqs: List<(LVar, LVar)>) -> Answered<(Self, SolveOutcome)> {
        self.term_eqs(SplitStrategy::SplitNow, node_terms(eqs))
    }

    /// Solves equations between nodes.
    pub fn solve_node_id_eqs(&mut self, eqs: &List<(LVar, LVar)>) -> (r: Answered<SolveOutcome>)
        ensures
            ends(old(self).node_eqs(*eqs), *final(self), r),
    {
        proof {
            reveal(Reduction::node_eqs);
        }
        let l = to_node_terms(eqs);
        self.solve_term_eqs(SplitStrategy::SplitNow, &l)
    }

    /// The pending stores after the equations between nodes have been solved in
    /// each, with indices from `base` on.
    pub open spec fn arms_node_eqs(
        self,
        arms: List<EquationStore>,
        base: u64,
        eqs: List<(LVar, LVar)>,
    ) -> Answered<(Self, List<EquationStore>)>
        decreases arms,
    {
        match arms {
            List::Nil => Ok((self, List::Nil)),
            List::Cons(arm, rest) => match self.with_store(arm).at(base).node_eqs(eqs) {
                Err(q) => Err(q),
                Ok((red, _)) => match red.arms_node_eqs(*rest, base, eqs) {
                    Err(q) => Err(q),
                    Ok((end, more)) => Ok((end, List::Cons(red.sys.eq_store, Box::new(more)))),
                },
            },
        }
    }

    fn solve_arms_node_eqs(
        &mut self,
        arms: &List<EquationStore>,
        base: u64,
        eqs: &List<(LVar, LVar)>,
    ) -> (r: Answered<List<EquationStore>>)
        ensures
            ends(old(self).arms_node_eqs(*arms, base, *eqs), *final(self), r),
        decreases arms,
    {
        match arms {
            List::Nil => Ok(List::Nil),
            List::Cons(arm, rest) => {
                self.supply = Supply { next: base };
                self.sys.eq_store = arm.dup();
                match self.solve_node_id_eqs(eqs) {
                    Err(q) => {
                        return Err(q);
                    },
                    Ok(_) => {},
                }
                let updated = self.sys.eq_store.dup();
                match self.solve_arms_node_eqs(rest, base, eqs) {
                    Err(q) => Err(q),
                    Ok(more) => Ok(List::Cons(updated, Box::new(more))),
                }
            },
        }
    }

    /// The reduction after the equations between nodes have been solved in its
    /// store and in every pending one.
    #[verifier::opaque]
    pub open spec fn node_eqs_everywhere(self, eqs: List<(LVar, LVar)>) -> Answered<
        (Self, SolveOutcome),
    > {
        match self.node_eqs(eqs) {
            Err(q) => Err(q),
            Ok((red, out)) => if red.pending_eq_arms is Nil {
                Ok((red, out))
            } else {
                match red.arms_node_eqs(red.pending_eq_arms, self.supply.next, eqs) {
                    Err(q) => Err(q),
                    Ok((end, arms)) => Ok(
                        (
                            Reduction {
                                pending_eq_arms: arms,
                                supply: red.supply,
                                ..end.with_store(red.sys.eq_store)
                            },
                            out,
                        ),
                    ),
                }
            },
        }
    }

    /// Solves equations between nodes in the store and in every pending one.
    pub fn solve_node_id_eqs_broadcast(&mut self, eqs: &List<(LVar, LVar)>) -> (r: Answered<
        SolveOutcome,
    >)
        ensures
            ends(old(self).node_eqs_everywhere(*eqs), *final(self), r),
    {
        proof {
            reveal(Reduction::node_eqs_everywhere);
        }
        let base: u64 = self.supply.next;
        let out = match self.solve_node_id_eqs(eqs) {
            Err(q) => {
                return Err(q);
            },
            Ok(out) => out,
        };
        if self.pending_eq_arms.is_empty() {
            return Ok(out);
        }
        let end: u64 = self.supply.next;
        let store = self.sys.eq_store.dup();
        let arms = self.pending_eq_arms.dup();
        match self.solve_arms_node_eqs(&arms, base, eqs) {
            Err(q) => Err(q),
            Ok(more) => {
                self.sys.eq_store = store;
                self.pending_eq_arms = more;
                self.supply = Supply { next: end };
                Ok(out)
            },
        }
    }

    /// The reduction after the equations between facts have been solved.  Facts
    /// with different symbols or numbers of arguments are never equal.
    #[verifier::opaque]
    pub open spec fn fact_eqs(self, strategy: SplitStrategy, eqs: List<(Fact, Fact)>) -> Answered<
        (Self, SolveOutcome),
    > {
        if all_alike(eqs) {
            self.term_eqs(strategy, argument_eqs(eqs))
        } else {
            Ok((self.falsified(), SolveOutcome::Contradictory))
        }
    }

    /// Solves equations between facts.
    pub fn solve_fact_eqs(&mut self, strategy: SplitStrategy, eqs: &List<(Fact, Fact)>) -> (r:
        Answered<SolveOutcome>)
        ensures
            ends(old(self).fact_eqs(strategy, *eqs), *final(self), r),
    {
        proof {
            reveal(Reduction::fact_eqs);
        }
        if are_all_alike(eqs) {
            let flat = collect_argument_eqs(eqs);
            self.solve_term_eqs(strategy, &flat)
        } else {
            self.set_eq_store_false();
            Ok(SolveOutcome::Contradictory)
        }
    }

    /// The reduction after the equations between rule instances have been
    /// solved.  Instances of different rules are never equal.
    #[verifier::opaque]
    pub open spec fn rule_eqs(
        self,
        strategy: SplitStrategy,
        eqs: List<(RuleACInst, RuleACInst)>,
    ) -> Answered<(Self, SolveOutcome)> {
        if same_infos(eqs) {
            self.fact_eqs(strategy, component_eqs(eqs))
        } else {
            Ok((self.falsified(), SolveOutcome::Contradictory))
        }
    }

    /// Solves equations between rule instances.
    pub fn solve_rule_eqs(
        &mut self,
        strategy: SplitStrategy,
        eqs: &List<(RuleACInst, RuleACInst)>,
    ) -> (r: Answered<SolveOutcome>)
        ensures
            ends(old(self).rule_eqs(strategy, *eqs), *final(self), r),
    {
        proof {
            reveal(Reduction::rule_eqs);
        }
        if have_same_infos(eqs) {
            let l = collect_component_eqs(eqs);
            self.solve_fact_eqs(strategy, &l)
        } else {
            self.set_eq_store_false();
            Ok(SolveOutcome::Contradictory)
        }
    }

    /// The reduction with the given nodes.  Where a node occurs several times,
    /// its first rule is kept and equated with the others.
    #[verifier::opaque]
    pub open spec fn nodes_set(self, nodes: List<(LVar, RuleACInst)>) -> Answered<
        (Self, SolveOutcome),
    > {
        let eqs = collision_eqs(nodes);
        let red = self.on(System { nodes: first_nodes(nodes), ..self.sys });
        if eqs is Nil {
            Ok((red, SolveOutcome::Linear(ChangeIndicator::Unchanged)))
        } else {
            red.touched().rule_eqs(SplitStrategy::SplitLater, eqs)
        }
    }

    /// Replaces the nodes by the given ones, each node once.
    pub fn set_nodes(&mut self, nodes: &List<(LVar, RuleACInst)>) -> (r: Answered<SolveOutcome>)
        ensures
            ends(old(self).nodes_set(*nodes), *final(self), r),
    {
        proof {
            reveal(Reduction::nodes_set);
        }
        let eqs = collect_collision_eqs(nodes);
        self.sys.nodes = collect_first_nodes(nodes);
        if eqs.is_empty() {
            return Ok(SolveOutcome::Linear(ChangeIndicator::Unchanged));
        }
        self.changed = ChangeIndicator::Changed;
        self.solve_rule_eqs(SplitStrategy::SplitLater, &eqs)
    }

    /// The reduction after one of the variants of a rule has been required.
    #[verifier::opaque]
    pub open spec fn variants_required(self, substs: Option<List<Subst>>) -> Answered<
        (Self, bool),
    > {
        match substs {
            Some(List::Cons(s, rest)) => {
                let red = self.with_store(
                    self.sys.eq_store.with_disj(List::Cons(s, rest)),
                ).goal_inserted(Goal::Split(self.sys.eq_store.next_split), false);
                match red.store_simplified(None) {
                    Err(q) => Err(q),
                    Ok(end) => Ok((end.touched(), end.sys.eq_store.contradictory)),
                }
            },
            _ => Ok((self, false)),
        }
    }

    /// Requires one of the variants of a rule: adds them as a disjunction with
    /// a goal to split it.  Says whether the equations have no solution now.
    pub fn solve_rule_constraints(&mut self, substs: Option<List<Subst>>) -> (r: Answered<bool>)
        ensures
            ends(old(self).variants_required(substs), *final(self), r),
    {
        proof {
            reveal(Reduction::variants_required);
        }
        match substs {
            Some(List::Cons(s, rest)) => {
                let id: u64 = self.sys.eq_store.add_disj(List::Cons(s, rest));
                self.insert_goal(Goal::Split(id));
                match self.simp_own_store(None) {
                    Err(q) => {
                        return Err(q);
                    },
                    Ok(()) => {},
                }
                self.changed = ChangeIndicator::Changed;
                Ok(self.sys.eq_store.is_false())
            },
            _ => Ok(false),
        }
    }

    /// The reduction with the edge, once the facts at its ends are equal.
    #[verifier::opaque]
    pub open spec fn edge_inserted(
        self,
        e: Edge,
        conc: Option<Fact>,
        prem: Option<Fact>,
    ) -> Answered<(Self, SolveOutcome)> {
        let solved = match (conc, prem) {
            (Some(c), Some(p)) => if c == p {
                Ok((self, SolveOutcome::Linear(ChangeIndicator::Unchanged)))
            } else {
                self.fact_eqs(SplitStrategy::SplitNow, List::one((c, p)))
            },
            _ => Ok((self, SolveOutcome::Linear(ChangeIndicator::Unchanged))),
        };
        match solved {
            Err(q) => Err(q),
            Ok((red, out)) => if out.dead() {
                Ok((red.refuted(), out))
            } else {
                Ok((red.on(red.sys.with_edge(e)).touched_if(!red.sys.edges.has(e)), out))
            },
        }
    }

    fn insert_edge_tail(&mut self, e: Edge, conc: Option<Fact>, prem: Option<Fact>) -> (r: Answered<
        SolveOutcome,
    >)
        ensures
            ends(old(self).edge_inserted(e, conc, prem), *final(self), r),
    {
        proof {
            reveal(Reduction::edge_inserted);
        }
        let out = match (conc, prem) {
            (Some(c), Some(p)) => if c.same(&p) {
                SolveOutcome::Linear(ChangeIndicator::Unchanged)
            } else {
                match self.solve_fact_eqs(SplitStrategy::SplitNow, &List::single((c, p))) {
                    Err(q) => {
                        return Err(q);
                    },
                    Ok(out) => out,
                }
            },
            _ => SolveOutcome::Linear(ChangeIndicator::Unchanged),
        };
        if out.is_dead() {
            self.mark_contradictory();
            return Ok(out);
        }
        if self.sys.add_edge(e) {
            self.changed = ChangeIndicator::Changed;
        }
        Ok(out)
    }

    /// The conclusion at which the edge starts, if its node is there.
    pub open spec fn source_fact(self, e: Edge) -> Option<Fact> {
        match find(self.sys.nodes, e.src.0) {
            Some(ru) => ru.conclusions.nth(e.src.1 as nat),
            None => None,
        }
    }

    /// The premise at which the edge ends, if its node is there.
    pub open spec fn target_fact(self, e: Edge) -> Option<Fact> {
        match find(self.sys.nodes, e.tgt.0) {
            Some(ru) => ru.premises.nth(e.tgt.1 as nat),
            None => None,
        }
    }

    /// Adds an edge between two nodes, once the facts at its ends are equal.
    pub fn insert_edge_labeled(&mut self, e: Edge) -> (r: Answered<SolveOutcome>)
        ensures
            ends(
                old(self).edge_inserted(e, old(self).source_fact(e), old(self).target_fact(e)),
                *final(self),
                r,
            ),
    {
        let conc = match look_up(&self.sys.nodes, &e.src.0) {
            Some(ru) => ru.conclusions.get(e.src.1),
            None => None,
        };
        let prem = match look_up(&self.sys.nodes, &e.tgt.0) {
            Some(ru) => ru.premises.get(e.tgt.1),
            None => None,
        };
        self.insert_edge_tail(e, conc, prem)
    }

    /// Adds an edge, once the two given facts are equal.
    pub fn insert_edge_labeled_with_facts(&mut self, e: Edge, fa_conc: &Fact, fa_prem: &Fact) -> (r:
        Answered<SolveOutcome>)
        ensures
            ends(
                old(self).edge_inserted(e, Some(*fa_conc), Some(*fa_prem)),
                *final(self),
                r,
            ),
    {
        self.insert_edge_tail(e, Some(fa_conc.dup()), Some(fa_prem.dup()))
    }

    /// The reduction with `i` as the last node.
    #[verifier::opaque]
    pub open spec fn last_inserted(self, i: LVar) -> Answered<(Self, SolveOutcome)> {
        match self.sys.last_atom {
            None => Ok(
                (
                    self.on(System { last_atom: Some(i), ..self.sys }).touched(),
                    SolveOutcome::Linear(ChangeIndicator::Unchanged),
                ),
            ),
            Some(j) => if i == j {
                Ok((self, SolveOutcome::Linear(ChangeIndicator::Unchanged)))
            } else {
                match self.node_eqs(List::one((i, j))) {
                    Err(q) => Err(q),
                    Ok((red, out)) => if out.dead() {
                        Ok((red.refuted(), out))
                    } else {
                        Ok((red.touched(), out))
                    },
                }
            },
        }
    }

    /// Makes `i` the last node: equal to the one that was last before.
    pub fn insert_last(&mut self, i: &LVar) -> (r: Answered<SolveOutcome>)
        ensures
            ends(old(self).last_inserted(*i), *final(self), r),
    {
        proof {
            reveal(Reduction::last_inserted);
        }
        let j = match &self.sys.last_atom {
            None => None,
            Some(j) => Some(j.dup()),
        };
        match j {
            None => {
                self.sys.last_atom = Some(i.dup());
                self.changed = ChangeIndicator::Changed;
                Ok(SolveOutcome::Linear(ChangeIndicator::Unchanged))
            },
            Some(j) => if i.same(&j) {
                Ok(SolveOutcome::Linear(ChangeIndicator::Unchanged))
            } else {
                match self.solve_node_id_eqs(&List::single((i.dup(), j))) {
                    Err(q) => Err(q),
                    Ok(out) => {
                        if out.is_dead() {
                            self.mark_contradictory();
                        } else {
                            self.changed = ChangeIndicator::Changed;
                        }
                        Ok(out)
                    },
                }
            },
        }
    }
}

} // verus!
