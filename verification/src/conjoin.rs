//! Adding the constraints of another system.
use crate::constraints::{join, joined, EqDisj, EquationStore, Goal, GoalStatus, LessAtom};
use crate::context::{Answered, Query};
use crate::guarded::{normal, Guarded};
use crate::list::{List, Value};
use crate::reduction::{ends, ChangeIndicator, Reduction, SolveOutcome, SplitStrategy};
use crate::system::System;
use crate::term_ops::Subst;
use crate::terms::Term;
use vstd::prelude::*;

verus! {

/// The goals with the first entry of `g` marked as solved.
pub open spec fn entry_solved(l: List<(Goal, GoalStatus)>, g: Goal) -> List<(Goal, GoalStatus)>
    decreases l,
{
    match l {
        List::Nil => List::Nil,
        List::Cons(e, rest) => if e.0 == g {
            List::Cons((g, GoalStatus { solved: true, ..e.1 }), rest)
        } else {
            List::Cons(e, Box::new(entry_solved(*rest, g)))
        },
    }
}

pub fn solve_entry(l: &List<(Goal, GoalStatus)>, g: &Goal) -> (r: List<(Goal, GoalStatus)>)
    ensures
        r == entry_solved(*l, *g),
    decreases l,
{
    match l {
        List::Nil => List::Nil,
        List::Cons(e, rest) => if e.0.same(g) {
            let status = GoalStatus { solved: true, looping: e.1.looping, nr: e.1.nr };
            List::Cons((g.dup(), status), Box::new(rest.dup()))
        } else {
            List::Cons(e.dup(), Box::new(solve_entry(rest, g)))
        },
    }
}

/// The bindings as equations.
pub open spec fn subst_eqs(s: Subst) -> List<(Term, Term)>
    decreases s,
{
    match s {
        List::Nil => List::Nil,
        List::Cons(b, rest) => List::Cons((Term::Var(b.0), b.1), Box::new(subst_eqs(*rest))),
    }
}

fn to_subst_eqs(s: &Subst) -> (r: List<(Term, Term)>)
    ensures
        r == subst_eqs(*s),
    decreases s,
{
    match s {
        List::Nil => List::Nil,
        List::Cons(b, rest) => List::Cons(
            (Term::Var(b.0.dup()), b.1.dup()),
            Box::new(to_subst_eqs(rest)),
        ),
    }
}

/// The system with the goal of another system, splits left aside.
pub open spec fn with_foreign_goal(sys: System, g: Goal, status: GoalStatus) -> System {
    if g is Split {
        sys
    } else {
        let more = sys.with_goal(g, status.looping);
        if status.solved {
            System { goals: entry_solved(more.goals, g), ..more }
        } else {
            more
        }
    }
}

/// The system with the goals of another system.
pub open spec fn with_foreign_goals(sys: System, l: List<(Goal, GoalStatus)>) -> System
    decreases l,
{
    match l {
        List::Nil => sys,
        List::Cons(g, rest) => with_foreign_goals(with_foreign_goal(sys, g.0, g.1), *rest),
    }
}

fn add_foreign_goals(sys: &mut System, l: &List<(Goal, GoalStatus)>)
    ensures
        *final(sys) == with_foreign_goals(*old(sys), *l),
    decreases l,
{
    match l {
        List::Nil => {},
        List::Cons(g, rest) => {
            let splits = match &g.0 {
                Goal::Split(_) => true,
                _ => false,
            };
            if !splits {
                sys.add_goal_with_loop_flag(g.0.dup(), g.1.looping);
                if g.1.solved {
                    sys.goals = solve_entry(&sys.goals, &g.0);
                }
            }
            add_foreign_goals(sys, rest);
        },
    }
}

impl<'a> Reduction<'a> {
    /// The reduction with the solved formulas, the lemmas and the edges of
    /// another system.
    pub open spec fn sets_joined(self, other: System) -> Self {
        self.on(
            System {
                solved_formulas: joined(self.sys.solved_formulas, other.solved_formulas),
                lemmas: joined(self.sys.lemmas, other.lemmas),
                edges: joined(self.sys.edges, other.edges),
                ..self.sys
            },
        )
    }

    /// The reduction with the orderings.
    pub open spec fn lesses_inserted(self, l: List<LessAtom>) -> Self
        decreases l,
    {
        match l {
            List::Nil => self,
            List::Cons(a, rest) => self.less_inserted(a).lesses_inserted(*rest),
        }
    }

    fn insert_lesses(&mut self, l: &List<LessAtom>)
        ensures
            *final(self) == old(self).lesses_inserted(*l),
        decreases l,
    {
        match l {
            List::Nil => {},
            List::Cons(a, rest) => {
                self.insert_less(a.dup());
                self.insert_lesses(rest);
            },
        }
    }

    /// The reduction in which the formulas hold.
    pub open spec fn stored_inserted(self, l: List<Guarded>) -> Answered<Self>
        decreases l,
    {
        match l {
            List::Nil => Ok(self),
            List::Cons(g, rest) => match self.formula_inserted(normal(g), true) {
                Err(q) => Err(q),
                Ok(red) => red.stored_inserted(*rest),
            },
        }
    }

    fn insert_stored(&mut self, l: &List<Guarded>) -> (r: Answered<()>)
        ensures
            match old(self).stored_inserted(*l) {
                Ok(red) => r == Ok::<(), Query>(()) && *final(self) == red,
                Err(q) => r == Err::<(), Query>(q),
            },
        decreases l,
    {
        match l {
            List::Nil => Ok(()),
            List::Cons(g, rest) => match self.insert_formula(g) {
                Err(q) => Err(q),
                Ok(()) => self.insert_stored(rest),
            },
        }
    }

    /// The reduction with the disjunctions under new numbers.
    pub open spec fn disjs_added(self, l: List<EqDisj>) -> Self
        decreases l,
    {
        match l {
            List::Nil => self,
            List::Cons(d, rest) => self.with_store(
                self.sys.eq_store.with_disj(d.substs),
            ).disjs_added(*rest),
        }
    }

    /// The numbers that the disjunctions get.
    pub open spec fn disj_ids(self, l: List<EqDisj>) -> List<u64>
        decreases l,
    {
        match l {
            List::Nil => List::Nil,
            List::Cons(d, rest) => List::Cons(
                self.sys.eq_store.next_split,
                Box::new(
                    self.with_store(self.sys.eq_store.with_disj(d.substs)).disj_ids(*rest),
                ),
            ),
        }
    }

    fn add_disjs(&mut self, l: &List<EqDisj>) -> (ids: List<u64>)
        ensures
            *final(self) == old(self).disjs_added(*l),
            ids == old(self).disj_ids(*l),
        decreases l,
    {
        match l {
            List::Nil => List::Nil,
            List::Cons(d, rest) => {
                let id: u64 = self.sys.eq_store.add_disj(d.substs.dup());
                let more = self.add_disjs(rest);
                List::Cons(id, Box::new(more))
            },
        }
    }

    /// The reduction with goals to split the disjunctions.
    pub open spec fn splits_inserted(self, ids: List<u64>) -> Self
        decreases ids,
    {
        match ids {
            List::Nil => self,
            List::Cons(id, rest) => self.goal_inserted(Goal::Split(id), false).splits_inserted(
                *rest,
            ),
        }
    }

    fn insert_splits(&mut self, ids: &List<u64>)
        ensures
            *final(self) == old(self).splits_inserted(*ids),
        decreases ids,
    {
        match ids {
            List::Nil => {},
            List::Cons(id, rest) => {
                self.insert_goal(Goal::Split(*id));
                self.insert_splits(rest);
            },
        }
    }

    /// The reduction with a pending system for each further store: `base` with
    /// that store, substituted.
    pub open spec fn arms_pending(self, base: System, arms: List<EquationStore>) -> Answered<Self>
        decreases arms,
    {
        match arms {
            List::Nil => Ok(self),
            List::Cons(arm, rest) => {
                let start = Reduction::inheriting(
                    self.ctx,
                    System { eq_store: arm, ..base },
                    self.supply.next,
                );
                match start.system_substituted() {
                    Err(q) => Err(q),
                    Ok(end) => {
                        let red = if end.sys.eq_store.contradictory {
                            self
                        } else {
                            Reduction {
                                pending_conjoin_arm_systems: self.pending_conjoin_arm_systems.snoc(
                                    (end.sys, end.supply.next),
                                ),
                                ..self
                            }
                        };
                        red.arms_pending(base, *rest)
                    },
                }
            },
        }
    }

    fn set_arms_pending(&mut self, base: &System, arms: &List<EquationStore>) -> (r: Answered<()>)
        ensures
            match old(self).arms_pending(*base, *arms) {
                Ok(red) => r == Ok::<(), Query>(()) && *final(self) == red,
                Err(q) => r == Err::<(), Query>(q),
            },
        decreases arms,
    {
        match arms {
            List::Nil => Ok(()),
            List::Cons(arm, rest) => {
                let mut arm_sys = base.dup();
                arm_sys.eq_store = arm.dup();
                let mut arm_red = Reduction::new_inheriting(self.ctx, arm_sys, self.supply.next);
                match arm_red.subst_system() {
                    Err(q) => {
                        return Err(q);
                    },
                    Ok(()) => {},
                }
                if !arm_red.sys.eq_store.is_false() {
                    let next: u64 = arm_red.supply.next;
                    self.pending_conjoin_arm_systems = self.pending_conjoin_arm_systems.with_last(
                        (arm_red.sys, next),
                    );
                }
                self.set_arms_pending(base, rest)
            },
        }
    }

    /// The reduction after the substitution has been applied at the end.
    pub open spec fn conjoin_finished(self) -> Answered<(Self, SolveOutcome)> {
        match self.system_substituted() {
            Err(q) => Err(q),
            Ok(red) => Ok((red, SolveOutcome::Linear(ChangeIndicator::Changed))),
        }
    }

    /// The reduction with the equations and the subterm constraints of another
    /// system.
    pub open spec fn stores_conjoined(self, other: System) -> Answered<(Self, SolveOutcome)> {
        let added = self.disjs_added(other.eq_store.conj);
        let merged = added.on(
            System {
                subterm_store: added.sys.subterm_store.merged(other.subterm_store),
                ..added.sys
            },
        );
        let ready = merged.splits_inserted(self.disj_ids(other.eq_store.conj));
        match ready.term_eqs(SplitStrategy::SplitNow, subst_eqs(other.eq_store.subst)) {
            Err(q) => Err(q),
            Ok((red, out)) => if out.dead() {
                Ok((red, out))
            } else {
                match out {
                    SolveOutcome::Cases(List::Cons(first, rest)) => match red.with_store(
                        first,
                    ).arms_pending(ready.sys, *rest) {
                        Err(q) => Err(q),
                        Ok(end) => end.conjoin_finished(),
                    },
                    _ => red.conjoin_finished(),
                }
            },
        }
    }

    /// The reduction with all but the sets and the last node of another system.
    pub open spec fn rest_conjoined(self, other: System) -> Answered<(Self, SolveOutcome)> {
        let ordered = self.lesses_inserted(other.less_atoms);
        let with_goals = ordered.on(with_foreign_goals(ordered.sys, other.goals.sorted()));
        match with_goals.stored_inserted(other.formulas) {
            Err(q) => Err(q),
            Ok(red) => match red.nodes_set(other.nodes.then_all(red.sys.nodes)) {
                Err(q) => Err(q),
                Ok((end, out)) => if out.dead() {
                    Ok((end, out))
                } else {
                    end.stores_conjoined(other)
                },
            },
        }
    }

    /// The reduction with the constraints of another system.  It stops at the
    /// first equation that has no solution.
    #[verifier::opaque]
    pub open spec fn conjoined(self, other: System) -> Answered<(Self, SolveOutcome)> {
        let sets = self.sets_joined(other);
        let last = match other.last_atom {
            Some(i) => sets.last_inserted(i),
            None => Ok((sets, SolveOutcome::Linear(ChangeIndicator::Unchanged))),
        };
        match last {
            Err(q) => Err(q),
            Ok((red, out)) => if out.dead() {
                Ok((red, out))
            } else {
                red.rest_conjoined(other)
            },
        }
    }

    fn finish_conjoin(&mut self) -> (r: Answered<SolveOutcome>)
        ensures
            ends(old(self).conjoin_finished(), *final(self), r),
    {
        match self.subst_system() {
            Err(q) => Err(q),
            Ok(()) => Ok(SolveOutcome::Linear(ChangeIndicator::Changed)),
        }
    }

    fn conjoin_stores(&mut self, other: &System) -> (r: Answered<SolveOutcome>)
        ensures
            ends(old(self).stores_conjoined(*other), *final(self), r),
    {
        let ids = self.add_disjs(&other.eq_store.conj);
        self.sys.subterm_store.conjoin(&other.subterm_store);
        self.insert_splits(&ids);
        let eqs = to_subst_eqs(&other.eq_store.subst);
        let base = self.sys.dup();
        let out = match self.solve_term_eqs(SplitStrategy::SplitNow, &eqs) {
            Err(q) => {
                return Err(q);
            },
            Ok(out) => out,
        };
        if out.is_dead() {
            return Ok(out);
        }
        match out {
            SolveOutcome::Cases(List::Cons(first, rest)) => {
                self.sys.eq_store = first;
                match self.set_arms_pending(&base, &rest) {
                    Err(q) => {
                        return Err(q);
                    },
                    Ok(()) => {},
                }
            },
            _ => {},
        }
        self.finish_conjoin()
    }

    fn conjoin_rest(&mut self, other: &System) -> (r: Answered<SolveOutcome>)
        ensures
            ends(old(self).rest_conjoined(*other), *final(self), r),
    {
        self.insert_lesses(&other.less_atoms);
        add_foreign_goals(&mut self.sys, &other.goals.sort());
        match self.insert_stored(&other.formulas) {
            Err(q) => {
                return Err(q);
            },
            Ok(()) => {},
        }
        let nodes = other.nodes.concat(self.sys.nodes.dup());
        let out = match self.set_nodes(&nodes) {
            Err(q) => {
                return Err(q);
            },
            Ok(out) => out,
        };
        if out.is_dead() {
            return Ok(out);
        }
        self.conjoin_stores(other)
    }

    /// Adds the constraints of another system.
    pub fn conjoin_system(&mut self, sys: &System) -> (r: Answered<SolveOutcome>)
        ensures
            ends(old(self).conjoined(*sys), *final(self), r),
    {
        proof {
            reveal(Reduction::conjoined);
        }
        self.sys.solved_formulas = join(self.sys.solved_formulas.dup(), &sys.solved_formulas);
        self.sys.lemmas = join(self.sys.lemmas.dup(), &sys.lemmas);
        self.sys.edges = join(self.sys.edges.dup(), &sys.edges);
        match &sys.last_atom {
            Some(i) => {
                let out = match self.insert_last(i) {
                    Err(q) => {
                        return Err(q);
                    },
                    Ok(out) => out,
                };
                if out.is_dead() {
                    return Ok(out);
                }
            },
            None => {},
        }
        self.conjoin_rest(sys)
    }
}

} // verus!
