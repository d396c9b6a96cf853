//! Constraint systems.
use crate::constraints::{Edge, EquationStore, Goal, GoalStatus, LessAtom, SubtermStore};
use crate::facts::RuleACInst;
use crate::guarded::{bottom, gfalse, Guarded};
use crate::list::{find, look_up, List, Value};
use crate::term_ops::{after, next_after};
use crate::terms::LVar;
use crate::text::Text;
use vstd::prelude::*;

verus! {

/// A constraint system.
#[derive(Debug, PartialEq, Eq)]
pub struct System {
    pub nodes: List<(LVar, RuleACInst)>,
    pub edges: List<Edge>,
    pub less_atoms: List<LessAtom>,
    pub last_atom: Option<LVar>,
    pub goals: List<(Goal, GoalStatus)>,
    pub formulas: List<Guarded>,
    pub solved_formulas: List<Guarded>,
    pub lemmas: List<Guarded>,
    pub eq_store: EquationStore,
    pub subterm_store: SubtermStore,
    pub used_sources: List<Text>,
    pub next_goal_nr: u64,
}

impl Value for System {
    fn dup(&self) -> (copy: Self) {
        System {
            nodes: self.nodes.dup(),
            edges: self.edges.dup(),
            less_atoms: self.less_atoms.dup(),
            last_atom: self.last_atom.dup(),
            goals: self.goals.dup(),
            formulas: self.formulas.dup(),
            solved_formulas: self.solved_formulas.dup(),
            lemmas: self.lemmas.dup(),
            eq_store: self.eq_store.dup(),
            subterm_store: self.subterm_store.dup(),
            used_sources: self.used_sources.dup(),
            next_goal_nr: self.next_goal_nr,
        }
    }

    fn same(&self, other: &Self) -> (answer: bool) {
        self.next_goal_nr == other.next_goal_nr
            && self.nodes.same(&other.nodes)
            && self.edges.same(&other.edges)
            && self.less_atoms.same(&other.less_atoms)
            && self.last_atom.same(&other.last_atom)
            && self.goals.same(&other.goals)
            && self.formulas.same(&other.formulas)
            && self.solved_formulas.same(&other.solved_formulas)
            && self.lemmas.same(&other.lemmas)
            && self.eq_store.same(&other.eq_store)
            && self.subterm_store.same(&other.subterm_store)
            && self.used_sources.same(&other.used_sources)
    }
}

impl System {
    /// The system without constraints.
    pub open spec fn none() -> System {
        System {
            nodes: List::Nil,
            edges: List::Nil,
            less_atoms: List::Nil,
            last_atom: None,
            goals: List::Nil,
            formulas: List::Nil,
            solved_formulas: List::Nil,
            lemmas: List::Nil,
            eq_store: EquationStore::none(),
            subterm_store: SubtermStore::none(),
            used_sources: List::Nil,
            next_goal_nr: 0,
        }
    }

    pub fn empty() -> (r: System)
        ensures
            r == System::none(),
    {
        System {
            nodes: List::Nil,
            edges: List::Nil,
            less_atoms: List::Nil,
            last_atom: None,
            goals: List::Nil,
            formulas: List::Nil,
            solved_formulas: List::Nil,
            lemmas: List::Nil,
            eq_store: EquationStore::empty(),
            subterm_store: SubtermStore::empty(),
            used_sources: List::Nil,
            next_goal_nr: 0,
        }
    }

    /// Whether nothing has been derived yet.
    pub open spec fn initial(self) -> bool {
        self.solved_formulas is Nil && !self.formulas.has(bottom())
    }

    pub fn is_initial(&self) -> (r: bool)
        ensures
            r == self.initial(),
    {
        self.solved_formulas.is_empty() && !self.formulas.contains(&gfalse())
    }

    /// The system with a further node.
    pub open spec fn with_node(self, id: LVar, ru: RuleACInst) -> System {
        System { nodes: self.nodes.snoc((id, ru)), ..self }
    }

    pub fn add_node(&mut self, id: LVar, ru: RuleACInst)
        ensures
            *final(self) == old(self).with_node(id, ru),
    {
        self.nodes = self.nodes.with_last((id, ru));
    }

    /// The system with the edge `e`; an edge is kept once.
    pub open spec fn with_edge(self, e: Edge) -> System {
        if self.edges.has(e) {
            self
        } else {
            System { edges: self.edges.snoc(e), ..self }
        }
    }

    /// Adds an edge; says whether it is new.
    pub fn add_edge(&mut self, e: Edge) -> (is_new: bool)
        ensures
            *final(self) == old(self).with_edge(e),
            is_new == !old(self).edges.has(e),
    {
        if self.edges.contains(&e) {
            false
        } else {
            self.edges = self.edges.with_last(e);
            true
        }
    }

    /// The system with the ordering `l`; a pair of nodes is ordered once.
    pub open spec fn with_less(self, l: LessAtom) -> System {
        if orders(self.less_atoms, l.smaller, l.larger) {
            self
        } else {
            System { less_atoms: self.less_atoms.snoc(l), ..self }
        }
    }

    /// Adds an ordering; says whether it is new.
    pub fn add_less(&mut self, l: LessAtom) -> (is_new: bool)
        ensures
            *final(self) == old(self).with_less(l),
            is_new == !orders(old(self).less_atoms, l.smaller, l.larger),
    {
        if does_order(&self.less_atoms, &l.smaller, &l.larger) {
            false
        } else {
            self.less_atoms = self.less_atoms.with_last(l);
            true
        }
    }

    /// The system with the goal `g`.  A new goal gets the next number; a goal
    /// that is there already keeps its number and stays a loop breaker.
    pub open spec fn with_goal(self, g: Goal, looping: bool) -> System {
        let status = GoalStatus { solved: false, looping, nr: self.next_goal_nr };
        System {
            goals: put_goal(self.goals, g, status),
            next_goal_nr: after(self.next_goal_nr),
            ..self
        }
    }

    /// Adds a goal; says whether it is new.
    pub fn add_goal_with_loop_flag(&mut self, g: Goal, looping: bool) -> (is_new: bool)
        ensures
            *final(self) == old(self).with_goal(g, looping),
            is_new == (find(old(self).goals, g) is None),
    {
        let status = GoalStatus { solved: false, looping, nr: self.next_goal_nr };
        let is_new = match look_up(&self.goals, &g) {
            Some(_) => false,
            None => true,
        };
        self.goals = set_goal(&self.goals, &g, &status);
        self.next_goal_nr = next_after(self.next_goal_nr);
        is_new
    }

    /// Adds a goal that breaks no loop.
    pub fn add_goal(&mut self, g: Goal) -> (is_new: bool)
        ensures
            *final(self) == old(self).with_goal(g, false),
            is_new == (find(old(self).goals, g) is None),
    {
        self.add_goal_with_loop_flag(g, false)
    }
}

/// Whether `smaller` is ordered before `larger`.
pub open spec fn orders(l: List<LessAtom>, smaller: LVar, larger: LVar) -> bool
    decreases l,
{
    match l {
        List::Nil => false,
        List::Cons(a, rest) => (a.smaller == smaller && a.larger == larger) || orders(
            *rest,
            smaller,
            larger,
        ),
    }
}

pub fn does_order(l: &List<LessAtom>, smaller: &LVar, larger: &LVar) -> (r: bool)
    ensures
        r == orders(*l, *smaller, *larger),
    decreases l,
{
    match l {
        List::Nil => false,
        List::Cons(a, rest) => (a.smaller.same(smaller) && a.larger.same(larger)) || does_order(
            rest,
            smaller,
            larger,
        ),
    }
}

/// The status of a goal that is recorded twice: solved or a loop breaker where
/// one of the two is, and as old as the older one.
pub open spec fn combined(a: GoalStatus, b: GoalStatus) -> GoalStatus {
    GoalStatus {
        solved: a.solved || b.solved,
        looping: a.looping || b.looping,
        nr: if a.nr <= b.nr {
            a.nr
        } else {
            b.nr
        },
    }
}

pub fn combine_goal_status(a: &GoalStatus, b: &GoalStatus) -> (r: GoalStatus)
    ensures
        r == combined(*a, *b),
{
    let nr: u64 = if a.nr <= b.nr {
        a.nr
    } else {
        b.nr
    };
    GoalStatus { solved: a.solved || b.solved, looping: a.looping || b.looping, nr }
}

/// The goals with `g`: at its place with the combined status where it is there
/// already, else at the end.
pub open spec fn put_goal(
    goals: List<(Goal, GoalStatus)>,
    g: Goal,
    status: GoalStatus,
) -> List<(Goal, GoalStatus)>
    decreases goals,
{
    match goals {
        List::Nil => List::one((g, status)),
        List::Cons(entry, rest) => if entry.0 == g {
            List::Cons((g, combined(entry.1, status)), rest)
        } else {
            List::Cons(entry, Box::new(put_goal(*rest, g, status)))
        },
    }
}

pub fn set_goal(goals: &List<(Goal, GoalStatus)>, g: &Goal, status: &GoalStatus) -> (r: List<
    (Goal, GoalStatus),
>)
    ensures
        r == put_goal(*goals, *g, *status),
    decreases goals,
{
    match goals {
        List::Nil => List::single((g.dup(), status.dup())),
        List::Cons(entry, rest) => if entry.0.same(g) {
            List::Cons((g.dup(), combine_goal_status(&entry.1, status)), Box::new(rest.dup()))
        } else {
            List::Cons(entry.dup(), Box::new(set_goal(rest, g, status)))
        },
    }
}

} // verus!
