//! Constraints: edges, orderings, goals and the stores of equations and
//! subterm relations.
use crate::facts::{Fact, RuleACInst};
use crate::guarded::{
    lemma_guardeds_asymmetric,
    lemma_guardeds_cotransitive,
    lemma_guardeds_total,
    guardeds_are_below,
    guardeds_below,
    Guarded,
};
use crate::list::{List, Ordered, Total, Value};
use crate::term_ops::{after, next_after, Subst};
use crate::terms::{LVar, Term};
use vstd::prelude::*;

verus! {

/// A node's conclusion: the node and the position of the conclusion.
pub type NodeConc = (LVar, u64);

/// A node's premise: the node and the position of the premise.
pub type NodePrem = (LVar, u64);

/// Why a node precedes another.
#[derive(Debug, Clone, Copy, PartialEq, Eq, Structural)]
pub enum Reason {
    Adversary,
    Formula,
    Fresh,
    InjectiveFacts,
    NormalForm,
}

/// An edge from a conclusion to the premise that it supplies.
#[derive(Debug, PartialEq, Eq)]
pub struct Edge {
    pub src: NodeConc,
    pub tgt: NodePrem,
}

/// One node precedes another.
#[derive(Debug, PartialEq, Eq)]
pub struct LessAtom {
    pub smaller: LVar,
    pub larger: LVar,
    pub reason: Reason,
}

/// A goal.
#[derive(Debug, PartialEq, Eq)]
pub enum Goal {
    Action(LVar, Fact),
    Chain(NodeConc, NodePrem),
    Premise(NodePrem, Fact),
    Split(u64),
    Disj(List<Guarded>),
    Subterm(Term, Term),
}

/// The status of a goal: whether it is solved, whether it breaks a loop, and its
/// age.
#[derive(Debug, PartialEq, Eq)]
pub struct GoalStatus {
    pub solved: bool,
    pub looping: bool,
    pub nr: u64,
}

/// A disjunction of substitutions, one of which has to hold.
#[derive(Debug, PartialEq, Eq)]
pub struct EqDisj {
    pub split_id: u64,
    pub substs: List<Subst>,
}

/// The equations: a substitution that holds and disjunctions of further ones.
#[derive(Debug, PartialEq, Eq)]
pub struct EquationStore {
    pub subst: Subst,
    pub conj: List<EqDisj>,
    pub next_split: u64,
    pub contradictory: bool,
}

/// One term is a proper subterm of another.
#[derive(Debug, PartialEq, Eq)]
pub struct SubtermConstraint {
    pub small: Term,
    pub big: Term,
    pub propagated: bool,
}

/// The subterm constraints.  The negated ones are sorted and occur once.
#[derive(Debug, PartialEq, Eq)]
pub struct SubtermStore {
    pub subterms: List<SubtermConstraint>,
    pub solved_subterms: List<SubtermConstraint>,
    pub neg_subterms: List<(Term, Term)>,
    pub old_neg_subterms: List<(Term, Term)>,
    pub contradictory: bool,
}

impl Value for Edge {
    fn dup(&self) -> (copy: Self) {
        Edge { src: self.src.dup(), tgt: self.tgt.dup() }
    }

    fn same(&self, other: &Self) -> (answer: bool) {
        self.src.same(&other.src)
            && self.tgt.same(&other.tgt)
    }
}

impl Value for LessAtom {
    fn dup(&self) -> (copy: Self) {
        LessAtom { smaller: self.smaller.dup(), larger: self.larger.dup(), reason: self.reason }
    }

    fn same(&self, other: &Self) -> (answer: bool) {
        self.reason == other.reason
            && self.smaller.same(&other.smaller)
            && self.larger.same(&other.larger)
    }
}

impl Value for Goal {
    fn dup(&self) -> (copy: Self) {
        match self {
            Goal::Action(a, b) => Goal::Action(a.dup(), b.dup()),
            Goal::Chain(a, b) => Goal::Chain(a.dup(), b.dup()),
            Goal::Premise(a, b) => Goal::Premise(a.dup(), b.dup()),
            Goal::Split(a) => Goal::Split(*a),
            Goal::Disj(a) => Goal::Disj(a.dup()),
            Goal::Subterm(a, b) => Goal::Subterm(a.dup(), b.dup()),
        }
    }

    fn same(&self, other: &Self) -> (answer: bool) {
        match (self, other) {
            (Goal::Action(a, b), Goal::Action(p, q)) => a.same(p) && b.same(q),
            (Goal::Chain(a, b), Goal::Chain(p, q)) => a.same(p) && b.same(q),
            (Goal::Premise(a, b), Goal::Premise(p, q)) => a.same(p) && b.same(q),
            (Goal::Split(a), Goal::Split(p)) => *a == *p,
            (Goal::Disj(a), Goal::Disj(p)) => a.same(p),
            (Goal::Subterm(a, b), Goal::Subterm(p, q)) => a.same(p) && b.same(q),
            _ => false,
        }
    }
}

impl Value for GoalStatus {
    fn dup(&self) -> (copy: Self) {
        GoalStatus { solved: self.solved, looping: self.looping, nr: self.nr }
    }

    fn same(&self, other: &Self) -> (answer: bool) {
        self.solved == other.solved
            && self.looping == other.looping
            && self.nr == other.nr
    }
}

impl Value for EqDisj {
    fn dup(&self) -> (copy: Self) {
        EqDisj { split_id: self.split_id, substs: self.substs.dup() }
    }

    fn same(&self, other: &Self) -> (answer: bool) {
        self.split_id == other.split_id
            && self.substs.same(&other.substs)
    }
}

impl Value for EquationStore {
    fn dup(&self) -> (copy: Self) {
        EquationStore {
            subst: self.subst.dup(),
            conj: self.conj.dup(),
            next_split: self.next_split,
            contradictory: self.contradictory,
        }
    }

    fn same(&self, other: &Self) -> (answer: bool) {
        self.next_split == other.next_split
            && self.contradictory == other.contradictory
            && self.subst.same(&other.subst)
            && self.conj.same(&other.conj)
    }
}

impl Value for SubtermConstraint {
    fn dup(&self) -> (copy: Self) {
        SubtermConstraint {
            small: self.small.dup(),
            big: self.big.dup(),
            propagated: self.propagated,
        }
    }

    fn same(&self, other: &Self) -> (answer: bool) {
        self.propagated == other.propagated
            && self.small.same(&other.small)
            && self.big.same(&other.big)
    }
}

impl Value for SubtermStore {
    fn dup(&self) -> (copy: Self) {
        SubtermStore {
            subterms: self.subterms.dup(),
            solved_subterms: self.solved_subterms.dup(),
            neg_subterms: self.neg_subterms.dup(),
            old_neg_subterms: self.old_neg_subterms.dup(),
            contradictory: self.contradictory,
        }
    }

    fn same(&self, other: &Self) -> (answer: bool) {
        self.contradictory == other.contradictory
            && self.subterms.same(&other.subterms)
            && self.solved_subterms.same(&other.solved_subterms)
            && self.neg_subterms.same(&other.neg_subterms)
            && self.old_neg_subterms.same(&other.old_neg_subterms)
    }
}

impl Ordered for (LVar, u64) {
    open spec fn below(self, other: Self) -> bool {
        self.0.below(other.0) || (self.0 == other.0 && self.1 < other.1)
    }

    fn is_below(&self, other: &Self) -> (answer: bool) {
        self.0.is_below(&other.0) || (self.0.same(&other.0) && self.1 < other.1)
    }

    proof fn lemma_asymmetric(self, other: Self) {
        self.0.lemma_asymmetric(other.0);
    }

    proof fn lemma_cotransitive(self, mid: Self, other: Self) {
        self.0.lemma_total(mid.0);
        mid.0.lemma_total(other.0);
        if self.0.below(other.0) {
            self.0.lemma_cotransitive(mid.0, other.0);
        }
    }
}

impl Total for (LVar, u64) {
    proof fn lemma_total(self, other: Self) {
        self.0.lemma_total(other.0);
    }
}

impl Ordered for Edge {
    open spec fn below(self, other: Self) -> bool {
        self.src.below(other.src) || (self.src == other.src && self.tgt.below(other.tgt))
    }

    fn is_below(&self, other: &Self) -> (answer: bool) {
        self.src.is_below(&other.src) || (self.src.same(&other.src) && self.tgt.is_below(
            &other.tgt,
        ))
    }

    proof fn lemma_asymmetric(self, other: Self) {
        self.src.lemma_asymmetric(other.src);
        self.tgt.lemma_asymmetric(other.tgt);
    }

    proof fn lemma_cotransitive(self, mid: Self, other: Self) {
        self.src.lemma_total(mid.src);
        mid.src.lemma_total(other.src);
        if self.src.below(other.src) {
            self.src.lemma_cotransitive(mid.src, other.src);
        }
        self.tgt.lemma_total(mid.tgt);
        mid.tgt.lemma_total(other.tgt);
        if self.tgt.below(other.tgt) {
            self.tgt.lemma_cotransitive(mid.tgt, other.tgt);
        }
    }
}

impl Total for Edge {
    proof fn lemma_total(self, other: Self) {
        self.src.lemma_total(other.src);
        self.tgt.lemma_total(other.tgt);
    }
}

impl Ordered for LessAtom {
    open spec fn below(self, other: Self) -> bool {
        self.smaller.below(other.smaller) || (self.smaller == other.smaller && self.larger.below(
            other.larger,
        ))
    }

    fn is_below(&self, other: &Self) -> (answer: bool) {
        self.smaller.is_below(&other.smaller) || (self.smaller.same(&other.smaller)
            && self.larger.is_below(&other.larger))
    }

    proof fn lemma_asymmetric(self, other: Self) {
        self.smaller.lemma_asymmetric(other.smaller);
        self.larger.lemma_asymmetric(other.larger);
    }

    proof fn lemma_cotransitive(self, mid: Self, other: Self) {
        self.smaller.lemma_total(mid.smaller);
        mid.smaller.lemma_total(other.smaller);
        if self.smaller.below(other.smaller) {
            self.smaller.lemma_cotransitive(mid.smaller, other.smaller);
        }
        self.larger.lemma_total(mid.larger);
        mid.larger.lemma_total(other.larger);
        if self.larger.below(other.larger) {
            self.larger.lemma_cotransitive(mid.larger, other.larger);
        }
    }
}

impl Ordered for SubtermConstraint {
    open spec fn below(self, other: Self) -> bool {
        self.small.below(other.small) || (self.small == other.small && self.big.below(other.big))
    }

    fn is_below(&self, other: &Self) -> (answer: bool) {
        self.small.is_below(&other.small) || (self.small.same(&other.small) && self.big.is_below(
            &other.big,
        ))
    }

    proof fn lemma_asymmetric(self, other: Self) {
        self.small.lemma_asymmetric(other.small);
        self.big.lemma_asymmetric(other.big);
    }

    proof fn lemma_cotransitive(self, mid: Self, other: Self) {
        self.small.lemma_total(mid.small);
        mid.small.lemma_total(other.small);
        if self.small.below(other.small) {
            self.small.lemma_cotransitive(mid.small, other.small);
        }
        self.big.lemma_total(mid.big);
        mid.big.lemma_total(other.big);
        if self.big.below(other.big) {
            self.big.lemma_cotransitive(mid.big, other.big);
        }
    }
}

/// Nodes are ordered by their ids.
impl Ordered for (LVar, RuleACInst) {
    open spec fn below(self, other: Self) -> bool {
        self.0.below(other.0)
    }

    fn is_below(&self, other: &Self) -> (answer: bool) {
        self.0.is_below(&other.0)
    }

    proof fn lemma_asymmetric(self, other: Self) {
        self.0.lemma_asymmetric(other.0);
    }

    proof fn lemma_cotransitive(self, mid: Self, other: Self) {
        self.0.lemma_cotransitive(mid.0, other.0);
    }
}

impl Goal {
    pub open spec fn rank(self) -> u64 {
        match self {
            Goal::Action(_, _) => 0,
            Goal::Chain(_, _) => 1,
            Goal::Premise(_, _) => 2,
            Goal::Split(_) => 3,
            Goal::Disj(_) => 4,
            Goal::Subterm(_, _) => 5,
        }
    }

    fn get_rank(&self) -> (r: u64)
        ensures
            r == self.rank(),
    {
        match self {
            Goal::Action(_, _) => 0,
            Goal::Chain(_, _) => 1,
            Goal::Premise(_, _) => 2,
            Goal::Split(_) => 3,
            Goal::Disj(_) => 4,
            Goal::Subterm(_, _) => 5,
        }
    }
}

impl Ordered for Goal {
    open spec fn below(self, other: Self) -> bool {
        match (self, other) {
            (Goal::Action(i, f), Goal::Action(j, g)) => i.below(j) || (i == j && f.below(g)),
            (Goal::Chain(c, p), Goal::Chain(d, q)) => c.below(d) || (c == d && p.below(q)),
            (Goal::Premise(p, f), Goal::Premise(q, g)) => p.below(q) || (p == q && f.below(g)),
            (Goal::Split(i), Goal::Split(j)) => i < j,
            (Goal::Disj(l), Goal::Disj(m)) => guardeds_below(l, m),
            (Goal::Subterm(s, t), Goal::Subterm(u, v)) => s.below(u) || (s == u && t.below(v)),
            _ => self.rank() < other.rank(),
        }
    }

    fn is_below(&self, other: &Self) -> (answer: bool) {
        match (self, other) {
            (Goal::Action(i, f), Goal::Action(j, g)) => i.is_below(j) || (i.same(j)
                && f.is_below(g)),
            (Goal::Chain(c, p), Goal::Chain(d, q)) => c.is_below(d) || (c.same(d)
                && p.is_below(q)),
            (Goal::Premise(p, f), Goal::Premise(q, g)) => p.is_below(q) || (p.same(q)
                && f.is_below(g)),
            (Goal::Split(i), Goal::Split(j)) => *i < *j,
            (Goal::Disj(l), Goal::Disj(m)) => guardeds_are_below(l, m),
            (Goal::Subterm(s, t), Goal::Subterm(u, v)) => s.is_below(u) || (s.same(u)
                && t.is_below(v)),
            _ => self.get_rank() < other.get_rank(),
        }
    }

    proof fn lemma_asymmetric(self, other: Self) {
        match (self, other) {
            (Goal::Action(i, f), Goal::Action(j, g)) => {
                i.lemma_asymmetric(j);
                f.lemma_asymmetric(g);
            },
            (Goal::Chain(c, p), Goal::Chain(d, q)) => {
                c.lemma_asymmetric(d);
                p.lemma_asymmetric(q);
            },
            (Goal::Premise(p, f), Goal::Premise(q, g)) => {
                p.lemma_asymmetric(q);
                f.lemma_asymmetric(g);
            },
            (Goal::Disj(l), Goal::Disj(m)) => {
                lemma_guardeds_asymmetric(l, m);
            },
            (Goal::Subterm(s, t), Goal::Subterm(u, v)) => {
                (s, t).lemma_asymmetric((u, v));
            },
            _ => {},
        }
    }

    proof fn lemma_cotransitive(self, mid: Self, other: Self) {
        match (self, mid, other) {
            (Goal::Action(i, f), Goal::Action(j, g), Goal::Action(k, h)) => {
                i.lemma_total(j);
                j.lemma_total(k);
                if i.below(k) {
                    i.lemma_cotransitive(j, k);
                } else {
                    f.lemma_cotransitive(g, h);
                }
            },
            (Goal::Chain(c, p), Goal::Chain(d, q), Goal::Chain(e, r)) => {
                c.lemma_total(d);
                d.lemma_total(e);
                if c.below(e) {
                    c.lemma_cotransitive(d, e);
                } else {
                    p.lemma_cotransitive(q, r);
                }
            },
            (Goal::Premise(p, f), Goal::Premise(q, g), Goal::Premise(r, h)) => {
                p.lemma_total(q);
                q.lemma_total(r);
                if p.below(r) {
                    p.lemma_cotransitive(q, r);
                } else {
                    f.lemma_cotransitive(g, h);
                }
            },
            (Goal::Disj(l), Goal::Disj(m), Goal::Disj(n)) => {
                lemma_guardeds_cotransitive(l, m, n);
            },
            (Goal::Subterm(s, t), Goal::Subterm(u, v), Goal::Subterm(x, y)) => {
                (s, t).lemma_cotransitive((u, v), (x, y));
            },
            _ => {},
        }
    }
}

impl Total for Goal {
    proof fn lemma_total(self, other: Self) {
        match (self, other) {
            (Goal::Action(i, f), Goal::Action(j, g)) => {
                i.lemma_total(j);
                f.lemma_total(g);
            },
            (Goal::Chain(c, p), Goal::Chain(d, q)) => {
                c.lemma_total(d);
                p.lemma_total(q);
            },
            (Goal::Premise(p, f), Goal::Premise(q, g)) => {
                p.lemma_total(q);
                f.lemma_total(g);
            },
            (Goal::Disj(l), Goal::Disj(m)) => {
                lemma_guardeds_total(l, m);
            },
            (Goal::Subterm(s, t), Goal::Subterm(u, v)) => {
                (s, t).lemma_total((u, v));
            },
            _ => {},
        }
    }
}

/// Goals are ordered without regard to their status.
impl Ordered for (Goal, GoalStatus) {
    open spec fn below(self, other: Self) -> bool {
        self.0.below(other.0)
    }

    fn is_below(&self, other: &Self) -> (answer: bool) {
        self.0.is_below(&other.0)
    }

    proof fn lemma_asymmetric(self, other: Self) {
        self.0.lemma_asymmetric(other.0);
    }

    proof fn lemma_cotransitive(self, mid: Self, other: Self) {
        self.0.lemma_cotransitive(mid.0, other.0);
    }
}

impl EquationStore {
    /// The store without equations.
    pub open spec fn none() -> EquationStore {
        EquationStore {
            subst: List::Nil,
            conj: List::Nil,
            next_split: 0,
            contradictory: false,
        }
    }

    pub fn empty() -> (r: EquationStore)
        ensures
            r == EquationStore::none(),
    {
        EquationStore {
            subst: List::Nil,
            conj: List::Nil,
            next_split: 0,
            contradictory: false,
        }
    }

    /// Whether the equations have no solution.
    pub fn is_false(&self) -> (r: bool)
        ensures
            r == self.contradictory,
    {
        self.contradictory
    }

    /// The store, marked as having no solution.
    pub open spec fn falsified(self) -> EquationStore {
        EquationStore { contradictory: true, ..self }
    }

    pub fn set_false(self) -> (r: EquationStore)
        ensures
            r == self.falsified(),
    {
        EquationStore {
            subst: self.subst,
            conj: self.conj,
            next_split: self.next_split,
            contradictory: true,
        }
    }

    /// The store with a further disjunction under a new number.
    pub open spec fn with_disj(self, substs: List<Subst>) -> EquationStore {
        EquationStore {
            conj: self.conj.snoc(EqDisj { split_id: self.next_split, substs }),
            next_split: after(self.next_split),
            ..self
        }
    }

    /// Adds a disjunction and returns its number.
    pub fn add_disj(&mut self, substs: List<Subst>) -> (id: u64)
        ensures
            *final(self) == old(self).with_disj(substs),
            id == old(self).next_split,
    {
        let id: u64 = self.next_split;
        self.conj = self.conj.with_last(EqDisj { split_id: id, substs });
        self.next_split = next_after(id);
        id
    }
}

/// Whether a disjunction has the number `id`.
pub open spec fn split_exists(conj: List<EqDisj>, id: u64) -> bool
    decreases conj,
{
    match conj {
        List::Nil => false,
        List::Cons(d, rest) => d.split_id == id || split_exists(*rest, id),
    }
}

pub fn has_split(conj: &List<EqDisj>, id: u64) -> (r: bool)
    ensures
        r == split_exists(*conj, id),
    decreases conj,
{
    match conj {
        List::Nil => false,
        List::Cons(d, rest) => d.split_id == id || has_split(rest, id),
    }
}

/// The list `l`, followed by those of `more` that it does not hold yet.
pub open spec fn joined<T>(l: List<T>, more: List<T>) -> List<T>
    decreases more,
{
    match more {
        List::Nil => l,
        List::Cons(x, rest) => joined(
            if l.has(x) {
                l
            } else {
                l.snoc(x)
            },
            *rest,
        ),
    }
}

pub fn join<T: Value>(l: List<T>, more: &List<T>) -> (r: List<T>)
    ensures
        r == joined(l, *more),
    decreases more,
{
    match more {
        List::Nil => l,
        List::Cons(x, rest) => if l.contains(x) {
            join(l, rest)
        } else {
            join(l.with_last(x.dup()), rest)
        },
    }
}

impl SubtermStore {
    /// The store without constraints.
    pub open spec fn none() -> SubtermStore {
        SubtermStore {
            subterms: List::Nil,
            solved_subterms: List::Nil,
            neg_subterms: List::Nil,
            old_neg_subterms: List::Nil,
            contradictory: false,
        }
    }

    pub fn empty() -> (r: SubtermStore)
        ensures
            r == SubtermStore::none(),
    {
        SubtermStore {
            subterms: List::Nil,
            solved_subterms: List::Nil,
            neg_subterms: List::Nil,
            old_neg_subterms: List::Nil,
            contradictory: false,
        }
    }

    /// The store with a further constraint.
    pub open spec fn with_subterm(self, small: Term, big: Term) -> SubtermStore {
        SubtermStore {
            subterms: self.subterms.snoc(SubtermConstraint { small, big, propagated: false }),
            ..self
        }
    }

    pub fn add(&mut self, small: Term, big: Term)
        ensures
            *final(self) == old(self).with_subterm(small, big),
    {
        self.subterms = self.subterms.with_last(
            SubtermConstraint { small, big, propagated: false },
        );
    }

    /// The store with a further negated constraint.
    pub open spec fn with_neg(self, small: Term, big: Term) -> SubtermStore {
        if self.neg_subterms.has((small, big)) {
            self
        } else {
            SubtermStore { neg_subterms: self.neg_subterms.snoc((small, big)).sorted(), ..self }
        }
    }

    /// Adds a negated constraint; says whether it is new.
    pub fn add_neg(&mut self, small: Term, big: Term) -> (is_new: bool)
        ensures
            *final(self) == old(self).with_neg(small, big),
            is_new == !old(self).neg_subterms.has((small, big)),
    {
        let pair = (small, big);
        if self.neg_subterms.contains(&pair) {
            false
        } else {
            self.neg_subterms = self.neg_subterms.with_last(pair).sort();
            true
        }
    }

    /// The constraints of both stores.
    pub open spec fn merged(self, other: SubtermStore) -> SubtermStore {
        SubtermStore {
            subterms: joined(self.subterms, other.subterms),
            solved_subterms: joined(self.solved_subterms, other.solved_subterms),
            neg_subterms: joined(self.neg_subterms, other.neg_subterms).sorted(),
            old_neg_subterms: joined(self.old_neg_subterms, other.old_neg_subterms),
            contradictory: self.contradictory || other.contradictory,
        }
    }

    pub fn conjoin(&mut self, other: &SubtermStore)
        ensures
            *final(self) == old(self).merged(*other),
    {
        self.subterms = join(self.subterms.dup(), &other.subterms);
        self.solved_subterms = join(self.solved_subterms.dup(), &other.solved_subterms);
        self.neg_subterms = join(self.neg_subterms.dup(), &other.neg_subterms).sort();
        self.old_neg_subterms = join(self.old_neg_subterms.dup(), &other.old_neg_subterms);
        self.contradictory = self.contradictory || other.contradictory;
    }
}

} // verus!
