//! What the solver learns from outside.
//!
//! Unification, simplification of equations, precomputed sources and the like
//! are computed elsewhere.  The solver looks their results up in [`Answers`];
//! where a result is missing, it stops with the [`Query`] whose answer it
//! needs.  Once the answer has been added, the same call goes further.
use crate::constraints::{EquationStore, Goal, NodePrem};
use crate::facts::{Fact, RuleACInst};
use crate::guarded::Guarded;
use crate::list::{List, Value};
use crate::rules::{IntrRuleAC, OpenProtoRule};
use crate::system::System;
use crate::terms::{FunSym, LVar, Term};
use crate::text::Text;
use vstd::prelude::*;

verus! {

/// Asks for the unifiers of `eqs` under the equations of `store`.  New variables
/// get indices above `avoid`, from `next` on.
#[derive(Debug, PartialEq, Eq)]
pub struct AddEqsQuery {
    pub store: EquationStore,
    pub eqs: List<(Term, Term)>,
    pub avoid: u64,
    pub next: u64,
}

/// The store with the unifiers, the number of the disjunction that holds them
/// where there are several, and the next unused index; or a failure of the
/// unification.
#[derive(Debug, PartialEq, Eq)]
pub enum AddEqsAnswer {
    Failed,
    Added(EquationStore, Option<u64>, u64),
}

/// Asks for the simplified store.  Where a system is to be checked, substitutions
/// that make one of its terms reducible are dropped.
#[derive(Debug, PartialEq, Eq)]
pub struct SimpQuery {
    pub store: EquationStore,
    pub checked: Option<System>,
    pub next: u64,
}

/// The simplified store and the next unused index.
#[derive(Debug, PartialEq, Eq)]
pub struct SimpAnswer {
    pub store: EquationStore,
    pub next: u64,
}

/// Asks for the stores that result from the disjunction numbered `id`.
#[derive(Debug, PartialEq, Eq)]
pub struct SplitQuery {
    pub store: EquationStore,
    pub id: u64,
}

/// Asks whether two rule instances unify.
#[derive(Debug, PartialEq, Eq)]
pub struct UnifiableQuery {
    pub left: RuleACInst,
    pub right: RuleACInst,
}

/// Asks for the precomputed cases of an action.
#[derive(Debug, PartialEq, Eq)]
pub struct ActionSourcesQuery {
    pub sys: System,
    pub node: LVar,
    pub fact: Fact,
    pub avoid: u64,
    pub next: u64,
}

/// A precomputed case of an action.
#[derive(Debug, PartialEq, Eq)]
pub struct ActionSourceCase {
    pub label: Text,
    pub sys: System,
    pub action: Fact,
    pub next: u64,
}

/// The precomputed cases of an action, or none where no source fits; and the next
/// unused index.
#[derive(Debug, PartialEq, Eq)]
pub struct ActionSourcesAnswer {
    pub cases: Option<List<ActionSourceCase>>,
    pub next: u64,
}

/// Asks for the precomputed cases of a premise.
#[derive(Debug, PartialEq, Eq)]
pub struct PremiseSourcesQuery {
    pub sys: System,
    pub premise: NodePrem,
    pub fact: Fact,
    pub next: u64,
}

/// A precomputed case of a premise.
#[derive(Debug, PartialEq, Eq)]
pub struct PremiseSourceCase {
    pub label: Text,
    pub sys: System,
    pub next: u64,
}

/// The precomputed cases of a premise, or none where no source fits; and the next
/// unused index.
#[derive(Debug, PartialEq, Eq)]
pub struct PremiseSourcesAnswer {
    pub cases: Option<List<PremiseSourceCase>>,
    pub next: u64,
}

/// Asks for the systems to which a system simplifies.  New variables get indices
/// from `seed` on, and above those of the system where no seed is given.
#[derive(Debug, PartialEq, Eq)]
pub struct SimplifyQuery {
    pub sys: System,
    pub seed: Option<u64>,
}

/// Why a system has no model.
#[derive(Debug, Clone, Copy, PartialEq, Eq, Structural)]
pub enum Contradiction {
    Cyclic,
    IncompatibleEqs,
    NonNormalTerms,
    NonLastNode,
    ForbiddenExp,
    ForbiddenBP,
    ForbiddenKD,
    ForbiddenChain,
    ImpossibleChain,
    NonInjectiveFactInstance,
    FormulasFalse,
    SuperfluousLearn,
    NodeAfterLast,
    SubtermCyclic,
}

impl Value for Contradiction {
    fn dup(&self) -> (copy: Self) {
        *self
    }

    fn same(&self, other: &Self) -> (answer: bool) {
        *self == *other
    }
}

impl Value for bool {
    fn dup(&self) -> (copy: Self) {
        *self
    }

    fn same(&self, other: &Self) -> (answer: bool) {
        *self == *other
    }
}

/// A question to the outside.
#[derive(Debug, PartialEq, Eq)]
pub enum Query {
    AddEqs(AddEqsQuery),
    Simp(SimpQuery),
    Split(SplitQuery),
    Reduce(Term),
    Unifiable(UnifiableQuery),
    ActionSources(ActionSourcesQuery),
    PremiseSources(PremiseSourcesQuery),
    Simplify(SimplifyQuery),
    Contradictions(System),
    OpenGoals(System),
    NonRedundant(List<System>),
    Induction(Guarded),
}

/// A result, or the question that has to be answered first.
pub type Answered<T> = Result<T, Query>;

/// The answers that are known.
#[derive(Debug, PartialEq, Eq)]
pub struct Answers {
    pub add_eqs: List<(AddEqsQuery, AddEqsAnswer)>,
    pub simp: List<(SimpQuery, SimpAnswer)>,
    pub split: List<(SplitQuery, List<EquationStore>)>,
    pub reduce: List<(Term, Option<Term>)>,
    pub unifiable: List<(UnifiableQuery, Option<bool>)>,
    pub action_sources: List<(ActionSourcesQuery, ActionSourcesAnswer)>,
    pub premise_sources: List<(PremiseSourcesQuery, PremiseSourcesAnswer)>,
    pub simplify: List<(SimplifyQuery, List<System>)>,
    pub contradictions: List<(System, List<Contradiction>)>,
    pub open_goals: List<(System, List<Goal>)>,
    /// The positions of the systems that remain when redundant ones are dropped.
    pub non_redundant: List<(List<System>, List<u64>)>,
    pub induction: List<(Guarded, Option<(Guarded, Guarded)>)>,
}

/// What a proof is carried out in.
#[derive(Debug, PartialEq, Eq)]
pub struct ProofContext {
    /// The rules of the protocol.
    pub rules: List<OpenProtoRule>,
    /// The rules of the intruder.
    pub intruder_rules: List<IntrRuleAC>,
    /// The function symbols at the top of a left-hand side of an equation.
    pub reducible: List<FunSym>,
    /// Whether there are precomputed sources.
    pub has_sources: bool,
    /// Whether sources are being computed.
    pub in_precompute: bool,
    /// Whether the first cases of the sources are being computed.
    pub in_initial_sources: bool,
    /// An index that every supply of fresh indices has to exceed; 0 for none.
    pub refine_floor: u64,
    /// Whether the time for the proof is over.
    pub out_of_time: bool,
    pub answers: Answers,
}

/// Sets the index that every supply of fresh indices has to exceed, and returns
/// the previous one.
pub fn set_refine_floor(ctx: &mut ProofContext, floor: u64) -> (previous: u64)
    ensures
        previous == old(ctx).refine_floor,
        *final(ctx) == (ProofContext { refine_floor: floor, ..*old(ctx) }),
{
    let previous: u64 = ctx.refine_floor;
    ctx.refine_floor = floor;
    previous
}

/// The index that every supply of fresh indices has to exceed; 0 for none.
pub fn refine_floor(ctx: &ProofContext) -> (r: u64)
    ensures
        r == ctx.refine_floor,
{
    ctx.refine_floor
}

impl Answers {
    /// No answers.
    pub open spec fn none() -> Answers {
        Answers {
            add_eqs: List::Nil,
            simp: List::Nil,
            split: List::Nil,
            reduce: List::Nil,
            unifiable: List::Nil,
            action_sources: List::Nil,
            premise_sources: List::Nil,
            simplify: List::Nil,
            contradictions: List::Nil,
            open_goals: List::Nil,
            non_redundant: List::Nil,
            induction: List::Nil,
        }
    }

    /// No answers.
    pub fn empty() -> (r: Answers)
        ensures
            r == Answers::none(),
    {
        Answers {
            add_eqs: List::Nil,
            simp: List::Nil,
            split: List::Nil,
            reduce: List::Nil,
            unifiable: List::Nil,
            action_sources: List::Nil,
            premise_sources: List::Nil,
            simplify: List::Nil,
            contradictions: List::Nil,
            open_goals: List::Nil,
            non_redundant: List::Nil,
            induction: List::Nil,
        }
    }
}

impl Value for AddEqsQuery {
    fn dup(&self) -> (copy: Self) {
        AddEqsQuery {
            store: self.store.dup(),
            eqs: self.eqs.dup(),
            avoid: self.avoid,
            next: self.next,
        }
    }

    fn same(&self, other: &Self) -> (answer: bool) {
        self.avoid == other.avoid
            && self.next == other.next
            && self.store.same(&other.store)
            && self.eqs.same(&other.eqs)
    }
}

impl Value for SimpQuery {
    fn dup(&self) -> (copy: Self) {
        SimpQuery { store: self.store.dup(), checked: self.checked.dup(), next: self.next }
    }

    fn same(&self, other: &Self) -> (answer: bool) {
        self.next == other.next
            && self.store.same(&other.store)
            && self.checked.same(&other.checked)
    }
}

impl Value for SimpAnswer {
    fn dup(&self) -> (copy: Self) {
        SimpAnswer { store: self.store.dup(), next: self.next }
    }

    fn same(&self, other: &Self) -> (answer: bool) {
        self.next == other.next
            && self.store.same(&other.store)
    }
}

impl Value for SplitQuery {
    fn dup(&self) -> (copy: Self) {
        SplitQuery { store: self.store.dup(), id: self.id }
    }

    fn same(&self, other: &Self) -> (answer: bool) {
        self.id == other.id
            && self.store.same(&other.store)
    }
}

impl Value for UnifiableQuery {
    fn dup(&self) -> (copy: Self) {
        UnifiableQuery { left: self.left.dup(), right: self.right.dup() }
    }

    fn same(&self, other: &Self) -> (answer: bool) {
        self.left.same(&other.left)
            && self.right.same(&other.right)
    }
}

impl Value for ActionSourcesQuery {
    fn dup(&self) -> (copy: Self) {
        ActionSourcesQuery {
            sys: self.sys.dup(),
            node: self.node.dup(),
            fact: self.fact.dup(),
            avoid: self.avoid,
            next: self.next,
        }
    }

    fn same(&self, other: &Self) -> (answer: bool) {
        self.avoid == other.avoid
            && self.next == other.next
            && self.sys.same(&other.sys)
            && self.node.same(&other.node)
            && self.fact.same(&other.fact)
    }
}

impl Value for ActionSourcesAnswer {
    fn dup(&self) -> (copy: Self) {
        ActionSourcesAnswer { cases: self.cases.dup(), next: self.next }
    }

    fn same(&self, other: &Self) -> (answer: bool) {
        self.next == other.next && self.cases.same(&other.cases)
    }
}

impl Value for PremiseSourcesAnswer {
    fn dup(&self) -> (copy: Self) {
        PremiseSourcesAnswer { cases: self.cases.dup(), next: self.next }
    }

    fn same(&self, other: &Self) -> (answer: bool) {
        self.next == other.next && self.cases.same(&other.cases)
    }
}

impl Value for ActionSourceCase {
    fn dup(&self) -> (copy: Self) {
        ActionSourceCase {
            label: self.label.dup(),
            sys: self.sys.dup(),
            action: self.action.dup(),
            next: self.next,
        }
    }

    fn same(&self, other: &Self) -> (answer: bool) {
        self.next == other.next
            && self.label.same(&other.label)
            && self.sys.same(&other.sys)
            && self.action.same(&other.action)
    }
}

impl Value for PremiseSourcesQuery {
    fn dup(&self) -> (copy: Self) {
        PremiseSourcesQuery {
            sys: self.sys.dup(),
            premise: self.premise.dup(),
            fact: self.fact.dup(),
            next: self.next,
        }
    }

    fn same(&self, other: &Self) -> (answer: bool) {
        self.next == other.next
            && self.sys.same(&other.sys)
            && self.premise.same(&other.premise)
            && self.fact.same(&other.fact)
    }
}

impl Value for PremiseSourceCase {
    fn dup(&self) -> (copy: Self) {
        PremiseSourceCase { label: self.label.dup(), sys: self.sys.dup(), next: self.next }
    }

    fn same(&self, other: &Self) -> (answer: bool) {
        self.next == other.next
            && self.label.same(&other.label)
            && self.sys.same(&other.sys)
    }
}

impl Value for SimplifyQuery {
    fn dup(&self) -> (copy: Self) {
        SimplifyQuery { sys: self.sys.dup(), seed: self.seed.dup() }
    }

    fn same(&self, other: &Self) -> (answer: bool) {
        self.sys.same(&other.sys)
            && self.seed.same(&other.seed)
    }
}

impl Value for AddEqsAnswer {
    fn dup(&self) -> (copy: Self) {
        match self {
            AddEqsAnswer::Failed => AddEqsAnswer::Failed,
            AddEqsAnswer::Added(a, b, c) => AddEqsAnswer::Added(a.dup(), b.dup(), *c),
        }
    }

    fn same(&self, other: &Self) -> (answer: bool) {
        match (self, other) {
            (AddEqsAnswer::Failed, AddEqsAnswer::Failed) => true,
            (
                AddEqsAnswer::Added(a, b, c),
                AddEqsAnswer::Added(p, q, r),
            ) => a.same(p) && b.same(q) && *c == *r,
            _ => false,
        }
    }
}

impl Value for Query {
    fn dup(&self) -> (copy: Self) {
        match self {
            Query::AddEqs(a) => Query::AddEqs(a.dup()),
            Query::Simp(a) => Query::Simp(a.dup()),
            Query::Split(a) => Query::Split(a.dup()),
            Query::Reduce(a) => Query::Reduce(a.dup()),
            Query::Unifiable(a) => Query::Unifiable(a.dup()),
            Query::ActionSources(a) => Query::ActionSources(a.dup()),
            Query::PremiseSources(a) => Query::PremiseSources(a.dup()),
            Query::Simplify(a) => Query::Simplify(a.dup()),
            Query::Contradictions(a) => Query::Contradictions(a.dup()),
            Query::OpenGoals(a) => Query::OpenGoals(a.dup()),
            Query::NonRedundant(a) => Query::NonRedundant(a.dup()),
            Query::Induction(a) => Query::Induction(a.dup()),
        }
    }

    fn same(&self, other: &Self) -> (answer: bool) {
        match (self, other) {
            (Query::AddEqs(a), Query::AddEqs(p)) => a.same(p),
            (Query::Simp(a), Query::Simp(p)) => a.same(p),
            (Query::Split(a), Query::Split(p)) => a.same(p),
            (Query::Reduce(a), Query::Reduce(p)) => a.same(p),
            (Query::Unifiable(a), Query::Unifiable(p)) => a.same(p),
            (Query::ActionSources(a), Query::ActionSources(p)) => a.same(p),
            (Query::PremiseSources(a), Query::PremiseSources(p)) => a.same(p),
            (Query::Simplify(a), Query::Simplify(p)) => a.same(p),
            (Query::Contradictions(a), Query::Contradictions(p)) => a.same(p),
            (Query::OpenGoals(a), Query::OpenGoals(p)) => a.same(p),
            (Query::NonRedundant(a), Query::NonRedundant(p)) => a.same(p),
            (Query::Induction(a), Query::Induction(p)) => a.same(p),
            _ => false,
        }
    }
}

} // verus!
