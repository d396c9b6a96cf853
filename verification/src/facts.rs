//! Facts and rule instances.
use crate::list::{
    lemma_list_asymmetric, lemma_list_cotransitive, lemma_list_total, list_below, list_is_below, List,
    Ordered, Total, Value,
};
use crate::term_ops::{applied_all, apply_terms, Subst};
use crate::terms::{
    lemma_terms_asymmetric, lemma_terms_cotransitive, lemma_terms_total, terms_are_below, terms_below,
    Term,
};
use crate::text::{text_of, Text};
use vstd::prelude::*;

verus! {

/// How often a fact may be consumed.
#[derive(Debug, Clone, Copy, PartialEq, Eq, Structural)]
pub enum Multiplicity {
    Persistent,
    Linear,
}

/// A hint on a fact for the goal ranking.
#[derive(Debug, Clone, Copy, PartialEq, Eq, Structural)]
pub enum FactAnnotation {
    SolveFirst,
    SolveLast,
    NoSources,
}

/// The symbol of a fact.
#[derive(Debug, PartialEq, Eq)]
pub enum FactTag {
    Proto(Multiplicity, Text, u64),
    Fresh,
    Out,
    In,
    Ku,
    Kd,
    Ded,
    Term,
}

/// A fact.
#[derive(Debug, PartialEq, Eq)]
pub struct Fact {
    pub tag: FactTag,
    pub annotations: List<FactAnnotation>,
    pub terms: List<Term>,
}

/// The name of a protocol rule.
#[derive(Debug, PartialEq, Eq)]
pub enum ProtoRuleName {
    Fresh,
    Stand(Text),
}

/// What is known of an instance of a protocol rule.
#[derive(Debug, PartialEq, Eq)]
pub struct ProtoRuleACInstInfo {
    pub name: ProtoRuleName,
    pub attributes: List<Text>,
    pub loop_breakers: List<u64>,
}

/// What is known of an intruder rule.  `DestrRule` carries the rule's name, the
/// number of consecutive applications that are left, and two flags: whether the
/// rule is a subterm rule and whether it yields a constant.
#[derive(Debug, PartialEq, Eq)]
pub enum IntrRuleACInfo {
    ConstrRule(Text),
    DestrRule(Text, i64, bool, bool),
    Coerce,
    IRecv,
    ISend,
    PubConstr,
    NatConstr,
    FreshConstr,
    IEquality,
}

/// What is known of a rule instance.
#[derive(Debug, PartialEq, Eq)]
pub enum RuleInfo {
    Proto(ProtoRuleACInstInfo),
    Intr(IntrRuleACInfo),
}

/// An instance of a rule.
#[derive(Debug, PartialEq, Eq)]
pub struct RuleACInst {
    pub info: RuleInfo,
    pub premises: List<Fact>,
    pub conclusions: List<Fact>,
    pub actions: List<Fact>,
    pub new_vars: List<Term>,
}

impl Value for FactAnnotation {
    fn dup(&self) -> (copy: Self) {
        *self
    }

    fn same(&self, other: &Self) -> (answer: bool) {
        *self == *other
    }
}

impl Value for FactTag {
    fn dup(&self) -> (copy: Self) {
        match self {
            FactTag::Proto(a, b, c) => FactTag::Proto(*a, b.dup(), *c),
            FactTag::Fresh => FactTag::Fresh,
            FactTag::Out => FactTag::Out,
            FactTag::In => FactTag::In,
            FactTag::Ku => FactTag::Ku,
            FactTag::Kd => FactTag::Kd,
            FactTag::Ded => FactTag::Ded,
            FactTag::Term => FactTag::Term,
        }
    }

    fn same(&self, other: &Self) -> (answer: bool) {
        match (self, other) {
            (FactTag::Proto(a, b, c), FactTag::Proto(p, q, r)) => *a == *p && b.same(q) && *c == *r,
            (FactTag::Fresh, FactTag::Fresh) => true,
            (FactTag::Out, FactTag::Out) => true,
            (FactTag::In, FactTag::In) => true,
            (FactTag::Ku, FactTag::Ku) => true,
            (FactTag::Kd, FactTag::Kd) => true,
            (FactTag::Ded, FactTag::Ded) => true,
            (FactTag::Term, FactTag::Term) => true,
            _ => false,
        }
    }
}

impl Value for Fact {
    fn dup(&self) -> (copy: Self) {
        Fact { tag: self.tag.dup(), annotations: self.annotations.dup(), terms: self.terms.dup() }
    }

    fn same(&self, other: &Self) -> (answer: bool) {
        self.tag.same(&other.tag)
            && self.annotations.same(&other.annotations)
            && self.terms.same(&other.terms)
    }
}

impl Value for ProtoRuleName {
    fn dup(&self) -> (copy: Self) {
        match self {
            ProtoRuleName::Fresh => ProtoRuleName::Fresh,
            ProtoRuleName::Stand(a) => ProtoRuleName::Stand(a.dup()),
        }
    }

    fn same(&self, other: &Self) -> (answer: bool) {
        match (self, other) {
            (ProtoRuleName::Fresh, ProtoRuleName::Fresh) => true,
            (ProtoRuleName::Stand(a), ProtoRuleName::Stand(p)) => a.same(p),
            _ => false,
        }
    }
}

impl Value for ProtoRuleACInstInfo {
    fn dup(&self) -> (copy: Self) {
        ProtoRuleACInstInfo {
            name: self.name.dup(),
            attributes: self.attributes.dup(),
            loop_breakers: self.loop_breakers.dup(),
        }
    }

    fn same(&self, other: &Self) -> (answer: bool) {
        self.name.same(&other.name)
            && self.attributes.same(&other.attributes)
            && self.loop_breakers.same(&other.loop_breakers)
    }
}

impl Value for IntrRuleACInfo {
    fn dup(&self) -> (copy: Self) {
        match self {
            IntrRuleACInfo::ConstrRule(a) => IntrRuleACInfo::ConstrRule(a.dup()),
            IntrRuleACInfo::DestrRule(a, b, c, d) => IntrRuleACInfo::DestrRule(a.dup(), *b, *c, *d),
            IntrRuleACInfo::Coerce => IntrRuleACInfo::Coerce,
            IntrRuleACInfo::IRecv => IntrRuleACInfo::IRecv,
            IntrRuleACInfo::ISend => IntrRuleACInfo::ISend,
            IntrRuleACInfo::PubConstr => IntrRuleACInfo::PubConstr,
            IntrRuleACInfo::NatConstr => IntrRuleACInfo::NatConstr,
            IntrRuleACInfo::FreshConstr => IntrRuleACInfo::FreshConstr,
            IntrRuleACInfo::IEquality => IntrRuleACInfo::IEquality,
        }
    }

    fn same(&self, other: &Self) -> (answer: bool) {
        match (self, other) {
            (IntrRuleACInfo::ConstrRule(a), IntrRuleACInfo::ConstrRule(p)) => a.same(p),
            (
                IntrRuleACInfo::DestrRule(a, b, c, d),
                IntrRuleACInfo::DestrRule(p, q, r, s),
            ) => a.same(p) && *b == *q && *c == *r && *d == *s,
            (IntrRuleACInfo::Coerce, IntrRuleACInfo::Coerce) => true,
            (IntrRuleACInfo::IRecv, IntrRuleACInfo::IRecv) => true,
            (IntrRuleACInfo::ISend, IntrRuleACInfo::ISend) => true,
            (IntrRuleACInfo::PubConstr, IntrRuleACInfo::PubConstr) => true,
            (IntrRuleACInfo::NatConstr, IntrRuleACInfo::NatConstr) => true,
            (IntrRuleACInfo::FreshConstr, IntrRuleACInfo::FreshConstr) => true,
            (IntrRuleACInfo::IEquality, IntrRuleACInfo::IEquality) => true,
            _ => false,
        }
    }
}

impl Value for RuleInfo {
    fn dup(&self) -> (copy: Self) {
        match self {
            RuleInfo::Proto(a) => RuleInfo::Proto(a.dup()),
            RuleInfo::Intr(a) => RuleInfo::Intr(a.dup()),
        }
    }

    fn same(&self, other: &Self) -> (answer: bool) {
        match (self, other) {
            (RuleInfo::Proto(a), RuleInfo::Proto(p)) => a.same(p),
            (RuleInfo::Intr(a), RuleInfo::Intr(p)) => a.same(p),
            _ => false,
        }
    }
}

impl Value for RuleACInst {
    fn dup(&self) -> (copy: Self) {
        RuleACInst {
            info: self.info.dup(),
            premises: self.premises.dup(),
            conclusions: self.conclusions.dup(),
            actions: self.actions.dup(),
            new_vars: self.new_vars.dup(),
        }
    }

    fn same(&self, other: &Self) -> (answer: bool) {
        self.info.same(&other.info)
            && self.premises.same(&other.premises)
            && self.conclusions.same(&other.conclusions)
            && self.actions.same(&other.actions)
            && self.new_vars.same(&other.new_vars)
    }
}

impl FactTag {
    pub open spec fn rank(self) -> u64 {
        match self {
            FactTag::Proto(_, _, _) => 0,
            FactTag::Fresh => 1,
            FactTag::Out => 2,
            FactTag::In => 3,
            FactTag::Ku => 4,
            FactTag::Kd => 5,
            FactTag::Ded => 6,
            FactTag::Term => 7,
        }
    }

    fn get_rank(&self) -> (r: u64)
        ensures
            r == self.rank(),
    {
        match self {
            FactTag::Proto(_, _, _) => 0,
            FactTag::Fresh => 1,
            FactTag::Out => 2,
            FactTag::In => 3,
            FactTag::Ku => 4,
            FactTag::Kd => 5,
            FactTag::Ded => 6,
            FactTag::Term => 7,
        }
    }
}

impl FactAnnotation {
    pub open spec fn rank(self) -> u64 {
        match self {
            FactAnnotation::SolveFirst => 0,
            FactAnnotation::SolveLast => 1,
            FactAnnotation::NoSources => 2,
        }
    }

    fn get_rank(self) -> (r: u64)
        ensures
            r == self.rank(),
    {
        match self {
            FactAnnotation::SolveFirst => 0,
            FactAnnotation::SolveLast => 1,
            FactAnnotation::NoSources => 2,
        }
    }
}

impl Ordered for FactAnnotation {
    open spec fn below(self, other: Self) -> bool {
        self.rank() < other.rank()
    }

    fn is_below(&self, other: &Self) -> (answer: bool) {
        self.get_rank() < other.get_rank()
    }

    proof fn lemma_asymmetric(self, other: Self) {
    }

    proof fn lemma_cotransitive(self, mid: Self, other: Self) {
    }
}

impl Total for FactAnnotation {
    proof fn lemma_total(self, other: Self) {
    }
}

impl Ordered for FactTag {
    open spec fn below(self, other: Self) -> bool {
        match (self, other) {
            (FactTag::Proto(m, a, i), FactTag::Proto(n, b, j)) => (m is Persistent && n is Linear)
                || (m == n && (a.below(b) || (a == b && i < j))),
            _ => self.rank() < other.rank(),
        }
    }

    fn is_below(&self, other: &Self) -> (answer: bool) {
        match (self, other) {
            (FactTag::Proto(m, a, i), FactTag::Proto(n, b, j)) => {
                let first = match (*m, *n) {
                    (Multiplicity::Persistent, Multiplicity::Linear) => true,
                    _ => false,
                };
                first || (*m == *n && (a.is_below(b) || (a.same(b) && *i < *j)))
            },
            _ => self.get_rank() < other.get_rank(),
        }
    }

    proof fn lemma_asymmetric(self, other: Self) {
        match (self, other) {
            (FactTag::Proto(_, a, _), FactTag::Proto(_, b, _)) => {
                a.lemma_asymmetric(b);
            },
            _ => {},
        }
    }

    proof fn lemma_cotransitive(self, mid: Self, other: Self) {
        match (self, mid, other) {
            (FactTag::Proto(_, a, _), FactTag::Proto(_, b, _), FactTag::Proto(_, c, _)) => {
                a.lemma_total(b);
                b.lemma_total(c);
                if a.below(c) {
                    a.lemma_cotransitive(b, c);
                }
            },
            _ => {},
        }
    }
}

impl Total for FactTag {
    proof fn lemma_total(self, other: Self) {
        match (self, other) {
            (FactTag::Proto(_, a, _), FactTag::Proto(_, b, _)) => {
                a.lemma_total(b);
            },
            _ => {},
        }
    }
}

impl Ordered for Fact {
    open spec fn below(self, other: Self) -> bool {
        self.tag.below(other.tag) || (self.tag == other.tag && (terms_below(self.terms, other.terms)
            || (self.terms == other.terms && list_below(self.annotations, other.annotations))))
    }

    fn is_below(&self, other: &Self) -> (answer: bool) {
        self.tag.is_below(&other.tag) || (self.tag.same(&other.tag) && (terms_are_below(
            &self.terms,
            &other.terms,
        ) || (self.terms.same(&other.terms) && list_is_below(
            &self.annotations,
            &other.annotations,
        ))))
    }

    proof fn lemma_asymmetric(self, other: Self) {
        self.tag.lemma_asymmetric(other.tag);
        lemma_terms_asymmetric(self.terms, other.terms);
        lemma_list_asymmetric(self.annotations, other.annotations);
    }

    proof fn lemma_cotransitive(self, mid: Self, other: Self) {
        self.tag.lemma_total(mid.tag);
        mid.tag.lemma_total(other.tag);
        lemma_terms_total(self.terms, mid.terms);
        lemma_terms_total(mid.terms, other.terms);
        if self.tag.below(other.tag) {
            self.tag.lemma_cotransitive(mid.tag, other.tag);
        } else if terms_below(self.terms, other.terms) {
            lemma_terms_cotransitive(self.terms, mid.terms, other.terms);
        } else {
            lemma_list_cotransitive(self.annotations, mid.annotations, other.annotations);
        }
    }
}

impl Total for Fact {
    proof fn lemma_total(self, other: Self) {
        self.tag.lemma_total(other.tag);
        lemma_terms_total(self.terms, other.terms);
        lemma_list_total(self.annotations, other.annotations);
    }
}

impl Fact {
    /// The fact without annotations.
    pub open spec fn plain(tag: FactTag, terms: List<Term>) -> Fact {
        Fact { tag, annotations: List::Nil, terms }
    }

    pub fn new(tag: FactTag, terms: List<Term>) -> (r: Fact)
        ensures
            r == Fact::plain(tag, terms),
    {
        Fact { tag, annotations: List::Nil, terms }
    }
}

pub fn out_fact(t: Term) -> (r: Fact)
    ensures
        r == Fact::plain(FactTag::Out, List::one(t)),
{
    Fact::new(FactTag::Out, List::single(t))
}

pub fn in_fact(t: Term) -> (r: Fact)
    ensures
        r == Fact::plain(FactTag::In, List::one(t)),
{
    Fact::new(FactTag::In, List::single(t))
}

pub fn fresh_fact(t: Term) -> (r: Fact)
    ensures
        r == Fact::plain(FactTag::Fresh, List::one(t)),
{
    Fact::new(FactTag::Fresh, List::single(t))
}

pub fn ku_fact(t: Term) -> (r: Fact)
    ensures
        r == Fact::plain(FactTag::Ku, List::one(t)),
{
    Fact::new(FactTag::Ku, List::single(t))
}

pub fn kd_fact(t: Term) -> (r: Fact)
    ensures
        r == Fact::plain(FactTag::Kd, List::one(t)),
{
    Fact::new(FactTag::Kd, List::single(t))
}

/// The tag of the action by which the intruder logs what it sends.
pub open spec fn k_log_tag() -> FactTag {
    FactTag::Proto(Multiplicity::Linear, text_of("K"@), 1)
}

pub fn k_log_fact(t: Term) -> (r: Fact)
    ensures
        r == Fact::plain(k_log_tag(), List::one(t)),
{
    Fact::new(FactTag::Proto(Multiplicity::Linear, Text::new("K"), 1), List::single(t))
}

/// Whether the facts agree on symbol and number of arguments.
pub open spec fn alike(a: Fact, b: Fact) -> bool {
    a.tag == b.tag && a.terms.size() == b.terms.size()
}

/// Whether two lists are equally long.
pub fn same_size<A, B>(a: &List<A>, b: &List<B>) -> (r: bool)
    ensures
        r == (a.size() == b.size()),
    decreases a,
{
    match (a, b) {
        (List::Nil, List::Nil) => true,
        (List::Cons(_, l), List::Cons(_, m)) => same_size(l, m),
        _ => false,
    }
}

/// Whether the facts agree on symbol and number of arguments.
pub fn are_alike(a: &Fact, b: &Fact) -> (r: bool)
    ensures
        r == alike(*a, *b),
{
    a.tag.same(&b.tag) && same_size(&a.terms, &b.terms)
}

/// The fact under the substitution `s`.
pub open spec fn applied_fact(s: Subst, fa: Fact) -> Fact {
    Fact { tag: fa.tag, annotations: fa.annotations, terms: applied_all(s, fa.terms) }
}

pub fn apply_fact(s: &Subst, fa: &Fact) -> (r: Fact)
    ensures
        r == applied_fact(*s, *fa),
{
    Fact {
        tag: fa.tag.dup(),
        annotations: fa.annotations.dup(),
        terms: apply_terms(s, &fa.terms),
    }
}

/// The facts under the substitution `s`.
pub open spec fn applied_facts(s: Subst, l: List<Fact>) -> List<Fact>
    decreases l,
{
    match l {
        List::Nil => List::Nil,
        List::Cons(fa, rest) => List::Cons(
            applied_fact(s, fa),
            Box::new(applied_facts(s, *rest)),
        ),
    }
}

fn apply_facts(s: &Subst, l: &List<Fact>) -> (r: List<Fact>)
    ensures
        r == applied_facts(*s, *l),
    decreases l,
{
    match l {
        List::Nil => List::Nil,
        List::Cons(fa, rest) => List::Cons(apply_fact(s, fa), Box::new(apply_facts(s, rest))),
    }
}

/// The rule instance under the substitution `s`.
pub open spec fn applied_rule(s: Subst, ru: RuleACInst) -> RuleACInst {
    RuleACInst {
        info: ru.info,
        premises: applied_facts(s, ru.premises),
        conclusions: applied_facts(s, ru.conclusions),
        actions: applied_facts(s, ru.actions),
        new_vars: applied_all(s, ru.new_vars),
    }
}

pub fn apply_rule(s: &Subst, ru: &RuleACInst) -> (r: RuleACInst)
    ensures
        r == applied_rule(*s, *ru),
{
    RuleACInst {
        info: ru.info.dup(),
        premises: apply_facts(s, &ru.premises),
        conclusions: apply_facts(s, &ru.conclusions),
        actions: apply_facts(s, &ru.actions),
        new_vars: apply_terms(s, &ru.new_vars),
    }
}

impl RuleACInst {
    /// A rule instance without new variables.
    pub open spec fn of(
        info: RuleInfo,
        premises: List<Fact>,
        conclusions: List<Fact>,
        actions: List<Fact>,
    ) -> RuleACInst {
        RuleACInst { info, premises, conclusions, actions, new_vars: List::Nil }
    }

    pub fn new(
        info: RuleInfo,
        premises: List<Fact>,
        conclusions: List<Fact>,
        actions: List<Fact>,
    ) -> (r: RuleACInst)
        ensures
            r == RuleACInst::of(info, premises, conclusions, actions),
    {
        RuleACInst { info, premises, conclusions, actions, new_vars: List::Nil }
    }
}

} // verus!
