//! Rules of a theory and their instances.
use crate::facts::{
    fresh_fact, in_fact, k_log_fact, k_log_tag, ku_fact, Fact, FactTag, IntrRuleACInfo,
    ProtoRuleACInstInfo, ProtoRuleName, RuleACInst, RuleInfo,
};
use crate::leaves::{map_rule, mapped_rule, minus, plus, Shift};
use crate::list::{List, Value};
use crate::names::{rule_name, rule_name_text};
use crate::term_ops::{
    applies, frees_of_terms, headed_by, is_headed_by, is_inverse, is_pair, larger, max_of, terms_frees,
    Subst,
};
use crate::terms::{AcSym, LVar, Term};
use crate::text::{text_of, Text};
use vstd::prelude::*;

verus! {

/// A protocol rule.
#[derive(Debug, PartialEq, Eq)]
pub struct ProtoRuleE {
    pub name: ProtoRuleName,
    pub attributes: List<Text>,
    pub premises: List<Fact>,
    pub conclusions: List<Fact>,
    pub actions: List<Fact>,
    pub new_vars: List<Term>,
}

/// A protocol rule as a theory holds it: with its abstraction, the substitutions
/// that make up its variants, and the premises that break loops.
#[derive(Debug, PartialEq, Eq)]
pub struct OpenProtoRule {
    pub rule: ProtoRuleE,
    pub abstracted_rule: Option<ProtoRuleE>,
    pub variant_substs: List<Subst>,
    pub loop_breakers: List<u64>,
}

/// An intruder rule.
#[derive(Debug, PartialEq, Eq)]
pub struct IntrRuleAC {
    pub info: IntrRuleACInfo,
    pub premises: List<Fact>,
    pub conclusions: List<Fact>,
    pub actions: List<Fact>,
    pub new_vars: List<Term>,
}

impl Value for ProtoRuleE {
    fn dup(&self) -> (copy: Self) {
        ProtoRuleE {
            name: self.name.dup(),
            attributes: self.attributes.dup(),
            premises: self.premises.dup(),
            conclusions: self.conclusions.dup(),
            actions: self.actions.dup(),
            new_vars: self.new_vars.dup(),
        }
    }

    fn same(&self, other: &Self) -> (answer: bool) {
        self.name.same(&other.name)
            && self.attributes.same(&other.attributes)
            && self.premises.same(&other.premises)
            && self.conclusions.same(&other.conclusions)
            && self.actions.same(&other.actions)
            && self.new_vars.same(&other.new_vars)
    }
}

impl Value for OpenProtoRule {
    fn dup(&self) -> (copy: Self) {
        OpenProtoRule {
            rule: self.rule.dup(),
            abstracted_rule: self.abstracted_rule.dup(),
            variant_substs: self.variant_substs.dup(),
            loop_breakers: self.loop_breakers.dup(),
        }
    }

    fn same(&self, other: &Self) -> (answer: bool) {
        self.rule.same(&other.rule)
            && self.abstracted_rule.same(&other.abstracted_rule)
            && self.variant_substs.same(&other.variant_substs)
            && self.loop_breakers.same(&other.loop_breakers)
    }
}

impl Value for IntrRuleAC {
    fn dup(&self) -> (copy: Self) {
        IntrRuleAC {
            info: self.info.dup(),
            premises: self.premises.dup(),
            conclusions: self.conclusions.dup(),
            actions: self.actions.dup(),
            new_vars: self.new_vars.dup(),
        }
    }

    fn same(&self, other: &Self) -> (answer: bool) {
        self.info.same(&other.info)
            && self.premises.same(&other.premises)
            && self.conclusions.same(&other.conclusions)
            && self.actions.same(&other.actions)
            && self.new_vars.same(&other.new_vars)
    }
}

/// An instance of a rule, together with the substitutions of which one has to
/// be applied to it.
pub type RuleWithConstrs = (RuleACInst, Option<List<Subst>>);

/// The rule from which the instances of `o` are made.
pub open spec fn instantiated_rule(o: OpenProtoRule) -> ProtoRuleE {
    match o.abstracted_rule {
        Some(ru) => ru,
        None => o.rule,
    }
}

/// The instance of the protocol rule `o`.
pub open spec fn proto_instance(o: OpenProtoRule) -> RuleACInst {
    let src = instantiated_rule(o);
    RuleACInst {
        info: RuleInfo::Proto(
            ProtoRuleACInstInfo {
                name: src.name,
                attributes: src.attributes,
                loop_breakers: o.loop_breakers,
            },
        ),
        premises: src.premises,
        conclusions: src.conclusions,
        actions: src.actions,
        new_vars: src.new_vars,
    }
}

/// The instance of the protocol rule `o`: that of its abstraction where it has
/// one.
pub fn canonical_rule_inst(o: &OpenProtoRule) -> (r: RuleACInst)
    ensures
        r == proto_instance(*o),
{
    let src = match &o.abstracted_rule {
        Some(ru) => ru,
        None => &o.rule,
    };
    RuleACInst {
        info: RuleInfo::Proto(
            ProtoRuleACInstInfo {
                name: src.name.dup(),
                attributes: src.attributes.dup(),
                loop_breakers: o.loop_breakers.dup(),
            },
        ),
        premises: src.premises.dup(),
        conclusions: src.conclusions.dup(),
        actions: src.actions.dup(),
        new_vars: src.new_vars.dup(),
    }
}

/// The variants of the protocol rule `o`, if it has any.
pub open spec fn variants_of(o: OpenProtoRule) -> Option<List<Subst>> {
    if o.variant_substs is Nil {
        None
    } else {
        Some(o.variant_substs)
    }
}

/// The instances of the protocol rules; of those with actions only, where
/// `with_actions` is set.
pub open spec fn proto_instances(l: List<OpenProtoRule>, with_actions: bool) -> List<
    RuleWithConstrs,
>
    decreases l,
{
    match l {
        List::Nil => List::Nil,
        List::Cons(o, rest) => if with_actions && proto_instance(o).actions is Nil {
            proto_instances(*rest, with_actions)
        } else {
            List::Cons(
                (proto_instance(o), variants_of(o)),
                Box::new(proto_instances(*rest, with_actions)),
            )
        },
    }
}

/// The instances of the protocol rules with their variants.
pub fn rule_insts_with_constrs(l: &List<OpenProtoRule>, with_actions: bool) -> (r: List<
    RuleWithConstrs,
>)
    ensures
        r == proto_instances(*l, with_actions),
    decreases l,
{
    match l {
        List::Nil => List::Nil,
        List::Cons(o, rest) => {
            let inst = canonical_rule_inst(o);
            if with_actions && inst.actions.is_empty() {
                rule_insts_with_constrs(rest, with_actions)
            } else {
                let constrs = if o.variant_substs.is_empty() {
                    None
                } else {
                    Some(o.variant_substs.dup())
                };
                List::Cons(
                    (inst, constrs),
                    Box::new(rule_insts_with_constrs(rest, with_actions)),
                )
            }
        },
    }
}

/// The instance of the intruder rule `ir`.
pub open spec fn intr_instance(ir: IntrRuleAC) -> RuleACInst {
    RuleACInst {
        info: RuleInfo::Intr(ir.info),
        premises: ir.premises,
        conclusions: ir.conclusions,
        actions: ir.actions,
        new_vars: ir.new_vars,
    }
}

/// The instance of the intruder rule `ir`.
pub fn intr_rule_to_rule_ac_inst(ir: IntrRuleAC) -> (r: RuleACInst)
    ensures
        r == intr_instance(ir),
{
    RuleACInst {
        info: RuleInfo::Intr(ir.info),
        premises: ir.premises,
        conclusions: ir.conclusions,
        actions: ir.actions,
        new_vars: ir.new_vars,
    }
}

/// The class of an intruder rule: whether it takes terms apart, builds them, or
/// belongs to the protocol's interface.
#[derive(Debug, Clone, Copy, PartialEq, Eq, Structural)]
pub enum IntrClass {
    Interface,
    Destruction,
    Construction,
}

/// The class of an intruder rule.
pub open spec fn class_of(info: IntrRuleACInfo) -> IntrClass {
    match info {
        IntrRuleACInfo::DestrRule(_, _, _, _) => IntrClass::Destruction,
        IntrRuleACInfo::IEquality => IntrClass::Interface,
        IntrRuleACInfo::IRecv => IntrClass::Interface,
        IntrRuleACInfo::ISend => IntrClass::Interface,
        _ => IntrClass::Construction,
    }
}

/// The class under which an intruder rule is a candidate: as one with actions, where
/// `with_actions` is set, the comparison of terms counts among those that take
/// terms apart.
pub open spec fn candidate_class(info: IntrRuleACInfo, with_actions: bool) -> IntrClass {
    if with_actions && info is IEquality {
        IntrClass::Destruction
    } else {
        class_of(info)
    }
}

pub fn get_class(info: &IntrRuleACInfo) -> (r: IntrClass)
    ensures
        r == class_of(*info),
{
    match info {
        IntrRuleACInfo::DestrRule(_, _, _, _) => IntrClass::Destruction,
        IntrRuleACInfo::IEquality => IntrClass::Interface,
        IntrRuleACInfo::IRecv => IntrClass::Interface,
        IntrRuleACInfo::ISend => IntrClass::Interface,
        _ => IntrClass::Construction,
    }
}

fn get_candidate_class(info: &IntrRuleACInfo, with_actions: bool) -> (r: IntrClass)
    ensures
        r == candidate_class(*info, with_actions),
{
    match info {
        IntrRuleACInfo::IEquality => if with_actions {
            IntrClass::Destruction
        } else {
            get_class(info)
        },
        _ => get_class(info),
    }
}

/// Whether a rule takes terms apart.
pub fn is_destr_rule_info(info: &IntrRuleACInfo) -> (r: bool)
    ensures
        r == (class_of(*info) == IntrClass::Destruction),
{
    get_class(info) == IntrClass::Destruction
}

/// The instances of the intruder rules that are candidates of class `c`; of those
/// with actions only, where `with_actions` is set.
pub open spec fn intr_instances(l: List<IntrRuleAC>, c: IntrClass, with_actions: bool) -> List<
    RuleWithConstrs,
>
    decreases l,
{
    match l {
        List::Nil => List::Nil,
        List::Cons(ir, rest) => if candidate_class(ir.info, with_actions) != c || (with_actions
            && ir.actions is Nil) {
            intr_instances(*rest, c, with_actions)
        } else {
            List::Cons(
                (intr_instance(ir), None),
                Box::new(intr_instances(*rest, c, with_actions)),
            )
        },
    }
}

fn intr_rule_insts(l: &List<IntrRuleAC>, c: IntrClass, with_actions: bool) -> (r: List<
    RuleWithConstrs,
>)
    ensures
        r == intr_instances(*l, c, with_actions),
    decreases l,
{
    match l {
        List::Nil => List::Nil,
        List::Cons(ir, rest) => if get_candidate_class(&ir.info, with_actions) != c || (
        with_actions && ir.actions.is_empty()) {
            intr_rule_insts(rest, c, with_actions)
        } else {
            List::Cons(
                (intr_rule_to_rule_ac_inst(ir.dup()), None),
                Box::new(intr_rule_insts(rest, c, with_actions)),
            )
        },
    }
}

/// The candidates for an action: the rules with actions, those of the protocol
/// and its interface first, then those that take terms apart, then those that
/// build them.
#[verifier::opaque]
pub open spec fn action_candidates(intr: List<IntrRuleAC>, proto: List<OpenProtoRule>) -> List<
    RuleWithConstrs,
> {
    intr_instances(intr, IntrClass::Interface, true).then_all(
        proto_instances(proto, true).then_all(
            intr_instances(intr, IntrClass::Destruction, true).then_all(
                intr_instances(intr, IntrClass::Construction, true),
            ),
        ),
    )
}

/// The candidates for an action.
pub fn non_silent_rule_insts_with_constrs(
    intr: &List<IntrRuleAC>,
    proto: &List<OpenProtoRule>,
) -> (r: List<RuleWithConstrs>)
    ensures
        r == action_candidates(*intr, *proto),
{
    proof {
        reveal(action_candidates);
    }
    let construct = intr_rule_insts(intr, IntrClass::Construction, true);
    let destruct = intr_rule_insts(intr, IntrClass::Destruction, true);
    let protocol = rule_insts_with_constrs(proto, true);
    let interface = intr_rule_insts(intr, IntrClass::Interface, true);
    interface.concat(protocol.concat(destruct.concat(construct)))
}

/// The candidates for a premise: the rules of the protocol's interface, those
/// of the protocol, and those that build terms.
#[verifier::opaque]
pub open spec fn premise_candidates(intr: List<IntrRuleAC>, proto: List<OpenProtoRule>) -> List<
    RuleWithConstrs,
> {
    intr_instances(intr, IntrClass::Interface, false).then_all(
        proto_instances(proto, false).then_all(
            intr_instances(intr, IntrClass::Construction, false),
        ),
    )
}

/// The candidates for a premise.
pub fn premise_solving_rule_insts_with_constrs(
    intr: &List<IntrRuleAC>,
    proto: &List<OpenProtoRule>,
) -> (r: List<RuleWithConstrs>)
    ensures
        r == premise_candidates(*intr, *proto),
{
    proof {
        reveal(premise_candidates);
    }
    let construct = intr_rule_insts(intr, IntrClass::Construction, false);
    let protocol = rule_insts_with_constrs(proto, false);
    let interface = intr_rule_insts(intr, IntrClass::Interface, false);
    interface.concat(protocol.concat(construct))
}

/// What is known of the rule that supplies fresh values.
pub open spec fn fresh_info() -> RuleInfo {
    RuleInfo::Proto(
        ProtoRuleACInstInfo {
            name: ProtoRuleName::Fresh,
            attributes: List::Nil,
            loop_breakers: List::Nil,
        },
    )
}

/// The instance of the rule that supplies the fresh value `m`.
pub open spec fn fresh_rule(m: Term) -> RuleACInst {
    RuleACInst {
        info: fresh_info(),
        premises: List::Nil,
        conclusions: List::one(Fact::plain(FactTag::Fresh, List::one(m))),
        actions: List::Nil,
        new_vars: List::one(m),
    }
}

pub fn make_fresh_rule(m: Term) -> (r: RuleACInst)
    ensures
        r == fresh_rule(m),
{
    RuleACInst {
        info: RuleInfo::Proto(
            ProtoRuleACInstInfo {
                name: ProtoRuleName::Fresh,
                attributes: List::Nil,
                loop_breakers: List::Nil,
            },
        ),
        premises: List::Nil,
        conclusions: List::single(fresh_fact(m.dup())),
        actions: List::Nil,
        new_vars: List::single(m),
    }
}

/// The instance of the rule by which the intruder sends `m`.
pub open spec fn isend_rule(m: Term) -> RuleACInst {
    RuleACInst::of(
        RuleInfo::Intr(IntrRuleACInfo::ISend),
        List::one(Fact::plain(FactTag::Ku, List::one(m))),
        List::one(Fact::plain(FactTag::In, List::one(m))),
        List::one(Fact::plain(k_log_tag(), List::one(m))),
    )
}

pub fn make_isend_rule(m: Term) -> (r: RuleACInst)
    ensures
        r == isend_rule(m),
{
    let prem = ku_fact(m.dup());
    let act = k_log_fact(m.dup());
    let conc = in_fact(m);
    RuleACInst::new(
        RuleInfo::Intr(IntrRuleACInfo::ISend),
        List::single(prem),
        List::single(conc),
        List::single(act),
    )
}

/// Whether `ru` is the destruction rule called `name`.
pub open spec fn destructs(ru: RuleACInst, name: Seq<char>) -> bool {
    match ru.info {
        RuleInfo::Intr(IntrRuleACInfo::DestrRule(n, _, _, _)) => n == text_of(name),
        _ => false,
    }
}

fn does_destruct(ru: &RuleACInst, name: &str) -> (r: bool)
    ensures
        r == destructs(*ru, name@),
{
    match &ru.info {
        RuleInfo::Intr(IntrRuleACInfo::DestrRule(n, _, _, _)) => n.same(&Text::new(name)),
        _ => false,
    }
}

/// The number of consecutive applications that a destruction rule has left.
#[verifier::opaque]
pub open spec fn remaining(ru: RuleACInst) -> i64 {
    match ru.info {
        RuleInfo::Intr(IntrRuleACInfo::DestrRule(_, n, _, _)) => n,
        _ => 0,
    }
}

pub fn get_remaining_rule_applications(ru: &RuleACInst) -> (r: i64)
    ensures
        r == remaining(*ru),
{
    proof {
        reveal(remaining);
    }
    match &ru.info {
        RuleInfo::Intr(IntrRuleACInfo::DestrRule(_, n, _, _)) => *n,
        _ => 0,
    }
}

/// The rule with `n` consecutive applications left, if it is a destruction
/// rule.
#[verifier::opaque]
pub open spec fn with_remaining(ru: RuleACInst, n: i64) -> RuleACInst {
    match ru.info {
        RuleInfo::Intr(IntrRuleACInfo::DestrRule(name, _, subterm, constant)) => RuleACInst {
            info: RuleInfo::Intr(IntrRuleACInfo::DestrRule(name, n, subterm, constant)),
            ..ru
        },
        _ => ru,
    }
}

pub fn set_remaining_rule_applications(ru: RuleACInst, n: i64) -> (r: RuleACInst)
    ensures
        r == with_remaining(ru, n),
{
    proof {
        reveal(with_remaining);
    }
    match &ru.info {
        RuleInfo::Intr(IntrRuleACInfo::DestrRule(name, _, subterm, constant)) => RuleACInst {
            info: RuleInfo::Intr(
                IntrRuleACInfo::DestrRule(name.dup(), n, *subterm, *constant),
            ),
            premises: ru.premises,
            conclusions: ru.conclusions,
            actions: ru.actions,
            new_vars: ru.new_vars,
        },
        _ => ru,
    }
}

/// Whether the chain may not go from `c_rule` to `p_rule`: exponentiations,
/// scalar products and pairings do not follow each other, and a rule that has
/// one application left does not follow itself.
#[verifier::opaque]
pub open spec fn edge_forbidden(c_rule: RuleACInst, p_rule: RuleACInst) -> bool {
    ||| destructs(c_rule, "_exp"@) && destructs(p_rule, "_exp"@)
    ||| destructs(c_rule, "_pmult"@) && destructs(p_rule, "_pmult"@)
    ||| destructs(c_rule, "_pmult"@) && destructs(p_rule, "_em"@)
    ||| rule_name(c_rule).chars !is Nil && rule_name(c_rule) == rule_name(p_rule) && remaining(
        c_rule,
    ) == 1
}

/// Whether the chain may not go from `c_rule` to `p_rule`.
pub fn forbidden_edge(c_rule: &RuleACInst, p_rule: &RuleACInst) -> (r: bool)
    ensures
        r == edge_forbidden(*c_rule, *p_rule),
{
    proof {
        reveal(edge_forbidden);
    }
    if does_destruct(c_rule, "_exp") && does_destruct(p_rule, "_exp") {
        return true;
    }
    if does_destruct(c_rule, "_pmult") && does_destruct(p_rule, "_pmult") {
        return true;
    }
    if does_destruct(c_rule, "_pmult") && does_destruct(p_rule, "_em") {
        return true;
    }
    let cn = rule_name_text(c_rule);
    let pn = rule_name_text(p_rule);
    !cn.chars.is_empty() && cn.same(&pn) && get_remaining_rule_applications(c_rule) == 1
}

/// Whether `p_rule` would coerce a term that has to be taken apart first.
#[verifier::opaque]
pub open spec fn coerce_illegal(p_rule: RuleACInst, fa_conc: Fact) -> bool {
    p_rule.info == RuleInfo::Intr(IntrRuleACInfo::Coerce) && match fa_conc.terms.only() {
        Some(t) => applies(t, "pair"@, 2) || applies(t, "inv"@, 1) || headed_by(t, AcSym::Mult),
        None => false,
    }
}

/// Whether `p_rule` would coerce a term that has to be taken apart first.
pub fn illegal_coerce(p_rule: &RuleACInst, fa_conc: &Fact) -> (r: bool)
    ensures
        r == coerce_illegal(*p_rule, *fa_conc),
{
    proof {
        reveal(coerce_illegal);
    }
    let coerces = match &p_rule.info {
        RuleInfo::Intr(IntrRuleACInfo::Coerce) => true,
        _ => false,
    };
    coerces && match fa_conc.terms.get_only() {
        Some(t) => is_pair(&t) || is_inverse(&t) || is_headed_by(&t, AcSym::Mult),
        None => false,
    }
}

/// The free variables of the facts.
pub open spec fn facts_frees(l: List<Fact>) -> List<LVar>
    decreases l,
{
    match l {
        List::Nil => List::Nil,
        List::Cons(fa, rest) => terms_frees(fa.terms).then_all(facts_frees(*rest)),
    }
}

pub fn frees_of_facts(l: &List<Fact>) -> (r: List<LVar>)
    ensures
        r == facts_frees(*l),
    decreases l,
{
    match l {
        List::Nil => List::Nil,
        List::Cons(fa, rest) => frees_of_terms(&fa.terms).concat(frees_of_facts(rest)),
    }
}

/// The free variables of a rule instance.
pub open spec fn rule_frees(ru: RuleACInst) -> List<LVar> {
    facts_frees(ru.premises).then_all(
        facts_frees(ru.conclusions).then_all(
            facts_frees(ru.actions).then_all(terms_frees(ru.new_vars)),
        ),
    )
}

pub fn frees_of_rule(ru: &RuleACInst) -> (r: List<LVar>)
    ensures
        r == rule_frees(*ru),
{
    let news = frees_of_terms(&ru.new_vars);
    let acts = frees_of_facts(&ru.actions).concat(news);
    let concs = frees_of_facts(&ru.conclusions).concat(acts);
    frees_of_facts(&ru.premises).concat(concs)
}

/// The variables that a substitution binds.
pub open spec fn domain(s: Subst) -> List<LVar>
    decreases s,
{
    match s {
        List::Nil => List::Nil,
        List::Cons(b, rest) => List::Cons(b.0, Box::new(domain(*rest))),
    }
}

pub fn domain_of(s: &Subst) -> (r: List<LVar>)
    ensures
        r == domain(*s),
    decreases s,
{
    match s {
        List::Nil => List::Nil,
        List::Cons(b, rest) => List::Cons(b.0.dup(), Box::new(domain_of(rest))),
    }
}

/// The variables that the substitutions bind.
pub open spec fn domains(l: List<Subst>) -> List<LVar>
    decreases l,
{
    match l {
        List::Nil => List::Nil,
        List::Cons(s, rest) => domain(s).then_all(domains(*rest)),
    }
}

pub fn domains_of(l: &List<Subst>) -> (r: List<LVar>)
    ensures
        r == domains(*l),
    decreases l,
{
    match l {
        List::Nil => List::Nil,
        List::Cons(s, rest) => domain_of(s).concat(domains_of(rest)),
    }
}

/// The substitution with the variables that it binds moved.
pub open spec fn shifted_domain(m: Shift, s: Subst) -> Subst
    decreases s,
{
    match s {
        List::Nil => List::Nil,
        List::Cons(b, rest) => List::Cons(
            (m.moved_var(b.0), b.1),
            Box::new(shifted_domain(m, *rest)),
        ),
    }
}

fn shift_domain(m: &Shift, s: &Subst) -> (r: Subst)
    ensures
        r == shifted_domain(*m, *s),
    decreases s,
{
    match s {
        List::Nil => List::Nil,
        List::Cons(b, rest) => List::Cons(
            (m.shift_var(&b.0), b.1.dup()),
            Box::new(shift_domain(m, rest)),
        ),
    }
}

pub open spec fn shifted_domains(m: Shift, l: List<Subst>) -> List<Subst>
    decreases l,
{
    match l {
        List::Nil => List::Nil,
        List::Cons(s, rest) => List::Cons(
            shifted_domain(m, s),
            Box::new(shifted_domains(m, *rest)),
        ),
    }
}

fn shift_domains(m: &Shift, l: &List<Subst>) -> (r: List<Subst>)
    ensures
        r == shifted_domains(*m, *l),
    decreases l,
{
    match l {
        List::Nil => List::Nil,
        List::Cons(s, rest) => List::Cons(shift_domain(m, s), Box::new(shift_domains(m, rest))),
    }
}

/// The smallest index of the variables.
pub open spec fn vars_min(l: List<LVar>) -> u64
    decreases l,
{
    match l {
        List::Nil => u64::MAX,
        List::Cons(v, rest) => if v.idx < vars_min(*rest) {
            v.idx
        } else {
            vars_min(*rest)
        },
    }
}

fn min_of_vars(l: &List<LVar>) -> (r: u64)
    ensures
        r == vars_min(*l),
    decreases l,
{
    match l {
        List::Nil => u64::MAX,
        List::Cons(v, rest) => {
            let m: u64 = min_of_vars(rest);
            if v.idx < m {
                v.idx
            } else {
                m
            }
        },
    }
}

/// The variables of a rule instance and of what is bound by its variants.
pub open spec fn variables(ru: RuleWithConstrs) -> List<LVar> {
    rule_frees(ru.0).then_all(
        match ru.1 {
            Some(l) => domains(l),
            None => List::Nil,
        },
    )
}

/// The supply of fresh indices: the next one that it hands out.
#[derive(Debug, Clone, Copy, PartialEq, Eq, Structural)]
pub struct Supply {
    pub next: u64,
}

impl Supply {
    /// The supply, moved past `idx`.
    pub open spec fn above(self, idx: u64) -> Supply {
        Supply { next: larger(self.next, plus(idx, 1)) }
    }

    /// Moves the supply past `idx`.
    pub fn ensure_above(&mut self, idx: u64)
        ensures
            *final(self) == old(self).above(idx),
    {
        self.next = max_of(self.next, idx.saturating_add(1));
    }

    /// The supply after `n` indices have been taken.
    pub open spec fn taken(self, n: u64) -> Supply {
        Supply { next: plus(self.next, n) }
    }

    /// Takes `n` consecutive indices and returns the first one.
    pub fn reserve_idxs(&mut self, n: u64) -> (first: u64)
        ensures
            *final(self) == old(self).taken(n),
            first == old(self).next,
    {
        let first: u64 = self.next;
        self.next = first.saturating_add(n);
        first
    }

    /// Takes one index.
    pub fn fresh_idx(&mut self) -> (idx: u64)
        ensures
            *final(self) == old(self).taken(1),
            idx == old(self).next,
    {
        self.reserve_idxs(1)
    }
}

/// The number of indices from the smallest to the largest one in use.
pub open spec fn index_span(vars: List<LVar>) -> u64 {
    plus(minus(crate::leaves::vars_max(vars), vars_min(vars)), 1)
}

/// The rule with its variables moved to indices of the supply above `avoid`,
/// and the supply thereafter.
#[verifier::opaque]
pub open spec fn freshened(ru: RuleWithConstrs, avoid: u64, supply: Supply) -> (
    RuleWithConstrs,
    Supply,
) {
    let vars = variables(ru);
    if vars is Nil {
        (ru, supply)
    } else {
        let m = Shift { low: vars_min(vars), base: supply.above(avoid).next };
        (
            (
                mapped_rule(m, ru.0),
                match ru.1 {
                    Some(l) => Some(shifted_domains(m, l)),
                    None => None,
                },
            ),
            supply.above(avoid).taken(index_span(vars)),
        )
    }
}

/// Moves the variables of the rule to fresh indices above `avoid`.
pub fn freshen_rule_with_constrs(ru: RuleWithConstrs, avoid: u64, supply: &mut Supply) -> (r:
    RuleWithConstrs)
    ensures
        (r, *final(supply)) == freshened(ru, avoid, *old(supply)),
{
    proof {
        reveal(freshened);
    }
    let bound = match &ru.1 {
        Some(l) => domains_of(l),
        None => List::Nil,
    };
    let vars = frees_of_rule(&ru.0).concat(bound);
    if vars.is_empty() {
        return ru;
    }
    let low: u64 = min_of_vars(&vars);
    let high: u64 = crate::leaves::max_of_vars(&vars);
    supply.ensure_above(avoid);
    let span: u64 = high.saturating_sub(low).saturating_add(1);
    let base: u64 = supply.reserve_idxs(span);
    let m = Shift { low, base };
    let constrs = match &ru.1 {
        Some(l) => Some(shift_domains(&m, l)),
        None => None,
    };
    (map_rule(&m, &ru.0), constrs)
}

/// Moves the variables of the rule instance to fresh indices above `avoid`.
pub fn freshen_rule(ru: RuleACInst, avoid: u64, supply: &mut Supply) -> (r: RuleACInst)
    ensures
        r == freshened((ru, None), avoid, *old(supply)).0.0,
        *final(supply) == freshened((ru, None), avoid, *old(supply)).1,
{
    proof {
        reveal(freshened);
    }
    freshen_rule_with_constrs((ru, None), avoid, supply).0
}

} // verus!
