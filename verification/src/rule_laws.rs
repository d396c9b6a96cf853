//! Which rules may follow each other, and which are tried.
use crate::facts::{Fact, IntrRuleACInfo, RuleACInst, RuleInfo};
use crate::list::List;
use crate::names::rule_name;
use crate::origin_laws::lemma_has_then;
use crate::reduction::Reduction;
use crate::rules::{
    action_candidates, candidate_class, coerce_illegal, edge_forbidden, instantiated_rule,
    intr_instance, intr_instances, premise_candidates, proto_instance, proto_instances, remaining,
    variants_of, with_remaining, IntrClass, IntrRuleAC, OpenProtoRule, RuleWithConstrs,
};
use crate::term_ops::Subst;
use crate::terms::{AcSym, FunSym, Term};
use crate::text::{text_of, Text};
use vstd::prelude::*;

verus! {

/// The destruction rule of the given name, with `n` applications left.
pub open spec fn destruction(name: Text, n: i64, subterm: bool, constant: bool) -> RuleInfo {
    RuleInfo::Intr(IntrRuleACInfo::DestrRule(name, n, subterm, constant))
}

/// Whether the rule is the destruction rule of the given name.
pub open spec fn is_destruction(ru: RuleACInst, name: Text) -> bool {
    ru.info matches RuleInfo::Intr(IntrRuleACInfo::DestrRule(own, _, _, _)) && own == name
}

/// Whether one rule may not follow the other whatever is left: an exponentiation after
/// an exponentiation, and a scalar product or a pairing after a scalar product.
pub open spec fn never_follows(c_rule: RuleACInst, p_rule: RuleACInst) -> bool {
    ||| is_destruction(c_rule, text_of("_exp"@)) && is_destruction(p_rule, text_of("_exp"@))
    ||| is_destruction(c_rule, text_of("_pmult"@)) && (is_destruction(p_rule, text_of("_pmult"@))
        || is_destruction(p_rule, text_of("_em"@)))
}

/// A destruction rule follows itself unless exactly one application is left of it: one
/// whose applications are not limited, with none or less on record, does, and so does
/// one with two or more left.
pub proof fn law_rule_follows_itself(
    c_rule: RuleACInst,
    p_rule: RuleACInst,
    name: Text,
    left: i64,
    subterm: bool,
    constant: bool,
)
    requires
        c_rule.info == destruction(name, left, subterm, constant),
        is_destruction(p_rule, name),
        !never_follows(c_rule, p_rule),
    ensures
        edge_forbidden(c_rule, p_rule) <==> left == 1,
{
    reveal(edge_forbidden);
    reveal(remaining);
    reveal(rule_name);
    let head = text_of("Destr"@);
    reveal_strlit("Destr");
    assert(head.chars !is Nil) by {
        lemma_text_of_some("Destr"@);
    }
}

/// Rules of different names follow each other, as do rules that are no destruction
/// rules, save for exponentiations, scalar products and pairings.
pub proof fn law_other_rules_follow(c_rule: RuleACInst, p_rule: RuleACInst)
    ensures
        never_follows(c_rule, p_rule) ==> edge_forbidden(c_rule, p_rule),
        !never_follows(c_rule, p_rule) && rule_name(c_rule) != rule_name(p_rule)
            ==> !edge_forbidden(c_rule, p_rule),
        !never_follows(c_rule, p_rule) && !(c_rule.info matches RuleInfo::Intr(
            IntrRuleACInfo::DestrRule(_, left, _, _),
        ) && left == 1) ==> !edge_forbidden(c_rule, p_rule),
{
    reveal(edge_forbidden);
    reveal(remaining);
}

proof fn lemma_text_of_some(s: Seq<char>)
    requires
        s.len() > 0,
    ensures
        text_of(s).chars !is Nil,
{
}

/// The rule with which a chain goes on is the one that was chosen, but for the number
/// of applications left: a rule that follows itself, with more than one application
/// left, has one less left then; any other is taken as it is.
pub proof fn law_budget(c_rule: RuleACInst, ru: RuleACInst, name: Text, left: i64)
    requires
        is_destruction(ru, name),
    ensures
        Reduction::budgeted(c_rule, ru) == (RuleACInst {
            info: Reduction::budgeted(c_rule, ru).info,
            ..ru
        }),
        is_destruction(Reduction::budgeted(c_rule, ru), name),
        is_destruction(c_rule, name) && remaining(c_rule) == left && left > 1 ==> remaining(
            Reduction::budgeted(c_rule, ru),
        ) == left - 1,
        remaining(c_rule) <= 1 ==> Reduction::budgeted(c_rule, ru) == ru,
        rule_name(c_rule) != rule_name(ru) ==> Reduction::budgeted(c_rule, ru) == ru,
{
    reveal(with_remaining);
    reveal(remaining);
    reveal(rule_name);
    reveal_strlit("Destr");
    lemma_text_of_some("Destr"@);
}

proof fn lemma_proto_has(l: List<OpenProtoRule>, with_actions: bool, ru: RuleWithConstrs)
    ensures
        proto_instances(l, with_actions).has(ru) <==> exists|o: OpenProtoRule| #[trigger]
            l.has(o) && ru == (proto_instance(o), variants_of(o)) && (with_actions
                ==> instantiated_rule(o).actions !is Nil),
    decreases l,
{
    match l {
        List::Nil => {},
        List::Cons(o, rest) => {
            lemma_proto_has(*rest, with_actions, ru);
            if ru == (proto_instance(o), variants_of(o)) && (with_actions ==> instantiated_rule(
                o,
            ).actions !is Nil) {
                assert(l.has(o));
            }
            if proto_instances(*rest, with_actions).has(ru) {
                let p = choose|p: OpenProtoRule| #[trigger]
                    rest.has(p) && ru == (proto_instance(p), variants_of(p)) && (with_actions
                        ==> instantiated_rule(p).actions !is Nil);
                assert(l.has(p));
            }
            if exists|p: OpenProtoRule| #[trigger]
                l.has(p) && ru == (proto_instance(p), variants_of(p)) && (with_actions
                    ==> instantiated_rule(p).actions !is Nil) {
                let p = choose|p: OpenProtoRule| #[trigger]
                    l.has(p) && ru == (proto_instance(p), variants_of(p)) && (with_actions
                        ==> instantiated_rule(p).actions !is Nil);
                if p != o {
                    assert(rest.has(p));
                }
            }
        },
    }
}

proof fn lemma_intr_has(l: List<IntrRuleAC>, c: IntrClass, with_actions: bool, ru: RuleWithConstrs)
    ensures
        intr_instances(l, c, with_actions).has(ru) <==> exists|ir: IntrRuleAC| #[trigger]
            l.has(ir) && ru == (intr_instance(ir), None::<List<Subst>>) && candidate_class(
                ir.info,
                with_actions,
            ) == c && (with_actions ==> ir.actions !is Nil),
    decreases l,
{
    match l {
        List::Nil => {},
        List::Cons(ir, rest) => {
            lemma_intr_has(*rest, c, with_actions, ru);
            if ru == (intr_instance(ir), None::<List<Subst>>) && candidate_class(
                ir.info,
                with_actions,
            ) == c && (with_actions ==> ir.actions !is Nil) {
                assert(l.has(ir));
            }
            if intr_instances(*rest, c, with_actions).has(ru) {
                let p = choose|p: IntrRuleAC| #[trigger]
                    rest.has(p) && ru == (intr_instance(p), None::<List<Subst>>)
                        && candidate_class(p.info, with_actions) == c && (with_actions
                        ==> p.actions !is Nil);
                assert(l.has(p));
            }
            if exists|p: IntrRuleAC| #[trigger]
                l.has(p) && ru == (intr_instance(p), None::<List<Subst>>) && candidate_class(
                    p.info,
                    with_actions,
                ) == c && (with_actions ==> p.actions !is Nil) {
                let p = choose|p: IntrRuleAC| #[trigger]
                    l.has(p) && ru == (intr_instance(p), None::<List<Subst>>)
                        && candidate_class(p.info, with_actions) == c && (with_actions
                        ==> p.actions !is Nil);
                if p != ir {
                    assert(rest.has(p));
                }
            }
        },
    }
}

/// Whether `ru` is an instance of the protocol rule: of its abstraction where it has
/// one, with its variants.
pub open spec fn is_proto_instance(ru: RuleWithConstrs, o: OpenProtoRule) -> bool {
    let src = match o.abstracted_rule {
        Some(abstracted) => abstracted,
        None => o.rule,
    };
    &&& ru.0.premises == src.premises && ru.0.conclusions == src.conclusions && ru.0.actions
        == src.actions && ru.0.new_vars == src.new_vars
    &&& ru.0.info matches RuleInfo::Proto(info) && info.name == src.name && info.attributes
        == src.attributes && info.loop_breakers == o.loop_breakers
    &&& o.variant_substs is Nil ==> ru.1 is None
    &&& o.variant_substs !is Nil ==> ru.1 == Some(o.variant_substs)
}

/// Whether `ru` is an instance of the intruder rule.
pub open spec fn is_intr_instance(ru: RuleWithConstrs, ir: IntrRuleAC) -> bool {
    &&& ru.0.premises == ir.premises && ru.0.conclusions == ir.conclusions && ru.0.actions
        == ir.actions && ru.0.new_vars == ir.new_vars
    &&& ru.0.info == RuleInfo::Intr(ir.info) && ru.1 is None
}

/// The rules that are tried for an action: exactly those with actions, of the protocol
/// and of the intruder.
pub proof fn law_action_candidates(
    intr: List<IntrRuleAC>,
    proto: List<OpenProtoRule>,
    ru: RuleWithConstrs,
)
    ensures
        action_candidates(intr, proto).has(ru) <==> ru.0.actions !is Nil && ((exists|
            o: OpenProtoRule,
        | #[trigger]
            proto.has(o) && is_proto_instance(ru, o)) || (exists|ir: IntrRuleAC| #[trigger]
            intr.has(ir) && is_intr_instance(ru, ir))),
{
    reveal(action_candidates);
    let a = intr_instances(intr, IntrClass::Interface, true);
    let b = proto_instances(proto, true);
    let c = intr_instances(intr, IntrClass::Destruction, true);
    let d = intr_instances(intr, IntrClass::Construction, true);
    lemma_has_then(a, b.then_all(c.then_all(d)), ru);
    lemma_has_then(b, c.then_all(d), ru);
    lemma_has_then(c, d, ru);
    lemma_proto_has(proto, true, ru);
    lemma_intr_has(intr, IntrClass::Interface, true, ru);
    lemma_intr_has(intr, IntrClass::Destruction, true, ru);
    lemma_intr_has(intr, IntrClass::Construction, true, ru);
    assert forall|o: OpenProtoRule| is_proto_instance(ru, o) <==> ru == (
        proto_instance(o),
        variants_of(o),
    ) by {}
    assert forall|ir: IntrRuleAC| is_intr_instance(ru, ir) <==> ru == (
        intr_instance(ir),
        None::<List<Subst>>,
    ) by {}
}

/// The rules that are tried for a premise: exactly those of the protocol, and those of
/// the intruder that are no destruction rules.
pub proof fn law_premise_candidates(
    intr: List<IntrRuleAC>,
    proto: List<OpenProtoRule>,
    ru: RuleWithConstrs,
)
    ensures
        premise_candidates(intr, proto).has(ru) <==> ((exists|o: OpenProtoRule| #[trigger]
            proto.has(o) && is_proto_instance(ru, o)) || (exists|ir: IntrRuleAC| #[trigger]
            intr.has(ir) && is_intr_instance(ru, ir) && !(ir.info is DestrRule))),
{
    reveal(premise_candidates);
    let a = intr_instances(intr, IntrClass::Interface, false);
    let b = proto_instances(proto, false);
    let d = intr_instances(intr, IntrClass::Construction, false);
    lemma_has_then(a, b.then_all(d), ru);
    lemma_has_then(b, d, ru);
    lemma_proto_has(proto, false, ru);
    lemma_intr_has(intr, IntrClass::Interface, false, ru);
    lemma_intr_has(intr, IntrClass::Construction, false, ru);
    assert forall|o: OpenProtoRule| is_proto_instance(ru, o) <==> ru == (
        proto_instance(o),
        variants_of(o),
    ) by {}
    assert forall|ir: IntrRuleAC| is_intr_instance(ru, ir) <==> ru == (
        intr_instance(ir),
        None::<List<Subst>>,
    ) by {}
}

/// Only what can be taken apart is not coerced: a rule other than coercion takes any term, and
/// coercion takes every term that is no application, and every fact that is not about one
/// term alone.
pub proof fn law_what_may_be_coerced(p_rule: RuleACInst, fa: Fact, args: List<Term>)
    ensures
        p_rule.info != RuleInfo::Intr(IntrRuleACInfo::Coerce) ==> !coerce_illegal(p_rule, fa),
        fa.terms.only() is None ==> !coerce_illegal(p_rule, fa),
        fa.terms matches List::Cons(t, _) ==> !(t is App) ==> !coerce_illegal(p_rule, fa),
        p_rule.info == RuleInfo::Intr(IntrRuleACInfo::Coerce) && fa.terms == List::one(
            Term::App(FunSym::Ac(AcSym::Mult), Box::new(args)),
        ) ==> coerce_illegal(p_rule, fa),
{
    reveal(coerce_illegal);
}

} // verus!
