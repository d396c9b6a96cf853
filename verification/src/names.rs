//! The names of proof cases.
use crate::facts::{Fact, FactTag, IntrRuleACInfo, ProtoRuleName, RuleACInst, RuleInfo};
use crate::list::{List, Value};
use crate::terms::{AcSym, FunSym, LSort, NameTag, Term};
use crate::text::{text_of, Text};
use vstd::prelude::*;

verus! {

/// The text `a` followed by `b`.
pub open spec fn cat(a: Text, b: Text) -> Text {
    Text { chars: a.chars.then_all(b.chars) }
}

pub fn append(a: &Text, b: Text) -> (r: Text)
    ensures
        r == cat(*a, b),
{
    Text { chars: a.chars.concat(b.chars) }
}

/// The literal `a` followed by `b`.
pub fn prefixed(a: &str, b: Text) -> (r: Text)
    ensures
        r == cat(text_of(a@), b),
{
    append(&Text::new(a), b)
}

/// The character of a digit.
pub open spec fn digit(d: u64) -> char {
    if d == 0 {
        '0'
    } else if d == 1 {
        '1'
    } else if d == 2 {
        '2'
    } else if d == 3 {
        '3'
    } else if d == 4 {
        '4'
    } else if d == 5 {
        '5'
    } else if d == 6 {
        '6'
    } else if d == 7 {
        '7'
    } else if d == 8 {
        '8'
    } else {
        '9'
    }
}

fn digit_char(d: u64) -> (r: char)
    ensures
        r == digit(d),
{
    if d == 0 {
        '0'
    } else if d == 1 {
        '1'
    } else if d == 2 {
        '2'
    } else if d == 3 {
        '3'
    } else if d == 4 {
        '4'
    } else if d == 5 {
        '5'
    } else if d == 6 {
        '6'
    } else if d == 7 {
        '7'
    } else if d == 8 {
        '8'
    } else {
        '9'
    }
}

/// The decimal digits of `n`.
pub open spec fn decimal_chars(n: u64) -> List<char>
    decreases n,
{
    if n < 10 {
        List::one(digit(n))
    } else {
        decimal_chars(n / 10).snoc(digit(n % 10))
    }
}

fn to_decimal_chars(n: u64) -> (r: List<char>)
    ensures
        r == decimal_chars(n),
    decreases n,
{
    if n < 10 {
        List::single(digit_char(n))
    } else {
        to_decimal_chars(n / 10).with_last(digit_char(n % 10))
    }
}

/// The decimal notation of `n`.
pub open spec fn decimal(n: u64) -> Text {
    Text { chars: decimal_chars(n) }
}

pub fn to_decimal(n: u64) -> (r: Text)
    ensures
        r == decimal(n),
{
    Text { chars: to_decimal_chars(n) }
}

/// The name of the case at position `i`, counted from one.
pub open spec fn numbered_case(i: u64) -> Text {
    cat(text_of("case_"@), decimal(crate::term_ops::after(i)))
}

pub fn numbered_case_text(i: u64) -> (r: Text)
    ensures
        r == numbered_case(i),
{
    prefixed("case_", to_decimal(crate::term_ops::next_after(i)))
}

/// The name of the case at position `i`, counted from one: `case_1` for the
/// first.
pub fn default_case_name(i: usize) -> (r: String)
    requires
        i < usize::MAX,
    ensures
        r@ == numbered_case(i as u64)@,
{
    numbered_case_text(i as u64).to_string()
}

/// The text without one leading underscore.
pub open spec fn trimmed(t: Text) -> Text {
    match t.chars {
        List::Cons(c, rest) => if c == '_' {
            Text { chars: *rest }
        } else {
            t
        },
        List::Nil => t,
    }
}

fn trim(t: &Text) -> (r: Text)
    ensures
        r == trimmed(*t),
{
    match &t.chars {
        List::Cons(c, rest) => if *c == '_' {
            Text { chars: rest.dup() }
        } else {
            t.dup()
        },
        List::Nil => t.dup(),
    }
}

/// The name of the case in which a goal is solved by the rule.
#[verifier::opaque]
pub open spec fn rule_case(ru: RuleACInst) -> Text {
    match ru.info {
        RuleInfo::Proto(p) => match p.name {
            ProtoRuleName::Fresh => text_of("Fresh"@),
            ProtoRuleName::Stand(s) => s,
        },
        RuleInfo::Intr(i) => match i {
            IntrRuleACInfo::ConstrRule(name) => cat(text_of("c_"@), trimmed(name)),
            IntrRuleACInfo::DestrRule(name, _, _, _) => cat(text_of("d_"@), trimmed(name)),
            IntrRuleACInfo::Coerce => text_of("coerce"@),
            IntrRuleACInfo::IRecv => text_of("irecv"@),
            IntrRuleACInfo::ISend => text_of("isend"@),
            IntrRuleACInfo::PubConstr => text_of("pub"@),
            IntrRuleACInfo::NatConstr => text_of("nat"@),
            IntrRuleACInfo::FreshConstr => text_of("fresh"@),
            IntrRuleACInfo::IEquality => text_of("iequality"@),
        },
    }
}

pub fn rule_case_text(ru: &RuleACInst) -> (r: Text)
    ensures
        r == rule_case(*ru),
{
    proof {
        reveal(rule_case);
    }
    match &ru.info {
        RuleInfo::Proto(p) => match &p.name {
            ProtoRuleName::Fresh => Text::new("Fresh"),
            ProtoRuleName::Stand(s) => s.dup(),
        },
        RuleInfo::Intr(i) => match i {
            IntrRuleACInfo::ConstrRule(name) => prefixed("c_", trim(name)),
            IntrRuleACInfo::DestrRule(name, _, _, _) => prefixed("d_", trim(name)),
            IntrRuleACInfo::Coerce => Text::new("coerce"),
            IntrRuleACInfo::IRecv => Text::new("irecv"),
            IntrRuleACInfo::ISend => Text::new("isend"),
            IntrRuleACInfo::PubConstr => Text::new("pub"),
            IntrRuleACInfo::NatConstr => Text::new("nat"),
            IntrRuleACInfo::FreshConstr => Text::new("fresh"),
            IntrRuleACInfo::IEquality => Text::new("iequality"),
        },
    }
}

/// The name of the case in which a goal is solved by the rule.
pub fn rule_case_name(rule: &RuleACInst) -> (r: String)
    ensures
        r@ == rule_case(*rule)@,
{
    proof {
        reveal(rule_case);
    }
    rule_case_text(rule).to_string()
}

/// Whether a rule name is taken by a built-in rule.
pub open spec fn reserved(t: Text) -> bool {
    ||| t == text_of("Fresh"@)
    ||| t == text_of("irecv"@)
    ||| t == text_of("isend"@)
    ||| t == text_of("coerce"@)
    ||| t == text_of("fresh"@)
    ||| t == text_of("pub"@)
    ||| t == text_of("iequality"@)
}

/// Whether the text starts with an underscore.
pub open spec fn underscored(t: Text) -> bool {
    match t.chars {
        List::Cons(c, _) => c == '_',
        List::Nil => false,
    }
}

/// The rule name, with an underscore in front where it is reserved or starts
/// with one already.
pub open spec fn unreserved(t: Text) -> Text {
    if reserved(t) || underscored(t) {
        cat(text_of("_"@), t)
    } else {
        t
    }
}

fn prefix_if_reserved(t: Text) -> (r: Text)
    ensures
        r == unreserved(t),
{
    let is_reserved = t.same(&Text::new("Fresh")) || t.same(&Text::new("irecv")) || t.same(
        &Text::new("isend"),
    ) || t.same(&Text::new("coerce")) || t.same(&Text::new("fresh")) || t.same(&Text::new("pub"))
        || t.same(&Text::new("iequality"));
    let is_underscored = match &t.chars {
        List::Cons(c, _) => *c == '_',
        List::Nil => false,
    };
    if is_reserved || is_underscored {
        prefixed("_", t)
    } else {
        t
    }
}

/// The full name of the rule.
#[verifier::opaque]
pub open spec fn rule_name(ru: RuleACInst) -> Text {
    match ru.info {
        RuleInfo::Proto(p) => match p.name {
            ProtoRuleName::Fresh => text_of("FreshRule"@),
            ProtoRuleName::Stand(s) => s,
        },
        RuleInfo::Intr(i) => match i {
            IntrRuleACInfo::ConstrRule(name) => cat(
                text_of("Constr"@),
                unreserved(cat(text_of("c"@), name)),
            ),
            IntrRuleACInfo::DestrRule(name, _, _, _) => cat(
                text_of("Destr"@),
                unreserved(cat(text_of("d"@), name)),
            ),
            IntrRuleACInfo::Coerce => text_of("Coerce"@),
            IntrRuleACInfo::IRecv => text_of("Recv"@),
            IntrRuleACInfo::ISend => text_of("Send"@),
            IntrRuleACInfo::PubConstr => text_of("PubConstr"@),
            IntrRuleACInfo::NatConstr => text_of("NatConstr"@),
            IntrRuleACInfo::FreshConstr => text_of("FreshConstr"@),
            IntrRuleACInfo::IEquality => text_of("Equality"@),
        },
    }
}

pub fn rule_name_text(ru: &RuleACInst) -> (r: Text)
    ensures
        r == rule_name(*ru),
{
    proof {
        reveal(rule_name);
    }
    match &ru.info {
        RuleInfo::Proto(p) => match &p.name {
            ProtoRuleName::Fresh => Text::new("FreshRule"),
            ProtoRuleName::Stand(s) => s.dup(),
        },
        RuleInfo::Intr(i) => match i {
            IntrRuleACInfo::ConstrRule(name) => prefixed(
                "Constr",
                prefix_if_reserved(prefixed("c", name.dup())),
            ),
            IntrRuleACInfo::DestrRule(name, _, _, _) => prefixed(
                "Destr",
                prefix_if_reserved(prefixed("d", name.dup())),
            ),
            IntrRuleACInfo::Coerce => Text::new("Coerce"),
            IntrRuleACInfo::IRecv => Text::new("Recv"),
            IntrRuleACInfo::ISend => Text::new("Send"),
            IntrRuleACInfo::PubConstr => Text::new("PubConstr"),
            IntrRuleACInfo::NatConstr => Text::new("NatConstr"),
            IntrRuleACInfo::FreshConstr => Text::new("FreshConstr"),
            IntrRuleACInfo::IEquality => Text::new("Equality"),
        },
    }
}

/// The full name of the rule, as traces show it.
pub fn rule_trace_name(rule: &RuleACInst) -> (r: String)
    ensures
        r@ == rule_name(*rule)@,
{
    rule_name_text(rule).to_string()
}

/// The name of a sort.
pub open spec fn sort_name(s: LSort) -> Text {
    match s {
        LSort::Pub => text_of("pub"@),
        LSort::Fresh => text_of("fresh"@),
        LSort::Msg => text_of("msg"@),
        LSort::Node => text_of("node"@),
        LSort::Nat => text_of("nat"@),
    }
}

fn sort_suffix(s: LSort) -> (r: Text)
    ensures
        r == sort_name(s),
{
    match s {
        LSort::Pub => Text::new("pub"),
        LSort::Fresh => Text::new("fresh"),
        LSort::Msg => Text::new("msg"),
        LSort::Node => Text::new("node"),
        LSort::Nat => Text::new("nat"),
    }
}

/// The case name of a chain that ends at the term `m`.
pub open spec fn chain_end(m: Term) -> Option<Text> {
    match m {
        Term::Var(v) => {
            let body = if v.name.chars is Nil {
                decimal(v.idx)
            } else if v.idx == 0 {
                v.name
            } else {
                cat(decimal(v.idx), cat(text_of("_"@), v.name))
            };
            Some(cat(text_of("Var_"@), cat(sort_name(v.sort), cat(text_of("_"@), body))))
        },
        Term::Con(c) => match c.tag {
            NameTag::Fresh => Some(cat(text_of("Const_fresh_"@), c.id)),
            NameTag::Pub => Some(cat(text_of("Const_pub_"@), c.id)),
            NameTag::Node => Some(cat(text_of("Const_node_"@), c.id)),
            NameTag::Nat => Some(cat(text_of("Const_nat_"@), c.id)),
        },
        Term::App(f, _) => match f {
            FunSym::NoEq(s) => Some(s.name),
            FunSym::Ac(AcSym::Union) => Some(text_of("Union"@)),
            FunSym::Ac(AcSym::Xor) => Some(text_of("Xor"@)),
            FunSym::Ac(AcSym::Mult) => Some(text_of("Mult"@)),
            FunSym::Ac(AcSym::NatPlus) => Some(text_of("NatPlus"@)),
            FunSym::EMap => Some(text_of("EMap"@)),
            FunSym::List => Some(text_of("List"@)),
        },
        Term::Bound(_) => None,
    }
}

/// The case name of a chain that ends directly at the conclusion: there is one
/// for what the intruder has taken apart, made from the term.
#[verifier::opaque]
pub open spec fn chain_direct(fa_conc: Fact) -> Option<Text> {
    match (fa_conc.tag, fa_conc.terms) {
        (FactTag::Kd, List::Cons(m, _)) => chain_end(m),
        _ => None,
    }
}

pub fn chain_direct_text(fa_conc: &Fact) -> (r: Option<Text>)
    ensures
        r == chain_direct(*fa_conc),
{
    proof {
        reveal(chain_direct);
    }
    match (&fa_conc.tag, &fa_conc.terms) {
        (FactTag::Kd, List::Cons(m, _)) => match m {
            Term::Var(v) => {
                let body = if v.name.chars.is_empty() {
                    to_decimal(v.idx)
                } else if v.idx == 0 {
                    v.name.dup()
                } else {
                    append(&to_decimal(v.idx), prefixed("_", v.name.dup()))
                };
                Some(prefixed("Var_", append(&sort_suffix(v.sort), prefixed("_", body))))
            },
            Term::Con(c) => match c.tag {
                NameTag::Fresh => Some(prefixed("Const_fresh_", c.id.dup())),
                NameTag::Pub => Some(prefixed("Const_pub_", c.id.dup())),
                NameTag::Node => Some(prefixed("Const_node_", c.id.dup())),
                NameTag::Nat => Some(prefixed("Const_nat_", c.id.dup())),
            },
            Term::App(f, _) => match f {
                FunSym::NoEq(s) => Some(s.name.dup()),
                FunSym::Ac(AcSym::Union) => Some(Text::new("Union")),
                FunSym::Ac(AcSym::Xor) => Some(Text::new("Xor")),
                FunSym::Ac(AcSym::Mult) => Some(Text::new("Mult")),
                FunSym::Ac(AcSym::NatPlus) => Some(Text::new("NatPlus")),
                FunSym::EMap => Some(Text::new("EMap")),
                FunSym::List => Some(Text::new("List")),
            },
            Term::Bound(_) => None,
        },
        _ => None,
    }
}

/// The case name of a chain that ends directly at the conclusion.
pub fn chain_direct_case_name(fa_conc: &Fact) -> (r: Option<String>)
    ensures
        match chain_direct(*fa_conc) {
            Some(t) => r matches Some(s) && s@ == t@,
            None => r is None,
        },
{
    match chain_direct_text(fa_conc) {
        Some(t) => Some(t.to_string()),
        None => None,
    }
}

} // verus!
