//! What holds of the names of cases and of the cases that a proof method leaves.
use crate::constraints::Goal;
use crate::context::ProofContext;
use crate::goals::Case;
use crate::list::List;
use crate::list_laws::{
    all, distinct, lemma_all_then, lemma_has_snoc, lemma_snoc_then, lemma_then_nil,
    lemma_then_size,
};
use crate::names::{decimal, decimal_chars, digit, numbered_case};
use crate::proof_method::{
    all_simplified, case_of_several, distinguished, executed, goal_cases, induction_cases,
    kept_positions, named, numbered, occurrences, outcome_cases, picked, processed,
    simplified_systems, simplify_cases, surviving, systems, told_apart, zero_padded, ProofMethod,
};
use crate::reduction::Reduction;
use crate::rename_precise::precise;
use crate::system::System;
use crate::term_ops::after;
use crate::text::{chars_of, text_of, Text};
use vstd::prelude::*;

verus! {

/// The value of a digit.
pub open spec fn digit_value(c: char) -> nat {
    (c as nat - '0' as nat) as nat
}

/// The number that is written in decimal digits, after digits that stand for
/// `acc`.
pub open spec fn value_after(acc: nat, l: List<char>) -> nat
    decreases l,
{
    match l {
        List::Nil => acc,
        List::Cons(c, rest) => value_after(10 * acc + digit_value(c), *rest),
    }
}

proof fn lemma_value_snoc(acc: nat, l: List<char>, c: char)
    ensures
        value_after(acc, l.snoc(c)) == 10 * value_after(acc, l) + digit_value(c),
    decreases l,
{
    match l {
        List::Nil => {
            assert(value_after(10 * acc + digit_value(c), List::<char>::Nil) == 10 * acc
                + digit_value(c));
        },
        List::Cons(d, rest) => {
            lemma_value_snoc(10 * acc + digit_value(d), *rest, c);
        },
    }
}

/// Decimal notation can be read back.
pub proof fn law_decimal_reads_back(n: u64)
    ensures
        value_after(0, decimal_chars(n)) == n,
    decreases n,
{
    if n < 10 {
        assert(value_after(n as nat, List::<char>::Nil) == n);
    } else {
        law_decimal_reads_back(n / 10);
        lemma_value_snoc(0, decimal_chars(n / 10), digit(n % 10));
    }
}

/// Different numbers have different notations.
pub proof fn law_decimal_injective(m: u64, n: u64)
    requires
        decimal(m) == decimal(n),
    ensures
        m == n,
{
    law_decimal_reads_back(m);
    law_decimal_reads_back(n);
}

proof fn lemma_padded_value(digits: List<char>, widest: List<char>)
    ensures
        value_after(0, zero_padded(digits, widest)) == value_after(0, digits),
    decreases widest,
{
    match widest {
        List::Nil => {},
        List::Cons(_, rest) => {
            lemma_padded_value(digits, *rest);
        },
    }
}

/// Whether the text holds no underscore.
spec fn no_bar(l: List<char>) -> bool {
    !l.has('_')
}

proof fn lemma_decimal_no_bar(n: u64)
    ensures
        no_bar(decimal_chars(n)),
    decreases n,
{
    if n < 10 {
        assert(!List::<char>::Nil.has('_'));
    } else {
        lemma_decimal_no_bar(n / 10);
        lemma_has_snoc(decimal_chars(n / 10), digit(n % 10), '_');
    }
}

proof fn lemma_padded_no_bar(digits: List<char>, widest: List<char>)
    requires
        no_bar(digits),
    ensures
        no_bar(zero_padded(digits, widest)),
    decreases widest,
{
    match widest {
        List::Nil => {},
        List::Cons(_, rest) => {
            lemma_padded_no_bar(digits, *rest);
        },
    }
}

proof fn lemma_has_then<T>(a: List<T>, b: List<T>, x: T)
    ensures
        a.then_all(b).has(x) == (a.has(x) || b.has(x)),
    decreases a,
{
    match a {
        List::Nil => {},
        List::Cons(_, rest) => {
            lemma_has_then(*rest, b, x);
        },
    }
}

/// A text is parted in one way only at its last underscore.
proof fn lemma_last_bar(p: List<char>, d: List<char>, q: List<char>, e: List<char>)
    requires
        no_bar(d),
        no_bar(e),
        p.then_all(List::Cons('_', Box::new(d))) == q.then_all(List::Cons('_', Box::new(e))),
    ensures
        p == q,
        d == e,
    decreases p,
{
    match (p, q) {
        (List::Nil, List::Nil) => {},
        (List::Nil, List::Cons(_, rest)) => {
            lemma_has_then(*rest, List::Cons('_', Box::new(e)), '_');
        },
        (List::Cons(_, rest), List::Nil) => {
            lemma_has_then(*rest, List::Cons('_', Box::new(d)), '_');
        },
        (List::Cons(_, l), List::Cons(_, m)) => {
            lemma_last_bar(*l, d, *m, e);
        },
    }
}

proof fn lemma_then_assoc<T>(a: List<T>, b: List<T>, c: List<T>)
    ensures
        a.then_all(b).then_all(c) == a.then_all(b.then_all(c)),
    decreases a,
{
    match a {
        List::Nil => {},
        List::Cons(_, rest) => {
            lemma_then_assoc(*rest, b, c);
        },
    }
}

proof fn lemma_then_cancel<T>(a: List<T>, b: List<T>, c: List<T>)
    requires
        a.then_all(c) == b.then_all(c),
    ensures
        a == b,
    decreases a,
{
    lemma_then_size(a, c);
    lemma_then_size(b, c);
    match (a, b) {
        (List::Cons(_, l), List::Cons(_, m)) => {
            lemma_then_cancel(*l, *m, c);
        },
        _ => {},
    }
}

/// The characters of the infix by which numbered cases are recognised, without
/// the last underscore.
spec fn infix_head() -> List<char> {
    List::Cons(
        '_',
        Box::new(
            List::Cons(
                'c',
                Box::new(List::Cons('a', Box::new(List::Cons('s', Box::new(List::one('e')))))),
            ),
        ),
    )
}

proof fn lemma_infix(d: List<char>)
    ensures
        text_of("_case_"@).chars.then_all(d) == infix_head().then_all(
            List::Cons('_', Box::new(d)),
        ),
{
    reveal_strlit("_case_");
    let s = "_case_"@;
    reveal_with_fuel(chars_of, 8);
    reveal_with_fuel(List::then_all, 8);
    let s1 = s.subrange(1, s.len() as int);
    let s2 = s1.subrange(1, s1.len() as int);
    let s3 = s2.subrange(1, s2.len() as int);
    let s4 = s3.subrange(1, s3.len() as int);
    let s5 = s4.subrange(1, s4.len() as int);
    let s6 = s5.subrange(1, s5.len() as int);
    assert(s.len() == 6 && s1.len() == 5 && s2.len() == 4 && s3.len() == 3 && s4.len() == 2
        && s5.len() == 1 && s6.len() == 0);
    assert(s[0] == '_' && s1[0] == 'c' && s2[0] == 'a' && s3[0] == 's' && s4[0] == 'e' && s5[0]
        == '_');
}

/// The names of cases that are numbered under names of their own differ in what
/// they are numbered under or in the number.
pub proof fn law_numbered_names_differ(a: Text, i: u64, m: u64, b: Text, j: u64, n: u64)
    requires
        case_of_several(a, i, m) == case_of_several(b, j, n),
    ensures
        a == b,
        i == j,
{
    let d = zero_padded(decimal(i).chars, decimal(m).chars);
    let e = zero_padded(decimal(j).chars, decimal(n).chars);
    lemma_decimal_no_bar(i);
    lemma_decimal_no_bar(j);
    lemma_padded_no_bar(decimal(i).chars, decimal(m).chars);
    lemma_padded_no_bar(decimal(j).chars, decimal(n).chars);
    let infix = text_of("_case_"@).chars;
    lemma_then_assoc(a.chars, infix, d);
    lemma_then_assoc(b.chars, infix, e);
    lemma_infix(d);
    lemma_infix(e);
    lemma_then_assoc(a.chars, infix_head(), List::Cons('_', Box::new(d)));
    lemma_then_assoc(b.chars, infix_head(), List::Cons('_', Box::new(e)));
    lemma_last_bar(a.chars.then_all(infix_head()), d, b.chars.then_all(infix_head()), e);
    lemma_then_cancel(a.chars, b.chars, infix_head());
    lemma_padded_value(decimal(i).chars, decimal(m).chars);
    lemma_padded_value(decimal(j).chars, decimal(n).chars);
    law_decimal_reads_back(i);
    law_decimal_reads_back(j);
}

/// The cases of a list that are numbered have different names.
pub proof fn law_case_numbers_differ(i: u64, j: u64)
    requires
        i < u64::MAX,
        j < u64::MAX,
        numbered_case(i) == numbered_case(j),
    ensures
        i == j,
{
    let p = text_of("case_"@).chars;
    lemma_common_prefix(p, decimal(after(i)).chars, decimal(after(j)).chars);
    law_decimal_injective(after(i), after(j));
}

proof fn lemma_common_prefix<T>(p: List<T>, a: List<T>, b: List<T>)
    requires
        p.then_all(a) == p.then_all(b),
    ensures
        a == b,
    decreases p,
{
    match p {
        List::Nil => {},
        List::Cons(_, rest) => {
            lemma_common_prefix(*rest, a, b);
        },
    }
}

/// The names of the cases.
pub open spec fn case_names(l: List<(Text, System)>) -> List<Text>
    decreases l,
{
    match l {
        List::Nil => List::Nil,
        List::Cons(c, rest) => List::Cons(c.0, Box::new(case_names(*rest))),
    }
}

/// Telling cases apart keeps their systems and their order.
pub proof fn law_telling_apart_keeps_systems(
    before: List<(Text, System)>,
    l: List<(Text, System)>,
    whole: List<(Text, System)>,
)
    ensures
        systems(told_apart(before, l, whole)) == systems(l),
    decreases l,
{
    match l {
        List::Nil => {},
        List::Cons(c, rest) => {
            law_telling_apart_keeps_systems(before.snoc(c), *rest, whole);
        },
    }
}

/// Whether no case that is alone under its name has the name that a numbered case
/// gets: the `i`-th of several of the name `a`.
pub open spec fn unclashing(l: List<(Text, System)>) -> bool {
    forall|a: Text, i: u64|
        1 <= i <= occurrences(l, a) && occurrences(l, a) > 1 ==> occurrences(
            l,
            #[trigger] case_of_several(a, i, occurrences(l, a)),
        ) != 1
}

proof fn lemma_occurrences_bound(l: List<(Text, System)>, name: Text)
    ensures
        occurrences(l, name) <= l.size(),
    decreases l,
{
    match l {
        List::Nil => {},
        List::Cons(_, rest) => {
            lemma_occurrences_bound(*rest, name);
        },
    }
}

proof fn lemma_occurrences_then(a: List<(Text, System)>, b: List<(Text, System)>, name: Text)
    requires
        a.size() + b.size() < u64::MAX,
    ensures
        occurrences(a.then_all(b), name) == occurrences(a, name) + occurrences(b, name),
    decreases a,
{
    match a {
        List::Nil => {},
        List::Cons(_, rest) => {
            lemma_occurrences_then(*rest, b, name);
            lemma_occurrences_bound(*rest, name);
            lemma_occurrences_bound(b, name);
        },
    }
}

/// The name that the case `c` gets among all cases, with `before` in front.
spec fn new_name(before: List<(Text, System)>, c: (Text, System), whole: List<(Text, System)>) -> Text {
    let total = occurrences(whole, c.0);
    if total > 1 {
        case_of_several(c.0, after(occurrences(before, c.0)), total)
    } else {
        c.0
    }
}

/// A name that was given in front of the cases `l` is not given again to one of
/// them: `c` stands at the end of `front`, and the rest of `before` behind it.
proof fn lemma_not_given_again(
    front: List<(Text, System)>,
    c: (Text, System),
    mid: List<(Text, System)>,
    l: List<(Text, System)>,
    whole: List<(Text, System)>,
)
    requires
        whole == front.snoc(c).then_all(mid).then_all(l),
        whole.size() < u64::MAX,
        unclashing(whole),
    ensures
        !case_names(told_apart(front.snoc(c).then_all(mid), l, whole)).has(
            new_name(front, c, whole),
        ),
    decreases l,
{
    match l {
        List::Nil => {},
        List::Cons(x, rest) => {
            let before = front.snoc(c).then_all(mid);
            lemma_then_snoc(front.snoc(c), mid, x);
            lemma_snoc_then(before, x, *rest);
            lemma_not_given_again(front, c, mid.snoc(x), *rest, whole);
            // How often the two names occur where.
            lemma_sizes(front, c, mid, l, whole);
            lemma_occurrences_then(front.snoc(c).then_all(mid), l, c.0);
            lemma_occurrences_then(front.snoc(c).then_all(mid), l, x.0);
            lemma_occurrences_then(front.snoc(c), mid, c.0);
            lemma_snoc_then(front, c, List::Nil);
            lemma_then_nil(front.snoc(c));
            assert(List::<(Text, System)>::Nil.size() == 0);
            assert(List::one(c).size() == 1);
            lemma_occurrences_then(front, List::one(c), c.0);
            assert(occurrences(List::<(Text, System)>::Nil, c.0) == 0);
            assert(occurrences(List::one(c), c.0) == 1);
            lemma_occurrences_bound(before, c.0);
            lemma_occurrences_bound(before, x.0);
            lemma_occurrences_bound(front, c.0);
            lemma_occurrences_bound(*rest, x.0);
            assert(occurrences(before, c.0) >= occurrences(front, c.0) + 1);
            let a = new_name(front, c, whole);
            let b = new_name(before, x, whole);
            if a == b {
                if occurrences(whole, c.0) > 1 && occurrences(whole, x.0) > 1 {
                    law_numbered_names_differ(
                        c.0,
                        after(occurrences(front, c.0)),
                        occurrences(whole, c.0),
                        x.0,
                        after(occurrences(before, x.0)),
                        occurrences(whole, x.0),
                    );
                } else if occurrences(whole, c.0) > 1 {
                    assert(x.0 == case_of_several(
                        c.0,
                        after(occurrences(front, c.0)),
                        occurrences(whole, c.0),
                    ));
                    assert(occurrences(whole, x.0) == 1);
                } else if occurrences(whole, x.0) > 1 {
                    assert(c.0 == case_of_several(
                        x.0,
                        after(occurrences(before, x.0)),
                        occurrences(whole, x.0),
                    ));
                    assert(occurrences(whole, c.0) == 1);
                } else {
                    assert(c.0 == x.0);
                    assert(occurrences(whole, c.0) >= 2);
                }
            }
        },
    }
}

proof fn lemma_then_snoc<T>(a: List<T>, b: List<T>, x: T)
    ensures
        a.then_all(b).snoc(x) == a.then_all(b.snoc(x)),
    decreases a,
{
    match a {
        List::Nil => {},
        List::Cons(_, rest) => {
            lemma_then_snoc(*rest, b, x);
        },
    }
}

proof fn lemma_sizes(
    front: List<(Text, System)>,
    c: (Text, System),
    mid: List<(Text, System)>,
    l: List<(Text, System)>,
    whole: List<(Text, System)>,
)
    requires
        whole == front.snoc(c).then_all(mid).then_all(l),
    ensures
        front.snoc(c).then_all(mid).size() + l.size() == whole.size(),
        front.snoc(c).size() + mid.size() + l.size() == whole.size(),
        front.size() + 1 + mid.size() + l.size() == whole.size(),
{
    lemma_then_size(front.snoc(c).then_all(mid), l);
    lemma_then_size(front.snoc(c), mid);
    lemma_snoc_then(front, c, List::Nil);
    lemma_then_nil(front.snoc(c));
    lemma_then_size(front, List::one(c));
    assert(List::<(Text, System)>::Nil.size() == 0);
}

proof fn lemma_told_apart_distinct(
    before: List<(Text, System)>,
    l: List<(Text, System)>,
    whole: List<(Text, System)>,
)
    requires
        whole == before.then_all(l),
        whole.size() < u64::MAX,
        unclashing(whole),
    ensures
        distinct(case_names(told_apart(before, l, whole))),
    decreases l,
{
    match l {
        List::Nil => {},
        List::Cons(c, rest) => {
            lemma_snoc_then(before, c, *rest);
            lemma_told_apart_distinct(before.snoc(c), *rest, whole);
            lemma_then_nil(before.snoc(c));
            lemma_not_given_again(before, c, List::Nil, *rest, whole);
        },
    }
}

/// Every case gets a name of its own, as long as no case has the name of a numbered
/// one from the start.
pub proof fn law_case_names_unique(cases: List<(Text, System)>)
    requires
        cases.size() < u64::MAX,
        unclashing(cases),
    ensures
        distinct(case_names(distinguished(cases))),
        systems(distinguished(cases)) == systems(cases),
{
    lemma_told_apart_distinct(List::Nil, cases, cases);
    law_telling_apart_keeps_systems(List::Nil, cases, cases);
}

proof fn lemma_unrepeated(
    before: List<(Text, System)>,
    l: List<(Text, System)>,
    whole: List<(Text, System)>,
)
    requires
        all(l, |c: (Text, System)| occurrences(whole, c.0) <= 1),
    ensures
        told_apart(before, l, whole) == l,
    decreases l,
{
    match l {
        List::Nil => {},
        List::Cons(c, rest) => {
            lemma_unrepeated(before.snoc(c), *rest, whole);
        },
    }
}

/// Cases whose names differ already keep them.
pub proof fn law_distinct_names_stay(cases: List<(Text, System)>)
    requires
        all(cases, |c: (Text, System)| occurrences(cases, c.0) <= 1),
    ensures
        distinguished(cases) == cases,
{
    lemma_unrepeated(List::Nil, cases, cases);
}

proof fn lemma_numbers_above(n: u64, m: u64, l: List<System>)
    requires
        n < m,
        m + l.size() <= u64::MAX,
    ensures
        !case_names(numbered(m, l)).has(decimal(n)),
    decreases l,
{
    match l {
        List::Nil => {},
        List::Cons(_, rest) => {
            if decimal(m) == decimal(n) {
                law_decimal_injective(m, n);
            }
            lemma_numbers_above(n, after(m), *rest);
        },
    }
}

/// The cases of a simplification that are numbered have names of their own.
pub proof fn law_simplified_names_unique(n: u64, l: List<System>)
    requires
        n + l.size() <= u64::MAX,
    ensures
        distinct(case_names(numbered(n, l))),
        systems(numbered(n, l)) == l,
    decreases l,
{
    match l {
        List::Nil => {},
        List::Cons(_, rest) => {
            lemma_numbers_above(n, after(n), *rest);
            law_simplified_names_unique(after(n), *rest);
        },
    }
}

/// Whether the system is fit to be shown: its substitution has been applied and
/// its equations have a solution.
pub open spec fn presentable() -> spec_fn(System) -> bool {
    |sys: System| sys.eq_store.subst is Nil && !sys.eq_store.contradictory
}

proof fn lemma_surviving(l: List<System>)
    ensures
        all(surviving(l), presentable()),
    decreases l,
{
    match l {
        List::Nil => {},
        List::Cons(s, rest) => {
            lemma_surviving(*rest);
            assert(precise(s).eq_store.contradictory == s.eq_store.contradictory);
        },
    }
}

proof fn lemma_nth_all<T>(l: List<T>, i: nat, p: spec_fn(T) -> bool)
    requires
        all(l, p),
    ensures
        l.nth(i) matches Some(x) ==> p(x),
    decreases l,
{
    match l {
        List::Nil => {},
        List::Cons(_, rest) => {
            if i > 0 {
                lemma_nth_all(*rest, (i - 1) as nat, p);
            }
        },
    }
}

proof fn lemma_picked_all<T>(l: List<T>, positions: List<u64>, p: spec_fn(T) -> bool)
    requires
        all(l, p),
    ensures
        all(picked(l, positions), p),
    decreases positions,
{
    match positions {
        List::Nil => {},
        List::Cons(i, rest) => {
            lemma_nth_all(l, i as nat, p);
            lemma_picked_all(l, *rest, p);
        },
    }
}

proof fn lemma_picked_systems(l: List<(Text, System)>, positions: List<u64>)
    ensures
        systems(picked(l, positions)) == picked(systems(l), positions),
    decreases positions,
{
    match positions {
        List::Nil => {},
        List::Cons(i, rest) => {
            lemma_nth_systems(l, i as nat);
            lemma_picked_systems(l, *rest);
        },
    }
}

proof fn lemma_nth_systems(l: List<(Text, System)>, i: nat)
    ensures
        systems(l).nth(i) == (match l.nth(i) {
            Some(c) => Some(c.1),
            None => None,
        }),
    decreases l,
{
    match l {
        List::Nil => {},
        List::Cons(_, rest) => {
            if i > 0 {
                lemma_nth_systems(*rest, (i - 1) as nat);
            }
        },
    }
}

/// What is left of cases is what was not redundant, in the same order.
pub proof fn law_processing_keeps_systems(ctx: &ProofContext, cases: List<(Text, System)>)
    ensures
        processed(ctx, cases) matches Ok(l) ==> kept_positions(ctx, systems(cases)) matches Ok(
            positions,
        ) && systems(l) == picked(systems(cases), positions),
{
    match kept_positions(ctx, systems(cases)) {
        Ok(positions) => {
            lemma_picked_systems(cases, positions);
            law_telling_apart_keeps_systems(
                List::Nil,
                picked(cases, positions),
                picked(cases, positions),
            );
        },
        Err(_) => {},
    }
}

proof fn lemma_named_systems(name: Text, l: List<System>)
    ensures
        systems(named(name, l)) == l,
    decreases l,
{
    match l {
        List::Nil => {},
        List::Cons(_, rest) => {
            lemma_named_systems(name, *rest);
        },
    }
}

proof fn lemma_systems_then(a: List<(Text, System)>, b: List<(Text, System)>)
    ensures
        systems(a.then_all(b)) == systems(a).then_all(systems(b)),
    decreases a,
{
    match a {
        List::Nil => {},
        List::Cons(_, rest) => {
            lemma_systems_then(*rest, b);
        },
    }
}

proof fn lemma_processed_presentable(ctx: &ProofContext, cases: List<(Text, System)>)
    requires
        all(systems(cases), presentable()),
    ensures
        processed(ctx, cases) matches Ok(l) ==> all(systems(l), presentable()),
{
    law_processing_keeps_systems(ctx, cases);
    match kept_positions(ctx, systems(cases)) {
        Ok(positions) => {
            lemma_picked_all(systems(cases), positions, presentable());
        },
        Err(_) => {},
    }
}

proof fn lemma_simplified_presentable(ctx: &ProofContext, l: List<Case>)
    ensures
        all_simplified(ctx, l) matches Ok(kept) ==> all(systems(kept), presentable()),
    decreases l,
{
    match l {
        List::Nil => {},
        List::Cons(c, rest) => {
            lemma_simplified_presentable(ctx, *rest);
            match (simplified_systems(ctx, c.sys, Some(c.next)), all_simplified(ctx, *rest)) {
                (Ok(found), Ok(more)) => {
                    lemma_surviving(found);
                    lemma_named_systems(c.name, surviving(found));
                    lemma_systems_then(named(c.name, surviving(found)), more);
                    lemma_all_then(surviving(found), systems(more), presentable());
                },
                _ => {},
            }
        },
    }
}

proof fn lemma_induction_presentable(ctx: &ProofContext, sys: System)
    ensures
        induction_cases(ctx, sys) matches Ok(Some(l)) ==> all(systems(l), presentable()),
{
    reveal(induction_cases);
    match sys.formulas {
        List::Nil => {},
        List::Cons(fm, _) => match crate::list::find(ctx.answers.induction, fm) {
            Some(Some((base, step))) => {
                let first_name = text_of("empty_trace"@);
                let second_name = text_of("non_empty_trace"@);
                let first_sys = System { formulas: List::one(base), ..sys };
                let second_sys = System { formulas: List::one(step), ..sys };
                match (
                    simplified_systems(ctx, first_sys, None),
                    simplified_systems(ctx, second_sys, None),
                ) {
                    (Ok(a), Ok(b)) => {
                        let first = named(first_name, surviving(a));
                        let second = named(second_name, surviving(b));
                        lemma_surviving(a);
                        lemma_surviving(b);
                        lemma_named_systems(first_name, surviving(a));
                        lemma_named_systems(second_name, surviving(b));
                        lemma_systems_then(first, second);
                        lemma_all_then(surviving(a), surviving(b), presentable());
                        lemma_processed_presentable(ctx, first.then_all(second));
                    },
                    _ => {},
                }
            },
            _ => {},
        },
    }
}

/// No proof method leaves a case whose equations have no solution, and every
/// case that is left has been cleaned up.
pub proof fn law_cases_presentable(ctx: &ProofContext, method: ProofMethod, sys: System)
    ensures
        executed(ctx, method, sys) matches Ok(Some(l)) ==> all(systems(l), presentable()),
{
    reveal(simplify_cases);
    reveal(goal_cases);
    match method {
        ProofMethod::Simplify => match simplified_systems(ctx, sys, None) {
            Ok(found) => {
                lemma_surviving(found);
                match kept_positions(ctx, surviving(found)) {
                    Ok(positions) => {
                        let kept = picked(surviving(found), positions);
                        lemma_picked_all(surviving(found), positions, presentable());
                        lemma_numbered_systems(1, kept);
                        assert(systems(List::<(Text, System)>::Nil) == List::<System>::Nil);
                        match kept.only() {
                            Some(s) => {
                                assert(systems(List::one((Text { chars: List::Nil }, s)))
                                    == List::one(s));
                            },
                            None => {},
                        }
                    },
                    Err(_) => {},
                }
            },
            Err(_) => {},
        },
        ProofMethod::SolveGoal(g) => {
            let start = Reduction::of_floor(ctx, sys, ctx.refine_floor);
            match start.dispatched(g) {
                Ok((red, out)) => match outcome_cases(red, out) {
                    Some(cases) => {
                        lemma_simplified_presentable(ctx, cases);
                        match all_simplified(ctx, cases) {
                            Ok(kept) => {
                                lemma_processed_presentable(ctx, kept);
                            },
                            Err(_) => {},
                        }
                    },
                    None => {},
                },
                Err(_) => {},
            }
        },
        ProofMethod::Induction => {
            lemma_induction_presentable(ctx, sys);
        },
        _ => {},
    }
}

proof fn lemma_numbered_systems(n: u64, l: List<System>)
    ensures
        systems(numbered(n, l)) == l,
    decreases l,
{
    match l {
        List::Nil => {},
        List::Cons(_, rest) => {
            lemma_numbered_systems(after(n), *rest);
        },
    }
}

proof fn lemma_told_apart_size(
    before: List<(Text, System)>,
    l: List<(Text, System)>,
    whole: List<(Text, System)>,
)
    ensures
        told_apart(before, l, whole).size() == l.size(),
    decreases l,
{
    match l {
        List::Nil => {},
        List::Cons(c, rest) => {
            lemma_told_apart_size(before.snoc(c), *rest, whole);
        },
    }
}

proof fn lemma_numbered_size(n: u64, l: List<System>)
    ensures
        numbered(n, l).size() == l.size(),
    decreases l,
{
    match l {
        List::Nil => {},
        List::Cons(_, rest) => {
            lemma_numbered_size(after(n), *rest);
        },
    }
}

proof fn lemma_chars_has(s: Seq<char>, c: char)
    ensures
        chars_of(s).has(c) == s.contains(c),
    decreases s.len(),
{
    if s.len() > 0 {
        let rest = s.subrange(1, s.len() as int);
        lemma_chars_has(rest, c);
        if rest.contains(c) {
            let i = choose|i: int| 0 <= i < rest.len() && rest[i] == c;
            assert(s[i + 1] == c);
        }
        if s.contains(c) && s[0] != c {
            let i = choose|i: int| 0 <= i < s.len() && s[i] == c;
            assert(rest[i - 1] == c);
        }
    }
}

/// The name of a numbered case holds the letter by which it differs from the names
/// of the cases of an induction.
proof fn lemma_numbered_name_has(name: Text, i: u64, m: u64)
    ensures
        case_of_several(name, i, m).chars.has('s'),
{
    reveal_strlit("_case_");
    let infix = text_of("_case_"@).chars;
    assert("_case_"@[3] == 's');
    lemma_chars_has("_case_"@, 's');
    lemma_has_then(name.chars, infix, 's');
    lemma_has_then(
        name.chars.then_all(infix),
        zero_padded(decimal(i).chars, decimal(m).chars),
        's',
    );
}

/// Whether the case is one of an induction.
spec fn trace_case() -> spec_fn((Text, System)) -> bool {
    |c: (Text, System)| c.0 == text_of("empty_trace"@) || c.0 == text_of("non_empty_trace"@)
}

proof fn lemma_trace_names()
    ensures
        !text_of("empty_trace"@).chars.has('s'),
        !text_of("non_empty_trace"@).chars.has('s'),
{
    reveal_strlit("empty_trace");
    reveal_strlit("non_empty_trace");
    lemma_chars_has("empty_trace"@, 's');
    lemma_chars_has("non_empty_trace"@, 's');
}

proof fn lemma_trace_case_unnumbered(l: List<(Text, System)>, name: Text)
    requires
        all(l, trace_case()),
        name.chars.has('s'),
    ensures
        occurrences(l, name) == 0,
    decreases l,
{
    match l {
        List::Nil => {},
        List::Cons(_, rest) => {
            lemma_trace_names();
            lemma_trace_case_unnumbered(*rest, name);
        },
    }
}

proof fn lemma_named_trace(name: Text, l: List<System>)
    requires
        name == text_of("empty_trace"@) || name == text_of("non_empty_trace"@),
    ensures
        all(named(name, l), trace_case()),
    decreases l,
{
    match l {
        List::Nil => {},
        List::Cons(_, rest) => {
            lemma_named_trace(name, *rest);
        },
    }
}

proof fn lemma_trace_cases_unclashing(l: List<(Text, System)>)
    requires
        all(l, trace_case()),
    ensures
        unclashing(l),
{
    assert forall|a: Text, i: u64|
        1 <= i <= occurrences(l, a) && occurrences(l, a) > 1 implies occurrences(
        l,
        #[trigger] case_of_several(a, i, occurrences(l, a)),
    ) != 1 by {
        lemma_numbered_name_has(a, i, occurrences(l, a));
        lemma_trace_case_unnumbered(l, case_of_several(a, i, occurrences(l, a)));
    }
}

proof fn lemma_induction_names(ctx: &ProofContext, sys: System)
    ensures
        induction_cases(ctx, sys) matches Ok(Some(l)) ==> l.size() < u64::MAX ==> distinct(
            case_names(l),
        ),
{
    reveal(induction_cases);
    match sys.formulas {
        List::Nil => {},
        List::Cons(fm, _) => match crate::list::find(ctx.answers.induction, fm) {
            Some(Some((base, step))) => {
                let first_name = text_of("empty_trace"@);
                let second_name = text_of("non_empty_trace"@);
                let first_sys = System { formulas: List::one(base), ..sys };
                let second_sys = System { formulas: List::one(step), ..sys };
                match (
                    simplified_systems(ctx, first_sys, None),
                    simplified_systems(ctx, second_sys, None),
                ) {
                    (Ok(a), Ok(b)) => {
                        let first = named(first_name, surviving(a));
                        let second = named(second_name, surviving(b));
                        lemma_named_trace(first_name, surviving(a));
                        lemma_named_trace(second_name, surviving(b));
                        lemma_all_then(first, second, trace_case());
                        let both = first.then_all(second);
                        match kept_positions(ctx, systems(both)) {
                            Ok(positions) => {
                                let kept = picked(both, positions);
                                lemma_picked_all(both, positions, trace_case());
                                lemma_trace_cases_unclashing(kept);
                                lemma_told_apart_size(List::Nil, kept, kept);
                                if kept.size() < u64::MAX {
                                    law_case_names_unique(kept);
                                }
                            },
                            Err(_) => {},
                        }
                    },
                    _ => {},
                }
            },
            _ => {},
        },
    }
}

/// The cases of solving the goal `g` that are not redundant, under the names that
/// they have before they are told apart.
pub open spec fn untold_cases(ctx: &ProofContext, g: Goal, sys: System) -> List<(Text, System)> {
    match Reduction::of_floor(ctx, sys, ctx.refine_floor).dispatched(g) {
        Ok((red, out)) => match outcome_cases(red, out) {
            Some(cases) => match all_simplified(ctx, cases) {
                Ok(kept) => match kept_positions(ctx, systems(kept)) {
                    Ok(positions) => picked(kept, positions),
                    Err(_) => List::Nil,
                },
                Err(_) => List::Nil,
            },
            None => List::Nil,
        },
        Err(_) => List::Nil,
    }
}

proof fn lemma_simplify_names(ctx: &ProofContext, sys: System)
    ensures
        simplify_cases(ctx, sys) matches Ok(Some(l)) ==> l.size() < u64::MAX ==> distinct(
            case_names(l),
        ),
{
    reveal(simplify_cases);
    assert(distinct(case_names(List::Nil)));
    match simplified_systems(ctx, sys, None) {
        Ok(found) => match kept_positions(ctx, surviving(found)) {
            Ok(positions) => {
                let kept = picked(surviving(found), positions);
                match kept.only() {
                    Some(s) => {
                        let name = Text { chars: List::Nil };
                        assert(case_names(List::one((name, s))) == List::one(name));
                        assert(!List::<Text>::Nil.has(name));
                        assert(distinct(List::<Text>::Nil));
                        assert(distinct(List::one(name)));
                    },
                    None => {
                        lemma_numbered_size(1, kept);
                        if kept.size() < u64::MAX {
                            law_simplified_names_unique(1, kept);
                        }
                    },
                }
            },
            Err(_) => {},
        },
        Err(_) => {},
    }
}

proof fn lemma_goal_names(ctx: &ProofContext, g: Goal, sys: System)
    requires
        unclashing(untold_cases(ctx, g, sys)),
    ensures
        goal_cases(ctx, g, sys) matches Ok(Some(l)) ==> l.size() < u64::MAX ==> distinct(
            case_names(l),
        ),
{
    reveal(goal_cases);
    assert(distinct(case_names(List::Nil)));
    let kept = untold_cases(ctx, g, sys);
    lemma_told_apart_size(List::Nil, kept, kept);
    if kept.size() < u64::MAX {
        law_case_names_unique(kept);
    }
}

/// The cases that a proof method leaves have names of their own; where the method
/// solves a goal, as long as none of its cases has the name of a numbered one from
/// the start.
pub proof fn law_executed_names_unique(ctx: &ProofContext, method: ProofMethod, sys: System)
    requires
        method matches ProofMethod::SolveGoal(g) ==> unclashing(untold_cases(ctx, g, sys)),
    ensures
        executed(ctx, method, sys) matches Ok(Some(l)) ==> l.size() < u64::MAX ==> distinct(
            case_names(l),
        ),
{
    assert(distinct(case_names(List::Nil)));
    match method {
        ProofMethod::Simplify => {
            lemma_simplify_names(ctx, sys);
        },
        ProofMethod::SolveGoal(g) => {
            lemma_goal_names(ctx, g, sys);
        },
        ProofMethod::Induction => {
            lemma_induction_names(ctx, sys);
        },
        _ => {},
    }
}

} // verus!
