//! Building, traversing and substituting terms.
use crate::list::{find, look_up, List, Ordered, Value};
use crate::terms::{AcSym, FunSym, LSort, LVar, NameTag, NoEqSym, Term};
use crate::text::{text_of, Text};
use vstd::prelude::*;

verus! {

/// A substitution of terms for free variables.
pub type Subst = List<(LVar, Term)>;

pub open spec fn larger(a: u64, b: u64) -> u64 {
    if a >= b {
        a
    } else {
        b
    }
}

pub fn max_of(a: u64, b: u64) -> (r: u64)
    ensures
        r == larger(a, b),
{
    if a >= b {
        a
    } else {
        b
    }
}

/// The index after `n`; the last index has none and stands for itself.
pub open spec fn after(n: u64) -> u64 {
    if n < u64::MAX {
        (n + 1) as u64
    } else {
        u64::MAX
    }
}

pub fn next_after(n: u64) -> (r: u64)
    ensures
        r == after(n),
{
    n.saturating_add(1)
}

/// The operands of nested applications of the operator `f`.
pub open spec fn flat_term(f: AcSym, t: Term) -> List<Term>
    decreases t,
{
    match t {
        Term::App(FunSym::Ac(g), args) => if g == f {
            flat_terms(f, *args)
        } else {
            List::one(t)
        },
        _ => List::one(t),
    }
}

/// The operands of nested applications of the operator `f`, one term after
/// the other.
pub open spec fn flat_terms(f: AcSym, l: List<Term>) -> List<Term>
    decreases l,
{
    match l {
        List::Nil => List::Nil,
        List::Cons(t, rest) => flat_term(f, t).then_all(flat_terms(f, *rest)),
    }
}

/// The operands of nested applications of the operator `f`.
pub fn flattened_ac_terms(f: AcSym, t: &Term) -> (r: List<Term>)
    ensures
        r == flat_term(f, *t),
    decreases t,
{
    match t {
        Term::App(FunSym::Ac(g), args) => if *g == f {
            flattened_list(f, args)
        } else {
            List::single(t.dup())
        },
        _ => List::single(t.dup()),
    }
}

fn flattened_list(f: AcSym, l: &List<Term>) -> (r: List<Term>)
    ensures
        r == flat_terms(f, *l),
    decreases l,
{
    match l {
        List::Nil => List::Nil,
        List::Cons(t, rest) => flattened_ac_terms(f, t).concat(flattened_list(f, rest)),
    }
}

/// The operator `f` applied to the given operands: nested applications are
/// flattened, the operands are sorted, and a single operand stands for itself.
pub open spec fn ac_app(f: AcSym, l: List<Term>) -> Term {
    match flat_terms(f, l).sorted() {
        List::Cons(t, rest) => match *rest {
            List::Nil => t,
            List::Cons(_, _) => Term::App(FunSym::Ac(f), Box::new(flat_terms(f, l).sorted())),
        },
        List::Nil => Term::App(FunSym::Ac(f), Box::new(List::Nil)),
    }
}

/// The operator `f` applied to the given operands.
pub fn f_app_ac(f: AcSym, l: &List<Term>) -> (r: Term)
    ensures
        r == ac_app(f, *l),
{
    let flat = flattened_list(f, l).sort();
    match &flat {
        List::Cons(t, rest) => match &**rest {
            List::Nil => t.dup(),
            List::Cons(_, _) => Term::App(FunSym::Ac(f), Box::new(flat.dup())),
        },
        List::Nil => Term::App(FunSym::Ac(f), Box::new(List::Nil)),
    }
}

/// The application of `f` in normal form.
pub open spec fn app(f: FunSym, l: List<Term>) -> Term {
    match f {
        FunSym::Ac(g) => ac_app(g, l),
        FunSym::EMap => Term::App(f, Box::new(l.sorted())),
        _ => Term::App(f, Box::new(l)),
    }
}

/// The application of `f` in normal form.
pub fn f_app(f: &FunSym, l: List<Term>) -> (r: Term)
    ensures
        r == app(*f, l),
{
    match f {
        FunSym::Ac(g) => f_app_ac(*g, &l),
        FunSym::EMap => Term::App(FunSym::EMap, Box::new(l.sort())),
        _ => Term::App(f.dup(), Box::new(l)),
    }
}

/// Whether a variable that `s` binds occurs in `t`.
pub open spec fn touches(s: Subst, t: Term) -> bool
    decreases t,
{
    match t {
        Term::Var(v) => find(s, v) is Some,
        Term::App(_, args) => touches_any(s, *args),
        _ => false,
    }
}

/// Whether a variable that `s` binds occurs in one of the terms.
pub open spec fn touches_any(s: Subst, l: List<Term>) -> bool
    decreases l,
{
    match l {
        List::Nil => false,
        List::Cons(t, rest) => touches(s, t) || touches_any(s, *rest),
    }
}

/// The term `t` under the substitution `s`.
pub open spec fn applied(s: Subst, t: Term) -> Term
    decreases t,
{
    match t {
        Term::Var(v) => match find(s, v) {
            Some(image) => image,
            None => t,
        },
        Term::App(f, args) => if touches_any(s, *args) {
            app(f, applied_all(s, *args))
        } else {
            t
        },
        _ => t,
    }
}

/// The terms under the substitution `s`.
pub open spec fn applied_all(s: Subst, l: List<Term>) -> List<Term>
    decreases l,
{
    match l {
        List::Nil => List::Nil,
        List::Cons(t, rest) => List::Cons(applied(s, t), Box::new(applied_all(s, *rest))),
    }
}

pub fn is_touched(s: &Subst, t: &Term) -> (r: bool)
    ensures
        r == touches(*s, *t),
    decreases t,
{
    match t {
        Term::Var(v) => match look_up(s, v) {
            Some(_) => true,
            None => false,
        },
        Term::App(_, args) => is_any_touched(s, args),
        _ => false,
    }
}

pub fn is_any_touched(s: &Subst, l: &List<Term>) -> (r: bool)
    ensures
        r == touches_any(*s, *l),
    decreases l,
{
    match l {
        List::Nil => false,
        List::Cons(t, rest) => is_touched(s, t) || is_any_touched(s, rest),
    }
}

/// The term `t` under the substitution `s`.
pub fn apply_term(s: &Subst, t: &Term) -> (r: Term)
    ensures
        r == applied(*s, *t),
    decreases t,
{
    match t {
        Term::Var(v) => match look_up(s, v) {
            Some(image) => image,
            None => t.dup(),
        },
        Term::App(f, args) => if is_any_touched(s, args) {
            let l = apply_terms(s, args);
            f_app(f, l)
        } else {
            t.dup()
        },
        _ => t.dup(),
    }
}

/// The terms under the substitution `s`.
pub fn apply_terms(s: &Subst, l: &List<Term>) -> (r: List<Term>)
    ensures
        r == applied_all(*s, *l),
    decreases l,
{
    match l {
        List::Nil => List::Nil,
        List::Cons(t, rest) => List::Cons(apply_term(s, t), Box::new(apply_terms(s, rest))),
    }
}

/// The variable that `s` puts in place of `v`; `v` itself where `s` leaves it
/// alone or binds it to a term that is no variable.
pub open spec fn renamed(s: Subst, v: LVar) -> LVar {
    match find(s, v) {
        Some(Term::Var(w)) => w,
        _ => v,
    }
}

/// The variable that `s` puts in place of `v`.
pub fn rename_var(s: &Subst, v: &LVar) -> (r: LVar)
    ensures
        r == renamed(*s, *v),
{
    match look_up(s, v) {
        Some(Term::Var(w)) => w,
        _ => v.dup(),
    }
}

/// The largest index of a free variable of `t`, and 0 where there is none.
pub open spec fn term_max(t: Term) -> u64
    decreases t,
{
    match t {
        Term::Var(v) => v.idx,
        Term::App(_, args) => terms_max(*args),
        _ => 0,
    }
}

/// The largest index of a free variable of the terms.
pub open spec fn terms_max(l: List<Term>) -> u64
    decreases l,
{
    match l {
        List::Nil => 0,
        List::Cons(t, rest) => larger(term_max(t), terms_max(*rest)),
    }
}

/// The free variables of `t` from left to right.
pub open spec fn term_frees(t: Term) -> List<LVar>
    decreases t,
{
    match t {
        Term::Var(v) => List::one(v),
        Term::App(_, args) => terms_frees(*args),
        _ => List::Nil,
    }
}

/// The free variables of the terms from left to right.
pub open spec fn terms_frees(l: List<Term>) -> List<LVar>
    decreases l,
{
    match l {
        List::Nil => List::Nil,
        List::Cons(t, rest) => term_frees(t).then_all(terms_frees(*rest)),
    }
}

/// The free variables of `t` from left to right.
pub fn frees_of_term(t: &Term) -> (r: List<LVar>)
    ensures
        r == term_frees(*t),
    decreases t,
{
    match t {
        Term::Var(v) => List::single(v.dup()),
        Term::App(_, args) => frees_of_terms(args),
        _ => List::Nil,
    }
}

/// The free variables of the terms from left to right.
pub fn frees_of_terms(l: &List<Term>) -> (r: List<LVar>)
    ensures
        r == terms_frees(*l),
    decreases l,
{
    match l {
        List::Nil => List::Nil,
        List::Cons(t, rest) => frees_of_term(t).concat(frees_of_terms(rest)),
    }
}

/// Whether no bound variable occurs in `t`.
pub open spec fn binder_free(t: Term) -> bool
    decreases t,
{
    match t {
        Term::Bound(_) => false,
        Term::App(_, args) => all_binder_free(*args),
        _ => true,
    }
}

/// Whether no bound variable occurs in the terms.
pub open spec fn all_binder_free(l: List<Term>) -> bool
    decreases l,
{
    match l {
        List::Nil => true,
        List::Cons(t, rest) => binder_free(t) && all_binder_free(*rest),
    }
}

/// Whether no bound variable occurs in `t`.
pub fn is_binder_free(t: &Term) -> (r: bool)
    ensures
        r == binder_free(*t),
    decreases t,
{
    match t {
        Term::Bound(_) => false,
        Term::App(_, args) => are_binder_free(args),
        _ => true,
    }
}

/// Whether no bound variable occurs in the terms.
pub fn are_binder_free(l: &List<Term>) -> (r: bool)
    ensures
        r == all_binder_free(*l),
    decreases l,
{
    match l {
        List::Nil => true,
        List::Cons(t, rest) => is_binder_free(t) && are_binder_free(rest),
    }
}

/// Whether `t` is a variable of sort `s`.
pub open spec fn var_of_sort(t: Term, s: LSort) -> bool {
    match t {
        Term::Var(v) => v.sort == s,
        _ => false,
    }
}

/// Whether `t` is a variable of sort `s`.
pub fn is_var_of_sort(t: &Term, s: LSort) -> (r: bool)
    ensures
        r == var_of_sort(*t, s),
{
    match t {
        Term::Var(v) => v.sort == s,
        _ => false,
    }
}

/// Whether `t` applies the free symbol called `name` to `n` arguments.
pub open spec fn applies(t: Term, name: Seq<char>, n: nat) -> bool {
    match t {
        Term::App(FunSym::NoEq(s), args) => s.name == text_of(name) && args.size() == n,
        _ => false,
    }
}

/// Whether `l` holds exactly `n` elements.
pub fn has_size<T>(l: &List<T>, n: u64) -> (r: bool)
    ensures
        r == (l.size() == n),
    decreases l,
{
    match l {
        List::Nil => n == 0,
        List::Cons(_, rest) => if n == 0 {
            false
        } else {
            has_size(rest, n - 1)
        },
    }
}

fn does_apply(t: &Term, name: &str, n: u64) -> (r: bool)
    ensures
        r == applies(*t, name@, n as nat),
{
    match t {
        Term::App(FunSym::NoEq(s), args) => s.name.same(&Text::new(name)) && has_size(args, n),
        _ => false,
    }
}

pub fn is_pair(t: &Term) -> (r: bool)
    ensures
        r == applies(*t, "pair"@, 2),
{
    does_apply(t, "pair", 2)
}

pub fn is_inverse(t: &Term) -> (r: bool)
    ensures
        r == applies(*t, "inv"@, 1),
{
    does_apply(t, "inv", 1)
}

/// Whether the topmost symbol of `t` is the operator `f`.
pub open spec fn headed_by(t: Term, f: AcSym) -> bool {
    match t {
        Term::App(FunSym::Ac(g), _) => g == f,
        _ => false,
    }
}

/// Whether the topmost symbol of `t` is the operator `f`.
pub fn is_headed_by(t: &Term, f: AcSym) -> (r: bool)
    ensures
        r == headed_by(*t, f),
{
    match t {
        Term::App(FunSym::Ac(g), _) => *g == f,
        _ => false,
    }
}

/// The number one of the natural-number terms.
pub open spec fn nat_one() -> Term {
    Term::App(
        FunSym::NoEq(
            NoEqSym { name: text_of("tone"@), arity: 0, private: false, constructor: true },
        ),
        Box::new(List::Nil),
    )
}

pub fn make_nat_one() -> (r: Term)
    ensures
        r == nat_one(),
{
    Term::App(
        FunSym::NoEq(
            NoEqSym { name: Text::new("tone"), arity: 0, private: false, constructor: true },
        ),
        Box::new(List::Nil),
    )
}

/// The sort of `t`.
pub open spec fn sort_of(t: Term) -> LSort {
    match t {
        Term::Var(v) => v.sort,
        Term::Con(c) => match c.tag {
            NameTag::Fresh => LSort::Fresh,
            NameTag::Pub => LSort::Pub,
            NameTag::Node => LSort::Node,
            NameTag::Nat => LSort::Nat,
        },
        _ => if headed_by(t, AcSym::NatPlus) || t == nat_one() {
            LSort::Nat
        } else {
            LSort::Msg
        },
    }
}

/// The sort of `t`.
pub fn sort_of_lnterm(t: &Term) -> (r: LSort)
    ensures
        r == sort_of(*t),
{
    match t {
        Term::Var(v) => v.sort,
        Term::Con(c) => match c.tag {
            NameTag::Fresh => LSort::Fresh,
            NameTag::Pub => LSort::Pub,
            NameTag::Node => LSort::Node,
            NameTag::Nat => LSort::Nat,
        },
        _ => if is_headed_by(t, AcSym::NatPlus) || t.same(&make_nat_one()) {
            LSort::Nat
        } else {
            LSort::Msg
        },
    }
}

/// Whether `inner` is `outer` or occurs in it below irreducible symbols only.
pub open spec fn occurs_irreducibly(reducible: List<FunSym>, inner: Term, outer: Term) -> bool
    decreases outer,
{
    inner == outer || match outer {
        Term::App(f, args) => !reducible.has(f) && occurs_in_any(reducible, inner, *args),
        _ => false,
    }
}

pub open spec fn occurs_in_any(reducible: List<FunSym>, inner: Term, l: List<Term>) -> bool
    decreases l,
{
    match l {
        List::Nil => false,
        List::Cons(t, rest) => occurs_irreducibly(reducible, inner, t) || occurs_in_any(
            reducible,
            inner,
            *rest,
        ),
    }
}

/// Whether `inner` is `outer` or occurs in it below irreducible symbols only.
pub fn elem_not_below_reducible(reducible: &List<FunSym>, inner: &Term, outer: &Term) -> (r: bool)
    ensures
        r == occurs_irreducibly(*reducible, *inner, *outer),
    decreases outer,
{
    inner.same(outer) || match outer {
        Term::App(f, args) => !reducible.contains(f) && elem_in_any(reducible, inner, args),
        _ => false,
    }
}

fn elem_in_any(reducible: &List<FunSym>, inner: &Term, l: &List<Term>) -> (r: bool)
    ensures
        r == occurs_in_any(*reducible, *inner, *l),
    decreases l,
{
    match l {
        List::Nil => false,
        List::Cons(t, rest) => elem_not_below_reducible(reducible, inner, t) || elem_in_any(
            reducible,
            inner,
            rest,
        ),
    }
}

} // verus!
