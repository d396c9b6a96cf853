//! Splitting subterm constraints.
use crate::guarded::{gtrue, top, Binding, GAtom, Guarded, Quant};
use crate::leaves::{map_term, mapped_term, Close};
use crate::list::{List, Ordered, Total, Value};
use crate::rules::Supply;
use crate::term_ops::{
    ac_app, elem_not_below_reducible, f_app_ac, flat_term, flattened_ac_terms, is_var_of_sort,
    make_nat_one, nat_one, occurs_irreducibly, sort_of, sort_of_lnterm, var_of_sort,
};
use crate::terms::{AcSym, FunSym, LSort, LVar, Term};
use crate::text::{text_of, Text};
use vstd::prelude::*;

verus! {

/// One way in which a term can be a subterm of another.
#[derive(Debug, PartialEq, Eq)]
pub enum SubtermSplit {
    /// It is a subterm of a part.
    SubtermD(Term, Term),
    /// It is smaller as a natural number.
    NatSubtermD(Term, Term),
    /// It equals a part.
    EqualD(Term, Term),
    /// Together with a new term it equals the other.
    AcNewVarD(Term, Term, LVar),
    /// It always is.
    TrueD,
}

impl Value for SubtermSplit {
    fn dup(&self) -> (copy: Self) {
        match self {
            SubtermSplit::SubtermD(a, b) => SubtermSplit::SubtermD(a.dup(), b.dup()),
            SubtermSplit::NatSubtermD(a, b) => SubtermSplit::NatSubtermD(a.dup(), b.dup()),
            SubtermSplit::EqualD(a, b) => SubtermSplit::EqualD(a.dup(), b.dup()),
            SubtermSplit::AcNewVarD(a, b, v) => SubtermSplit::AcNewVarD(
                a.dup(),
                b.dup(),
                v.dup(),
            ),
            SubtermSplit::TrueD => SubtermSplit::TrueD,
        }
    }

    fn same(&self, other: &Self) -> (answer: bool) {
        match (self, other) {
            (SubtermSplit::SubtermD(a, b), SubtermSplit::SubtermD(p, q)) => a.same(p)
                && b.same(q),
            (SubtermSplit::NatSubtermD(a, b), SubtermSplit::NatSubtermD(p, q)) => a.same(p)
                && b.same(q),
            (SubtermSplit::EqualD(a, b), SubtermSplit::EqualD(p, q)) => a.same(p) && b.same(q),
            (SubtermSplit::AcNewVarD(a, b, v), SubtermSplit::AcNewVarD(p, q, w)) => a.same(p)
                && b.same(q) && v.same(w),
            (SubtermSplit::TrueD, SubtermSplit::TrueD) => true,
            _ => false,
        }
    }
}

impl SubtermSplit {
    pub open spec fn rank(self) -> u64 {
        match self {
            SubtermSplit::SubtermD(_, _) => 0,
            SubtermSplit::NatSubtermD(_, _) => 1,
            SubtermSplit::EqualD(_, _) => 2,
            SubtermSplit::AcNewVarD(_, _, _) => 3,
            SubtermSplit::TrueD => 4,
        }
    }

    fn get_rank(&self) -> (r: u64)
        ensures
            r == self.rank(),
    {
        match self {
            SubtermSplit::SubtermD(_, _) => 0,
            SubtermSplit::NatSubtermD(_, _) => 1,
            SubtermSplit::EqualD(_, _) => 2,
            SubtermSplit::AcNewVarD(_, _, _) => 3,
            SubtermSplit::TrueD => 4,
        }
    }
}

impl Ordered for SubtermSplit {
    open spec fn below(self, other: Self) -> bool {
        match (self, other) {
            (SubtermSplit::SubtermD(a, b), SubtermSplit::SubtermD(p, q)) => (a, b).below((p, q)),
            (SubtermSplit::NatSubtermD(a, b), SubtermSplit::NatSubtermD(p, q)) => (a, b).below(
                (p, q),
            ),
            (SubtermSplit::EqualD(a, b), SubtermSplit::EqualD(p, q)) => (a, b).below((p, q)),
            (SubtermSplit::AcNewVarD(a, b, v), SubtermSplit::AcNewVarD(p, q, w)) => (a, b).below(
                (p, q),
            ) || ((a, b) == (p, q) && v.below(w)),
            _ => self.rank() < other.rank(),
        }
    }

    fn is_below(&self, other: &Self) -> (answer: bool) {
        match (self, other) {
            (SubtermSplit::SubtermD(a, b), SubtermSplit::SubtermD(p, q)) => a.is_below(p) || (
            a.same(p) && b.is_below(q)),
            (SubtermSplit::NatSubtermD(a, b), SubtermSplit::NatSubtermD(p, q)) => a.is_below(p)
                || (a.same(p) && b.is_below(q)),
            (SubtermSplit::EqualD(a, b), SubtermSplit::EqualD(p, q)) => a.is_below(p) || (a.same(
                p,
            ) && b.is_below(q)),
            (SubtermSplit::AcNewVarD(a, b, v), SubtermSplit::AcNewVarD(p, q, w)) => a.is_below(p)
                || (a.same(p) && (b.is_below(q) || (b.same(q) && v.is_below(w)))),
            _ => self.get_rank() < other.get_rank(),
        }
    }

    proof fn lemma_asymmetric(self, other: Self) {
        match (self, other) {
            (SubtermSplit::SubtermD(a, b), SubtermSplit::SubtermD(p, q)) => {
                (a, b).lemma_asymmetric((p, q));
            },
            (SubtermSplit::NatSubtermD(a, b), SubtermSplit::NatSubtermD(p, q)) => {
                (a, b).lemma_asymmetric((p, q));
            },
            (SubtermSplit::EqualD(a, b), SubtermSplit::EqualD(p, q)) => {
                (a, b).lemma_asymmetric((p, q));
            },
            (SubtermSplit::AcNewVarD(a, b, v), SubtermSplit::AcNewVarD(p, q, w)) => {
                (a, b).lemma_asymmetric((p, q));
                v.lemma_asymmetric(w);
            },
            _ => {},
        }
    }

    proof fn lemma_cotransitive(self, mid: Self, other: Self) {
        match (self, mid, other) {
            (SubtermSplit::SubtermD(a, b), SubtermSplit::SubtermD(p, q), SubtermSplit::SubtermD(x, y)) => {
                (a, b).lemma_cotransitive((p, q), (x, y));
            },
            (SubtermSplit::NatSubtermD(a, b), SubtermSplit::NatSubtermD(p, q), SubtermSplit::NatSubtermD(x, y)) => {
                (a, b).lemma_cotransitive((p, q), (x, y));
            },
            (SubtermSplit::EqualD(a, b), SubtermSplit::EqualD(p, q), SubtermSplit::EqualD(x, y)) => {
                (a, b).lemma_cotransitive((p, q), (x, y));
            },
            (
                SubtermSplit::AcNewVarD(a, b, u),
                SubtermSplit::AcNewVarD(p, q, v),
                SubtermSplit::AcNewVarD(x, y, w),
            ) => {
                (a, b).lemma_total((p, q));
                (p, q).lemma_total((x, y));
                if (a, b).below((x, y)) {
                    (a, b).lemma_cotransitive((p, q), (x, y));
                } else {
                    u.lemma_cotransitive(v, w);
                }
            },
            _ => {},
        }
    }
}

impl Total for SubtermSplit {
    proof fn lemma_total(self, other: Self) {
        match (self, other) {
            (SubtermSplit::SubtermD(a, b), SubtermSplit::SubtermD(p, q)) => {
                (a, b).lemma_total((p, q));
            },
            (SubtermSplit::NatSubtermD(a, b), SubtermSplit::NatSubtermD(p, q)) => {
                (a, b).lemma_total((p, q));
            },
            (SubtermSplit::EqualD(a, b), SubtermSplit::EqualD(p, q)) => {
                (a, b).lemma_total((p, q));
            },
            (SubtermSplit::AcNewVarD(a, b, v), SubtermSplit::AcNewVarD(p, q, w)) => {
                (a, b).lemma_total((p, q));
                v.lemma_total(w);
            },
            _ => {},
        }
    }
}

/// What is left of two sorted lists when common elements are crossed out.
pub open spec fn crossed_out(a: List<Term>, b: List<Term>) -> (List<Term>, List<Term>)
    decreases a.size() + b.size(),
{
    match (a, b) {
        (List::Nil, _) => (List::Nil, b),
        (_, List::Nil) => (a, List::Nil),
        (List::Cons(x, l), List::Cons(y, m)) => if x == y {
            crossed_out(*l, *m)
        } else if x.below(y) {
            let d = crossed_out(*l, b);
            (List::Cons(x, Box::new(d.0)), d.1)
        } else {
            let d = crossed_out(a, *m);
            (d.0, List::Cons(y, Box::new(d.1)))
        },
    }
}

fn cross_out(a: &List<Term>, b: &List<Term>) -> (r: (List<Term>, List<Term>))
    ensures
        r == crossed_out(*a, *b),
    decreases a.size() + b.size(),
{
    match (a, b) {
        (List::Nil, _) => (List::Nil, b.dup()),
        (_, List::Nil) => (a.dup(), List::Nil),
        (List::Cons(x, l), List::Cons(y, m)) => if x.same(y) {
            cross_out(l, m)
        } else if x.is_below(y) {
            let (s, t) = cross_out(l, b);
            (List::Cons(x.dup(), Box::new(s)), t)
        } else {
            let (s, t) = cross_out(a, m);
            (s, List::Cons(y.dup(), Box::new(t)))
        },
    }
}

/// The operands of the two terms that are left when common ones are crossed
/// out.
pub open spec fn operands_left(f: AcSym, small: Term, big: Term) -> (List<Term>, List<Term>) {
    crossed_out(flat_term(f, small).sorted(), flat_term(f, big).sorted())
}

/// The two terms without their common operands; or an answer at once: where
/// nothing is left of the big term, the small one is no subterm; where nothing
/// is left of the small term, it is one.
pub open spec fn reduced_pair(f: AcSym, small: Term, big: Term) -> Result<(Term, Term), bool> {
    let d = operands_left(f, small, big);
    if d.1 is Nil {
        Err(false)
    } else if d.0 is Nil {
        Err(true)
    } else {
        Ok((ac_app(f, d.0), ac_app(f, d.1)))
    }
}

/// The two terms without their common operands; or an answer at once.
pub fn process_ac_subterm(f: AcSym, small: &Term, big: &Term) -> (r: Result<(Term, Term), bool>)
    ensures
        r == reduced_pair(f, *small, *big),
{
    let l_small = flattened_ac_terms(f, small).sort();
    let l_big = flattened_ac_terms(f, big).sort();
    let (s_rem, b_rem) = cross_out(&l_small, &l_big);
    if b_rem.is_empty() {
        return Err(false);
    }
    if s_rem.is_empty() {
        return Err(true);
    }
    Ok((f_app_ac(f, &s_rem), f_app_ac(f, &b_rem)))
}

/// Whether all terms are the number one.
pub open spec fn all_ones(l: List<Term>) -> bool
    decreases l,
{
    match l {
        List::Nil => true,
        List::Cons(t, rest) => t == nat_one() && all_ones(*rest),
    }
}

fn are_all_ones(l: &List<Term>) -> (r: bool)
    ensures
        r == all_ones(*l),
    decreases l,
{
    match l {
        List::Nil => true,
        List::Cons(t, rest) => t.same(&make_nat_one()) && are_all_ones(rest),
    }
}

/// Whether `a` has fewer elements than `b`.
pub fn is_shorter<T>(a: &List<T>, b: &List<T>) -> (r: bool)
    ensures
        r == (a.size() < b.size()),
    decreases a,
{
    match (a, b) {
        (_, List::Nil) => false,
        (List::Nil, List::Cons(_, _)) => true,
        (List::Cons(_, l), List::Cons(_, m)) => is_shorter(l, m),
    }
}

/// Whether the term is a natural number or may become one.
pub open spec fn maybe_nat(t: Term) -> bool {
    sort_of(t) == LSort::Nat || var_of_sort(t, LSort::Msg)
}

fn is_maybe_nat(t: &Term) -> (r: bool)
    ensures
        r == maybe_nat(*t),
{
    sort_of_lnterm(t) == LSort::Nat || is_var_of_sort(t, LSort::Msg)
}

/// The answer that a reduced pair of terms gives.
pub open spec fn pair_answer(r: Result<(Term, Term), bool>) -> Option<bool> {
    match r {
        Err(answer) => Some(answer),
        Ok(_) => None,
    }
}

/// Whether `small` is a subterm of `big`, where that is known.
pub open spec fn known_subterm(reducible: List<FunSym>, small: Term, big: Term) -> Option<bool> {
    let big_nat = sort_of(big) == LSort::Nat;
    let small_flat = flat_term(AcSym::NatPlus, small);
    if all_ones(small_flat) && small_flat.size() < flat_term(AcSym::NatPlus, big).size()
        && big_nat {
        Some(true)
    } else if maybe_nat(small) && big_nat {
        pair_answer(reduced_pair(AcSym::NatPlus, small, big))
    } else if occurs_irreducibly(reducible, big, small) {
        Some(false)
    } else if occurs_irreducibly(reducible, small, big) {
        Some(true)
    } else {
        match big {
            Term::Con(_) => Some(false),
            Term::Var(v) => if v.sort == LSort::Pub || v.sort == LSort::Fresh || (!maybe_nat(small)
                && big_nat) {
                Some(false)
            } else {
                None
            },
            Term::App(FunSym::Ac(f), _) => if reducible.has(FunSym::Ac(f)) {
                None
            } else {
                pair_answer(reduced_pair(f, small, ac_app(f, flat_term(f, big))))
            },
            _ => None,
        }
    }
}

/// Whether `small` is a subterm of `big`, where that is known.
pub fn subterm_is_true_false(reducible: &List<FunSym>, small: &Term, big: &Term) -> (r: Option<
    bool,
>)
    ensures
        r == known_subterm(*reducible, *small, *big),
{
    let small_nat_or_msg = is_maybe_nat(small);
    let big_nat = sort_of_lnterm(big) == LSort::Nat;
    let small_flat = flattened_ac_terms(AcSym::NatPlus, small);
    let big_flat = flattened_ac_terms(AcSym::NatPlus, big);
    if are_all_ones(&small_flat) && is_shorter(&small_flat, &big_flat) && big_nat {
        return Some(true);
    }
    if small_nat_or_msg && big_nat {
        return match process_ac_subterm(AcSym::NatPlus, small, big) {
            Err(answer) => Some(answer),
            Ok(_) => None,
        };
    }
    if elem_not_below_reducible(reducible, big, small) {
        return Some(false);
    }
    if elem_not_below_reducible(reducible, small, big) {
        return Some(true);
    }
    match big {
        Term::Con(_) => Some(false),
        Term::Var(v) => if v.sort == LSort::Pub || v.sort == LSort::Fresh || (!small_nat_or_msg
            && big_nat) {
            Some(false)
        } else {
            None
        },
        Term::App(FunSym::Ac(f), _) => if reducible.contains(&FunSym::Ac(*f)) {
            None
        } else {
            let big_norm = f_app_ac(*f, &flattened_ac_terms(*f, big));
            match process_ac_subterm(*f, small, &big_norm) {
                Err(answer) => Some(answer),
                Ok(_) => None,
            }
        },
        _ => None,
    }
}

/// The new variable of a split.
pub open spec fn split_var(sort: LSort, idx: u64) -> LVar {
    LVar { name: text_of("newVar"@), sort, idx }
}

pub fn make_split_var(sort: LSort, idx: u64) -> (r: LVar)
    ensures
        r == split_var(sort, idx),
{
    LVar { name: Text::new("newVar"), sort, idx }
}

/// The operator `f` applied to a term and a variable.
pub open spec fn ac_with_var(f: AcSym, t: Term, v: LVar) -> Term {
    ac_app(f, List::Cons(t, Box::new(List::one(Term::Var(v)))))
}

pub fn make_ac_with_var(f: AcSym, t: &Term, v: &LVar) -> (r: Term)
    ensures
        r == ac_with_var(f, *t, *v),
{
    f_app_ac(f, &List::Cons(t.dup(), Box::new(List::single(Term::Var(v.dup())))))
}

/// `small` as a subterm of one of the operands.
pub open spec fn below_operands(small: Term, l: List<Term>) -> List<SubtermSplit>
    decreases l,
{
    match l {
        List::Nil => List::Nil,
        List::Cons(t, rest) => List::Cons(
            SubtermSplit::SubtermD(small, t),
            Box::new(below_operands(small, *rest)),
        ),
    }
}

fn list_below_operands(small: &Term, l: &List<Term>) -> (r: List<SubtermSplit>)
    ensures
        r == below_operands(*small, *l),
    decreases l,
{
    match l {
        List::Nil => List::Nil,
        List::Cons(t, rest) => List::Cons(
            SubtermSplit::SubtermD(small.dup(), t.dup()),
            Box::new(list_below_operands(small, rest)),
        ),
    }
}

/// `small` as a subterm of one of the arguments or equal to it.
pub open spec fn below_arguments(small: Term, l: List<Term>) -> List<SubtermSplit>
    decreases l,
{
    match l {
        List::Nil => List::Nil,
        List::Cons(t, rest) => List::Cons(
            SubtermSplit::SubtermD(small, t),
            Box::new(
                List::Cons(
                    SubtermSplit::EqualD(small, t),
                    Box::new(below_arguments(small, *rest)),
                ),
            ),
        ),
    }
}

fn list_below_arguments(small: &Term, l: &List<Term>) -> (r: List<SubtermSplit>)
    ensures
        r == below_arguments(*small, *l),
    decreases l,
{
    match l {
        List::Nil => List::Nil,
        List::Cons(t, rest) => List::Cons(
            SubtermSplit::SubtermD(small.dup(), t.dup()),
            Box::new(
                List::Cons(
                    SubtermSplit::EqualD(small.dup(), t.dup()),
                    Box::new(list_below_arguments(small, rest)),
                ),
            ),
        ),
    }
}

/// The ways in which `small` can be a subterm of `big`, where the top of `big`
/// allows to tell; a new variable gets the index `idx`.
pub open spec fn split_step(reducible: List<FunSym>, small: Term, big: Term, idx: u64) -> Option<
    List<SubtermSplit>,
> {
    match known_subterm(reducible, small, big) {
        Some(true) => Some(List::one(SubtermSplit::TrueD)),
        Some(false) => Some(List::Nil),
        None => if maybe_nat(small) && sort_of(big) == LSort::Nat {
            match reduced_pair(AcSym::NatPlus, small, big) {
                Ok((s, t)) => Some(List::one(SubtermSplit::NatSubtermD(s, t))),
                Err(_) => None,
            }
        } else {
            match big {
                Term::App(FunSym::Ac(f), _) => if reducible.has(FunSym::Ac(f)) {
                    None
                } else {
                    match reduced_pair(f, small, ac_app(f, flat_term(f, big))) {
                        Err(_) => None,
                        Ok((s, t)) => {
                            let v = split_var(sort_of(big), idx);
                            Some(
                                List::Cons(
                                    SubtermSplit::AcNewVarD(ac_with_var(f, s, v), t, v),
                                    Box::new(below_operands(small, flat_term(f, big))),
                                ),
                            )
                        },
                    }
                },
                Term::App(FunSym::NoEq(g), args) => if reducible.has(FunSym::NoEq(g)) {
                    None
                } else {
                    Some(below_arguments(small, *args))
                },
                _ => None,
            }
        },
    }
}

/// Whether the split introduces a new variable.
pub open spec fn split_draws(reducible: List<FunSym>, small: Term, big: Term, idx: u64) -> bool {
    split_step(reducible, small, big, idx) matches Some(List::Cons(
        SubtermSplit::AcNewVarD(_, _, _),
        _,
    ))
}

/// The ways in which `small` can be a subterm of `big`, where the top of `big`
/// allows to tell.
pub fn subterm_step(reducible: &List<FunSym>, small: &Term, big: &Term, supply: &mut Supply) -> (r:
    Option<List<SubtermSplit>>)
    ensures
        r == split_step(*reducible, *small, *big, old(supply).next),
        *final(supply) == (if split_draws(*reducible, *small, *big, old(supply).next) {
            old(supply).taken(1)
        } else {
            *old(supply)
        }),
{
    match subterm_is_true_false(reducible, small, big) {
        Some(true) => {
            return Some(List::single(SubtermSplit::TrueD));
        },
        Some(false) => {
            return Some(List::Nil);
        },
        None => {},
    }
    if is_maybe_nat(small) && sort_of_lnterm(big) == LSort::Nat {
        return match process_ac_subterm(AcSym::NatPlus, small, big) {
            Ok((s, t)) => Some(List::single(SubtermSplit::NatSubtermD(s, t))),
            Err(_) => None,
        };
    }
    match big {
        Term::App(FunSym::Ac(f), _) => if reducible.contains(&FunSym::Ac(*f)) {
            None
        } else {
            let big_flat = flattened_ac_terms(*f, big);
            let big_norm = f_app_ac(*f, &big_flat);
            match process_ac_subterm(*f, small, &big_norm) {
                Err(_) => None,
                Ok((n_small, n_big)) => {
                    let idx: u64 = supply.fresh_idx();
                    let v = make_split_var(sort_of_lnterm(big), idx);
                    let small_plus = make_ac_with_var(*f, &n_small, &v);
                    Some(
                        List::Cons(
                            SubtermSplit::AcNewVarD(small_plus, n_big, v),
                            Box::new(list_below_operands(small, &big_flat)),
                        ),
                    )
                },
            }
        },
        Term::App(g, args) => match g {
            FunSym::NoEq(_) => if reducible.contains(g) {
                None
            } else {
                Some(list_below_arguments(small, args))
            },
            _ => None,
        },
        _ => None,
    }
}

/// The ways in which `small` can be a subterm of `big`, sorted and without
/// repetition: the constraint itself where the top of `big` does not tell.
pub open spec fn splits(reducible: List<FunSym>, small: Term, big: Term, idx: u64) -> List<
    SubtermSplit,
> {
    match split_step(reducible, small, big, idx) {
        Some(l) => l.sorted().nub(),
        None => List::one(SubtermSplit::SubtermD(small, big)).sorted().nub(),
    }
}

/// The ways in which `small` can be a subterm of `big`.
pub fn split_subterm_single(
    reducible: &List<FunSym>,
    small: &Term,
    big: &Term,
    supply: &mut Supply,
) -> (r: List<SubtermSplit>)
    ensures
        r == splits(*reducible, *small, *big, old(supply).next),
        *final(supply) == (if split_draws(*reducible, *small, *big, old(supply).next) {
            old(supply).taken(1)
        } else {
            *old(supply)
        }),
{
    let set = match subterm_step(reducible, small, big, supply) {
        Some(l) => l,
        None => List::single(SubtermSplit::SubtermD(small.dup(), big.dup())),
    };
    set.sort().dedup()
}

/// The formula that for some value of `v` the two terms are equal.
pub open spec fn some_equal(v: LVar, l: Term, r: Term) -> Guarded {
    let m = Close { var: v };
    Guarded::GGuarded(
        Quant::Ex,
        List::one(Binding { name: v.name, sort: v.sort }),
        List::one(GAtom::Eq(mapped_term(m, 0, l), mapped_term(m, 0, r))),
        Box::new(top()),
    )
}

/// The formula that for some value of `new_var` the two terms are equal.
pub fn close_guarded_ex_eq(new_var: &LVar, l: &Term, r: &Term) -> (g: Guarded)
    ensures
        g == some_equal(*new_var, *l, *r),
{
    let m = Close { var: new_var.dup() };
    let atom = GAtom::Eq(map_term(&m, 0, l), map_term(&m, 0, r));
    Guarded::GGuarded(
        Quant::Ex,
        List::single(Binding { name: new_var.name.dup(), sort: new_var.sort }),
        List::single(atom),
        Box::new(gtrue()),
    )
}

} // verus!
