//! Normal forms of terms, and what keeps them.
use crate::leaves::{mapped_term, mapped_terms, Canon, Leaves};
use crate::list::{find, List, Ordered, Total};
use crate::list_laws::{
    all, ascending, law_sort_ascends, law_sort_canonical, law_sort_keeps_ascending,
    law_sort_rearranges, lemma_all_sorted, lemma_all_then, lemma_then_nil, lemma_times_has,
    none_below, times,
};
use crate::rename_laws::{keeps_order, lemma_term_order, numbering};
use crate::subterms::{crossed_out, known_subterm, operands_left, reduced_pair, splits};
use crate::term_ops::{
    ac_app, app, applied, applied_all, flat_term, flat_terms, headed_by, occurs_irreducibly,
    term_frees, terms_frees, Subst,
};
use crate::terms::{AcSym, FunSym, LVar, Term};
use vstd::prelude::*;

verus! {

/// Whether the arguments of `f` are in normal form: those of an operator that is
/// associative and commutative are sorted, more or fewer than one, and no
/// applications of the operator themselves; those of a pairing are sorted.
pub open spec fn top_normal(f: FunSym, l: List<Term>) -> bool {
    match f {
        FunSym::Ac(g) => ascending(l) && l.only() is None && all(l, |t: Term| !headed_by(t, g)),
        FunSym::EMap => ascending(l),
        _ => true,
    }
}

/// Whether the term is in normal form.
pub open spec fn is_normal(t: Term) -> bool
    decreases t,
{
    match t {
        Term::App(f, args) => top_normal(f, *args) && all_normal(*args),
        _ => true,
    }
}

/// Whether the terms are in normal form.
pub open spec fn all_normal(l: List<Term>) -> bool
    decreases l,
{
    match l {
        List::Nil => true,
        List::Cons(t, rest) => is_normal(t) && all_normal(*rest),
    }
}

/// Whether a term is in normal form.
pub open spec fn normal_one() -> spec_fn(Term) -> bool {
    |t: Term| is_normal(t)
}

/// Whether a term is no application of the operator.
pub open spec fn not_headed(g: AcSym) -> spec_fn(Term) -> bool {
    |t: Term| !headed_by(t, g)
}

proof fn lemma_all_normal(l: List<Term>)
    ensures
        all_normal(l) == all(l, normal_one()),
    decreases l,
{
    match l {
        List::Nil => {},
        List::Cons(_, rest) => {
            lemma_all_normal(*rest);
        },
    }
}

proof fn lemma_flat_stays(g: AcSym, l: List<Term>)
    requires
        all(l, not_headed(g)),
    ensures
        flat_terms(g, l) == l,
    decreases l,
{
    match l {
        List::Nil => {},
        List::Cons(t, rest) => {
            assert(not_headed(g)(t));
            lemma_flat_stays(g, *rest);
            assert(List::<Term>::Nil.then_all(*rest) == *rest);
            assert(flat_term(g, t) == List::one(t));
        },
    }
}

proof fn lemma_not_headed(l: List<Term>, g: AcSym)
    ensures
        all(l, |t: Term| !headed_by(t, g)) == all(l, not_headed(g)),
    decreases l,
{
    match l {
        List::Nil => {},
        List::Cons(_, rest) => {
            lemma_not_headed(*rest, g);
        },
    }
}

proof fn lemma_flat_normal(g: AcSym, t: Term)
    requires
        is_normal(t),
    ensures
        all(flat_term(g, t), normal_one()),
        all(flat_term(g, t), not_headed(g)),
{
    match t {
        Term::App(FunSym::Ac(f), args) if f == g => {
            lemma_not_headed(*args, g);
            lemma_flat_stays(g, *args);
            lemma_all_normal(*args);
        },
        _ => {
            assert(all(List::<Term>::Nil, normal_one()));
            assert(all(List::<Term>::Nil, not_headed(g)));
        },
    }
}

proof fn lemma_flat_all_normal(g: AcSym, l: List<Term>)
    requires
        all_normal(l),
    ensures
        all(flat_terms(g, l), normal_one()),
        all(flat_terms(g, l), not_headed(g)),
    decreases l,
{
    match l {
        List::Nil => {},
        List::Cons(t, rest) => {
            lemma_flat_normal(g, t);
            lemma_flat_all_normal(g, *rest);
            lemma_all_then(flat_term(g, t), flat_terms(g, *rest), normal_one());
            lemma_all_then(flat_term(g, t), flat_terms(g, *rest), not_headed(g));
        },
    }
}

/// An application to terms in normal form is in normal form.
pub proof fn law_app_is_normal(f: FunSym, l: List<Term>)
    requires
        all_normal(l),
    ensures
        is_normal(app(f, l)),
{
    match f {
        FunSym::Ac(g) => {
            let flat = flat_terms(g, l);
            lemma_flat_all_normal(g, l);
            law_sort_ascends(flat);
            lemma_all_sorted(flat, normal_one());
            lemma_all_sorted(flat, not_headed(g));
            lemma_all_normal(flat.sorted());
            lemma_not_headed(flat.sorted(), g);
            assert(all_normal(List::Nil));
            assert(ascending(List::<Term>::Nil));
            assert(all(List::Nil, |t: Term| !headed_by(t, g)));
        },
        FunSym::EMap => {
            law_sort_ascends(l);
            lemma_all_normal(l);
            lemma_all_sorted(l, normal_one());
            lemma_all_normal(l.sorted());
        },
        _ => {},
    }
}

/// A term in normal form is what its arguments are put together to.
pub proof fn law_normal_term_stays(f: FunSym, l: List<Term>)
    requires
        is_normal(Term::App(f, Box::new(l))),
    ensures
        app(f, l) == Term::App(f, Box::new(l)),
{
    match f {
        FunSym::Ac(g) => {
            lemma_not_headed(l, g);
            lemma_flat_stays(g, l);
            law_sort_keeps_ascending(l);
        },
        FunSym::EMap => {
            law_sort_keeps_ascending(l);
        },
        _ => {},
    }
}

/// An operator that is associative and commutative does not tell in which order
/// and with which brackets its operands are given.
pub proof fn law_operands_unordered(g: AcSym, a: List<Term>, b: List<Term>)
    requires
        forall|t: Term| #[trigger] times(flat_terms(g, a), t) == times(flat_terms(g, b), t),
    ensures
        ac_app(g, a) == ac_app(g, b),
{
    law_sort_canonical(flat_terms(g, a), flat_terms(g, b));
}

/// Whether the terms of the substitution are in normal form.
pub open spec fn subst_normal(s: Subst) -> bool {
    forall|v: LVar| #[trigger] find(s, v) matches Some(t) ==> is_normal(t)
}

/// A substitution by terms in normal form keeps normal forms.
pub proof fn law_applied_is_normal(s: Subst, t: Term)
    requires
        subst_normal(s),
        is_normal(t),
    ensures
        is_normal(applied(s, t)),
    decreases t,
{
    match t {
        Term::Var(v) => {
            assert(find(s, v) matches Some(u) ==> is_normal(u));
        },
        Term::App(f, args) => {
            law_all_applied_normal(s, *args);
            law_app_is_normal(f, applied_all(s, *args));
        },
        _ => {},
    }
}

/// A substitution by terms in normal form keeps normal forms.
pub proof fn law_all_applied_normal(s: Subst, l: List<Term>)
    requires
        subst_normal(s),
        all_normal(l),
    ensures
        all_normal(applied_all(s, l)),
    decreases l,
{
    match l {
        List::Nil => {},
        List::Cons(t, rest) => {
            law_applied_is_normal(s, t);
            law_all_applied_normal(s, *rest);
        },
    }
}

/// Whether `m` puts terms in normal form in place of variables.
pub open spec fn images_normal<L: Leaves>(m: L) -> bool {
    forall|depth: u64, t: Term| !(t is App) ==> is_normal(#[trigger] m.image(depth, t))
}

/// A replacement of variables that rebuilds terms brings any term into normal
/// form.
pub proof fn law_rebuilt_is_normal<L: Leaves>(m: L, depth: u64, t: Term)
    requires
        m.rebuilds(),
        images_normal(m),
    ensures
        is_normal(mapped_term(m, depth, t)),
    decreases t,
{
    match t {
        Term::App(f, args) => {
            law_all_rebuilt_normal(m, depth, *args);
            law_app_is_normal(f, mapped_terms(m, depth, *args));
        },
        Term::Con(_) => {},
        _ => {
            assert(is_normal(m.image(depth, t)));
        },
    }
}

/// A replacement of variables that rebuilds terms brings any terms into normal
/// form.
pub proof fn law_all_rebuilt_normal<L: Leaves>(m: L, depth: u64, l: List<Term>)
    requires
        m.rebuilds(),
        images_normal(m),
    ensures
        all_normal(mapped_terms(m, depth, l)),
    decreases l,
{
    match l {
        List::Nil => {},
        List::Cons(t, rest) => {
            law_rebuilt_is_normal(m, depth, t);
            law_all_rebuilt_normal(m, depth, *rest);
        },
    }
}

proof fn lemma_none_below_kept(
    f: spec_fn(LVar) -> LVar,
    d: spec_fn(LVar) -> bool,
    depth: u64,
    l: List<Term>,
    t: Term,
)
    requires
        keeps_order(f, d),
        all(terms_frees(l), d),
        all(term_frees(t), d),
    ensures
        none_below(mapped_terms(numbering(f), depth, l), mapped_term(numbering(f), depth, t))
            == none_below(l, t),
    decreases l,
{
    match l {
        List::Nil => {},
        List::Cons(u, rest) => {
            lemma_all_then(term_frees(u), terms_frees(*rest), d);
            lemma_term_order(f, d, depth, u, t);
            lemma_none_below_kept(f, d, depth, *rest, t);
        },
    }
}

proof fn lemma_ascending_kept(
    f: spec_fn(LVar) -> LVar,
    d: spec_fn(LVar) -> bool,
    depth: u64,
    l: List<Term>,
)
    requires
        keeps_order(f, d),
        all(terms_frees(l), d),
    ensures
        ascending(mapped_terms(numbering(f), depth, l)) == ascending(l),
        mapped_terms(numbering(f), depth, l).only() is Some == l.only() is Some,
    decreases l,
{
    match l {
        List::Nil => {},
        List::Cons(t, rest) => {
            lemma_all_then(term_frees(t), terms_frees(*rest), d);
            lemma_none_below_kept(f, d, depth, *rest, t);
            lemma_ascending_kept(f, d, depth, *rest);
        },
    }
}

proof fn lemma_not_headed_kept(f: spec_fn(LVar) -> LVar, depth: u64, l: List<Term>, g: AcSym)
    ensures
        all(mapped_terms(numbering(f), depth, l), not_headed(g)) == all(l, not_headed(g)),
    decreases l,
{
    match l {
        List::Nil => {},
        List::Cons(t, rest) => {
            lemma_not_headed_kept(f, depth, *rest, g);
            assert(headed_by(mapped_term(numbering(f), depth, t), g) == headed_by(t, g));
        },
    }
}

/// A renumbering that keeps the order of variables keeps normal forms without
/// rebuilding terms.
pub proof fn law_monotone_keeps_normal(
    f: spec_fn(LVar) -> LVar,
    d: spec_fn(LVar) -> bool,
    depth: u64,
    t: Term,
)
    requires
        keeps_order(f, d),
        all(term_frees(t), d),
    ensures
        is_normal(mapped_term(numbering(f), depth, t)) == is_normal(t),
    decreases t,
{
    match t {
        Term::App(h, args) => {
            law_monotone_keeps_all_normal(f, d, depth, *args);
            lemma_ascending_kept(f, d, depth, *args);
            match h {
                FunSym::Ac(g) => {
                    lemma_not_headed(*args, g);
                    lemma_not_headed(mapped_terms(numbering(f), depth, *args), g);
                    lemma_not_headed_kept(f, depth, *args, g);
                },
                _ => {},
            }
        },
        _ => {},
    }
}

/// A renumbering that keeps the order of variables keeps normal forms without
/// rebuilding terms.
pub proof fn law_monotone_keeps_all_normal(
    f: spec_fn(LVar) -> LVar,
    d: spec_fn(LVar) -> bool,
    depth: u64,
    l: List<Term>,
)
    requires
        keeps_order(f, d),
        all(terms_frees(l), d),
    ensures
        all_normal(mapped_terms(numbering(f), depth, l)) == all_normal(l),
    decreases l,
{
    match l {
        List::Nil => {},
        List::Cons(t, rest) => {
            lemma_all_then(term_frees(t), terms_frees(*rest), d);
            law_monotone_keeps_normal(f, d, depth, t);
            law_monotone_keeps_all_normal(f, d, depth, *rest);
        },
    }
}

proof fn lemma_times_then(a: List<Term>, b: List<Term>, x: Term)
    ensures
        times(a.then_all(b), x) == times(a, x) + times(b, x),
    decreases a,
{
    match a {
        List::Nil => {},
        List::Cons(_, rest) => {
            lemma_times_then(*rest, b, x);
        },
    }
}

proof fn lemma_flats_then(g: AcSym, a: List<Term>, b: List<Term>, x: Term)
    ensures
        times(flat_terms(g, a.then_all(b)), x) == times(flat_terms(g, a), x) + times(
            flat_terms(g, b),
            x,
        ),
    decreases a,
{
    match a {
        List::Nil => {},
        List::Cons(t, rest) => {
            lemma_flats_then(g, *rest, b, x);
            lemma_times_then(flat_term(g, t), flat_terms(g, rest.then_all(b)), x);
            lemma_times_then(flat_term(g, t), flat_terms(g, *rest), x);
        },
    }
}

proof fn lemma_mapped_then<L: Leaves>(m: L, depth: u64, a: List<Term>, b: List<Term>)
    ensures
        mapped_terms(m, depth, a.then_all(b)) == mapped_terms(m, depth, a).then_all(
            mapped_terms(m, depth, b),
        ),
    decreases a,
{
    match a {
        List::Nil => {},
        List::Cons(_, rest) => {
            lemma_mapped_then(m, depth, *rest, b);
        },
    }
}

proof fn lemma_flat_unheaded(g: AcSym, t: Term)
    ensures
        all(flat_term(g, t), not_headed(g)),
    decreases t,
{
    match t {
        Term::App(FunSym::Ac(f), args) if f == g => {
            lemma_flats_unheaded(g, *args);
        },
        _ => {
            assert(all(List::<Term>::Nil, not_headed(g)));
        },
    }
}

proof fn lemma_flats_unheaded(g: AcSym, l: List<Term>)
    ensures
        all(flat_terms(g, l), not_headed(g)),
    decreases l,
{
    match l {
        List::Nil => {},
        List::Cons(t, rest) => {
            lemma_flat_unheaded(g, t);
            lemma_flats_unheaded(g, *rest);
            lemma_all_then(flat_term(g, t), flat_terms(g, *rest), not_headed(g));
        },
    }
}

/// The operands of an application are those of its arguments.
proof fn lemma_flat_app(g: AcSym, l: List<Term>, x: Term)
    ensures
        times(flat_term(g, ac_app(g, l)), x) == times(flat_terms(g, l), x),
{
    let flat = flat_terms(g, l);
    lemma_flats_unheaded(g, l);
    lemma_all_sorted(flat, not_headed(g));
    lemma_flat_stays(g, flat.sorted());
    law_sort_rearranges(flat, x);
    match flat.sorted() {
        List::Cons(t, rest) => match *rest {
            List::Nil => {
                assert(not_headed(g)(t));
                assert(flat_term(g, t) == List::one(t));
            },
            List::Cons(_, _) => {},
        },
        List::Nil => {
            assert(flat_terms(g, List::Nil) == List::<Term>::Nil);
        },
    }
}

/// A term in normal form stands for itself as the only operand.
proof fn lemma_single_operand(g: AcSym, t: Term)
    requires
        is_normal(t),
    ensures
        ac_app(g, List::one(t)) == t,
{
    lemma_then_nil(flat_term(g, t));
    assert(flat_terms(g, List::<Term>::Nil) == List::<Term>::Nil);
    assert(flat_terms(g, List::one(t)) == flat_term(g, t));
    match t {
        Term::App(FunSym::Ac(f), args) if f == g => {
            law_normal_term_stays(FunSym::Ac(g), *args);
        },
        _ => {
            assert(List::one(t).sorted() == List::one(t)) by {
                reveal_with_fuel(List::sorted, 3);
                reveal_with_fuel(List::with_sorted, 2);
            }
        },
    }
}

/// Operands that are taken out before they are mapped are those that are taken out
/// afterwards.
proof fn lemma_flat_mapped<L: Leaves>(m: L, depth: u64, g: AcSym, t: Term, x: Term)
    requires
        m.rebuilds(),
    ensures
        times(flat_terms(g, mapped_terms(m, depth, flat_term(g, t))), x) == times(
            flat_term(g, mapped_term(m, depth, t)),
            x,
        ),
    decreases t,
{
    match t {
        Term::App(FunSym::Ac(f), args) if f == g => {
            lemma_flats_mapped(m, depth, g, *args, x);
            lemma_flat_app(g, mapped_terms(m, depth, *args), x);
        },
        _ => {
            assert(mapped_terms(m, depth, List::<Term>::Nil) == List::<Term>::Nil);
            assert(flat_terms(g, List::<Term>::Nil) == List::<Term>::Nil);
            lemma_then_nil(flat_term(g, mapped_term(m, depth, t)));
            assert(flat_terms(g, List::one(mapped_term(m, depth, t))) == flat_term(
                g,
                mapped_term(m, depth, t),
            ));
        },
    }
}

proof fn lemma_flats_mapped<L: Leaves>(m: L, depth: u64, g: AcSym, l: List<Term>, x: Term)
    requires
        m.rebuilds(),
    ensures
        times(flat_terms(g, mapped_terms(m, depth, flat_terms(g, l))), x) == times(
            flat_terms(g, mapped_terms(m, depth, l)),
            x,
        ),
    decreases l,
{
    match l {
        List::Nil => {},
        List::Cons(t, rest) => {
            lemma_flat_mapped(m, depth, g, t, x);
            lemma_flats_mapped(m, depth, g, *rest, x);
            lemma_mapped_then(m, depth, flat_term(g, t), flat_terms(g, *rest));
            lemma_flats_then(
                g,
                mapped_terms(m, depth, flat_term(g, t)),
                mapped_terms(m, depth, flat_terms(g, *rest)),
                x,
            );
            lemma_times_then(
                flat_term(g, mapped_term(m, depth, t)),
                flat_terms(g, mapped_terms(m, depth, *rest)),
                x,
            );
        },
    }
}

proof fn lemma_with_sorted_mapped<L: Leaves>(
    m: L,
    depth: u64,
    g: AcSym,
    l: List<Term>,
    t: Term,
    x: Term,
)
    ensures
        times(mapped_terms(m, depth, l.with_sorted(t)), x) == times(
            mapped_terms(m, depth, List::Cons(t, Box::new(l))),
            x,
        ),
        times(flat_terms(g, mapped_terms(m, depth, l.with_sorted(t))), x) == times(
            flat_terms(g, mapped_terms(m, depth, List::Cons(t, Box::new(l)))),
            x,
        ),
    decreases l,
{
    let image = mapped_term(m, depth, t);
    lemma_times_then(flat_term(g, image), flat_terms(g, mapped_terms(m, depth, l)), x);
    match l {
        List::Nil => {
            assert(l.with_sorted(t) == List::Cons(t, Box::new(l)));
        },
        List::Cons(u, rest) => {
            lemma_with_sorted_mapped(m, depth, g, *rest, t, x);
            let other = mapped_term(m, depth, u);
            let more = mapped_terms(m, depth, *rest);
            let both = mapped_terms(m, depth, List::Cons(t, Box::new(*rest)));
            let whole = mapped_terms(m, depth, List::Cons(t, Box::new(l)));
            assert(both == List::Cons(image, Box::new(more)));
            assert(whole == List::Cons(image, Box::new(mapped_terms(m, depth, l))));
            assert(times(whole, x) == times(mapped_terms(m, depth, l), x) + if image == x {
                1nat
            } else {
                0
            });
            assert(times(both, x) == times(more, x) + if image == x {
                1nat
            } else {
                0
            });
            lemma_times_then(flat_term(g, image), flat_terms(g, more), x);
            lemma_times_then(flat_term(g, other), flat_terms(g, more), x);
            lemma_times_then(
                flat_term(g, other),
                flat_terms(g, mapped_terms(m, depth, rest.with_sorted(t))),
                x,
            );
        },
    }
}

proof fn lemma_sorted_mapped<L: Leaves>(m: L, depth: u64, g: AcSym, l: List<Term>, x: Term)
    ensures
        times(mapped_terms(m, depth, l.sorted()), x) == times(mapped_terms(m, depth, l), x),
        times(flat_terms(g, mapped_terms(m, depth, l.sorted())), x) == times(
            flat_terms(g, mapped_terms(m, depth, l)),
            x,
        ),
    decreases l,
{
    match l {
        List::Nil => {},
        List::Cons(t, rest) => {
            lemma_sorted_mapped(m, depth, g, *rest, x);
            lemma_with_sorted_mapped(m, depth, g, rest.sorted(), t, x);
            let image = flat_term(g, mapped_term(m, depth, t));
            lemma_times_then(image, flat_terms(g, mapped_terms(m, depth, rest.sorted())), x);
            lemma_times_then(image, flat_terms(g, mapped_terms(m, depth, *rest)), x);
        },
    }
}

/// A replacement of variables that rebuilds terms makes the same of an application
/// in normal form as of its arguments.
pub proof fn law_app_is_mapped<L: Leaves>(m: L, depth: u64, f: FunSym, l: List<Term>)
    requires
        m.rebuilds(),
        images_normal(m),
    ensures
        mapped_term(m, depth, app(f, l)) == app(f, mapped_terms(m, depth, l)),
{
    match f {
        FunSym::Ac(g) => {
            let flat = flat_terms(g, l);
            let sorted = flat.sorted();
            assert forall|x: Term| #[trigger]
                times(flat_terms(g, mapped_terms(m, depth, sorted)), x) == times(
                    flat_terms(g, mapped_terms(m, depth, l)),
                    x,
                ) by {
                lemma_sorted_mapped(m, depth, g, flat, x);
                lemma_flats_mapped(m, depth, g, l, x);
            }
            law_operands_unordered(g, mapped_terms(m, depth, sorted), mapped_terms(m, depth, l));
            match sorted {
                List::Cons(t, rest) => match *rest {
                    List::Nil => {
                        law_rebuilt_is_normal(m, depth, t);
                        lemma_single_operand(g, mapped_term(m, depth, t));
                        assert(mapped_terms(m, depth, List::<Term>::Nil) == List::<Term>::Nil);
                        assert(mapped_terms(m, depth, sorted) == List::one(
                            mapped_term(m, depth, t),
                        ));
                    },
                    List::Cons(_, _) => {},
                },
                List::Nil => {},
            }
        },
        FunSym::EMap => {
            assert forall|x: Term| #[trigger]
                times(mapped_terms(m, depth, l.sorted()), x) == times(
                    mapped_terms(m, depth, l),
                    x,
                ) by {
                lemma_sorted_mapped(m, depth, AcSym::Mult, l, x);
            }
            law_sort_canonical(mapped_terms(m, depth, l.sorted()), mapped_terms(m, depth, l));
        },
        _ => {},
    }
}

/// A replacement of variables that rebuilds terms makes the same of a term as of its
/// normal form.
pub proof fn law_normal_form_is_mapped<L: Leaves>(m: L, depth: u64, inner: u64, t: Term)
    requires
        m.rebuilds(),
        images_normal(m),
    ensures
        mapped_term(m, depth, mapped_term(Canon {  }, inner, t)) == mapped_term(m, depth, t),
    decreases t,
{
    match t {
        Term::App(f, args) => {
            law_normal_forms_are_mapped(m, depth, inner, *args);
            law_app_is_mapped(m, depth, f, mapped_terms(Canon {  }, inner, *args));
        },
        _ => {},
    }
}

/// A replacement of variables that rebuilds terms makes the same of terms as of their
/// normal forms.
pub proof fn law_normal_forms_are_mapped<L: Leaves>(m: L, depth: u64, inner: u64, l: List<Term>)
    requires
        m.rebuilds(),
        images_normal(m),
    ensures
        mapped_terms(m, depth, mapped_terms(Canon {  }, inner, l)) == mapped_terms(m, depth, l),
    decreases l,
{
    match l {
        List::Nil => {},
        List::Cons(t, rest) => {
            law_normal_form_is_mapped(m, depth, inner, t);
            law_normal_forms_are_mapped(m, depth, inner, *rest);
        },
    }
}

/// Of two ascending lists, crossing out leaves of each element as many in the first
/// as it has more of it than the second, and the other way round.
pub proof fn law_crossed_out(a: List<Term>, b: List<Term>, x: Term)
    requires
        ascending(a),
        ascending(b),
    ensures
        times(crossed_out(a, b).0, x) == (if times(a, x) > times(b, x) {
            times(a, x) - times(b, x)
        } else {
            0
        }),
        times(crossed_out(a, b).1, x) == (if times(b, x) > times(a, x) {
            times(b, x) - times(a, x)
        } else {
            0
        }),
    decreases a.size() + b.size(),
{
    match (a, b) {
        (List::Nil, _) => {},
        (_, List::Nil) => {},
        (List::Cons(y, l), List::Cons(z, m)) => {
            if y == z {
                law_crossed_out(*l, *m, x);
            } else if y.below(z) {
                law_crossed_out(*l, b, x);
                if x == y {
                    lemma_none_above(b, y);
                }
            } else {
                y.lemma_total(z);
                law_crossed_out(a, *m, x);
                if x == z {
                    lemma_none_above(a, z);
                }
            }
        },
    }
}

/// A term below the first one of an ascending list does not occur in it.
proof fn lemma_none_above(l: List<Term>, x: Term)
    requires
        ascending(l),
        l matches List::Cons(y, _) ==> x.below(y),
    ensures
        times(l, x) == 0,
{
    lemma_times_has(l, x);
    match l {
        List::Nil => {},
        List::Cons(y, rest) => {
            x.lemma_asymmetric(y);
            if rest.has(x) {
                lemma_none_below_has(*rest, y, x);
            }
        },
    }
}

proof fn lemma_none_below_has(l: List<Term>, y: Term, x: Term)
    requires
        none_below(l, y),
        l.has(x),
    ensures
        !x.below(y),
    decreases l,
{
    match l {
        List::Nil => {},
        List::Cons(z, rest) => {
            if z != x {
                lemma_none_below_has(*rest, y, x);
            }
        },
    }
}

/// Whether every operand of `s` is one of `t`, as many times at least.
pub open spec fn operands_among(f: AcSym, s: Term, t: Term) -> bool {
    forall|x: Term| #[trigger] times(flat_term(f, s), x) <= times(flat_term(f, t), x)
}

proof fn lemma_empty_times(l: List<Term>)
    ensures
        l is Nil <==> (forall|x: Term| #[trigger] times(l, x) == 0),
{
    match l {
        List::Nil => {},
        List::Cons(x, _) => {
            assert(times(l, x) > 0);
        },
    }
}

/// Of the operands of two terms, those are left that the one has more of than the
/// other, so that the two share none.  Where the big term has no operand that the
/// small one has not, the small one is no subterm; where else the small one has none
/// that the big one has not, it is one; and else both are left without their common
/// operands.
pub proof fn law_common_operands_cancel(f: AcSym, small: Term, big: Term)
    ensures
        forall|x: Term| #[trigger]
            times(operands_left(f, small, big).0, x) == (if times(flat_term(f, small), x) > times(
                flat_term(f, big),
                x,
            ) {
                times(flat_term(f, small), x) - times(flat_term(f, big), x)
            } else {
                0
            }),
        forall|x: Term| #[trigger]
            times(operands_left(f, small, big).1, x) == (if times(flat_term(f, big), x) > times(
                flat_term(f, small),
                x,
            ) {
                times(flat_term(f, big), x) - times(flat_term(f, small), x)
            } else {
                0
            }),
        forall|x: Term| #[trigger]
            operands_left(f, small, big).0.has(x) ==> !operands_left(f, small, big).1.has(x),
        reduced_pair(f, small, big) == (if operands_among(f, big, small) {
            Err::<(Term, Term), bool>(false)
        } else if operands_among(f, small, big) {
            Err(true)
        } else {
            Ok(
                (
                    ac_app(f, operands_left(f, small, big).0),
                    ac_app(f, operands_left(f, small, big).1),
                ),
            )
        }),
{
    let s = flat_term(f, small);
    let b = flat_term(f, big);
    let d = operands_left(f, small, big);
    law_sort_ascends(s);
    law_sort_ascends(b);
    assert forall|x: Term| #[trigger] times(d.0, x) == (if times(s, x) > times(b, x) {
        times(s, x) - times(b, x)
    } else {
        0
    }) by {
        law_crossed_out(s.sorted(), b.sorted(), x);
        law_sort_rearranges(s, x);
        law_sort_rearranges(b, x);
    }
    assert forall|x: Term| #[trigger] times(d.1, x) == (if times(b, x) > times(s, x) {
        times(b, x) - times(s, x)
    } else {
        0
    }) by {
        law_crossed_out(s.sorted(), b.sorted(), x);
        law_sort_rearranges(s, x);
        law_sort_rearranges(b, x);
    }
    assert forall|x: Term| #[trigger] d.0.has(x) implies !d.1.has(x) by {
        lemma_times_has(d.0, x);
        lemma_times_has(d.1, x);
    }
    lemma_empty_times(d.0);
    lemma_empty_times(d.1);
    if d.1 is Nil {
        assert forall|x: Term| #[trigger] times(b, x) <= times(s, x) by {
            assert(times(d.1, x) == 0);
        }
    } else {
        let x = choose|x: Term| #[trigger] times(d.1, x) != 0;
        assert(times(b, x) > times(s, x));
    }
    if d.0 is Nil {
        assert forall|x: Term| #[trigger] times(s, x) <= times(b, x) by {
            assert(times(d.0, x) == 0);
        }
    } else {
        let x = choose|x: Term| #[trigger] times(d.0, x) != 0;
        assert(times(s, x) > times(b, x));
    }
}

proof fn lemma_crossed_with_itself(l: List<Term>)
    ensures
        crossed_out(l, l).0 is Nil,
        crossed_out(l, l).1 is Nil,
    decreases l,
{
    match l {
        List::Nil => {},
        List::Cons(_, rest) => {
            lemma_crossed_with_itself(*rest);
        },
    }
}

/// No term is a subterm of itself: the constraint that one is has no way to hold.
pub proof fn law_no_term_below_itself(reducible: List<FunSym>, t: Term, idx: u64)
    ensures
        known_subterm(reducible, t, t) == Some(false),
        splits(reducible, t, t, idx) is Nil,
{
    lemma_crossed_with_itself(flat_term(AcSym::NatPlus, t).sorted());
    assert(occurs_irreducibly(reducible, t, t));
}

} // verus!
