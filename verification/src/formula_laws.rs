//! What the substitution leaves behind in stored formulas.
use crate::apply_laws::{applied_last, resolved};
use crate::bounds::system_max;
use crate::constraints::{Goal, GoalStatus, LessAtom, Reason};
use crate::context::{AddEqsAnswer, Query};
use crate::equations::{argument_eqs, nontrivial};
use crate::facts::Fact;
use crate::guarded::{
    all_conjuncts, all_disjuncts, all_normal, bottom, conjunction, conjuncts, disjunction,
    disjuncts, normal, normal_alternatives, GAtom, Guarded,
};
use crate::leaves::{
    atom_frees, atoms_frees, deeper, guarded_frees, guardeds_frees, mapped_atom, mapped_atoms,
    mapped_guarded, mapped_guardeds, mapped_term, mapped_terms, replaced, replaces_any,
    settled_alternative, settled_formula, Canon, FormulaSubst, Leaves, Replace, REPLACE_ROUNDS,
};
use crate::list::{find, List};
use crate::list_laws::{all, lemma_all_nub, lemma_all_snoc, lemma_all_sorted, lemma_all_then};
use crate::reduction::{
    goal_parts, goal_weight, ku_goal, lemma_goal_parts, lemma_term_size, node_var, terms_size,
    Reduction, SplitStrategy,
};
use crate::rename_laws::{formula_in, lemma_formula_in};
use crate::subst_system::{
    alike_eqs, applied_goal, chased, formula_subst, has_disj, merged_nodes, passed_goals,
    settled_alternatives, settled_formulas, GoalPass, CHASE_ROUNDS, PASSES,
};
use crate::system::{combined, put_goal, System};
use crate::system_laws::{law_goal_inserted, same_otherwise};
use crate::term_ops::{
    after, app, applied, flat_term, flat_terms, larger, term_frees, terms_frees, touches, Subst,
};
use crate::terms::{AcSym, FunSym, LVar, Term};
use crate::text::Text;
use vstd::prelude::*;

verus! {

/// Whether the variables of a term are in `p`.
pub open spec fn term_in(p: spec_fn(LVar) -> bool) -> spec_fn(Term) -> bool {
    |t: Term| all(term_frees(t), p)
}

proof fn lemma_term_in(p: spec_fn(LVar) -> bool, l: List<Term>)
    ensures
        all(terms_frees(l), p) == all(l, term_in(p)),
    decreases l,
{
    match l {
        List::Nil => {},
        List::Cons(t, rest) => {
            lemma_term_in(p, *rest);
            lemma_all_then(term_frees(t), terms_frees(*rest), p);
        },
    }
}

proof fn lemma_flat_in(p: spec_fn(LVar) -> bool, g: AcSym, t: Term)
    ensures
        all(flat_term(g, t), term_in(p)) == all(term_frees(t), p),
    decreases t,
{
    match t {
        Term::App(FunSym::Ac(f), args) if f == g => {
            lemma_flats_in(p, g, *args);
        },
        _ => {
            assert(all(List::Nil, term_in(p)));
        },
    }
}

proof fn lemma_flats_in(p: spec_fn(LVar) -> bool, g: AcSym, l: List<Term>)
    ensures
        all(flat_terms(g, l), term_in(p)) == all(terms_frees(l), p),
    decreases l,
{
    match l {
        List::Nil => {},
        List::Cons(t, rest) => {
            lemma_flat_in(p, g, t);
            lemma_flats_in(p, g, *rest);
            lemma_all_then(flat_term(g, t), flat_terms(g, *rest), term_in(p));
            lemma_all_then(term_frees(t), terms_frees(*rest), p);
        },
    }
}

proof fn lemma_app_in(p: spec_fn(LVar) -> bool, f: FunSym, l: List<Term>)
    ensures
        all(term_frees(app(f, l)), p) == all(terms_frees(l), p),
{
    match f {
        FunSym::Ac(g) => {
            lemma_flats_in(p, g, l);
            let flat = flat_terms(g, l);
            lemma_all_sorted(flat, term_in(p));
            lemma_term_in(p, flat.sorted());
            assert(all(List::Nil, term_in(p)));
        },
        FunSym::EMap => {
            lemma_all_sorted(l, term_in(p));
            lemma_term_in(p, l);
            lemma_term_in(p, l.sorted());
        },
        _ => {},
    }
}

/// Whether `m` puts only variables of `q` in place of variables of `p`.
pub open spec fn carries<L: Leaves>(
    m: L,
    p: spec_fn(LVar) -> bool,
    q: spec_fn(LVar) -> bool,
) -> bool {
    forall|d: u64, t: Term|
        !(t is App) && all(term_frees(t), p) ==> all(term_frees(#[trigger] m.image(d, t)), q)
}

proof fn lemma_mapped_term<L: Leaves>(
    m: L,
    d: u64,
    t: Term,
    p: spec_fn(LVar) -> bool,
    q: spec_fn(LVar) -> bool,
)
    requires
        carries(m, p, q),
        all(term_frees(t), p),
    ensures
        all(term_frees(mapped_term(m, d, t)), q),
    decreases t,
{
    match t {
        Term::App(f, args) => {
            lemma_mapped_terms(m, d, *args, p, q);
            lemma_app_in(q, f, mapped_terms(m, d, *args));
        },
        _ => {
            assert(all(term_frees(m.image(d, t)), q));
        },
    }
}

proof fn lemma_mapped_terms<L: Leaves>(
    m: L,
    d: u64,
    l: List<Term>,
    p: spec_fn(LVar) -> bool,
    q: spec_fn(LVar) -> bool,
)
    requires
        carries(m, p, q),
        all(terms_frees(l), p),
    ensures
        all(terms_frees(mapped_terms(m, d, l)), q),
    decreases l,
{
    match l {
        List::Nil => {},
        List::Cons(t, rest) => {
            lemma_all_then(term_frees(t), terms_frees(*rest), p);
            lemma_mapped_term(m, d, t, p, q);
            lemma_mapped_terms(m, d, *rest, p, q);
            lemma_all_then(
                term_frees(mapped_term(m, d, t)),
                terms_frees(mapped_terms(m, d, *rest)),
                q,
            );
        },
    }
}

proof fn lemma_mapped_two<L: Leaves>(
    m: L,
    d: u64,
    s: Term,
    t: Term,
    p: spec_fn(LVar) -> bool,
    q: spec_fn(LVar) -> bool,
)
    requires
        carries(m, p, q),
        all(term_frees(s).then_all(term_frees(t)), p),
    ensures
        all(term_frees(mapped_term(m, d, s)).then_all(term_frees(mapped_term(m, d, t))), q),
{
    lemma_all_then(term_frees(s), term_frees(t), p);
    lemma_mapped_term(m, d, s, p, q);
    lemma_mapped_term(m, d, t, p, q);
    lemma_all_then(term_frees(mapped_term(m, d, s)), term_frees(mapped_term(m, d, t)), q);
}

proof fn lemma_mapped_atom<L: Leaves>(
    m: L,
    d: u64,
    a: GAtom,
    p: spec_fn(LVar) -> bool,
    q: spec_fn(LVar) -> bool,
)
    requires
        carries(m, p, q),
        all(atom_frees(a), p),
    ensures
        all(atom_frees(mapped_atom(m, d, a)), q),
{
    match a {
        GAtom::Eq(s, t) => {
            lemma_mapped_two(m, d, s, t, p, q);
        },
        GAtom::Less(s, t) => {
            lemma_mapped_two(m, d, s, t, p, q);
        },
        GAtom::Last(t) => {
            lemma_mapped_term(m, d, t, p, q);
        },
        GAtom::Action(fa, t) => {
            lemma_all_then(term_frees(t), terms_frees(fa.terms), p);
            lemma_mapped_term(m, d, t, p, q);
            lemma_mapped_terms(m, d, fa.terms, p, q);
            lemma_all_then(
                term_frees(mapped_term(m, d, t)),
                terms_frees(mapped_terms(m, d, fa.terms)),
                q,
            );
        },
        GAtom::Subterm(s, t) => {
            lemma_mapped_two(m, d, s, t, p, q);
        },
        GAtom::Pred(fa) => {
            lemma_mapped_terms(m, d, fa.terms, p, q);
        },
        GAtom::LessMset(s, t) => {
            lemma_mapped_two(m, d, s, t, p, q);
        },
    }
}

proof fn lemma_mapped_atoms<L: Leaves>(
    m: L,
    d: u64,
    l: List<GAtom>,
    p: spec_fn(LVar) -> bool,
    q: spec_fn(LVar) -> bool,
)
    requires
        carries(m, p, q),
        all(atoms_frees(l), p),
    ensures
        all(atoms_frees(mapped_atoms(m, d, l)), q),
    decreases l,
{
    match l {
        List::Nil => {},
        List::Cons(a, rest) => {
            lemma_all_then(atom_frees(a), atoms_frees(*rest), p);
            lemma_mapped_atom(m, d, a, p, q);
            lemma_mapped_atoms(m, d, *rest, p, q);
            lemma_all_then(
                atom_frees(mapped_atom(m, d, a)),
                atoms_frees(mapped_atoms(m, d, *rest)),
                q,
            );
        },
    }
}

proof fn lemma_mapped_guarded<L: Leaves>(
    m: L,
    d: u64,
    g: Guarded,
    p: spec_fn(LVar) -> bool,
    q: spec_fn(LVar) -> bool,
)
    requires
        carries(m, p, q),
        all(guarded_frees(g), p),
    ensures
        all(guarded_frees(mapped_guarded(m, d, g)), q),
    decreases g,
{
    match g {
        Guarded::Atom(a) => {
            lemma_mapped_atom(m, d, a, p, q);
        },
        Guarded::Disj(l) => {
            lemma_mapped_guardeds(m, d, *l, p, q);
        },
        Guarded::Conj(l) => {
            lemma_mapped_guardeds(m, d, *l, p, q);
        },
        Guarded::GGuarded(_, vars, guards, body) => {
            let inner = deeper(d, vars);
            lemma_all_then(atoms_frees(guards), guarded_frees(*body), p);
            lemma_mapped_atoms(m, inner, guards, p, q);
            lemma_mapped_guarded(m, inner, *body, p, q);
            lemma_all_then(
                atoms_frees(mapped_atoms(m, inner, guards)),
                guarded_frees(mapped_guarded(m, inner, *body)),
                q,
            );
        },
    }
}

proof fn lemma_mapped_guardeds<L: Leaves>(
    m: L,
    d: u64,
    l: List<Guarded>,
    p: spec_fn(LVar) -> bool,
    q: spec_fn(LVar) -> bool,
)
    requires
        carries(m, p, q),
        all(guardeds_frees(l), p),
    ensures
        all(guardeds_frees(mapped_guardeds(m, d, l)), q),
    decreases l,
{
    match l {
        List::Nil => {},
        List::Cons(g, rest) => {
            lemma_all_then(guarded_frees(g), guardeds_frees(*rest), p);
            lemma_mapped_guarded(m, d, g, p, q);
            lemma_mapped_guardeds(m, d, *rest, p, q);
            lemma_all_then(
                guarded_frees(mapped_guarded(m, d, g)),
                guardeds_frees(mapped_guardeds(m, d, *rest)),
                q,
            );
        },
    }
}

proof fn lemma_conjuncts_in(p: spec_fn(LVar) -> bool, g: Guarded)
    requires
        all(guarded_frees(g), p),
    ensures
        all(conjuncts(g), formula_in(p)),
    decreases g,
{
    match g {
        Guarded::Conj(l) => {
            lemma_all_conjuncts_in(p, *l);
        },
        _ => {
            assert(all(List::Nil, formula_in(p)));
        },
    }
}

proof fn lemma_all_conjuncts_in(p: spec_fn(LVar) -> bool, l: List<Guarded>)
    requires
        all(guardeds_frees(l), p),
    ensures
        all(all_conjuncts(l), formula_in(p)),
    decreases l,
{
    match l {
        List::Nil => {},
        List::Cons(g, rest) => {
            lemma_all_then(guarded_frees(g), guardeds_frees(*rest), p);
            lemma_conjuncts_in(p, g);
            lemma_all_conjuncts_in(p, *rest);
            lemma_all_then(conjuncts(g), all_conjuncts(*rest), formula_in(p));
        },
    }
}

proof fn lemma_disjuncts_in(p: spec_fn(LVar) -> bool, g: Guarded)
    requires
        all(guarded_frees(g), p),
    ensures
        all(disjuncts(g), formula_in(p)),
    decreases g,
{
    match g {
        Guarded::Disj(l) => {
            lemma_all_disjuncts_in(p, *l);
        },
        _ => {
            assert(all(List::Nil, formula_in(p)));
        },
    }
}

proof fn lemma_all_disjuncts_in(p: spec_fn(LVar) -> bool, l: List<Guarded>)
    requires
        all(guardeds_frees(l), p),
    ensures
        all(all_disjuncts(l), formula_in(p)),
    decreases l,
{
    match l {
        List::Nil => {},
        List::Cons(g, rest) => {
            lemma_all_then(guarded_frees(g), guardeds_frees(*rest), p);
            lemma_disjuncts_in(p, g);
            lemma_all_disjuncts_in(p, *rest);
            lemma_all_then(disjuncts(g), all_disjuncts(*rest), formula_in(p));
        },
    }
}

proof fn lemma_conjunction_in(p: spec_fn(LVar) -> bool, l: List<Guarded>)
    requires
        all(guardeds_frees(l), p),
    ensures
        all(guarded_frees(conjunction(l)), p),
{
    let flat = all_conjuncts(l);
    lemma_all_conjuncts_in(p, l);
    lemma_all_nub(flat, formula_in(p));
    lemma_formula_in(p, flat.nub());
    assert(guardeds_frees(List::Nil) == List::<LVar>::Nil);
}

proof fn lemma_disjunction_in(p: spec_fn(LVar) -> bool, l: List<Guarded>)
    requires
        all(guardeds_frees(l), p),
    ensures
        all(guarded_frees(disjunction(l)), p),
{
    let flat = all_disjuncts(l);
    lemma_all_disjuncts_in(p, l);
    lemma_all_nub(flat, formula_in(p));
    lemma_formula_in(p, flat.nub());
    assert(guardeds_frees(List::Nil) == List::<LVar>::Nil);
}

proof fn lemma_normal_in(p: spec_fn(LVar) -> bool, g: Guarded)
    requires
        all(guarded_frees(g), p),
    ensures
        all(guarded_frees(normal(g)), p),
    decreases g,
{
    match g {
        Guarded::Atom(_) => {},
        Guarded::Conj(l) => {
            lemma_all_normal_in(p, *l);
            lemma_conjunction_in(p, all_normal(*l));
        },
        Guarded::Disj(l) => {
            lemma_all_normal_in(p, *l);
            lemma_disjunction_in(p, all_normal(*l));
        },
        Guarded::GGuarded(_, _, guards, body) => {
            lemma_all_then(atoms_frees(guards), guarded_frees(*body), p);
            lemma_normal_in(p, *body);
            lemma_all_then(atoms_frees(guards), guarded_frees(normal(*body)), p);
        },
    }
}

proof fn lemma_all_normal_in(p: spec_fn(LVar) -> bool, l: List<Guarded>)
    requires
        all(guardeds_frees(l), p),
    ensures
        all(guardeds_frees(all_normal(l)), p),
    decreases l,
{
    match l {
        List::Nil => {},
        List::Cons(g, rest) => {
            lemma_all_then(guarded_frees(g), guardeds_frees(*rest), p);
            lemma_normal_in(p, g);
            lemma_all_normal_in(p, *rest);
            lemma_all_then(guarded_frees(normal(g)), guardeds_frees(all_normal(*rest)), p);
        },
    }
}

/// Whether `fs` replaces a variable by nothing.
pub open spec fn unreplaced(fs: FormulaSubst) -> spec_fn(LVar) -> bool {
    |v: LVar| find(fs, (v.name, v.idx)) is None
}

/// Whether the terms that `fs` puts in place of variables hold none that it
/// replaces.
pub open spec fn settling(fs: FormulaSubst) -> bool {
    forall|k: (Text, u64)| #[trigger] find(fs, k) matches Some(t) ==> all(
        term_frees(t),
        unreplaced(fs),
    )
}

proof fn lemma_replaces_any(fs: FormulaSubst, l: List<LVar>)
    ensures
        replaces_any(fs, l) == !all(l, unreplaced(fs)),
    decreases l,
{
    match l {
        List::Nil => {},
        List::Cons(_, rest) => {
            lemma_replaces_any(fs, *rest);
        },
    }
}

/// Whether anything at all.
spec fn anything() -> spec_fn(LVar) -> bool {
    |v: LVar| true
}

proof fn lemma_anything(l: List<LVar>)
    ensures
        all(l, anything()),
    decreases l,
{
    match l {
        List::Nil => {},
        List::Cons(_, rest) => {
            lemma_anything(*rest);
        },
    }
}

/// A formula under a substitution that is settled holds no variable that the
/// substitution replaces.
pub proof fn law_settled_formula(fs: FormulaSubst, g: Guarded)
    requires
        settling(fs),
    ensures
        all(guarded_frees(settled_alternative(fs, g)), unreplaced(fs)),
        all(guarded_frees(settled_formula(fs, g)), unreplaced(fs)),
{
    let p = unreplaced(fs);
    let m = Replace { subst: fs };
    let once = mapped_guarded(m, 0, g);
    assert forall|d: u64, t: Term|
        !(t is App) && all(term_frees(t), anything()) implies all(
        term_frees(#[trigger] m.image(d, t)),
        p,
    ) by {
        match t {
            Term::Var(v) => {
                assert(find(fs, (v.name, v.idx)) matches Some(u) ==> all(term_frees(u), p));
                assert(all(List::Nil, p));
            },
            _ => {
                assert(all(List::Nil, p));
            },
        }
    }
    lemma_anything(guarded_frees(g));
    lemma_mapped_guarded(m, 0, g, anything(), p);
    lemma_replaces_any(fs, guarded_frees(g));
    lemma_replaces_any(fs, guarded_frees(once));
    let h = replaced(fs, g, REPLACE_ROUNDS as nat);
    assert(h == g || h == once) by {
        reveal_with_fuel(replaced, 3);
    }
    assert(all(guarded_frees(h), p));
    let c = Canon {  };
    assert(carries(c, p, p));
    lemma_mapped_guarded(c, 0, h, p, p);
    lemma_normal_in(p, settled_alternative(fs, g));
}

proof fn lemma_settled_formulas(fs: FormulaSubst, l: List<Guarded>)
    requires
        settling(fs),
    ensures
        all(settled_formulas(fs, l), formula_in(unreplaced(fs))),
    decreases l,
{
    match l {
        List::Nil => {},
        List::Cons(g, rest) => {
            law_settled_formula(fs, g);
            lemma_settled_formulas(fs, *rest);
        },
    }
}

proof fn lemma_settled_alternatives(fs: FormulaSubst, l: List<Guarded>)
    requires
        settling(fs),
    ensures
        all(guardeds_frees(settled_alternatives(fs, l)), unreplaced(fs)),
    decreases l,
{
    match l {
        List::Nil => {},
        List::Cons(g, rest) => {
            law_settled_formula(fs, g);
            lemma_settled_alternatives(fs, *rest);
            lemma_all_then(
                guarded_frees(settled_alternative(fs, g)),
                guardeds_frees(settled_alternatives(fs, *rest)),
                unreplaced(fs),
            );
        },
    }
}

proof fn lemma_formula_subst_keeps(s: Subst, l: Subst, acc: FormulaSubst, k: (
    Text,
    u64,
))
    requires
        find(acc, k) is Some,
    ensures
        find(formula_subst(s, l, acc), k) is Some,
    decreases l,
{
    match l {
        List::Nil => {},
        List::Cons(b, rest) => {
            let t = chased(s, Term::Var(b.0), CHASE_ROUNDS as nat);
            let more = if t == Term::Var(b.0) {
                acc
            } else {
                List::Cons(((b.0.name, b.0.idx), t), Box::new(acc))
            };
            lemma_formula_subst_keeps(s, *rest, more, k);
        },
    }
}

proof fn lemma_chased_differs(s: Subst, v: LVar)
    requires
        resolved(s),
        find(s, v) is Some,
    ensures
        chased(s, Term::Var(v), CHASE_ROUNDS as nat) != Term::Var(v),
{
    reveal_with_fuel(chased, 3);
    match find(s, v) {
        Some(u) => {
            assert(applied(s, Term::Var(v)) == u);
            assert(!touches(s, u));
        },
        None => {},
    }
}

proof fn lemma_formula_subst_covers(s: Subst, l: Subst, acc: FormulaSubst, v: LVar)
    requires
        resolved(s),
        find(s, v) is Some,
        find(l, v) is Some,
    ensures
        find(formula_subst(s, l, acc), (v.name, v.idx)) is Some,
    decreases l,
{
    match l {
        List::Nil => {},
        List::Cons(b, rest) => {
            let t = chased(s, Term::Var(b.0), CHASE_ROUNDS as nat);
            let more = if t == Term::Var(b.0) {
                acc
            } else {
                List::Cons(((b.0.name, b.0.idx), t), Box::new(acc))
            };
            if b.0 == v {
                lemma_chased_differs(s, v);
                lemma_formula_subst_keeps(s, *rest, more, (v.name, v.idx));
            } else {
                lemma_formula_subst_covers(s, *rest, more, v);
            }
        },
    }
}

/// Whether `s` does not bind a variable.
pub open spec fn unbound(s: Subst) -> spec_fn(LVar) -> bool {
    |v: LVar| find(s, v) is None
}

/// The substitution for formulas replaces every variable that a resolved
/// substitution binds.
pub proof fn law_formulas_follow_bindings(s: Subst, l: List<LVar>)
    requires
        resolved(s),
        all(l, unreplaced(formula_subst(s, s, List::Nil))),
    ensures
        all(l, unbound(s)),
    decreases l,
{
    match l {
        List::Nil => {},
        List::Cons(v, rest) => {
            if find(s, v) is Some {
                lemma_formula_subst_covers(s, s, List::Nil, v);
            }
            law_formulas_follow_bindings(s, *rest);
        },
    }
}

proof fn lemma_formulas_unbound(s: Subst, l: List<Guarded>)
    requires
        resolved(s),
        all(l, formula_in(unreplaced(formula_subst(s, s, List::Nil)))),
    ensures
        all(l, formula_in(unbound(s))),
    decreases l,
{
    match l {
        List::Nil => {},
        List::Cons(g, rest) => {
            law_formulas_follow_bindings(s, guarded_frees(g));
            lemma_formulas_unbound(s, *rest);
        },
    }
}

/// Whether the variables of a goal are in `p` where it is a disjunction.
pub open spec fn disj_in(p: spec_fn(LVar) -> bool) -> spec_fn((Goal, GoalStatus)) -> bool {
    |g: (Goal, GoalStatus)| g.0 matches Goal::Disj(l) ==> all(guardeds_frees(l), p)
}

/// Whether the variables of everything that is stated are in `p`: formulas, solved
/// formulas, lemmas, and disjunctions among the goals.
pub open spec fn stated_in(p: spec_fn(LVar) -> bool, sys: System) -> bool {
    &&& all(sys.formulas, formula_in(p))
    &&& all(sys.solved_formulas, formula_in(p))
    &&& all(sys.lemmas, formula_in(p))
    &&& all(sys.goals, disj_in(p))
}

proof fn lemma_put_in(
    p: spec_fn(LVar) -> bool,
    l: List<(Goal, GoalStatus)>,
    g: Goal,
    status: GoalStatus,
)
    requires
        all(l, disj_in(p)),
        disj_in(p)((g, status)),
    ensures
        all(put_goal(l, g, status), disj_in(p)),
    decreases l,
{
    match l {
        List::Nil => {
            assert(all(List::Nil, disj_in(p)));
        },
        List::Cons(e, rest) => {
            if e.0 == g {
                assert(disj_in(p)((g, combined(e.1, status))));
            } else {
                lemma_put_in(p, *rest, g, status);
            }
        },
    }
}

proof fn lemma_applied_goal_in(
    p: spec_fn(LVar) -> bool,
    s: Subst,
    fs: FormulaSubst,
    g: Goal,
    status: GoalStatus,
)
    requires
        g is Disj ==> settling(fs) && fs !is Nil && p == unreplaced(fs),
    ensures
        disj_in(p)((applied_goal(s, fs, g), status)),
{
    match g {
        Goal::Disj(l) => {
            lemma_settled_alternatives(fs, l);
            let alts = settled_alternatives(fs, l);
            lemma_all_normal_in(p, alts);
            lemma_all_disjuncts_in(p, all_normal(alts));
            lemma_all_nub(all_disjuncts(all_normal(alts)), formula_in(p));
            lemma_formula_in(p, normal_alternatives(alts));
        },
        _ => {},
    }
}

/// Whether the goal is an action.
spec fn action() -> spec_fn((Goal, GoalStatus)) -> bool {
    |g: (Goal, GoalStatus)| g.0 is Action
}

proof fn lemma_goal_pass_in(
    p: spec_fn(LVar) -> bool,
    pass: GoalPass,
    s: Subst,
    fs: FormulaSubst,
    l: List<(Goal, GoalStatus)>,
)
    requires
        has_disj(l) ==> settling(fs) && fs !is Nil && p == unreplaced(fs),
        all(pass.kept, disj_in(p)),
        all(pass.reopened, action()),
    ensures
        all(pass.with_all(s, fs, l).kept, disj_in(p)),
        all(pass.with_all(s, fs, l).reopened, action()),
    decreases l,
{
    match l {
        List::Nil => {},
        List::Cons(g, rest) => {
            let image = applied_goal(s, fs, g.0);
            lemma_applied_goal_in(p, s, fs, g.0, g.1);
            lemma_put_in(p, pass.kept, image, g.1);
            lemma_all_snoc(pass.reopened, (image, g.1), action());
            lemma_goal_pass_in(p, pass.with(s, fs, g.0, g.1), s, fs, *rest);
        },
    }
}

/// Whether the goal is no disjunction.
spec fn undivided() -> spec_fn((Goal, GoalStatus)) -> bool {
    |g: (Goal, GoalStatus)| !(g.0 is Disj)
}

proof fn lemma_has_disj(l: List<(Goal, GoalStatus)>)
    ensures
        has_disj(l) == !all(l, undivided()),
    decreases l,
{
    match l {
        List::Nil => {},
        List::Cons(_, rest) => {
            lemma_has_disj(*rest);
        },
    }
}

proof fn lemma_goal_inserted_in(
    p: spec_fn(LVar) -> bool,
    red: Reduction,
    g: Goal,
    looping: bool,
)
    requires
        all(red.sys.goals, disj_in(p)),
        !(g is Disj),
    ensures
        all(red.goal_inserted(g, looping).sys.goals, disj_in(p)),
    decreases goal_weight(g), 0nat,
{
    lemma_goal_parts(g);
    let status = GoalStatus { solved: false, looping, nr: red.sys.next_goal_nr };
    lemma_put_in(p, red.sys.goals, g, status);
    match (g, goal_parts(g)) {
        (Goal::Action(i, _), Some(parts)) => {
            if find(red.sys.goals, g) is None {
                lemma_parts_in(p, red.plain_goal(g, looping), parts, i, looping);
            }
        },
        _ => {},
    }
}

proof fn lemma_parts_in(
    p: spec_fn(LVar) -> bool,
    red: Reduction,
    parts: List<Term>,
    outer: LVar,
    looping: bool,
)
    requires
        all(red.sys.goals, disj_in(p)),
    ensures
        all(red.parts_inserted(parts, outer, looping).sys.goals, disj_in(p)),
    decreases terms_size(parts), 1nat,
{
    match parts {
        List::Nil => {},
        List::Cons(t, rest) => {
            lemma_term_size(t);
            let idx = after(larger(system_max(red.sys), outer.idx));
            let node = node_var("vk"@, idx);
            let moved = Reduction { supply: red.supply.above(idx), ..red };
            lemma_goal_inserted_in(p, moved, ku_goal(node, t), looping);
            let b = moved.goal_inserted(ku_goal(node, t), looping).less_inserted(
                LessAtom { smaller: node, larger: outer, reason: Reason::Adversary },
            );
            lemma_parts_in(p, b, *rest, outer, looping);
        },
    }
}

proof fn lemma_reopened_in(
    p: spec_fn(LVar) -> bool,
    red: Reduction,
    l: List<(Goal, GoalStatus)>,
)
    requires
        all(red.sys.goals, disj_in(p)),
        all(l, action()),
    ensures
        all(red.goals_reopened(l).sys.goals, disj_in(p)),
        same_otherwise(red.sys, red.goals_reopened(l).sys),
    decreases l,
{
    match l {
        List::Nil => {},
        List::Cons(g, rest) => {
            lemma_goal_inserted_in(p, red, g.0, g.1.looping);
            law_goal_inserted(red, g.0, g.1.looping);
            lemma_reopened_in(p, red.goal_inserted(g.0, g.1.looping), *rest);
        },
    }
}

proof fn lemma_term_eqs_stated(
    p: spec_fn(LVar) -> bool,
    red: Reduction,
    eqs: List<(Term, Term)>,
)
    requires
        stated_in(p, red.sys),
    ensures
        red.term_eqs(SplitStrategy::SplitLater, eqs) matches Ok((end, _)) ==> stated_in(
            p,
            end.sys,
        ),
{
    reveal(Reduction::term_eqs);
    let pending = nontrivial(eqs);
    if pending !is Nil {
        match find(red.ctx.answers.add_eqs, red.unifier_query(pending)) {
            Some(AddEqsAnswer::Added(store, split, next)) => {
                let start = red.with_store(store).at(next);
                match (split, start.store_simplified(start.checked())) {
                    (Some(id), Ok(mid)) => {
                        lemma_goal_inserted_in(p, mid, Goal::Split(id), false);
                        law_goal_inserted(mid, Goal::Split(id), false);
                    },
                    _ => {},
                }
            },
            _ => {},
        }
    }
}

proof fn lemma_refuted_stated(p: spec_fn(LVar) -> bool, red: Reduction)
    requires
        stated_in(p, red.sys),
    ensures
        stated_in(p, red.refuted().sys),
{
    assert(guardeds_frees(List::Nil) == List::<LVar>::Nil);
    assert(all(guarded_frees(bottom()), p));
    lemma_all_snoc(red.sys.formulas, bottom(), formula_in(p));
}

proof fn lemma_collisions_stated(p: spec_fn(LVar) -> bool, red: Reduction, eqs: List<(Fact, Fact)>)
    requires
        stated_in(p, red.sys),
    ensures
        red.collisions_solved(eqs) matches Ok(end) ==> stated_in(p, end.sys),
{
    let safe = alike_eqs(eqs);
    let start = if safe.size() == eqs.size() {
        red
    } else {
        red.refuted()
    };
    lemma_refuted_stated(p, red);
    reveal(Reduction::fact_eqs);
    lemma_term_eqs_stated(p, start, argument_eqs(safe));
    match start.fact_eqs(SplitStrategy::SplitLater, safe) {
        Ok((end, _)) => {
            lemma_refuted_stated(p, end);
        },
        Err(_) => {},
    }
}

proof fn lemma_goals_unbound(s: Subst, l: List<(Goal, GoalStatus)>)
    requires
        resolved(s),
        all(l, disj_in(unreplaced(formula_subst(s, s, List::Nil)))),
    ensures
        all(l, disj_in(unbound(s))),
    decreases l,
{
    match l {
        List::Nil => {},
        List::Cons(g, rest) => {
            match g.0 {
                Goal::Disj(alts) => {
                    law_formulas_follow_bindings(s, guardeds_frees(alts));
                },
                _ => {},
            }
            lemma_goals_unbound(s, *rest);
        },
    }
}

proof fn lemma_stated_unbound(s: Subst, sys: System)
    requires
        resolved(s),
        stated_in(unreplaced(formula_subst(s, s, List::Nil)), sys),
    ensures
        stated_in(unbound(s), sys),
{
    lemma_formulas_unbound(s, sys.formulas);
    lemma_formulas_unbound(s, sys.solved_formulas);
    lemma_formulas_unbound(s, sys.lemmas);
    lemma_goals_unbound(s, sys.goals);
}

proof fn lemma_goals_passed_in(p: spec_fn(LVar) -> bool, red: Reduction, s: Subst, fs: FormulaSubst)
    requires
        has_disj(red.sys.goals) ==> settling(fs) && fs !is Nil && p == unreplaced(fs),
    ensures
        all(red.goals_passed(s, fs).sys.goals, disj_in(p)),
        same_otherwise(red.sys, red.goals_passed(s, fs).sys),
{
    let l = red.sys.goals;
    lemma_has_disj(l);
    lemma_has_disj(l.sorted());
    lemma_all_sorted(l, undivided());
    let start = GoalPass { kept: List::Nil, reopened: List::Nil, value_changed: false };
    lemma_goal_pass_in(p, start, s, fs, l.sorted());
    let pass = passed_goals(s, fs, l);
    lemma_reopened_in(p, red.on(System { goals: pass.kept, ..red.sys }), pass.reopened);
}

proof fn lemma_formulas_passed_in(fs: FormulaSubst, red: Reduction)
    requires
        settling(fs),
        fs !is Nil,
        all(red.sys.goals, disj_in(unreplaced(fs))),
    ensures
        stated_in(unreplaced(fs), red.formulas_passed(fs).sys),
{
    let p = unreplaced(fs);
    lemma_settled_formulas(fs, red.sys.formulas);
    lemma_settled_formulas(fs, red.sys.solved_formulas);
    lemma_settled_formulas(fs, red.sys.lemmas);
    lemma_all_nub(settled_formulas(fs, red.sys.formulas), formula_in(p));
    lemma_all_nub(settled_formulas(fs, red.sys.solved_formulas), formula_in(p));
    lemma_all_nub(settled_formulas(fs, red.sys.lemmas), formula_in(p));
}

/// After a pass of a substitution that is resolved, also by names and indices alone,
/// no formula, no solved formula, no lemma and no disjunction among the goals holds
/// a variable that the substitution binds.
pub proof fn law_pass_settles_formulas(red: Reduction, end: Reduction, changed: bool)
    requires
        resolved(red.sys.eq_store.subst),
        settling(formula_subst(red.sys.eq_store.subst, red.sys.eq_store.subst, List::Nil)),
        red.sys.eq_store.subst !is Nil,
        red.passed() == Ok::<(Reduction, bool), Query>((end, changed)),
    ensures
        stated_in(unbound(red.sys.eq_store.subst), end.sys),
{
    reveal(Reduction::passed);
    let s = red.sys.eq_store.subst;
    let full = formula_subst(s, s, List::Nil);
    let fs = red.pass_formula_subst();
    match s {
        List::Cons(b, _) => {
            assert(find(s, b.0) is Some);
            lemma_formula_subst_covers(s, s, List::Nil, b.0);
            assert(full !is Nil);
        },
        List::Nil => {},
    }
    let a = red.nodes_passed(s).order_passed(s);
    let c = a.goals_passed(s, fs);
    let d = c.formulas_passed(fs).subterms_passed(s);
    let eqs = merged_nodes(s, red.sys.nodes).eqs();
    if fs is Nil {
        let p = unbound(s);
        lemma_goals_passed_in(p, a, s, fs);
        let none = red.on(System { goals: c.sys.goals, ..red.sys });
        assert(all(List::Nil, formula_in(p)));
        assert(stated_in(p, none.sys));
        lemma_refuted_stated(p, none);
        assert(stated_in(p, d.sys));
        lemma_collisions_stated(p, d, eqs);
    } else {
        let p = unreplaced(full);
        lemma_goals_passed_in(p, a, s, fs);
        lemma_formulas_passed_in(fs, c);
        assert(stated_in(p, d.sys));
        lemma_collisions_stated(p, d, eqs);
        lemma_stated_unbound(s, end.sys);
    }
}

proof fn lemma_all_unbound(l: List<LVar>)
    ensures
        all(l, unbound(List::Nil)),
    decreases l,
{
    match l {
        List::Nil => {},
        List::Cons(_, rest) => {
            lemma_all_unbound(*rest);
        },
    }
}

proof fn lemma_formulas_of_nothing(l: List<Guarded>)
    ensures
        all(l, formula_in(unbound(List::Nil))),
    decreases l,
{
    match l {
        List::Nil => {},
        List::Cons(g, rest) => {
            lemma_all_unbound(guarded_frees(g));
            lemma_formulas_of_nothing(*rest);
        },
    }
}

proof fn lemma_goals_of_nothing(l: List<(Goal, GoalStatus)>)
    ensures
        all(l, disj_in(unbound(List::Nil))),
    decreases l,
{
    match l {
        List::Nil => {},
        List::Cons(g, rest) => {
            match g.0 {
                Goal::Disj(alts) => {
                    lemma_all_unbound(guardeds_frees(alts));
                },
                _ => {},
            }
            lemma_goals_of_nothing(*rest);
        },
    }
}

proof fn lemma_passes_settle(red: Reduction, rounds: nat)
    ensures
        red.passes(rounds) matches Ok(end) ==> end.sys.eq_store.subst == applied_last(red, rounds)
            && resolved(end.sys.eq_store.subst) && settling(
            formula_subst(end.sys.eq_store.subst, end.sys.eq_store.subst, List::Nil),
        ) ==> stated_in(unbound(end.sys.eq_store.subst), end.sys),
    decreases rounds,
{
    match red.passed() {
        Ok((next, changed)) => {
            if next.sys.eq_store.subst.size() == red.sys.eq_store.subst.size() || rounds <= 1 {
                let s = red.sys.eq_store.subst;
                if next.sys.eq_store.subst == s && resolved(s) && settling(
                    formula_subst(s, s, List::Nil),
                ) {
                    if s is Nil {
                        lemma_formulas_of_nothing(next.sys.formulas);
                        lemma_formulas_of_nothing(next.sys.solved_formulas);
                        lemma_formulas_of_nothing(next.sys.lemmas);
                        lemma_goals_of_nothing(next.sys.goals);
                    } else {
                        law_pass_settles_formulas(red, next, changed);
                    }
                }
            } else {
                lemma_passes_settle(next, (rounds - 1) as nat);
            }
        },
        Err(_) => {},
    }
}

/// Once the substitution has been applied to the system, no formula, no solved
/// formula, no lemma and no disjunction among the goals holds a variable that the
/// substitution binds with which the system ends, where it is resolved, also by
/// names and indices alone, and the last pass has applied it.
pub proof fn law_formulas_substituted(red: Reduction)
    ensures
        red.system_substituted() matches Ok(end) ==> end.sys.eq_store.subst == applied_last(
            red,
            PASSES as nat,
        ) && resolved(end.sys.eq_store.subst) && settling(
            formula_subst(end.sys.eq_store.subst, end.sys.eq_store.subst, List::Nil),
        ) ==> stated_in(unbound(end.sys.eq_store.subst), end.sys),
{
    reveal(Reduction::system_substituted);
    lemma_passes_settle(red, PASSES as nat);
}

} // verus!
