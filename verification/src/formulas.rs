//! Inserting atoms and formulas, and marking goals as solved.
use crate::bounds::{has_variable, system_has_any_free_var, system_max};
use crate::constraints::{has_split, split_exists, EqDisj, Goal, GoalStatus, LessAtom, Reason};
use crate::context::{Answered, ProofContext, Query};
use crate::facts::FactTag;
use crate::guarded::{
    all_conjuncts, bottom, conjuncts, conjunction, gconj, gfalse, normal, normalise_stored_formula,
    Binding, GAtom, Guarded, Quant,
};
use crate::leaves::{
    map_atoms, map_guarded, mapped_atoms, mapped_guarded, mapped_guardeds, plus, FormulaSubst,
    LeafMap, Open, Replace, Witness,
};
use crate::list::{find, look_up, List, Value};
use crate::reduction::{ends, node_var, ChangeIndicator, Reduction, SolveOutcome, SplitStrategy};
use crate::rules::Supply;
use crate::system::System;
use crate::term_ops::{all_binder_free, are_binder_free, binder_free, is_binder_free, Subst};
use crate::terms::{LSort, LVar, Term};
use vstd::prelude::*;

verus! {

/// The node that a term stands for.
pub open spec fn node_of(t: Term) -> Option<LVar> {
    match t {
        Term::Var(v) => if v.sort == LSort::Node {
            Some(v)
        } else {
            None
        },
        _ => None,
    }
}

/// The node that stands for `id` under `s`: the node variable that `s` puts in its
/// place, if there is one.
pub open spec fn representative(s: Subst, id: LVar) -> LVar {
    match find(s, id) {
        Some(Term::Var(v)) => if v.sort == LSort::Node {
            v
        } else {
            id
        },
        _ => id,
    }
}

/// The node that stands for `id` under the substitution.
pub fn normalise_node_id(id: &LVar, subst: &Subst) -> (r: LVar)
    ensures
        r == representative(*subst, *id),
{
    match look_up(subst, id) {
        Some(Term::Var(v)) => if v.sort == LSort::Node {
            v
        } else {
            id.dup()
        },
        _ => id.dup(),
    }
}

/// The node that a term stands for.
pub fn term_to_node_id(t: &Term) -> (r: Option<LVar>)
    ensures
        r == node_of(*t),
{
    match t {
        Term::Var(v) => if v.sort == LSort::Node {
            Some(v.dup())
        } else {
            None
        },
        _ => None,
    }
}

/// The normal form of a term; a term for which none was found stands for
/// itself.
pub open spec fn reduced(ctx: &ProofContext, t: Term) -> Answered<Term> {
    match find(ctx.answers.reduce, t) {
        None => Err(Query::Reduce(t)),
        Some(None) => Ok(t),
        Some(Some(u)) => Ok(u),
    }
}

fn reduce(ctx: &ProofContext, t: &Term) -> (r: Answered<Term>)
    ensures
        r == reduced(ctx, *t),
{
    match look_up(&ctx.answers.reduce, t) {
        None => Err(Query::Reduce(t.dup())),
        Some(None) => Ok(t.dup()),
        Some(Some(u)) => Ok(u),
    }
}

/// The bindings as a substitution for formulas; later bindings go first.
pub open spec fn direct_subst(l: Subst, acc: FormulaSubst) -> FormulaSubst
    decreases l,
{
    match l {
        List::Nil => acc,
        List::Cons(b, rest) => direct_subst(
            *rest,
            List::Cons(((b.0.name, b.0.idx), b.1), Box::new(acc)),
        ),
    }
}

fn build_direct_subst(l: &Subst, acc: FormulaSubst) -> (r: FormulaSubst)
    ensures
        r == direct_subst(*l, acc),
    decreases l,
{
    match l {
        List::Nil => acc,
        List::Cons(b, rest) => build_direct_subst(
            rest,
            List::Cons(((b.0.name.dup(), b.0.idx), b.1.dup()), Box::new(acc)),
        ),
    }
}

/// The formula by which solved atoms are compared: substituted once, with all
/// witnesses of unification made equal.
pub open spec fn comparable(fs: FormulaSubst, g: Guarded) -> Guarded {
    mapped_guarded(Witness {  }, 0, mapped_guarded(Replace { subst: fs }, 0, g))
}

fn make_comparable(fs: &FormulaSubst, g: &Guarded) -> (r: Guarded)
    ensures
        r == comparable(*fs, *g),
{
    let m = Replace { subst: fs.dup() };
    map_guarded(&Witness {  }, 0, &map_guarded(&m, 0, g))
}

/// Whether a formula compares equal to one of the list.
pub open spec fn comparable_in(fs: FormulaSubst, g: Guarded, l: List<Guarded>) -> bool
    decreases l,
{
    match l {
        List::Nil => false,
        List::Cons(f, rest) => comparable(fs, f) == g || comparable_in(fs, g, *rest),
    }
}

fn is_comparable_in(fs: &FormulaSubst, g: &Guarded, l: &List<Guarded>) -> (r: bool)
    ensures
        r == comparable_in(*fs, *g, *l),
    decreases l,
{
    match l {
        List::Nil => false,
        List::Cons(f, rest) => make_comparable(fs, f).same(g) || is_comparable_in(fs, g, rest),
    }
}

/// Fresh variables for the bindings, with indices from `base` on.
pub open spec fn fresh_vars(vars: List<Binding>, base: u64) -> List<LVar>
    decreases vars,
{
    match vars {
        List::Nil => List::Nil,
        List::Cons(b, rest) => List::Cons(
            LVar { name: b.name, sort: b.sort, idx: base },
            Box::new(fresh_vars(*rest, plus(base, 1))),
        ),
    }
}

fn make_fresh_vars(vars: &List<Binding>, base: u64) -> (r: List<LVar>)
    ensures
        r == fresh_vars(*vars, base),
    decreases vars,
{
    match vars {
        List::Nil => List::Nil,
        List::Cons(b, rest) => List::Cons(
            LVar { name: b.name.dup(), sort: b.sort, idx: base },
            Box::new(make_fresh_vars(rest, base.saturating_add(1))),
        ),
    }
}

/// The list from its end to its start.
pub open spec fn reversed<T>(l: List<T>) -> List<T>
    decreases l,
{
    match l {
        List::Nil => List::Nil,
        List::Cons(x, rest) => reversed(*rest).snoc(x),
    }
}

fn reverse<T: Value>(l: &List<T>) -> (r: List<T>)
    ensures
        r == reversed(*l),
    decreases l,
{
    match l {
        List::Nil => List::Nil,
        List::Cons(x, rest) => reverse(rest).with_last(x.dup()),
    }
}

/// The number of elements as an index.
pub open spec fn count<T>(l: List<T>) -> u64
    decreases l,
{
    match l {
        List::Nil => 0,
        List::Cons(_, rest) => plus(count(*rest), 1),
    }
}

pub fn get_count<T>(l: &List<T>) -> (r: u64)
    ensures
        r == count(*l),
    decreases l,
{
    match l {
        List::Nil => 0,
        List::Cons(_, rest) => get_count(rest).saturating_add(1),
    }
}

/// The atoms as formulas.
pub open spec fn as_formulas(l: List<GAtom>) -> List<Guarded>
    decreases l,
{
    match l {
        List::Nil => List::Nil,
        List::Cons(a, rest) => List::Cons(Guarded::Atom(a), Box::new(as_formulas(*rest))),
    }
}

fn to_formulas(l: &List<GAtom>) -> (r: List<Guarded>)
    ensures
        r == as_formulas(*l),
    decreases l,
{
    match l {
        List::Nil => List::Nil,
        List::Cons(a, rest) => List::Cons(Guarded::Atom(a.dup()), Box::new(to_formulas(rest))),
    }
}

/// What an existential formula says of the variables `xs`: its guards and its
/// body.
pub open spec fn instantiated(xs: List<LVar>, guards: List<GAtom>, body: Guarded) -> Guarded {
    let m = Open { vars: reversed(xs) };
    conjunction(
        as_formulas(mapped_atoms(m, 0, guards)).snoc(mapped_guarded(m, 0, body)),
    )
}

fn instantiate(xs: &List<LVar>, guards: &List<GAtom>, body: &Guarded) -> (r: Guarded)
    ensures
        r == instantiated(*xs, *guards, *body),
{
    let m = Open { vars: reverse(xs) };
    let atoms = to_formulas(&map_atoms(&m, 0, guards));
    gconj(&atoms.with_last(map_guarded(&m, 0, body)))
}

/// The number of connectives, quantifiers and atoms of a formula.
pub open spec fn formula_size(g: Guarded) -> nat
    decreases g,
{
    match g {
        Guarded::Atom(_) => 1,
        Guarded::Disj(l) => 1 + formulas_size(*l),
        Guarded::Conj(l) => 1 + formulas_size(*l),
        Guarded::GGuarded(_, _, guards, body) => 2 + guards.size() + formula_size(*body),
    }
}

pub open spec fn formulas_size(l: List<Guarded>) -> nat
    decreases l,
{
    match l {
        List::Nil => 0,
        List::Cons(g, rest) => formula_size(g) + formulas_size(*rest),
    }
}

proof fn lemma_size_joined(l: List<Guarded>, m: List<Guarded>)
    ensures
        formulas_size(l.then_all(m)) == formulas_size(l) + formulas_size(m),
    decreases l,
{
    match l {
        List::Nil => {},
        List::Cons(_, rest) => {
            lemma_size_joined(*rest, m);
        },
    }
}

proof fn lemma_size_snoc(l: List<Guarded>, g: Guarded)
    ensures
        formulas_size(l.snoc(g)) == formulas_size(l) + formula_size(g),
    decreases l,
{
    match l {
        List::Nil => {
            reveal_with_fuel(formulas_size, 2);
        },
        List::Cons(_, rest) => {
            lemma_size_snoc(*rest, g);
        },
    }
}

proof fn lemma_size_without(l: List<Guarded>, g: Guarded)
    ensures
        formulas_size(l.without(g)) <= formulas_size(l),
    decreases l,
{
    match l {
        List::Nil => {},
        List::Cons(_, rest) => {
            lemma_size_without(*rest, g);
        },
    }
}

proof fn lemma_size_nub(l: List<Guarded>)
    ensures
        formulas_size(l.nub()) <= formulas_size(l),
    decreases l.size(),
{
    match l {
        List::Nil => {},
        List::Cons(g, rest) => {
            rest.lemma_without_size(g);
            lemma_size_without(*rest, g);
            lemma_size_nub(rest.without(g));
        },
    }
}

proof fn lemma_size_conjuncts(g: Guarded)
    ensures
        formulas_size(conjuncts(g)) <= formula_size(g),
    decreases g,
{
    match g {
        Guarded::Conj(l) => {
            lemma_size_all_conjuncts(*l);
        },
        _ => {
            reveal_with_fuel(formulas_size, 2);
        },
    }
}

proof fn lemma_size_all_conjuncts(l: List<Guarded>)
    ensures
        formulas_size(all_conjuncts(l)) <= formulas_size(l),
    decreases l,
{
    match l {
        List::Nil => {},
        List::Cons(g, rest) => {
            lemma_size_conjuncts(g);
            lemma_size_all_conjuncts(*rest);
            lemma_size_joined(conjuncts(g), all_conjuncts(*rest));
        },
    }
}

proof fn lemma_size_conjunction(l: List<Guarded>)
    ensures
        formula_size(conjunction(l)) <= 1 + formulas_size(l),
{
    let flat = all_conjuncts(l);
    lemma_size_all_conjuncts(l);
    lemma_size_nub(flat);
    reveal_with_fuel(formulas_size, 2);
    match flat.only() {
        Some(g) => {
            assert(formulas_size(flat) == formula_size(g));
        },
        None => {
            if flat.has(bottom()) {
                assert(formulas_size(List::<Guarded>::Nil) == 0);
                assert(formula_size(bottom()) == 1);
            }
        },
    }
}

proof fn lemma_size_mapped<L: LeafMap>(m: L, depth: u64, g: Guarded)
    ensures
        formula_size(mapped_guarded(m, depth, g)) == formula_size(g),
    decreases g,
{
    match g {
        Guarded::Atom(_) => {},
        Guarded::Disj(l) => {
            lemma_size_mapped_all(m, depth, *l);
        },
        Guarded::Conj(l) => {
            lemma_size_mapped_all(m, depth, *l);
        },
        Guarded::GGuarded(_, vars, guards, body) => {
            let inner = crate::leaves::deeper(depth, vars);
            lemma_count_mapped(m, inner, guards);
            lemma_size_mapped(m, inner, *body);
        },
    }
}

proof fn lemma_size_mapped_all<L: LeafMap>(m: L, depth: u64, l: List<Guarded>)
    ensures
        formulas_size(mapped_guardeds(m, depth, l)) == formulas_size(l),
    decreases l,
{
    match l {
        List::Nil => {},
        List::Cons(g, rest) => {
            lemma_size_mapped(m, depth, g);
            lemma_size_mapped_all(m, depth, *rest);
        },
    }
}

proof fn lemma_count_mapped<L: LeafMap>(m: L, depth: u64, l: List<GAtom>)
    ensures
        mapped_atoms(m, depth, l).size() == l.size(),
    decreases l,
{
    match l {
        List::Nil => {},
        List::Cons(_, rest) => {
            lemma_count_mapped(m, depth, *rest);
        },
    }
}

proof fn lemma_size_as_formulas(l: List<GAtom>)
    ensures
        formulas_size(as_formulas(l)) == l.size(),
    decreases l,
{
    match l {
        List::Nil => {},
        List::Cons(a, rest) => {
            assert(formula_size(Guarded::Atom(a)) == 1);
            lemma_size_as_formulas(*rest);
        },
    }
}

/// An instance of an existential formula is smaller than the formula.
pub proof fn lemma_size_instantiated(xs: List<LVar>, guards: List<GAtom>, body: Guarded)
    ensures
        formula_size(instantiated(xs, guards, body)) <= 1 + guards.size() + formula_size(body),
{
    let m = Open { vars: reversed(xs) };
    let atoms = as_formulas(mapped_atoms(m, 0, guards));
    lemma_count_mapped(m, 0, guards);
    lemma_size_as_formulas(mapped_atoms(m, 0, guards));
    lemma_size_mapped(m, 0, body);
    lemma_size_snoc(atoms, mapped_guarded(m, 0, body));
    lemma_size_conjunction(atoms.snoc(mapped_guarded(m, 0, body)));
}

/// A formula that denies an atom, without quantifying over anything.
pub open spec fn denied(g: Guarded) -> Option<GAtom> {
    match g {
        Guarded::GGuarded(Quant::All, List::Nil, guards, body) => if *body == bottom() {
            guards.only()
        } else {
            None
        },
        _ => None,
    }
}

fn get_denied(g: &Guarded) -> (r: Option<GAtom>)
    ensures
        r == denied(*g),
{
    match g {
        Guarded::GGuarded(Quant::All, List::Nil, guards, body) => if body.same(&gfalse()) {
            guards.get_only()
        } else {
            None
        },
        _ => None,
    }
}

/// The two formulas.
pub open spec fn two(a: GAtom, b: GAtom) -> List<Guarded> {
    List::Cons(Guarded::Atom(a), Box::new(List::one(Guarded::Atom(b))))
}

fn make_two(a: GAtom, b: GAtom) -> (r: List<Guarded>)
    ensures
        r == two(a, b),
{
    List::Cons(Guarded::Atom(a), Box::new(List::single(Guarded::Atom(b))))
}

/// The list without the first occurrence of `x`.
pub open spec fn without_first<T>(l: List<T>, x: T) -> List<T>
    decreases l,
{
    match l {
        List::Nil => List::Nil,
        List::Cons(y, rest) => if y == x {
            *rest
        } else {
            List::Cons(y, Box::new(without_first(*rest, x)))
        },
    }
}

fn remove_first<T: Value>(l: &List<T>, x: &T) -> (r: List<T>)
    ensures
        r == without_first(*l, *x),
    decreases l,
{
    match l {
        List::Nil => List::Nil,
        List::Cons(y, rest) => if y.same(x) {
            rest.dup()
        } else {
            List::Cons(y.dup(), Box::new(remove_first(rest, x)))
        },
    }
}

/// The goals other than `g`.
pub open spec fn goals_besides(l: List<(Goal, GoalStatus)>, g: Goal) -> List<(Goal, GoalStatus)>
    decreases l,
{
    match l {
        List::Nil => List::Nil,
        List::Cons(e, rest) => if e.0 == g {
            goals_besides(*rest, g)
        } else {
            List::Cons(e, Box::new(goals_besides(*rest, g)))
        },
    }
}

fn delete_goal(l: &List<(Goal, GoalStatus)>, g: &Goal) -> (r: List<(Goal, GoalStatus)>)
    ensures
        r == goals_besides(*l, *g),
    decreases l,
{
    match l {
        List::Nil => List::Nil,
        List::Cons(e, rest) => if e.0.same(g) {
            delete_goal(rest, g)
        } else {
            List::Cons(e.dup(), Box::new(delete_goal(rest, g)))
        },
    }
}

/// Whether `g` is among the goals and not solved.
pub open spec fn goal_unsolved(l: List<(Goal, GoalStatus)>, g: Goal) -> bool
    decreases l,
{
    match l {
        List::Nil => false,
        List::Cons(e, rest) => (e.0 == g && !e.1.solved) || goal_unsolved(*rest, g),
    }
}

/// The goals with `g` marked as solved.
pub open spec fn goal_solved(l: List<(Goal, GoalStatus)>, g: Goal) -> List<(Goal, GoalStatus)>
    decreases l,
{
    match l {
        List::Nil => List::Nil,
        List::Cons(e, rest) => if e.0 == g && !e.1.solved {
            List::Cons((g, GoalStatus { solved: true, ..e.1 }), rest)
        } else {
            List::Cons(e, Box::new(goal_solved(*rest, g)))
        },
    }
}

/// The goals with `g` marked as solved; says whether it was not before.
pub fn solve_goal_entry(l: &List<(Goal, GoalStatus)>, g: &Goal) -> (r: (
    List<(Goal, GoalStatus)>,
    bool,
))
    ensures
        r.0 == goal_solved(*l, *g),
        r.1 == goal_unsolved(*l, *g),
    decreases l,
{
    match l {
        List::Nil => (List::Nil, false),
        List::Cons(e, rest) => if e.0.same(g) && !e.1.solved {
            let status = GoalStatus { solved: true, looping: e.1.looping, nr: e.1.nr };
            (List::Cons((g.dup(), status), Box::new(rest.dup())), true)
        } else {
            let (more, was) = solve_goal_entry(rest, g);
            (List::Cons(e.dup(), Box::new(more)), was)
        },
    }
}

/// The goals without the splits whose disjunction is gone.
pub open spec fn live_splits(l: List<(Goal, GoalStatus)>, conj: List<EqDisj>) -> List<
    (Goal, GoalStatus),
>
    decreases l,
{
    match l {
        List::Nil => List::Nil,
        List::Cons(e, rest) => match e.0 {
            Goal::Split(id) => if split_exists(conj, id) {
                List::Cons(e, Box::new(live_splits(*rest, conj)))
            } else {
                live_splits(*rest, conj)
            },
            _ => List::Cons(e, Box::new(live_splits(*rest, conj))),
        },
    }
}

fn keep_live_splits(l: &List<(Goal, GoalStatus)>, conj: &List<EqDisj>) -> (r: List<
    (Goal, GoalStatus),
>)
    ensures
        r == live_splits(*l, *conj),
    decreases l,
{
    match l {
        List::Nil => List::Nil,
        List::Cons(e, rest) => {
            let keep = match &e.0 {
                Goal::Split(id) => has_split(conj, *id),
                _ => true,
            };
            if keep {
                List::Cons(e.dup(), Box::new(keep_live_splits(rest, conj)))
            } else {
                keep_live_splits(rest, conj)
            }
        },
    }
}

impl<'a> Reduction<'a> {
    /// The reduction with equal terms.
    pub open spec fn eq_inserted(self, x: Term, y: Term) -> Answered<Self> {
        match self.term_eqs(SplitStrategy::SplitNow, List::one((x, y))) {
            Err(q) => Err(q),
            Ok((red, out)) => {
                let end = match out {
                    SolveOutcome::Cases(List::Cons(first, rest)) => Reduction {
                        pending_eq_arms: red.pending_eq_arms.then_all(*rest),
                        ..red.with_store(first)
                    },
                    SolveOutcome::Contradictory => red.refuted(),
                    SolveOutcome::Failed => red.refuted(),
                    _ => red,
                };
                Ok(end.touched())
            },
        }
    }

    /// The reduction in which the atom holds, and whether the atom could be
    /// turned into a constraint.
    #[verifier::opaque]
    pub open spec fn atom_inserted(self, a: GAtom) -> Answered<(Self, bool)> {
        match a {
            GAtom::Eq(x, y) => if binder_free(x) && binder_free(y) {
                match (reduced(self.ctx, x), reduced(self.ctx, y)) {
                    (Err(q), _) => Err(q),
                    (_, Err(q)) => Err(q),
                    (Ok(u), Ok(v)) => match self.eq_inserted(u, v) {
                        Err(q) => Err(q),
                        Ok(red) => Ok((red, true)),
                    },
                }
            } else {
                Ok((self, false))
            },
            GAtom::Less(s, t) => match (node_of(s), node_of(t)) {
                (Some(i), Some(j)) => Ok(
                    (
                        self.less_inserted(
                            LessAtom {
                                smaller: representative(self.sys.eq_store.subst, i),
                                larger: representative(self.sys.eq_store.subst, j),
                                reason: Reason::Formula,
                            },
                        ),
                        true,
                    ),
                ),
                _ => Ok((self, false)),
            },
            GAtom::Last(t) => match node_of(t) {
                Some(i) => match self.last_inserted(i) {
                    Err(q) => Err(q),
                    Ok((red, _)) => Ok((red, true)),
                },
                None => Ok((self, false)),
            },
            GAtom::Action(fa, t) => match node_of(t) {
                Some(i) => if all_binder_free(fa.terms) {
                    Ok((self.goal_inserted(Goal::Action(i, fa), false), true))
                } else {
                    Ok((self, false))
                },
                None => Ok((self, false)),
            },
            GAtom::Subterm(s, t) => if binder_free(s) && binder_free(t) {
                Ok(
                    (
                        self.on(
                            System {
                                subterm_store: self.sys.subterm_store.with_subterm(s, t),
                                ..self.sys
                            },
                        ).touched(),
                        true,
                    ),
                )
            } else {
                Ok((self, false))
            },
            GAtom::Pred(_) => Ok((self, false)),
            GAtom::LessMset(_, _) => Ok((self, false)),
        }
    }

    fn insert_eq(&mut self, x: Term, y: Term) -> (r: Answered<()>)
        ensures
            match old(self).eq_inserted(x, y) {
                Ok(red) => r == Ok::<(), Query>(()) && *final(self) == red,
                Err(q) => r == Err::<(), Query>(q),
            },
    {
        match self.solve_term_eqs(SplitStrategy::SplitNow, &List::single((x, y))) {
            Err(q) => {
                return Err(q);
            },
            Ok(SolveOutcome::Cases(List::Cons(first, rest))) => {
                self.sys.eq_store = first;
                self.pending_eq_arms = self.pending_eq_arms.concat(*rest);
            },
            Ok(SolveOutcome::Contradictory) => {
                self.mark_contradictory();
            },
            Ok(SolveOutcome::Failed) => {
                self.mark_contradictory();
            },
            Ok(_) => {},
        }
        self.changed = ChangeIndicator::Changed;
        Ok(())
    }

    /// Adds the constraint that the atom states; says whether there is one.
    pub fn insert_atom(&mut self, a: &GAtom) -> (r: Answered<bool>)
        ensures
            ends(old(self).atom_inserted(*a), *final(self), r),
    {
        proof {
            reveal(Reduction::atom_inserted);
        }
        match a {
            GAtom::Eq(x, y) => {
                if !is_binder_free(x) || !is_binder_free(y) {
                    return Ok(false);
                }
                let u = match reduce(self.ctx, x) {
                    Err(q) => {
                        return Err(q);
                    },
                    Ok(u) => u,
                };
                let v = match reduce(self.ctx, y) {
                    Err(q) => {
                        return Err(q);
                    },
                    Ok(v) => v,
                };
                match self.insert_eq(u, v) {
                    Err(q) => Err(q),
                    Ok(()) => Ok(true),
                }
            },
            GAtom::Less(s, t) => match (term_to_node_id(s), term_to_node_id(t)) {
                (Some(i), Some(j)) => {
                    let smaller = normalise_node_id(&i, &self.sys.eq_store.subst);
                    let larger = normalise_node_id(&j, &self.sys.eq_store.subst);
                    self.insert_less(LessAtom { smaller, larger, reason: Reason::Formula });
                    Ok(true)
                },
                _ => Ok(false),
            },
            GAtom::Last(t) => match term_to_node_id(t) {
                Some(i) => match self.insert_last(&i) {
                    Err(q) => Err(q),
                    Ok(_) => Ok(true),
                },
                None => Ok(false),
            },
            GAtom::Action(fa, t) => match term_to_node_id(t) {
                Some(i) => if are_binder_free(&fa.terms) {
                    self.insert_goal(Goal::Action(i, fa.dup()));
                    Ok(true)
                } else {
                    Ok(false)
                },
                None => Ok(false),
            },
            GAtom::Subterm(s, t) => if is_binder_free(s) && is_binder_free(t) {
                self.sys.subterm_store.add(s.dup(), t.dup());
                self.changed = ChangeIndicator::Changed;
                Ok(true)
            } else {
                Ok(false)
            },
            GAtom::Pred(_) => Ok(false),
            GAtom::LessMset(_, _) => Ok(false),
        }
    }

    /// Whether the formula is stored already.
    pub open spec fn stored(self, g: Guarded) -> bool {
        self.sys.formulas.has(g) || self.sys.solved_formulas.has(g)
    }

    /// The reduction with a formula that is to be dealt with later.
    pub open spec fn formula_kept(self, g: Guarded) -> Self {
        self.on(System { formulas: self.sys.formulas.snoc(g), ..self.sys }).touched()
    }

    /// The reduction with a formula that has been dealt with.
    pub open spec fn formula_done(self, g: Guarded) -> Self {
        self.on(System { solved_formulas: self.sys.solved_formulas.snoc(g), ..self.sys })
    }

    /// The reduction with a formula that has been dealt with, where `mark` is
    /// set.
    pub open spec fn formula_marked(self, g: Guarded, mark: bool) -> Self {
        if mark {
            self.formula_done(g)
        } else {
            self
        }
    }

    /// The reduction with a disjunction: as a formula and as a goal.
    pub open spec fn disj_inserted(self, l: List<Guarded>) -> Self {
        let g = Guarded::Disj(Box::new(l));
        if self.stored(g) {
            self
        } else {
            self.formula_kept(g).goal_inserted(Goal::Disj(l), false).touched()
        }
    }

    /// The reduction in which the atom `a` holds, which is the formula `g`.
    pub open spec fn atom_formula(self, g: Guarded, a: GAtom, mark: bool) -> Answered<Self> {
        match self.atom_inserted(a) {
            Err(q) => Err(q),
            Ok((red, _)) => {
                let fs = direct_subst(red.sys.eq_store.subst, List::Nil);
                if mark && !comparable_in(fs, comparable(fs, g), red.sys.solved_formulas) {
                    Ok(red.formula_done(g).touched())
                } else {
                    Ok(red)
                }
            },
        }
    }

    /// The supply from which the variables of an existential formula are taken.
    pub open spec fn witness_supply(self) -> Supply {
        if system_max(self.sys) > 0 || has_variable(self.sys) {
            self.clear_supply()
        } else {
            self.supply
        }
    }

    /// The last node, a new one where there is none yet.
    pub open spec fn last_node(self) -> LVar {
        match self.sys.last_atom {
            Some(i) => i,
            None => node_var("last"@, plus(system_max(self.sys), 1)),
        }
    }

    /// The reduction in which the atom `a` does not hold, which is the formula
    /// `g`: nodes that are not in one order are in the other or equal, distinct
    /// nodes are in one order or the other, and a node other than the last one
    /// precedes or follows it.
    pub open spec fn denial_inserted(self, g: Guarded, a: GAtom, mark: bool) -> Self {
        let marked = self.formula_marked(g, mark);
        match a {
            GAtom::Less(i, j) => if node_of(i) is Some && node_of(j) is Some {
                marked.disj_inserted(two(GAtom::Eq(i, j), GAtom::Less(j, i))).touched()
            } else {
                self.formula_kept(g)
            },
            GAtom::Eq(i, j) => if node_of(i) is Some && node_of(j) is Some {
                marked.disj_inserted(two(GAtom::Less(i, j), GAtom::Less(j, i))).touched()
            } else {
                self.formula_kept(g)
            },
            GAtom::Last(i) => {
                let last = marked.last_node();
                let red = marked.on(System { last_atom: Some(last), ..marked.sys });
                let t = Term::Var(last);
                red.disj_inserted(two(GAtom::Less(t, i), GAtom::Less(i, t))).touched()
            },
            GAtom::Subterm(s, t) => if binder_free(s) && binder_free(t) {
                marked.on(
                    System {
                        subterm_store: marked.sys.subterm_store.with_neg(s, t),
                        ..marked.sys
                    },
                ).touched_if(!marked.sys.subterm_store.neg_subterms.has((s, t)))
            } else {
                marked.formula_kept(g)
            },
            _ => self.formula_kept(g),
        }
    }

    /// The reduction in which the formula holds.  The formula counts as dealt
    /// with where `mark` is set; its parts are inserted without the mark.
    pub open spec fn formula_inserted(self, g: Guarded, mark: bool) -> Answered<Self>
        decreases formula_size(g), 0nat,
    {
        if self.stored(g) {
            Ok(self)
        } else {
            match g {
                Guarded::Conj(l) => match self.formula_marked(g, mark).formulas_inserted(*l) {
                    Err(q) => Err(q),
                    Ok(red) => Ok(red.touched()),
                },
                Guarded::Disj(l) => Ok(self.disj_inserted(*l)),
                Guarded::Atom(a) => self.atom_formula(g, a, mark),
                Guarded::GGuarded(Quant::Ex, vars, guards, body) => {
                    let xs = self.witnesses(g, vars, mark);
                    proof {
                        lemma_size_instantiated(xs, guards, *body);
                    }
                    match self.witnesses_taken(g, vars, mark).formula_inserted(
                        instantiated(xs, guards, *body),
                        false,
                    ) {
                        Err(q) => Err(q),
                        Ok(end) => Ok(end.touched()),
                    }
                },
                Guarded::GGuarded(Quant::All, _, _, _) => match denied(g) {
                    Some(a) => Ok(self.denial_inserted(g, a, mark)),
                    None => Ok(self.formula_kept(g)),
                },
            }
        }
    }

    /// The reduction in which the formulas hold, none of which is marked.
    pub open spec fn formulas_inserted(self, l: List<Guarded>) -> Answered<Self>
        decreases formulas_size(l), 1nat,
    {
        match l {
            List::Nil => Ok(self),
            List::Cons(g, rest) => {
                proof {
                    lemma_formula_size(g);
                }
                match self.formula_inserted(g, false) {
                    Err(q) => Err(q),
                    Ok(red) => red.formulas_inserted(*rest),
                }
            },
        }
    }

    fn insert_disj(&mut self, l: List<Guarded>)
        ensures
            *final(self) == old(self).disj_inserted(l),
    {
        let g = Guarded::Disj(Box::new(l.dup()));
        if self.sys.formulas.contains(&g) || self.sys.solved_formulas.contains(&g) {
            return;
        }
        self.sys.formulas = self.sys.formulas.with_last(g);
        self.changed = ChangeIndicator::Changed;
        self.insert_goal(Goal::Disj(l));
        self.changed = ChangeIndicator::Changed;
    }

    fn keep_formula(&mut self, g: Guarded)
        ensures
            *final(self) == old(self).formula_kept(g),
    {
        self.sys.formulas = self.sys.formulas.with_last(g);
        self.changed = ChangeIndicator::Changed;
    }

    fn mark_formula(&mut self, g: &Guarded, mark: bool)
        ensures
            *final(self) == old(self).formula_marked(*g, mark),
    {
        if mark {
            self.sys.solved_formulas = self.sys.solved_formulas.with_last(g.dup());
        }
    }

    fn insert_denial(&mut self, g: &Guarded, a: &GAtom, mark: bool)
        ensures
            *final(self) == old(self).denial_inserted(*g, *a, mark),
    {
        match a {
            GAtom::Less(i, j) => match (term_to_node_id(i), term_to_node_id(j)) {
                (Some(_), Some(_)) => {
                    self.mark_formula(g, mark);
                    self.insert_disj(
                        make_two(GAtom::Eq(i.dup(), j.dup()), GAtom::Less(j.dup(), i.dup())),
                    );
                    self.changed = ChangeIndicator::Changed;
                },
                _ => {
                    self.keep_formula(g.dup());
                },
            },
            GAtom::Eq(i, j) => match (term_to_node_id(i), term_to_node_id(j)) {
                (Some(_), Some(_)) => {
                    self.mark_formula(g, mark);
                    self.insert_disj(
                        make_two(GAtom::Less(i.dup(), j.dup()), GAtom::Less(j.dup(), i.dup())),
                    );
                    self.changed = ChangeIndicator::Changed;
                },
                _ => {
                    self.keep_formula(g.dup());
                },
            },
            GAtom::Last(i) => {
                self.mark_formula(g, mark);
                let last = match &self.sys.last_atom {
                    Some(j) => j.dup(),
                    None => crate::reduction::make_node_var(
                        "last",
                        self.fresh_var_baseline().saturating_add(1),
                    ),
                };
                self.sys.last_atom = Some(last.dup());
                let t = Term::Var(last);
                self.insert_disj(
                    make_two(GAtom::Less(t.dup(), i.dup()), GAtom::Less(i.dup(), t)),
                );
                self.changed = ChangeIndicator::Changed;
            },
            GAtom::Subterm(s, t) => {
                self.mark_formula(g, mark);
                if is_binder_free(s) && is_binder_free(t) {
                    if self.sys.subterm_store.add_neg(s.dup(), t.dup()) {
                        self.changed = ChangeIndicator::Changed;
                    }
                } else {
                    self.keep_formula(g.dup());
                }
            },
            _ => {
                self.keep_formula(g.dup());
            },
        }
    }

    fn insert_atom_formula(&mut self, g: &Guarded, a: &GAtom, mark: bool) -> (r: Answered<()>)
        ensures
            match old(self).atom_formula(*g, *a, mark) {
                Ok(red) => r == Ok::<(), Query>(()) && *final(self) == red,
                Err(q) => r == Err::<(), Query>(q),
            },
    {
        match self.insert_atom(a) {
            Err(q) => {
                return Err(q);
            },
            Ok(_) => {},
        }
        let fs = build_direct_subst(&self.sys.eq_store.subst, List::Nil);
        if mark && !is_comparable_in(&fs, &make_comparable(&fs, g), &self.sys.solved_formulas) {
            self.mark_formula(g, true);
            self.changed = ChangeIndicator::Changed;
        }
        Ok(())
    }

    /// The reduction that has taken the indices of the variables of the
    /// existential formula `g`, which counts as dealt with where `mark` is set.
    pub open spec fn witnesses_taken(self, g: Guarded, vars: List<Binding>, mark: bool) -> Self {
        let marked = self.formula_marked(g, mark);
        Reduction { supply: marked.witness_supply().taken(count(vars)), ..marked }
    }

    /// The variables for the existential formula `g`.
    pub open spec fn witnesses(self, g: Guarded, vars: List<Binding>, mark: bool) -> List<LVar> {
        fresh_vars(vars, self.formula_marked(g, mark).witness_supply().next)
    }

    fn take_witnesses(&mut self, g: &Guarded, vars: &List<Binding>, mark: bool) -> (xs: List<LVar>)
        ensures
            *final(self) == old(self).witnesses_taken(*g, *vars, mark),
            xs == old(self).witnesses(*g, *vars, mark),
    {
        self.mark_formula(g, mark);
        let avoid: u64 = self.fresh_var_baseline();
        if avoid > 0 || system_has_any_free_var(&self.sys) {
            self.supply.ensure_above(avoid);
        }
        let base: u64 = self.supply.reserve_idxs(get_count(vars));
        make_fresh_vars(vars, base)
    }

    /// Makes the formula hold, which is not in stored form necessarily.
    pub fn insert_formula_inner(&mut self, g: &Guarded, mark: bool) -> (r: Answered<()>)
        ensures
            match old(self).formula_inserted(*g, mark) {
                Ok(red) => r == Ok::<(), Query>(()) && *final(self) == red,
                Err(q) => r == Err::<(), Query>(q),
            },
        decreases formula_size(*g), 0nat,
    {
        if self.sys.formulas.contains(g) || self.sys.solved_formulas.contains(g) {
            return Ok(());
        }
        match g {
            Guarded::Conj(l) => {
                self.mark_formula(g, mark);
                match self.insert_formulas(l) {
                    Err(q) => {
                        return Err(q);
                    },
                    Ok(()) => {},
                }
                self.changed = ChangeIndicator::Changed;
                Ok(())
            },
            Guarded::Disj(l) => {
                self.insert_disj(l.dup());
                Ok(())
            },
            Guarded::Atom(a) => self.insert_atom_formula(g, a, mark),
            Guarded::GGuarded(Quant::Ex, vars, guards, body) => {
                let xs = self.take_witnesses(g, vars, mark);
                let inst = instantiate(&xs, guards, body);
                proof {
                    lemma_size_instantiated(xs, *guards, **body);
                }
                match self.insert_formula_inner(&inst, false) {
                    Err(q) => {
                        return Err(q);
                    },
                    Ok(()) => {},
                }
                self.changed = ChangeIndicator::Changed;
                Ok(())
            },
            Guarded::GGuarded(Quant::All, _, _, _) => {
                match get_denied(g) {
                    Some(a) => {
                        self.insert_denial(g, &a, mark);
                    },
                    None => {
                        self.keep_formula(g.dup());
                    },
                }
                Ok(())
            },
        }
    }

    fn insert_formulas(&mut self, l: &List<Guarded>) -> (r: Answered<()>)
        ensures
            match old(self).formulas_inserted(*l) {
                Ok(red) => r == Ok::<(), Query>(()) && *final(self) == red,
                Err(q) => r == Err::<(), Query>(q),
            },
        decreases formulas_size(*l), 1nat,
    {
        match l {
            List::Nil => Ok(()),
            List::Cons(g, rest) => {
                proof {
                    lemma_formula_size(*g);
                }
                match self.insert_formula_inner(g, false) {
                    Err(q) => Err(q),
                    Ok(()) => self.insert_formulas(rest),
                }
            },
        }
    }

    /// Makes the formula hold.
    pub fn insert_formula(&mut self, g: &Guarded) -> (r: Answered<()>)
        ensures
            match old(self).formula_inserted(normal(*g), true) {
                Ok(red) => r == Ok::<(), Query>(()) && *final(self) == red,
                Err(q) => r == Err::<(), Query>(q),
            },
    {
        let h = normalise_stored_formula(g);
        self.insert_formula_inner(&h, true)
    }

    /// Whether a solved goal is dropped rather than marked.
    pub open spec fn dropped_when_solved(g: Goal) -> bool {
        match g {
            Goal::Chain(_, _) => true,
            Goal::Premise(_, fa) => fa.tag is Kd,
            _ => false,
        }
    }

    /// The reduction after the formula of a solved disjunction has been moved
    /// to the solved ones.
    pub open spec fn disj_done(self, l: List<Guarded>) -> Self {
        let f = Guarded::Disj(Box::new(l));
        if self.sys.formulas.has(f) {
            self.on(
                System {
                    formulas: without_first(self.sys.formulas, f),
                    solved_formulas: if self.sys.solved_formulas.has(f) {
                        self.sys.solved_formulas
                    } else {
                        self.sys.solved_formulas.snoc(f)
                    },
                    ..self.sys
                },
            ).touched()
        } else {
            self
        }
    }

    /// The reduction after the goal has been solved.
    #[verifier::opaque]
    pub open spec fn goal_done(self, g: Goal) -> Self {
        if Reduction::dropped_when_solved(g) {
            self.on(System { goals: goals_besides(self.sys.goals, g), ..self.sys }).touched_if(
                find(self.sys.goals, g) is Some,
            )
        } else {
            let red = match g {
                Goal::Disj(l) => self.disj_done(l),
                _ => self,
            };
            red.on(System { goals: goal_solved(red.sys.goals, g), ..red.sys }).touched_if(
                goal_unsolved(red.sys.goals, g),
            )
        }
    }

    /// Marks a goal as solved, if it is there.
    pub fn mark_goal_as_solved(&mut self, g: &Goal)
        ensures
            *final(self) == old(self).goal_done(*g),
    {
        proof {
            reveal(Reduction::goal_done);
        }
        let is_dropped = match g {
            Goal::Chain(_, _) => true,
            Goal::Premise(_, fa) => match &fa.tag {
                FactTag::Kd => true,
                _ => false,
            },
            _ => false,
        };
        if is_dropped {
            let there = match look_up(&self.sys.goals, g) {
                Some(_) => true,
                None => false,
            };
            self.sys.goals = delete_goal(&self.sys.goals, g);
            if there {
                self.changed = ChangeIndicator::Changed;
            }
            return;
        }
        match g {
            Goal::Disj(l) => {
                let f = Guarded::Disj(Box::new(l.dup()));
                if self.sys.formulas.contains(&f) {
                    self.sys.formulas = remove_first(&self.sys.formulas, &f);
                    if !self.sys.solved_formulas.contains(&f) {
                        self.sys.solved_formulas = self.sys.solved_formulas.with_last(f);
                    }
                    self.changed = ChangeIndicator::Changed;
                }
            },
            _ => {},
        }
        let (goals, was_open) = solve_goal_entry(&self.sys.goals, g);
        self.sys.goals = goals;
        if was_open {
            self.changed = ChangeIndicator::Changed;
        }
    }

    /// The reduction without the splits whose disjunction is gone.
    #[verifier::opaque]
    pub open spec fn splits_removed(self) -> Self {
        let goals = live_splits(self.sys.goals, self.sys.eq_store.conj);
        self.on(System { goals, ..self.sys }).touched_if(goals.size() != self.sys.goals.size())
    }

    /// Removes the splits whose disjunction is gone.
    pub fn remove_solved_split_goals(&mut self)
        ensures
            *final(self) == old(self).splits_removed(),
    {
        proof {
            reveal(Reduction::splits_removed);
        }
        let goals = keep_live_splits(&self.sys.goals, &self.sys.eq_store.conj);
        let unchanged = crate::facts::same_size(&goals, &self.sys.goals);
        self.sys.goals = goals;
        if !unchanged {
            self.changed = ChangeIndicator::Changed;
        }
    }
}

pub proof fn lemma_formula_size(g: Guarded)
    ensures
        formula_size(g) >= 1,
{
}

} // verus!
