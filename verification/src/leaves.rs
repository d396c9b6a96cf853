//! Replacing the leaves of terms, facts and formulas.
use crate::facts::{Fact, RuleACInst};
use crate::guarded::{Binding, GAtom, Guarded};
use crate::list::{find, look_up, List, Value};
use crate::term_ops::{
    after,
    app,
    f_app,
    frees_of_term,
    frees_of_terms,
    larger,
    max_of,
    next_after,
    term_frees,
    terms_frees,
};
use crate::terms::{LVar, Term};
use crate::text::{text_of, Text};
use vstd::prelude::*;

verus! {

/// A way to replace the variables of a term.
pub trait Leaves {
    /// What comes in place of the variable `t` below `depth` binders.
    spec fn image(&self, depth: u64, t: Term) -> Term;

    /// Whether applications are brought into normal form again.
    spec fn rebuilds(&self) -> bool;
}

/// A way to replace the variables of a term at run time.
pub trait LeafMap: Leaves {
    fn put(&self, depth: u64, t: &Term) -> (r: Term)
        ensures
            r == self.image(depth, *t),
    ;

    fn does_rebuild(&self) -> (r: bool)
        ensures
            r == self.rebuilds(),
    ;
}

/// The term with its variables replaced.
pub open spec fn mapped_term<L: Leaves>(m: L, depth: u64, t: Term) -> Term
    decreases t,
{
    match t {
        Term::Con(_) => t,
        Term::App(f, args) => if m.rebuilds() {
            app(f, mapped_terms(m, depth, *args))
        } else {
            Term::App(f, Box::new(mapped_terms(m, depth, *args)))
        },
        _ => m.image(depth, t),
    }
}

/// The terms with their variables replaced.
pub open spec fn mapped_terms<L: Leaves>(m: L, depth: u64, l: List<Term>) -> List<Term>
    decreases l,
{
    match l {
        List::Nil => List::Nil,
        List::Cons(t, rest) => List::Cons(
            mapped_term(m, depth, t),
            Box::new(mapped_terms(m, depth, *rest)),
        ),
    }
}

pub fn map_term<L: LeafMap>(m: &L, depth: u64, t: &Term) -> (r: Term)
    ensures
        r == mapped_term(*m, depth, *t),
    decreases t,
{
    match t {
        Term::Con(_) => t.dup(),
        Term::App(f, args) => {
            let l = map_terms(m, depth, args);
            if m.does_rebuild() {
                f_app(f, l)
            } else {
                Term::App(f.dup(), Box::new(l))
            }
        },
        _ => m.put(depth, t),
    }
}

pub fn map_terms<L: LeafMap>(m: &L, depth: u64, l: &List<Term>) -> (r: List<Term>)
    ensures
        r == mapped_terms(*m, depth, *l),
    decreases l,
{
    match l {
        List::Nil => List::Nil,
        List::Cons(t, rest) => List::Cons(
            map_term(m, depth, t),
            Box::new(map_terms(m, depth, rest)),
        ),
    }
}

/// The fact with its variables replaced.
pub open spec fn mapped_fact<L: Leaves>(m: L, depth: u64, fa: Fact) -> Fact {
    Fact { tag: fa.tag, annotations: fa.annotations, terms: mapped_terms(m, depth, fa.terms) }
}

pub fn map_fact<L: LeafMap>(m: &L, depth: u64, fa: &Fact) -> (r: Fact)
    ensures
        r == mapped_fact(*m, depth, *fa),
{
    Fact {
        tag: fa.tag.dup(),
        annotations: fa.annotations.dup(),
        terms: map_terms(m, depth, &fa.terms),
    }
}

/// The facts with their variables replaced.
pub open spec fn mapped_facts<L: Leaves>(m: L, l: List<Fact>) -> List<Fact>
    decreases l,
{
    match l {
        List::Nil => List::Nil,
        List::Cons(fa, rest) => List::Cons(
            mapped_fact(m, 0, fa),
            Box::new(mapped_facts(m, *rest)),
        ),
    }
}

fn map_facts<L: LeafMap>(m: &L, l: &List<Fact>) -> (r: List<Fact>)
    ensures
        r == mapped_facts(*m, *l),
    decreases l,
{
    match l {
        List::Nil => List::Nil,
        List::Cons(fa, rest) => List::Cons(map_fact(m, 0, fa), Box::new(map_facts(m, rest))),
    }
}

/// The rule instance with its variables replaced.
pub open spec fn mapped_rule<L: Leaves>(m: L, ru: RuleACInst) -> RuleACInst {
    RuleACInst {
        info: ru.info,
        premises: mapped_facts(m, ru.premises),
        conclusions: mapped_facts(m, ru.conclusions),
        actions: mapped_facts(m, ru.actions),
        new_vars: mapped_terms(m, 0, ru.new_vars),
    }
}

pub fn map_rule<L: LeafMap>(m: &L, ru: &RuleACInst) -> (r: RuleACInst)
    ensures
        r == mapped_rule(*m, *ru),
{
    RuleACInst {
        info: ru.info.dup(),
        premises: map_facts(m, &ru.premises),
        conclusions: map_facts(m, &ru.conclusions),
        actions: map_facts(m, &ru.actions),
        new_vars: map_terms(m, 0, &ru.new_vars),
    }
}

/// The atom with its variables replaced.
pub open spec fn mapped_atom<L: Leaves>(m: L, depth: u64, a: GAtom) -> GAtom {
    match a {
        GAtom::Eq(s, t) => GAtom::Eq(mapped_term(m, depth, s), mapped_term(m, depth, t)),
        GAtom::Less(s, t) => GAtom::Less(mapped_term(m, depth, s), mapped_term(m, depth, t)),
        GAtom::Last(t) => GAtom::Last(mapped_term(m, depth, t)),
        GAtom::Action(fa, t) => GAtom::Action(
            mapped_fact(m, depth, fa),
            mapped_term(m, depth, t),
        ),
        GAtom::Subterm(s, t) => GAtom::Subterm(mapped_term(m, depth, s), mapped_term(m, depth, t)),
        GAtom::Pred(fa) => GAtom::Pred(mapped_fact(m, depth, fa)),
        GAtom::LessMset(s, t) => GAtom::LessMset(
            mapped_term(m, depth, s),
            mapped_term(m, depth, t),
        ),
    }
}

pub fn map_atom<L: LeafMap>(m: &L, depth: u64, a: &GAtom) -> (r: GAtom)
    ensures
        r == mapped_atom(*m, depth, *a),
{
    match a {
        GAtom::Eq(s, t) => GAtom::Eq(map_term(m, depth, s), map_term(m, depth, t)),
        GAtom::Less(s, t) => GAtom::Less(map_term(m, depth, s), map_term(m, depth, t)),
        GAtom::Last(t) => GAtom::Last(map_term(m, depth, t)),
        GAtom::Action(fa, t) => GAtom::Action(map_fact(m, depth, fa), map_term(m, depth, t)),
        GAtom::Subterm(s, t) => GAtom::Subterm(map_term(m, depth, s), map_term(m, depth, t)),
        GAtom::Pred(fa) => GAtom::Pred(map_fact(m, depth, fa)),
        GAtom::LessMset(s, t) => GAtom::LessMset(map_term(m, depth, s), map_term(m, depth, t)),
    }
}

/// The atoms with their variables replaced.
pub open spec fn mapped_atoms<L: Leaves>(m: L, depth: u64, l: List<GAtom>) -> List<GAtom>
    decreases l,
{
    match l {
        List::Nil => List::Nil,
        List::Cons(a, rest) => List::Cons(
            mapped_atom(m, depth, a),
            Box::new(mapped_atoms(m, depth, *rest)),
        ),
    }
}

pub fn map_atoms<L: LeafMap>(m: &L, depth: u64, l: &List<GAtom>) -> (r: List<GAtom>)
    ensures
        r == mapped_atoms(*m, depth, *l),
    decreases l,
{
    match l {
        List::Nil => List::Nil,
        List::Cons(a, rest) => List::Cons(
            map_atom(m, depth, a),
            Box::new(map_atoms(m, depth, rest)),
        ),
    }
}

/// The number of binders around the scope of a quantifier.
pub open spec fn deeper(depth: u64, vars: List<Binding>) -> u64
    decreases vars,
{
    match vars {
        List::Nil => depth,
        List::Cons(_, rest) => deeper(after(depth), *rest),
    }
}

fn go_deeper(depth: u64, vars: &List<Binding>) -> (r: u64)
    ensures
        r == deeper(depth, *vars),
    decreases vars,
{
    match vars {
        List::Nil => depth,
        List::Cons(_, rest) => go_deeper(next_after(depth), rest),
    }
}

/// The formula with its variables replaced.
pub open spec fn mapped_guarded<L: Leaves>(m: L, depth: u64, g: Guarded) -> Guarded
    decreases g,
{
    match g {
        Guarded::Atom(a) => Guarded::Atom(mapped_atom(m, depth, a)),
        Guarded::Disj(l) => Guarded::Disj(Box::new(mapped_guardeds(m, depth, *l))),
        Guarded::Conj(l) => Guarded::Conj(Box::new(mapped_guardeds(m, depth, *l))),
        Guarded::GGuarded(q, vars, guards, body) => {
            let inner = deeper(depth, vars);
            Guarded::GGuarded(
                q,
                vars,
                mapped_atoms(m, inner, guards),
                Box::new(mapped_guarded(m, inner, *body)),
            )
        },
    }
}

/// The formulas with their variables replaced.
pub open spec fn mapped_guardeds<L: Leaves>(m: L, depth: u64, l: List<Guarded>) -> List<Guarded>
    decreases l,
{
    match l {
        List::Nil => List::Nil,
        List::Cons(g, rest) => List::Cons(
            mapped_guarded(m, depth, g),
            Box::new(mapped_guardeds(m, depth, *rest)),
        ),
    }
}

pub fn map_guarded<L: LeafMap>(m: &L, depth: u64, g: &Guarded) -> (r: Guarded)
    ensures
        r == mapped_guarded(*m, depth, *g),
    decreases g,
{
    match g {
        Guarded::Atom(a) => Guarded::Atom(map_atom(m, depth, a)),
        Guarded::Disj(l) => Guarded::Disj(Box::new(map_guardeds(m, depth, l))),
        Guarded::Conj(l) => Guarded::Conj(Box::new(map_guardeds(m, depth, l))),
        Guarded::GGuarded(q, vars, guards, body) => {
            let inner: u64 = go_deeper(depth, vars);
            Guarded::GGuarded(
                *q,
                vars.dup(),
                map_atoms(m, inner, guards),
                Box::new(map_guarded(m, inner, body)),
            )
        },
    }
}

pub fn map_guardeds<L: LeafMap>(m: &L, depth: u64, l: &List<Guarded>) -> (r: List<Guarded>)
    ensures
        r == mapped_guardeds(*m, depth, *l),
    decreases l,
{
    match l {
        List::Nil => List::Nil,
        List::Cons(g, rest) => List::Cons(
            map_guarded(m, depth, g),
            Box::new(map_guardeds(m, depth, rest)),
        ),
    }
}

/// Brings every application into normal form and replaces nothing.
pub struct Canon {}

impl Leaves for Canon {
    open spec fn image(&self, depth: u64, t: Term) -> Term {
        t
    }

    open spec fn rebuilds(&self) -> bool {
        true
    }
}

impl LeafMap for Canon {
    fn put(&self, depth: u64, t: &Term) -> (r: Term) {
        t.dup()
    }

    fn does_rebuild(&self) -> (r: bool) {
        true
    }
}

/// Terms for the free variables of formulas, found by name and index.
pub type FormulaSubst = List<((Text, u64), Term)>;

/// Replaces free variables by the terms filed under their name and index.
pub struct Replace {
    pub subst: FormulaSubst,
}

impl Leaves for Replace {
    open spec fn image(&self, depth: u64, t: Term) -> Term {
        match t {
            Term::Var(v) => match find(self.subst, (v.name, v.idx)) {
                Some(u) => u,
                None => t,
            },
            _ => t,
        }
    }

    open spec fn rebuilds(&self) -> bool {
        false
    }
}

impl LeafMap for Replace {
    fn put(&self, depth: u64, t: &Term) -> (r: Term) {
        match t {
            Term::Var(v) => match look_up(&self.subst, &(v.name.dup(), v.idx)) {
                Some(u) => u,
                None => t.dup(),
            },
            _ => t.dup(),
        }
    }

    fn does_rebuild(&self) -> (r: bool) {
        false
    }
}

/// Gives the index 0 to every witness of a unification.
pub struct Witness {}

/// The name of the variables that unification introduces.
pub open spec fn witness_name() -> Text {
    text_of("~mw"@)
}

impl Leaves for Witness {
    open spec fn image(&self, depth: u64, t: Term) -> Term {
        match t {
            Term::Var(v) => if v.name == witness_name() {
                Term::Var(LVar { name: v.name, sort: v.sort, idx: 0 })
            } else {
                t
            },
            _ => t,
        }
    }

    open spec fn rebuilds(&self) -> bool {
        false
    }
}

impl LeafMap for Witness {
    fn put(&self, depth: u64, t: &Term) -> (r: Term) {
        match t {
            Term::Var(v) => if v.name.same(&Text::new("~mw")) {
                Term::Var(LVar { name: v.name.dup(), sort: v.sort, idx: 0 })
            } else {
                t.dup()
            },
            _ => t.dup(),
        }
    }

    fn does_rebuild(&self) -> (r: bool) {
        false
    }
}

/// Replaces the variables of the outermost binder, innermost first.
pub struct Open {
    pub vars: List<LVar>,
}

impl Leaves for Open {
    open spec fn image(&self, depth: u64, t: Term) -> Term {
        match t {
            Term::Bound(n) => if n >= depth {
                match self.vars.nth((n - depth) as nat) {
                    Some(v) => Term::Var(v),
                    None => t,
                }
            } else {
                t
            },
            _ => t,
        }
    }

    open spec fn rebuilds(&self) -> bool {
        false
    }
}

impl LeafMap for Open {
    fn put(&self, depth: u64, t: &Term) -> (r: Term) {
        match t {
            Term::Bound(n) => if *n >= depth {
                match self.vars.get(*n - depth) {
                    Some(v) => Term::Var(v),
                    None => t.dup(),
                }
            } else {
                t.dup()
            },
            _ => t.dup(),
        }
    }

    fn does_rebuild(&self) -> (r: bool) {
        false
    }
}

/// Binds a free variable.
pub struct Close {
    pub var: LVar,
}

impl Leaves for Close {
    open spec fn image(&self, depth: u64, t: Term) -> Term {
        match t {
            Term::Var(v) => if v == self.var {
                Term::Bound(depth)
            } else {
                t
            },
            _ => t,
        }
    }

    open spec fn rebuilds(&self) -> bool {
        false
    }
}

impl LeafMap for Close {
    fn put(&self, depth: u64, t: &Term) -> (r: Term) {
        match t {
            Term::Var(v) => if v.same(&self.var) {
                Term::Bound(depth)
            } else {
                t.dup()
            },
            _ => t.dup(),
        }
    }

    fn does_rebuild(&self) -> (r: bool) {
        false
    }
}

/// Moves the indices from `low` on so that they start at `base`.
pub struct Shift {
    pub low: u64,
    pub base: u64,
}

/// `a + b`, or the last index where the sum is larger.
pub open spec fn plus(a: u64, b: u64) -> u64 {
    if a + b <= u64::MAX {
        (a + b) as u64
    } else {
        u64::MAX
    }
}

/// `a - b`, or 0 where `b` is larger.
pub open spec fn minus(a: u64, b: u64) -> u64 {
    if a >= b {
        (a - b) as u64
    } else {
        0
    }
}

impl Shift {
    /// Where the index `idx` moves.
    pub open spec fn moved(self, idx: u64) -> u64 {
        plus(self.base, minus(idx, self.low))
    }

    /// Where the variable `v` moves.
    pub open spec fn moved_var(self, v: LVar) -> LVar {
        LVar { name: v.name, sort: v.sort, idx: self.moved(v.idx) }
    }

    pub fn shift_var(&self, v: &LVar) -> (r: LVar)
        ensures
            r == self.moved_var(*v),
    {
        let gap: u64 = v.idx.saturating_sub(self.low);
        LVar { name: v.name.dup(), sort: v.sort, idx: self.base.saturating_add(gap) }
    }
}

impl Leaves for Shift {
    open spec fn image(&self, depth: u64, t: Term) -> Term {
        match t {
            Term::Var(v) => Term::Var(self.moved_var(v)),
            _ => t,
        }
    }

    open spec fn rebuilds(&self) -> bool {
        false
    }
}

impl LeafMap for Shift {
    fn put(&self, depth: u64, t: &Term) -> (r: Term) {
        match t {
            Term::Var(v) => Term::Var(self.shift_var(v)),
            _ => t.dup(),
        }
    }

    fn does_rebuild(&self) -> (r: bool) {
        false
    }
}

/// The free variables of an atom; an action's time point comes first.
pub open spec fn atom_frees(a: GAtom) -> List<LVar> {
    match a {
        GAtom::Eq(s, t) => term_frees(s).then_all(term_frees(t)),
        GAtom::Less(s, t) => term_frees(s).then_all(term_frees(t)),
        GAtom::Last(t) => term_frees(t),
        GAtom::Action(fa, t) => term_frees(t).then_all(terms_frees(fa.terms)),
        GAtom::Subterm(s, t) => term_frees(s).then_all(term_frees(t)),
        GAtom::Pred(fa) => terms_frees(fa.terms),
        GAtom::LessMset(s, t) => term_frees(s).then_all(term_frees(t)),
    }
}

pub fn frees_of_atom(a: &GAtom) -> (r: List<LVar>)
    ensures
        r == atom_frees(*a),
{
    match a {
        GAtom::Eq(s, t) => frees_of_term(s).concat(frees_of_term(t)),
        GAtom::Less(s, t) => frees_of_term(s).concat(frees_of_term(t)),
        GAtom::Last(t) => frees_of_term(t),
        GAtom::Action(fa, t) => frees_of_term(t).concat(frees_of_terms(&fa.terms)),
        GAtom::Subterm(s, t) => frees_of_term(s).concat(frees_of_term(t)),
        GAtom::Pred(fa) => frees_of_terms(&fa.terms),
        GAtom::LessMset(s, t) => frees_of_term(s).concat(frees_of_term(t)),
    }
}

/// The free variables of the atoms.
pub open spec fn atoms_frees(l: List<GAtom>) -> List<LVar>
    decreases l,
{
    match l {
        List::Nil => List::Nil,
        List::Cons(a, rest) => atom_frees(a).then_all(atoms_frees(*rest)),
    }
}

fn frees_of_atoms(l: &List<GAtom>) -> (r: List<LVar>)
    ensures
        r == atoms_frees(*l),
    decreases l,
{
    match l {
        List::Nil => List::Nil,
        List::Cons(a, rest) => frees_of_atom(a).concat(frees_of_atoms(rest)),
    }
}

/// The free variables of a formula from left to right.
pub open spec fn guarded_frees(g: Guarded) -> List<LVar>
    decreases g,
{
    match g {
        Guarded::Atom(a) => atom_frees(a),
        Guarded::Disj(l) => guardeds_frees(*l),
        Guarded::Conj(l) => guardeds_frees(*l),
        Guarded::GGuarded(_, _, guards, body) => atoms_frees(guards).then_all(guarded_frees(*body)),
    }
}

/// The free variables of the formulas from left to right.
pub open spec fn guardeds_frees(l: List<Guarded>) -> List<LVar>
    decreases l,
{
    match l {
        List::Nil => List::Nil,
        List::Cons(g, rest) => guarded_frees(g).then_all(guardeds_frees(*rest)),
    }
}

pub fn frees_of_guarded(g: &Guarded) -> (r: List<LVar>)
    ensures
        r == guarded_frees(*g),
    decreases g,
{
    match g {
        Guarded::Atom(a) => frees_of_atom(a),
        Guarded::Disj(l) => frees_of_guardeds(l),
        Guarded::Conj(l) => frees_of_guardeds(l),
        Guarded::GGuarded(_, _, guards, body) => frees_of_atoms(guards).concat(
            frees_of_guarded(body),
        ),
    }
}

pub fn frees_of_guardeds(l: &List<Guarded>) -> (r: List<LVar>)
    ensures
        r == guardeds_frees(*l),
    decreases l,
{
    match l {
        List::Nil => List::Nil,
        List::Cons(g, rest) => frees_of_guarded(g).concat(frees_of_guardeds(rest)),
    }
}

/// The largest index of the variables, and 0 where there is none.
pub open spec fn vars_max(l: List<LVar>) -> u64
    decreases l,
{
    match l {
        List::Nil => 0,
        List::Cons(v, rest) => larger(v.idx, vars_max(*rest)),
    }
}

pub fn max_of_vars(l: &List<LVar>) -> (r: u64)
    ensures
        r == vars_max(*l),
    decreases l,
{
    match l {
        List::Nil => 0,
        List::Cons(v, rest) => max_of(v.idx, max_of_vars(rest)),
    }
}

/// Whether `s` replaces one of the variables.
pub open spec fn replaces_any(s: FormulaSubst, l: List<LVar>) -> bool
    decreases l,
{
    match l {
        List::Nil => false,
        List::Cons(v, rest) => find(s, (v.name, v.idx)) is Some || replaces_any(s, *rest),
    }
}

pub fn does_replace_any(s: &FormulaSubst, l: &List<LVar>) -> (r: bool)
    ensures
        r == replaces_any(*s, *l),
    decreases l,
{
    match l {
        List::Nil => false,
        List::Cons(v, rest) => {
            let here = match look_up(s, &(v.name.dup(), v.idx)) {
                Some(_) => true,
                None => false,
            };
            here || does_replace_any(s, rest)
        },
    }
}

/// The formula after at most `rounds` rounds of replacing, as long as there is
/// something to replace.
pub open spec fn replaced(s: FormulaSubst, g: Guarded, rounds: nat) -> Guarded
    decreases rounds,
{
    if rounds == 0 || !replaces_any(s, guarded_frees(g)) {
        g
    } else {
        replaced(s, mapped_guarded(Replace { subst: s }, 0, g), (rounds - 1) as nat)
    }
}

fn replace(s: &FormulaSubst, g: &Guarded, rounds: u64) -> (r: Guarded)
    ensures
        r == replaced(*s, *g, rounds as nat),
    decreases rounds,
{
    if rounds == 0 || !does_replace_any(s, &frees_of_guarded(g)) {
        g.dup()
    } else {
        let m = Replace { subst: s.dup() };
        let next = map_guarded(&m, 0, g);
        replace(s, &next, rounds - 1)
    }
}

/// The rounds after which replacing is given up.
pub const REPLACE_ROUNDS: u64 = 16;

/// The alternative of a disjunction goal under `s`: replaced and in normal form.
pub open spec fn settled_alternative(s: FormulaSubst, g: Guarded) -> Guarded {
    mapped_guarded(Canon {  }, 0, replaced(s, g, REPLACE_ROUNDS as nat))
}

pub fn settle_alternative(s: &FormulaSubst, g: &Guarded) -> (r: Guarded)
    ensures
        r == settled_alternative(*s, *g),
{
    map_guarded(&Canon {  }, 0, &replace(s, g, REPLACE_ROUNDS))
}

/// The stored formula under `s`: a formula that changes is brought into stored
/// form again.
pub open spec fn settled_formula(s: FormulaSubst, g: Guarded) -> Guarded {
    let h = settled_alternative(s, g);
    if !replaces_any(s, guarded_frees(g)) && h == g {
        g
    } else {
        crate::guarded::normal(h)
    }
}

pub fn settle_formula(s: &FormulaSubst, g: &Guarded) -> (r: Guarded)
    ensures
        r == settled_formula(*s, *g),
{
    let h = settle_alternative(s, g);
    if !does_replace_any(s, &frees_of_guarded(g)) && h.same(g) {
        g.dup()
    } else {
        crate::guarded::normalise_stored_formula(&h)
    }
}

} // verus!
