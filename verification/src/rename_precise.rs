//! Renumbering the variables of a system from 0 on, name by name.
//!
//! The variables of a system are visited in a fixed order.  A variable that is
//! met for the first time gets the next unused index of its name.
use crate::constraints::{
    Edge,
    EqDisj,
    EquationStore,
    Goal,
    GoalStatus,
    LessAtom,
    SubtermConstraint,
    SubtermStore,
};
use crate::facts::RuleACInst;
use crate::goals::{has_subterm, does_have_subterm};
use crate::leaves::{
    frees_of_guardeds, guardeds_frees, map_fact, map_guardeds, map_rule, map_term, mapped_fact,
    mapped_guardeds, mapped_rule, mapped_term, LeafMap, Leaves,
};
use crate::list::{
    find, lemma_list_asymmetric, lemma_list_cotransitive, lemma_list_total, list_below, list_is_below,
    look_up, List, Ordered, Total, Value,
};
use crate::rules::{domain, domain_of, frees_of_rule, rule_frees};
use crate::subst_system::{distinct_lesses, drop_repeated_lesses};
use crate::system::System;
use crate::term_ops::{
    after,
    frees_of_term,
    frees_of_terms,
    next_after,
    term_frees,
    terms_frees,
    Subst,
};
use crate::terms::{LSort, LVar, Term};
use crate::text::Text;
use vstd::prelude::*;

verus! {

/// The first unused index of each name; a name that is missing has none in use.
pub struct Fresh {
    pub counters: List<(Text, u64)>,
}

/// The counters after the index `next` of `name` has been used.
pub open spec fn counted(l: List<(Text, u64)>, name: Text) -> List<(Text, u64)>
    decreases l,
{
    match l {
        List::Nil => List::one((name, 1)),
        List::Cons(c, rest) => if c.0 == name {
            List::Cons((name, after(c.1)), rest)
        } else {
            List::Cons(c, Box::new(counted(*rest, name)))
        },
    }
}

fn count_up(l: &List<(Text, u64)>, name: &Text) -> (r: List<(Text, u64)>)
    ensures
        r == counted(*l, *name),
    decreases l,
{
    match l {
        List::Nil => List::single((name.dup(), 1)),
        List::Cons(c, rest) => if c.0.same(name) {
            List::Cons((name.dup(), next_after(c.1)), Box::new(rest.dup()))
        } else {
            List::Cons(c.dup(), Box::new(count_up(rest, name)))
        },
    }
}

impl Fresh {
    /// No index is in use.
    pub open spec fn none() -> Fresh {
        Fresh { counters: List::Nil }
    }

    /// The first unused index of `name`.
    pub open spec fn next(self, name: Text) -> u64 {
        match find(self.counters, name) {
            Some(n) => n,
            None => 0,
        }
    }

    /// The state after the first unused index of `name` has been used.
    pub open spec fn used(self, name: Text) -> Fresh {
        Fresh { counters: counted(self.counters, name) }
    }

    /// No index is in use.
    pub fn nothing_used() -> (r: Fresh)
        ensures
            r == Fresh::none(),
    {
        Fresh { counters: List::Nil }
    }

    /// Uses the first unused index of `name`.
    pub fn fresh_ident(&mut self, name: &Text) -> (r: u64)
        ensures
            r == old(self).next(*name),
            *final(self) == old(self).used(*name),
    {
        let r: u64 = match look_up(&self.counters, name) {
            Some(n) => n,
            None => 0,
        };
        self.counters = count_up(&self.counters, name);
        r
    }
}

/// Variables and what they are renamed to, in the order in which they were met.
pub type Renaming = List<(LVar, LVar)>;

/// What `v` is renamed to.
pub open spec fn renamed_to(pairs: Renaming, v: LVar) -> LVar {
    match find(pairs, v) {
        Some(w) => w,
        None => v,
    }
}

/// A renaming that grows: the renaming so far and the indices in use.
pub struct Namer {
    pub fresh: Fresh,
    pub pairs: Renaming,
}

impl Namer {
    /// Nothing is renamed.
    pub open spec fn none() -> Namer {
        Namer { fresh: Fresh::none(), pairs: List::Nil }
    }

    /// The renaming after `v` has been met.
    pub open spec fn importing(self, v: LVar) -> Namer {
        if find(self.pairs, v) is Some {
            self
        } else {
            Namer {
                fresh: self.fresh.used(v.name),
                pairs: self.pairs.snoc(
                    (v, LVar { name: v.name, sort: v.sort, idx: self.fresh.next(v.name) }),
                ),
            }
        }
    }

    /// The renaming after the variables have been met in turn.
    pub open spec fn importing_all(self, l: List<LVar>) -> Namer
        decreases l,
    {
        match l {
            List::Nil => self,
            List::Cons(v, rest) => self.importing(v).importing_all(*rest),
        }
    }
}

/// Renames the variables of terms and formulas.  Where terms are `rebuilt`, the
/// operands of associative and commutative symbols are sorted again.
pub struct Rename {
    pub pairs: Renaming,
    pub rebuilt: bool,
}

impl Leaves for Rename {
    open spec fn image(&self, depth: u64, t: Term) -> Term {
        match t {
            Term::Var(v) => Term::Var(renamed_to(self.pairs, v)),
            _ => t,
        }
    }

    open spec fn rebuilds(&self) -> bool {
        self.rebuilt
    }
}

impl LeafMap for Rename {
    fn put(&self, depth: u64, t: &Term) -> (r: Term) {
        match t {
            Term::Var(v) => match look_up(&self.pairs, v) {
                Some(w) => Term::Var(w),
                None => t.dup(),
            },
            _ => t.dup(),
        }
    }

    fn does_rebuild(&self) -> (r: bool) {
        self.rebuilt
    }
}

/// What a variable is filed under: its name, the rank of its sort, and its index.
pub type Key = (String, u8, u64);

/// A key as a plain value.
pub type KeyView = (Seq<char>, u8, u64);

/// The key as a plain value.
pub open spec fn key_view(k: Key) -> KeyView {
    (k.0@, k.1, k.2)
}

/// The key of the variable `v`.
pub open spec fn key_of(v: LVar) -> KeyView {
    (v.name@, sort_code(v.sort), v.idx)
}

/// A number for each sort.
pub open spec fn sort_code(s: LSort) -> u8 {
    match s {
        LSort::Pub => 0,
        LSort::Fresh => 1,
        LSort::Msg => 2,
        LSort::Node => 3,
        LSort::Nat => 4,
    }
}

fn make_key(v: &LVar) -> (r: Key)
    ensures
        key_view(r) == key_of(*v),
{
    let code: u8 = match v.sort {
        LSort::Pub => 0,
        LSort::Fresh => 1,
        LSort::Msg => 2,
        LSort::Node => 3,
        LSort::Nat => 4,
    };
    (v.name.to_string(), code, v.idx)
}

/// New indices by variable: a `hashbrown::HashMap` with the hash function of
/// `rustc_hash`.  The map itself is hidden; [`table_entries`] says what it holds.
#[verifier::external_body]
pub struct RenameTable {
    map: hashbrown::HashMap<Key, u64, rustc_hash::FxBuildHasher>,
}

/// The entries of the map, with each key as a plain value.
pub uninterp spec fn table_entries(t: RenameTable) -> Map<(Seq<char>, u8, u64), u64>;

/// Calls `hashbrown::HashMap::default`: the new map holds nothing.
#[verifier::external_body]
fn new_table() -> (r: RenameTable)
    ensures
        table_entries(r).dom() == Set::<KeyView>::empty(),
{
    RenameTable { map: hashbrown::HashMap::default() }
}

/// Calls `hashbrown::HashMap::contains_key`: says whether the key has an entry.
#[verifier::external_body]
fn table_contains(t: &RenameTable, k: &Key) -> (r: bool)
    ensures
        r == table_entries(*t).contains_key(key_view(*k)),
{
    t.map.contains_key(k)
}

/// Calls `hashbrown::HashMap::get`: the value under the key, or none where the
/// key has no entry.
#[verifier::external_body]
fn table_get(t: &RenameTable, k: &Key) -> (r: Option<u64>)
    ensures
        r == (if table_entries(*t).contains_key(key_view(*k)) {
            Some(table_entries(*t)[key_view(*k)])
        } else {
            None
        }),
{
    t.map.get(k).copied()
}

/// Calls `hashbrown::HashMap::insert`: the key has the value afterwards, and no
/// other key is touched.
#[verifier::external_body]
fn table_insert(t: &mut RenameTable, k: Key, value: u64)
    ensures
        table_entries(*final(t)) == table_entries(*old(t)).insert(key_view(k), value),
{
    t.map.insert(k, value);
}

/// Names with the same characters are equal.
pub proof fn lemma_chars_injective(a: List<char>, b: List<char>)
    requires
        a.view() == b.view(),
    ensures
        a == b,
    decreases a,
{
    match (a, b) {
        (List::Nil, List::Nil) => {},
        (List::Cons(x, l), List::Cons(y, m)) => {
            assert(a.view()[0] == x && b.view()[0] == y);
            assert(a.view().subrange(1, a.view().len() as int) =~= l.view());
            assert(b.view().subrange(1, b.view().len() as int) =~= m.view());
            lemma_chars_injective(*l, *m);
        },
        _ => {
            assert(a.view().len() == 0 <==> a is Nil);
            assert(b.view().len() == 0 <==> b is Nil);
        },
    }
}

/// Variables with the same key are equal.
pub proof fn lemma_key_injective(v: LVar, w: LVar)
    requires
        key_of(v) == key_of(w),
    ensures
        v == w,
{
    lemma_chars_injective(v.name.chars, w.name.chars);
}

/// Looking up in a list with one more entry.
proof fn lemma_find_snoc(l: Renaming, p: (LVar, LVar), v: LVar)
    ensures
        find(l.snoc(p), v) == (match find(l, v) {
            Some(w) => Some(w),
            None => if p.0 == v {
                Some(p.1)
            } else {
                None
            },
        }),
    decreases l,
{
    match l {
        List::Nil => {
            assert(l.snoc(p) == List::Cons(p, Box::new(List::Nil)));
            assert(find(List::<(LVar, LVar)>::Nil, v) is None);
        },
        List::Cons(_, rest) => {
            lemma_find_snoc(*rest, p, v);
        },
    }
}

/// Collects a renaming while the variables of a system are visited.
pub struct RenameState {
    fresh: Fresh,
    pairs: Renaming,
    table: RenameTable,
}

impl RenameState {
    /// The renaming that has been collected.
    pub closed spec fn namer(self) -> Namer {
        Namer { fresh: self.fresh, pairs: self.pairs }
    }

    /// The table holds the new index of every variable that is renamed.
    pub closed spec fn valid(self) -> bool {
        forall|v: LVar| #[trigger]
            self.indexed(v) == find(self.pairs, v)
    }

    /// What the table says of `v`.
    closed spec fn indexed(self, v: LVar) -> Option<LVar> {
        if table_entries(self.table).contains_key(key_of(v)) {
            Some(LVar { name: v.name, sort: v.sort, idx: table_entries(self.table)[key_of(v)] })
        } else {
            None
        }
    }

    /// Nothing is renamed.
    pub fn new() -> (r: RenameState)
        ensures
            r.valid(),
            r.namer() == Namer::none(),
    {
        RenameState { fresh: Fresh::nothing_used(), pairs: List::Nil, table: new_table() }
    }

    /// Meets the variable `v`.
    pub fn import(&mut self, v: &LVar)
        requires
            old(self).valid(),
        ensures
            final(self).valid(),
            final(self).namer() == old(self).namer().importing(*v),
    {
        let key = make_key(v);
        assert(self.indexed(*v) is Some == find(self.pairs, *v) is Some);
        if table_contains(&self.table, &key) {
            return;
        }
        let ghost before = *self;
        let idx: u64 = self.fresh.fresh_ident(&v.name);
        let w = LVar { name: v.name.dup(), sort: v.sort, idx };
        table_insert(&mut self.table, key, idx);
        self.pairs = self.pairs.with_last((v.dup(), w));
        proof {
            assert forall|u: LVar| #[trigger]
                self.indexed(u) == find(self.pairs, u) by {
                lemma_find_snoc(before.pairs, (*v, w), u);
                assert(before.indexed(u) == find(before.pairs, u));
                if key_of(u) == key_of(*v) {
                    lemma_key_injective(u, *v);
                }
            }
        }
    }

    /// Meets the variables in turn.
    pub fn import_all(&mut self, l: &List<LVar>)
        requires
            old(self).valid(),
        ensures
            final(self).valid(),
            final(self).namer() == old(self).namer().importing_all(*l),
        decreases l,
    {
        match l {
            List::Nil => {},
            List::Cons(v, rest) => {
                self.import(v);
                self.import_all(rest);
            },
        }
    }

    /// What `v` is renamed to.
    pub fn map_var(&self, v: &LVar) -> (r: LVar)
        requires
            self.valid(),
        ensures
            r == renamed_to(self.namer().pairs, *v),
    {
        assert(self.indexed(*v) == find(self.pairs, *v));
        match table_get(&self.table, &make_key(v)) {
            Some(idx) => LVar { name: v.name.dup(), sort: v.sort, idx },
            None => v.dup(),
        }
    }

    /// Whether nothing is renamed.
    pub fn is_empty(&self) -> (r: bool)
        ensures
            r == (self.namer().pairs is Nil),
    {
        self.pairs.is_empty()
    }

    /// The renaming of terms and formulas.
    pub fn leaf_map(&self, rebuilt: bool) -> (r: Rename)
        ensures
            r == (Rename { pairs: self.namer().pairs, rebuilt }),
    {
        Rename { pairs: self.pairs.dup(), rebuilt }
    }
}

impl Ordered for (LVar, Term) {
    open spec fn below(self, other: Self) -> bool {
        self.0.below(other.0) || (self.0 == other.0 && self.1.below(other.1))
    }

    fn is_below(&self, other: &Self) -> (answer: bool) {
        self.0.is_below(&other.0) || (self.0.same(&other.0) && self.1.is_below(&other.1))
    }

    proof fn lemma_asymmetric(self, other: Self) {
        self.0.lemma_asymmetric(other.0);
        self.1.lemma_asymmetric(other.1);
    }

    proof fn lemma_cotransitive(self, mid: Self, other: Self) {
        self.0.lemma_total(mid.0);
        mid.0.lemma_total(other.0);
        if self.0.below(other.0) {
            self.0.lemma_cotransitive(mid.0, other.0);
        }
        self.1.lemma_total(mid.1);
        mid.1.lemma_total(other.1);
        if self.1.below(other.1) {
            self.1.lemma_cotransitive(mid.1, other.1);
        }
    }
}

impl Total for (LVar, Term) {
    proof fn lemma_total(self, other: Self) {
        self.0.lemma_total(other.0);
        self.1.lemma_total(other.1);
    }
}

/// Substitutions are ordered entry by entry.
impl Ordered for List<(LVar, Term)> {
    open spec fn below(self, other: Self) -> bool {
        list_below(self, other)
    }

    fn is_below(&self, other: &Self) -> (answer: bool) {
        list_is_below(self, other)
    }

    proof fn lemma_asymmetric(self, other: Self) {
        lemma_list_asymmetric(self, other);
    }

    proof fn lemma_cotransitive(self, mid: Self, other: Self) {
        lemma_list_cotransitive(self, mid, other);
    }
}

impl Total for List<(LVar, Term)> {
    proof fn lemma_total(self, other: Self) {
        lemma_list_total(self, other);
    }
}

/// `a` and `b` followed by the rest.
pub open spec fn both(a: LVar, b: LVar, rest: List<LVar>) -> List<LVar> {
    List::Cons(a, Box::new(List::Cons(b, Box::new(rest))))
}

fn put_both(a: &LVar, b: &LVar, rest: List<LVar>) -> (r: List<LVar>)
    ensures
        r == both(*a, *b, rest),
{
    List::Cons(a.dup(), Box::new(List::Cons(b.dup(), Box::new(rest))))
}

/// The variables of the nodes.
pub open spec fn node_vars(l: List<(LVar, RuleACInst)>) -> List<LVar>
    decreases l,
{
    match l {
        List::Nil => List::Nil,
        List::Cons(n, rest) => List::Cons(
            n.0,
            Box::new(rule_frees(n.1).then_all(node_vars(*rest))),
        ),
    }
}

fn vars_of_nodes(l: &List<(LVar, RuleACInst)>) -> (r: List<LVar>)
    ensures
        r == node_vars(*l),
    decreases l,
{
    match l {
        List::Nil => List::Nil,
        List::Cons(n, rest) => List::Cons(
            n.0.dup(),
            Box::new(frees_of_rule(&n.1).concat(vars_of_nodes(rest))),
        ),
    }
}

/// The variables of the edges.
pub open spec fn edge_vars(l: List<Edge>) -> List<LVar>
    decreases l,
{
    match l {
        List::Nil => List::Nil,
        List::Cons(e, rest) => both(e.src.0, e.tgt.0, edge_vars(*rest)),
    }
}

fn vars_of_edges(l: &List<Edge>) -> (r: List<LVar>)
    ensures
        r == edge_vars(*l),
    decreases l,
{
    match l {
        List::Nil => List::Nil,
        List::Cons(e, rest) => put_both(&e.src.0, &e.tgt.0, vars_of_edges(rest)),
    }
}

/// The variables of the orderings.
pub open spec fn less_vars(l: List<LessAtom>) -> List<LVar>
    decreases l,
{
    match l {
        List::Nil => List::Nil,
        List::Cons(a, rest) => both(a.smaller, a.larger, less_vars(*rest)),
    }
}

fn vars_of_lesses(l: &List<LessAtom>) -> (r: List<LVar>)
    ensures
        r == less_vars(*l),
    decreases l,
{
    match l {
        List::Nil => List::Nil,
        List::Cons(a, rest) => put_both(&a.smaller, &a.larger, vars_of_lesses(rest)),
    }
}

/// The variables of the pairs.
pub open spec fn pair_vars(l: List<(Term, Term)>) -> List<LVar>
    decreases l,
{
    match l {
        List::Nil => List::Nil,
        List::Cons(p, rest) => term_frees(p.0).then_all(term_frees(p.1).then_all(pair_vars(*rest))),
    }
}

fn vars_of_pairs(l: &List<(Term, Term)>) -> (r: List<LVar>)
    ensures
        r == pair_vars(*l),
    decreases l,
{
    match l {
        List::Nil => List::Nil,
        List::Cons(p, rest) => frees_of_term(&p.0).concat(
            frees_of_term(&p.1).concat(vars_of_pairs(rest)),
        ),
    }
}

/// The variables of the subterm constraints.
pub open spec fn constraint_vars(l: List<SubtermConstraint>) -> List<LVar>
    decreases l,
{
    match l {
        List::Nil => List::Nil,
        List::Cons(c, rest) => term_frees(c.small).then_all(
            term_frees(c.big).then_all(constraint_vars(*rest)),
        ),
    }
}

fn vars_of_constraints(l: &List<SubtermConstraint>) -> (r: List<LVar>)
    ensures
        r == constraint_vars(*l),
    decreases l,
{
    match l {
        List::Nil => List::Nil,
        List::Cons(c, rest) => frees_of_term(&c.small).concat(
            frees_of_term(&c.big).concat(vars_of_constraints(rest)),
        ),
    }
}

/// The variables of the equations that hold.
pub open spec fn subst_vars(l: List<(LVar, Term)>) -> List<LVar>
    decreases l,
{
    match l {
        List::Nil => List::Nil,
        List::Cons(p, rest) => List::Cons(
            p.0,
            Box::new(term_frees(p.1).then_all(subst_vars(*rest))),
        ),
    }
}

fn vars_of_subst(l: &List<(LVar, Term)>) -> (r: List<LVar>)
    ensures
        r == subst_vars(*l),
    decreases l,
{
    match l {
        List::Nil => List::Nil,
        List::Cons(p, rest) => List::Cons(
            p.0.dup(),
            Box::new(frees_of_term(&p.1).concat(vars_of_subst(rest))),
        ),
    }
}

/// The variables that the substitutions replace.
pub open spec fn domain_vars(l: List<Subst>) -> List<LVar>
    decreases l,
{
    match l {
        List::Nil => List::Nil,
        List::Cons(s, rest) => domain(s).then_all(domain_vars(*rest)),
    }
}

fn vars_of_domains(l: &List<Subst>) -> (r: List<LVar>)
    ensures
        r == domain_vars(*l),
    decreases l,
{
    match l {
        List::Nil => List::Nil,
        List::Cons(s, rest) => domain_of(s).concat(vars_of_domains(rest)),
    }
}

/// The variables that the disjunctions replace.
pub open spec fn disj_vars(l: List<EqDisj>) -> List<LVar>
    decreases l,
{
    match l {
        List::Nil => List::Nil,
        List::Cons(d, rest) => domain_vars(d.substs.sorted()).then_all(disj_vars(*rest)),
    }
}

fn vars_of_disjs(l: &List<EqDisj>) -> (r: List<LVar>)
    ensures
        r == disj_vars(*l),
    decreases l,
{
    match l {
        List::Nil => List::Nil,
        List::Cons(d, rest) => vars_of_domains(&d.substs.sort()).concat(vars_of_disjs(rest)),
    }
}

/// The variables of a goal.
pub open spec fn goal_vars(g: Goal) -> List<LVar> {
    match g {
        Goal::Action(i, fa) => List::Cons(i, Box::new(terms_frees(fa.terms))),
        Goal::Premise(p, fa) => List::Cons(p.0, Box::new(terms_frees(fa.terms))),
        Goal::Chain(c, p) => both(c.0, p.0, List::Nil),
        Goal::Disj(l) => guardeds_frees(l),
        Goal::Split(_) => List::Nil,
        Goal::Subterm(s, t) => term_frees(s).then_all(term_frees(t)),
    }
}

fn vars_of_goal(g: &Goal) -> (r: List<LVar>)
    ensures
        r == goal_vars(*g),
{
    match g {
        Goal::Action(i, fa) => List::Cons(i.dup(), Box::new(frees_of_terms(&fa.terms))),
        Goal::Premise(p, fa) => List::Cons(p.0.dup(), Box::new(frees_of_terms(&fa.terms))),
        Goal::Chain(c, p) => put_both(&c.0, &p.0, List::Nil),
        Goal::Disj(l) => frees_of_guardeds(l),
        Goal::Split(_) => List::Nil,
        Goal::Subterm(s, t) => frees_of_term(s).concat(frees_of_term(t)),
    }
}

/// The variables of the goals.
pub open spec fn goals_vars(l: List<(Goal, GoalStatus)>) -> List<LVar>
    decreases l,
{
    match l {
        List::Nil => List::Nil,
        List::Cons(g, rest) => goal_vars(g.0).then_all(goals_vars(*rest)),
    }
}

fn vars_of_goals(l: &List<(Goal, GoalStatus)>) -> (r: List<LVar>)
    ensures
        r == goals_vars(*l),
    decreases l,
{
    match l {
        List::Nil => List::Nil,
        List::Cons(g, rest) => vars_of_goal(&g.0).concat(vars_of_goals(rest)),
    }
}

/// The variable of the last node.
pub open spec fn last_vars(l: Option<LVar>) -> List<LVar> {
    match l {
        Some(v) => List::one(v),
        None => List::Nil,
    }
}

fn vars_of_last(l: &Option<LVar>) -> (r: List<LVar>)
    ensures
        r == last_vars(*l),
{
    match l {
        Some(v) => List::single(v.dup()),
        None => List::Nil,
    }
}

/// The renaming of a system: its parts are visited one after the other, each in
/// ascending order.
pub open spec fn system_namer(sys: System) -> Namer {
    Namer::none()
        .importing_all(node_vars(sys.nodes.sorted()))
        .importing_all(edge_vars(sys.edges.sorted()))
        .importing_all(less_vars(sys.less_atoms.sorted()))
        .importing_all(last_vars(sys.last_atom))
        .importing_all(pair_vars(sys.subterm_store.neg_subterms.sorted()))
        .importing_all(constraint_vars(sys.subterm_store.subterms.sorted()))
        .importing_all(constraint_vars(sys.subterm_store.solved_subterms.sorted()))
        .importing_all(subst_vars(sys.eq_store.subst))
        .importing_all(disj_vars(sys.eq_store.conj))
        .importing_all(guardeds_frees(sys.formulas.sorted()))
        .importing_all(guardeds_frees(sys.solved_formulas.sorted()))
        .importing_all(guardeds_frees(sys.lemmas.sorted()))
        .importing_all(goals_vars(sys.goals.sorted()))
}

fn visit_system(sys: &System) -> (r: RenameState)
    ensures
        r.valid(),
        r.namer() == system_namer(*sys),
{
    let mut state = RenameState::new();
    state.import_all(&vars_of_nodes(&sys.nodes.sort()));
    state.import_all(&vars_of_edges(&sys.edges.sort()));
    state.import_all(&vars_of_lesses(&sys.less_atoms.sort()));
    state.import_all(&vars_of_last(&sys.last_atom));
    state.import_all(&vars_of_pairs(&sys.subterm_store.neg_subterms.sort()));
    state.import_all(&vars_of_constraints(&sys.subterm_store.subterms.sort()));
    state.import_all(&vars_of_constraints(&sys.subterm_store.solved_subterms.sort()));
    state.import_all(&vars_of_subst(&sys.eq_store.subst));
    state.import_all(&vars_of_disjs(&sys.eq_store.conj));
    state.import_all(&frees_of_guardeds(&sys.formulas.sort()));
    state.import_all(&frees_of_guardeds(&sys.solved_formulas.sort()));
    state.import_all(&frees_of_guardeds(&sys.lemmas.sort()));
    state.import_all(&vars_of_goals(&sys.goals.sort()));
    state
}

/// The renaming of terms.
pub open spec fn on_terms(pairs: Renaming) -> Rename {
    Rename { pairs, rebuilt: true }
}

/// The renaming of formulas, whose terms keep their shape.
pub open spec fn on_formulas(pairs: Renaming) -> Rename {
    Rename { pairs, rebuilt: false }
}

/// The nodes under the renaming.
pub open spec fn renamed_nodes(
    pairs: Renaming,
    l: List<(LVar, RuleACInst)>,
) -> List<(LVar, RuleACInst)>
    decreases l,
{
    match l {
        List::Nil => List::Nil,
        List::Cons(n, rest) => List::Cons(
            (renamed_to(pairs, n.0), mapped_rule(on_terms(pairs), n.1)),
            Box::new(renamed_nodes(pairs, *rest)),
        ),
    }
}

fn rename_nodes(
    st: &RenameState,
    m: &Rename,
    l: &List<(LVar, RuleACInst)>,
) -> (r: List<(LVar, RuleACInst)>)
    requires
        st.valid(),
        *m == on_terms(st.namer().pairs),
    ensures
        r == renamed_nodes(st.namer().pairs, *l),
    decreases l,
{
    match l {
        List::Nil => List::Nil,
        List::Cons(n, rest) => List::Cons(
            (st.map_var(&n.0), map_rule(m, &n.1)),
            Box::new(rename_nodes(st, m, rest)),
        ),
    }
}

/// The edges under the renaming.
pub open spec fn renamed_edges(pairs: Renaming, l: List<Edge>) -> List<Edge>
    decreases l,
{
    match l {
        List::Nil => List::Nil,
        List::Cons(e, rest) => List::Cons(
            (Edge {
                src: (renamed_to(pairs, e.src.0), e.src.1),
                tgt: (renamed_to(pairs, e.tgt.0), e.tgt.1),
            }),
            Box::new(renamed_edges(pairs, *rest)),
        ),
    }
}

fn rename_edges(st: &RenameState, m: &Rename, l: &List<Edge>) -> (r: List<Edge>)
    requires
        st.valid(),
        *m == on_terms(st.namer().pairs),
    ensures
        r == renamed_edges(st.namer().pairs, *l),
    decreases l,
{
    match l {
        List::Nil => List::Nil,
        List::Cons(e, rest) => List::Cons(
            Edge {
                src: (st.map_var(&e.src.0), e.src.1),
                tgt: (st.map_var(&e.tgt.0), e.tgt.1),
            },
            Box::new(rename_edges(st, m, rest)),
        ),
    }
}

/// The orderings under the renaming.
pub open spec fn renamed_lesses(pairs: Renaming, l: List<LessAtom>) -> List<LessAtom>
    decreases l,
{
    match l {
        List::Nil => List::Nil,
        List::Cons(a, rest) => List::Cons(
            (LessAtom {
                smaller: renamed_to(pairs, a.smaller),
                larger: renamed_to(pairs, a.larger),
                reason: a.reason,
            }),
            Box::new(renamed_lesses(pairs, *rest)),
        ),
    }
}

fn rename_lesses(st: &RenameState, m: &Rename, l: &List<LessAtom>) -> (r: List<LessAtom>)
    requires
        st.valid(),
        *m == on_terms(st.namer().pairs),
    ensures
        r == renamed_lesses(st.namer().pairs, *l),
    decreases l,
{
    match l {
        List::Nil => List::Nil,
        List::Cons(a, rest) => List::Cons(
            LessAtom {
                smaller: st.map_var(&a.smaller),
                larger: st.map_var(&a.larger),
                reason: a.reason,
            },
            Box::new(rename_lesses(st, m, rest)),
        ),
    }
}

/// The subterm constraints under the renaming.
pub open spec fn renamed_constraints(
    pairs: Renaming,
    l: List<SubtermConstraint>,
) -> List<SubtermConstraint>
    decreases l,
{
    match l {
        List::Nil => List::Nil,
        List::Cons(c, rest) => List::Cons(
            (SubtermConstraint {
                small: mapped_term(on_terms(pairs), 0, c.small),
                big: mapped_term(on_terms(pairs), 0, c.big),
                propagated: c.propagated,
            }),
            Box::new(renamed_constraints(pairs, *rest)),
        ),
    }
}

fn rename_constraints(
    st: &RenameState,
    m: &Rename,
    l: &List<SubtermConstraint>,
) -> (r: List<SubtermConstraint>)
    requires
        st.valid(),
        *m == on_terms(st.namer().pairs),
    ensures
        r == renamed_constraints(st.namer().pairs, *l),
    decreases l,
{
    match l {
        List::Nil => List::Nil,
        List::Cons(c, rest) => List::Cons(
            SubtermConstraint {
                small: map_term(m, 0, &c.small),
                big: map_term(m, 0, &c.big),
                propagated: c.propagated,
            },
            Box::new(rename_constraints(st, m, rest)),
        ),
    }
}

/// The pairs under the renaming.
pub open spec fn renamed_pairs(pairs: Renaming, l: List<(Term, Term)>) -> List<(Term, Term)>
    decreases l,
{
    match l {
        List::Nil => List::Nil,
        List::Cons(p, rest) => List::Cons(
            (mapped_term(on_terms(pairs), 0, p.0), mapped_term(on_terms(pairs), 0, p.1)),
            Box::new(renamed_pairs(pairs, *rest)),
        ),
    }
}

fn rename_pairs(st: &RenameState, m: &Rename, l: &List<(Term, Term)>) -> (r: List<(Term, Term)>)
    requires
        st.valid(),
        *m == on_terms(st.namer().pairs),
    ensures
        r == renamed_pairs(st.namer().pairs, *l),
    decreases l,
{
    match l {
        List::Nil => List::Nil,
        List::Cons(p, rest) => List::Cons(
            (map_term(m, 0, &p.0), map_term(m, 0, &p.1)),
            Box::new(rename_pairs(st, m, rest)),
        ),
    }
}

/// The equations under the renaming.
pub open spec fn renamed_subst(pairs: Renaming, l: List<(LVar, Term)>) -> List<(LVar, Term)>
    decreases l,
{
    match l {
        List::Nil => List::Nil,
        List::Cons(p, rest) => List::Cons(
            (renamed_to(pairs, p.0), mapped_term(on_terms(pairs), 0, p.1)),
            Box::new(renamed_subst(pairs, *rest)),
        ),
    }
}

fn rename_subst(st: &RenameState, m: &Rename, l: &List<(LVar, Term)>) -> (r: List<(LVar, Term)>)
    requires
        st.valid(),
        *m == on_terms(st.namer().pairs),
    ensures
        r == renamed_subst(st.namer().pairs, *l),
    decreases l,
{
    match l {
        List::Nil => List::Nil,
        List::Cons(p, rest) => List::Cons(
            (st.map_var(&p.0), map_term(m, 0, &p.1)),
            Box::new(rename_subst(st, m, rest)),
        ),
    }
}

/// The substitution with its domain renamed; the variables of its range are its own.
pub open spec fn renamed_domain(pairs: Renaming, l: List<(LVar, Term)>) -> List<(LVar, Term)>
    decreases l,
{
    match l {
        List::Nil => List::Nil,
        List::Cons(p, rest) => List::Cons(
            (renamed_to(pairs, p.0), p.1),
            Box::new(renamed_domain(pairs, *rest)),
        ),
    }
}

fn rename_domain(st: &RenameState, m: &Rename, l: &List<(LVar, Term)>) -> (r: List<(LVar, Term)>)
    requires
        st.valid(),
        *m == on_terms(st.namer().pairs),
    ensures
        r == renamed_domain(st.namer().pairs, *l),
    decreases l,
{
    match l {
        List::Nil => List::Nil,
        List::Cons(p, rest) => List::Cons(
            (st.map_var(&p.0), p.1.dup()),
            Box::new(rename_domain(st, m, rest)),
        ),
    }
}

/// The substitutions with their domains renamed.
pub open spec fn renamed_domains(pairs: Renaming, l: List<Subst>) -> List<Subst>
    decreases l,
{
    match l {
        List::Nil => List::Nil,
        List::Cons(s, rest) => List::Cons(
            renamed_domain(pairs, s).sorted(),
            Box::new(renamed_domains(pairs, *rest)),
        ),
    }
}

fn rename_domains(st: &RenameState, m: &Rename, l: &List<Subst>) -> (r: List<Subst>)
    requires
        st.valid(),
        *m == on_terms(st.namer().pairs),
    ensures
        r == renamed_domains(st.namer().pairs, *l),
    decreases l,
{
    match l {
        List::Nil => List::Nil,
        List::Cons(s, rest) => List::Cons(
            rename_domain(st, m, s).sort(),
            Box::new(rename_domains(st, m, rest)),
        ),
    }
}

/// The disjunctions under the renaming.
pub open spec fn renamed_disjs(pairs: Renaming, l: List<EqDisj>) -> List<EqDisj>
    decreases l,
{
    match l {
        List::Nil => List::Nil,
        List::Cons(d, rest) => List::Cons(
            (EqDisj {
                split_id: d.split_id,
                substs: renamed_domains(pairs, d.substs).sorted().nub(),
            }),
            Box::new(renamed_disjs(pairs, *rest)),
        ),
    }
}

fn rename_disjs(st: &RenameState, m: &Rename, l: &List<EqDisj>) -> (r: List<EqDisj>)
    requires
        st.valid(),
        *m == on_terms(st.namer().pairs),
    ensures
        r == renamed_disjs(st.namer().pairs, *l),
    decreases l,
{
    match l {
        List::Nil => List::Nil,
        List::Cons(d, rest) => List::Cons(
            EqDisj {
                split_id: d.split_id,
                substs: rename_domains(st, m, &d.substs).sort().dedup(),
            },
            Box::new(rename_disjs(st, m, rest)),
        ),
    }
}

/// The goal under the renaming.
pub open spec fn renamed_goal(pairs: Renaming, g: Goal) -> Goal {
    match g {
        Goal::Action(i, fa) => Goal::Action(
            renamed_to(pairs, i),
            mapped_fact(on_terms(pairs), 0, fa),
        ),
        Goal::Premise(p, fa) => Goal::Premise(
            (renamed_to(pairs, p.0), p.1),
            mapped_fact(on_terms(pairs), 0, fa),
        ),
        Goal::Chain(c, p) => Goal::Chain(
            (renamed_to(pairs, c.0), c.1),
            (renamed_to(pairs, p.0), p.1),
        ),
        Goal::Disj(l) => Goal::Disj(mapped_guardeds(on_formulas(pairs), 0, l)),
        Goal::Split(id) => Goal::Split(id),
        Goal::Subterm(s, t) => Goal::Subterm(
            mapped_term(on_terms(pairs), 0, s),
            mapped_term(on_terms(pairs), 0, t),
        ),
    }
}

fn rename_goal(st: &RenameState, m: &Rename, g: &Goal) -> (r: Goal)
    requires
        st.valid(),
        *m == on_terms(st.namer().pairs),
    ensures
        r == renamed_goal(st.namer().pairs, *g),
{
    match g {
        Goal::Action(i, fa) => Goal::Action(st.map_var(i), map_fact(m, 0, fa)),
        Goal::Premise(p, fa) => Goal::Premise((st.map_var(&p.0), p.1), map_fact(m, 0, fa)),
        Goal::Chain(c, p) => Goal::Chain((st.map_var(&c.0), c.1), (st.map_var(&p.0), p.1)),
        Goal::Disj(l) => Goal::Disj(map_guardeds(&st.leaf_map(false), 0, l)),
        Goal::Split(id) => Goal::Split(*id),
        Goal::Subterm(s, t) => Goal::Subterm(map_term(m, 0, s), map_term(m, 0, t)),
    }
}

/// The goals under the renaming.
pub open spec fn renamed_goals(
    pairs: Renaming,
    l: List<(Goal, GoalStatus)>,
) -> List<(Goal, GoalStatus)>
    decreases l,
{
    match l {
        List::Nil => List::Nil,
        List::Cons(g, rest) => List::Cons(
            (renamed_goal(pairs, g.0), g.1),
            Box::new(renamed_goals(pairs, *rest)),
        ),
    }
}

fn rename_goals(
    st: &RenameState,
    m: &Rename,
    l: &List<(Goal, GoalStatus)>,
) -> (r: List<(Goal, GoalStatus)>)
    requires
        st.valid(),
        *m == on_terms(st.namer().pairs),
    ensures
        r == renamed_goals(st.namer().pairs, *l),
    decreases l,
{
    match l {
        List::Nil => List::Nil,
        List::Cons(g, rest) => List::Cons(
            (rename_goal(st, m, &g.0), g.1.dup()),
            Box::new(rename_goals(st, m, rest)),
        ),
    }
}

/// The goals of `acc`, followed by those of `l` that are not among them.
pub open spec fn distinct_goals(acc: List<(Goal, GoalStatus)>, l: List<(Goal, GoalStatus)>) -> List<
    (Goal, GoalStatus),
>
    decreases l,
{
    match l {
        List::Nil => acc,
        List::Cons(g, rest) => distinct_goals(
            if find(acc, g.0) is Some {
                acc
            } else {
                acc.snoc(g)
            },
            *rest,
        ),
    }
}

fn drop_repeated_goals(acc: List<(Goal, GoalStatus)>, l: &List<(Goal, GoalStatus)>) -> (r: List<
    (Goal, GoalStatus),
>)
    ensures
        r == distinct_goals(acc, *l),
    decreases l,
{
    match l {
        List::Nil => acc,
        List::Cons(g, rest) => {
            let known = match look_up(&acc, &g.0) {
                Some(_) => true,
                None => false,
            };
            if known {
                drop_repeated_goals(acc, rest)
            } else {
                drop_repeated_goals(acc.with_last(g.dup()), rest)
            }
        },
    }
}

/// The constraints of `acc`, followed by those of `l` whose pair of terms is not
/// among them.
pub open spec fn distinct_constraints(
    acc: List<SubtermConstraint>,
    l: List<SubtermConstraint>,
) -> List<SubtermConstraint>
    decreases l,
{
    match l {
        List::Nil => acc,
        List::Cons(c, rest) => distinct_constraints(
            if has_subterm(acc, c.small, c.big) {
                acc
            } else {
                acc.snoc(c)
            },
            *rest,
        ),
    }
}

fn drop_repeated_constraints(acc: List<SubtermConstraint>, l: &List<SubtermConstraint>) -> (r: List<
    SubtermConstraint,
>)
    ensures
        r == distinct_constraints(acc, *l),
    decreases l,
{
    match l {
        List::Nil => acc,
        List::Cons(c, rest) => if does_have_subterm(&acc, &c.small, &c.big) {
            drop_repeated_constraints(acc, rest)
        } else {
            drop_repeated_constraints(acc.with_last(c.dup()), rest)
        },
    }
}

/// The subterm constraints under the renaming, in ascending order.
pub open spec fn renamed_store(pairs: Renaming, st: SubtermStore) -> SubtermStore {
    SubtermStore {
        subterms: distinct_constraints(
            List::Nil,
            renamed_constraints(pairs, st.subterms).sorted(),
        ),
        solved_subterms: distinct_constraints(
            List::Nil,
            renamed_constraints(pairs, st.solved_subterms).sorted(),
        ),
        neg_subterms: renamed_pairs(pairs, st.neg_subterms).sorted().nub(),
        ..st
    }
}

/// The equations under the renaming, in ascending order.
pub open spec fn renamed_equations(pairs: Renaming, st: EquationStore) -> EquationStore {
    EquationStore {
        subst: renamed_subst(pairs, st.subst).sorted(),
        conj: renamed_disjs(pairs, st.conj),
        ..st
    }
}

/// The system under the renaming, with all its parts in ascending order.
pub open spec fn renamed_system(pairs: Renaming, sys: System) -> System {
    System {
        nodes: renamed_nodes(pairs, sys.nodes).sorted(),
        edges: renamed_edges(pairs, sys.edges).sorted().nub(),
        less_atoms: distinct_lesses(List::Nil, renamed_lesses(pairs, sys.less_atoms).sorted()),
        last_atom: match sys.last_atom {
            Some(v) => Some(renamed_to(pairs, v)),
            None => None,
        },
        goals: distinct_goals(List::Nil, renamed_goals(pairs, sys.goals).sorted()),
        formulas: mapped_guardeds(on_formulas(pairs), 0, sys.formulas).sorted().nub(),
        solved_formulas: mapped_guardeds(
            on_formulas(pairs),
            0,
            sys.solved_formulas,
        ).sorted().nub(),
        lemmas: mapped_guardeds(on_formulas(pairs), 0, sys.lemmas).sorted().nub(),
        eq_store: renamed_equations(pairs, sys.eq_store),
        subterm_store: renamed_store(pairs, sys.subterm_store),
        ..sys
    }
}

/// The system with its variables renumbered, name by name, in the order in which
/// they are met.  A system without variables stays as it is.
pub open spec fn precise(sys: System) -> System {
    let pairs = system_namer(sys).pairs;
    if pairs is Nil {
        sys
    } else {
        renamed_system(pairs, sys)
    }
}

fn rename_stores(st: &RenameState, m: &Rename, sys: &mut System)
    requires
        st.valid(),
        *m == on_terms(st.namer().pairs),
    ensures
        *final(sys) == (System {
            eq_store: renamed_equations(st.namer().pairs, old(sys).eq_store),
            subterm_store: renamed_store(st.namer().pairs, old(sys).subterm_store),
            ..*old(sys)
        }),
{
    sys.eq_store.subst = rename_subst(st, m, &sys.eq_store.subst).sort();
    sys.eq_store.conj = rename_disjs(st, m, &sys.eq_store.conj);
    sys.subterm_store.subterms =
    drop_repeated_constraints(
        List::Nil,
        &rename_constraints(st, m, &sys.subterm_store.subterms).sort(),
    );
    sys.subterm_store.solved_subterms =
    drop_repeated_constraints(
        List::Nil,
        &rename_constraints(st, m, &sys.subterm_store.solved_subterms).sort(),
    );
    sys.subterm_store.neg_subterms =
    rename_pairs(st, m, &sys.subterm_store.neg_subterms).sort().dedup();
}

/// Renumbers the variables of the system, name by name, in the order in which
/// they are met.
pub fn rename_precise_system(sys: &mut System)
    ensures
        *final(sys) == precise(*old(sys)),
{
    let st = visit_system(sys);
    if st.is_empty() {
        return;
    }
    let m = st.leaf_map(true);
    let f = st.leaf_map(false);
    sys.nodes = rename_nodes(&st, &m, &sys.nodes).sort();
    sys.edges = rename_edges(&st, &m, &sys.edges).sort().dedup();
    sys.less_atoms =
    drop_repeated_lesses(List::Nil, &rename_lesses(&st, &m, &sys.less_atoms).sort());
    let last = match &sys.last_atom {
        Some(v) => Some(st.map_var(v)),
        None => None,
    };
    sys.last_atom = last;
    sys.goals = drop_repeated_goals(List::Nil, &rename_goals(&st, &m, &sys.goals).sort());
    sys.formulas = map_guardeds(&f, 0, &sys.formulas).sort().dedup();
    sys.solved_formulas = map_guardeds(&f, 0, &sys.solved_formulas).sort().dedup();
    sys.lemmas = map_guardeds(&f, 0, &sys.lemmas).sort().dedup();
    rename_stores(&st, &m, sys);
}

/// The system as it is shown: renumbered and without its substitution.
pub open spec fn cleaned(sys: System) -> System {
    let p = precise(sys);
    System { eq_store: EquationStore { subst: List::Nil, ..p.eq_store }, ..p }
}

/// Renumbers the variables of the system and drops its substitution.
pub fn cleanup(sys: &System) -> (r: System)
    ensures
        r == cleaned(*sys),
{
    let mut r = sys.dup();
    rename_precise_system(&mut r);
    r.eq_store.subst = List::Nil;
    r
}

} // verus!
