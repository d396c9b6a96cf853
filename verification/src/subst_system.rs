//! Applying the substitution of the equations to the whole system.
use crate::constraints::{Edge, Goal, GoalStatus, LessAtom, SubtermConstraint, SubtermStore};
use crate::context::{Answered, Query};
use crate::equations::{zip, zipped};
use crate::facts::{
    alike, applied_fact, applied_rule, apply_fact, apply_rule, are_alike, same_size, Fact, FactTag,
    RuleACInst,
};
use crate::guarded::{normal_alternatives, normalise_disj_list, Guarded};
use crate::leaves::{
    does_replace_any, frees_of_guardeds, guardeds_frees, map_guardeds, mapped_guardeds,
    replaces_any, settle_alternative, settle_formula, settled_alternative, settled_formula, Canon,
    FormulaSubst,
};
use crate::list::{find, look_up, List, Value};
use crate::reduction::{
    ends, first_term, get_first_term, is_product_or_union, product_or_union, ChangeIndicator,
    Reduction, SplitStrategy,
};
use crate::system::{combined, does_order, orders, put_goal, set_goal, System};
use crate::term_ops::{
    applied, apply_term, is_any_touched, is_touched, is_var_of_sort, rename_var, renamed, touches,
    touches_any, var_of_sort, Subst,
};
use crate::terms::{LSort, LVar, Term};
use vstd::prelude::*;

verus! {

/// What a pass has changed.  Another order counts as a change, and so does the
/// loss of a duplicate.
pub struct PassSignals {
    /// A node has another id or another place, or a term of its rule was
    /// substituted.
    pub nodes_value_changed: bool,
    /// Two nodes got the same id.
    pub collisions: bool,
    /// Two nodes with rules of different shapes got the same id.
    pub shape_mismatch: bool,
    /// The edges are others, or in another order.
    pub edges_value_changed: bool,
    /// The last node has another id.
    pub last_atom_changed: bool,
    /// The orderings are others.
    pub less_value_changed: bool,
    /// The goals are others, or in another order.
    pub goals_value_changed: bool,
    /// The formulas, solved formulas or lemmas are others.
    pub formulas_value_changed: bool,
    /// The subterm constraints are others, or in another order.
    pub changed_sst: bool,
    /// Rules of nodes with the same id had to be equated.
    pub had_rule_eqs: bool,
    /// Goals had to be taken apart again.
    pub had_insert_action: bool,
}

impl PassSignals {
    /// Whether the pass has changed anything.
    pub open spec fn any(self) -> bool {
        ||| self.nodes_value_changed
        ||| self.collisions
        ||| self.shape_mismatch
        ||| self.edges_value_changed
        ||| self.last_atom_changed
        ||| self.less_value_changed
        ||| self.goals_value_changed
        ||| self.formulas_value_changed
        ||| self.changed_sst
        ||| self.had_rule_eqs
        ||| self.had_insert_action
    }

    /// Whether the pass has changed anything.
    pub fn raised(self) -> (r: bool)
        ensures
            r == self.any(),
    {
        self.nodes_value_changed || self.collisions || self.shape_mismatch
            || self.edges_value_changed || self.last_atom_changed || self.less_value_changed
            || self.goals_value_changed || self.formulas_value_changed || self.changed_sst
            || self.had_rule_eqs || self.had_insert_action
    }
}

/// The rounds after which a chain of variables is followed no further.
pub const CHASE_ROUNDS: u64 = 32;

/// The term under repeated substitution, as long as there is something to
/// substitute.
pub open spec fn chased(s: Subst, t: Term, rounds: nat) -> Term
    decreases rounds,
{
    if rounds == 0 || !touches(s, t) {
        t
    } else {
        chased(s, applied(s, t), (rounds - 1) as nat)
    }
}

fn chase(s: &Subst, t: Term, rounds: u64) -> (r: Term)
    ensures
        r == chased(*s, t, rounds as nat),
    decreases rounds,
{
    if rounds == 0 || !is_touched(s, &t) {
        t
    } else {
        let next = apply_term(s, &t);
        chase(s, next, rounds - 1)
    }
}

/// The substitution `s`, followed through to the end, for the variables of the
/// bindings `l`; later bindings go first.
pub open spec fn formula_subst(s: Subst, l: Subst, acc: FormulaSubst) -> FormulaSubst
    decreases l,
{
    match l {
        List::Nil => acc,
        List::Cons(b, rest) => {
            let t = chased(s, Term::Var(b.0), CHASE_ROUNDS as nat);
            formula_subst(
                s,
                *rest,
                if t == Term::Var(b.0) {
                    acc
                } else {
                    List::Cons(((b.0.name, b.0.idx), t), Box::new(acc))
                },
            )
        },
    }
}

/// The substitution for formulas that the equations give rise to.
pub fn build_formula_subst(s: &Subst, l: &Subst, acc: FormulaSubst) -> (r: FormulaSubst)
    ensures
        r == formula_subst(*s, *l, acc),
    decreases l,
{
    match l {
        List::Nil => acc,
        List::Cons(b, rest) => {
            let v = Term::Var(b.0.dup());
            let t = chase(s, v.dup(), CHASE_ROUNDS);
            if t.same(&v) {
                build_formula_subst(s, rest, acc)
            } else {
                build_formula_subst(
                    s,
                    rest,
                    List::Cons(((b.0.name.dup(), b.0.idx), t), Box::new(acc)),
                )
            }
        },
    }
}

/// Whether one of the facts is substituted.
pub open spec fn facts_touched(s: Subst, l: List<Fact>) -> bool
    decreases l,
{
    match l {
        List::Nil => false,
        List::Cons(fa, rest) => touches_any(s, fa.terms) || facts_touched(s, *rest),
    }
}

fn are_facts_touched(s: &Subst, l: &List<Fact>) -> (r: bool)
    ensures
        r == facts_touched(*s, *l),
    decreases l,
{
    match l {
        List::Nil => false,
        List::Cons(fa, rest) => is_any_touched(s, &fa.terms) || are_facts_touched(s, rest),
    }
}

/// Whether the rule instance is substituted.
pub open spec fn rule_touched(s: Subst, ru: RuleACInst) -> bool {
    facts_touched(s, ru.premises) || facts_touched(s, ru.conclusions) || facts_touched(
        s,
        ru.actions,
    ) || touches_any(s, ru.new_vars)
}

fn is_rule_touched(s: &Subst, ru: &RuleACInst) -> (r: bool)
    ensures
        r == rule_touched(*s, *ru),
{
    are_facts_touched(s, &ru.premises) || are_facts_touched(s, &ru.conclusions)
        || are_facts_touched(s, &ru.actions) || is_any_touched(s, &ru.new_vars)
}

/// The nodes under new ids, with their rules as they are.
pub open spec fn renamed_nodes(s: Subst, l: List<(LVar, RuleACInst)>) -> List<(LVar, RuleACInst)>
    decreases l,
{
    match l {
        List::Nil => List::Nil,
        List::Cons(n, rest) => List::Cons(
            (renamed(s, n.0), n.1),
            Box::new(renamed_nodes(s, *rest)),
        ),
    }
}

fn rename_nodes(s: &Subst, l: &List<(LVar, RuleACInst)>) -> (r: List<(LVar, RuleACInst)>)
    ensures
        r == renamed_nodes(*s, *l),
    decreases l,
{
    match l {
        List::Nil => List::Nil,
        List::Cons(n, rest) => List::Cons(
            (rename_var(s, &n.0), n.1.dup()),
            Box::new(rename_nodes(s, rest)),
        ),
    }
}

/// Whether a node gets another id.
pub open spec fn ids_change(s: Subst, l: List<(LVar, RuleACInst)>) -> bool
    decreases l,
{
    match l {
        List::Nil => false,
        List::Cons(n, rest) => renamed(s, n.0) != n.0 || ids_change(s, *rest),
    }
}

fn do_ids_change(s: &Subst, l: &List<(LVar, RuleACInst)>) -> (r: bool)
    ensures
        r == ids_change(*s, *l),
    decreases l,
{
    match l {
        List::Nil => false,
        List::Cons(n, rest) => !rename_var(s, &n.0).same(&n.0) || do_ids_change(s, rest),
    }
}

/// The nodes under new ids: each once, with the equations between the facts of
/// rules that came to share a node.
pub struct NodeMerge {
    pub nodes: List<(LVar, RuleACInst)>,
    pub conc_eqs: List<(Fact, Fact)>,
    pub prem_eqs: List<(Fact, Fact)>,
    pub act_eqs: List<(Fact, Fact)>,
    pub collisions: bool,
    pub shape_mismatch: bool,
}

/// Whether two rules come from the same rule with as many facts of each kind.
pub open spec fn same_shape(a: RuleACInst, b: RuleACInst) -> bool {
    &&& a.info == b.info
    &&& a.premises.size() == b.premises.size()
    &&& a.conclusions.size() == b.conclusions.size()
    &&& a.actions.size() == b.actions.size()
}

fn have_same_shape(a: &RuleACInst, b: &RuleACInst) -> (r: bool)
    ensures
        r == same_shape(*a, *b),
{
    a.info.same(&b.info) && same_size(&a.premises, &b.premises) && same_size(
        &a.conclusions,
        &b.conclusions,
    ) && same_size(&a.actions, &b.actions)
}

impl NodeMerge {
    /// Nothing merged yet.
    pub open spec fn none() -> NodeMerge {
        NodeMerge {
            nodes: List::Nil,
            conc_eqs: List::Nil,
            prem_eqs: List::Nil,
            act_eqs: List::Nil,
            collisions: false,
            shape_mismatch: false,
        }
    }

    /// A further node: kept where it is new; otherwise its rule is equated with
    /// the one that is there, unless the two have different shapes.
    pub open spec fn with(self, id: LVar, ru: RuleACInst) -> NodeMerge {
        match find(self.nodes, id) {
            None => NodeMerge { nodes: self.nodes.snoc((id, ru)), ..self },
            Some(kept) => if same_shape(kept, ru) {
                NodeMerge {
                    conc_eqs: self.conc_eqs.then_all(zipped(kept.conclusions, ru.conclusions)),
                    prem_eqs: self.prem_eqs.then_all(zipped(kept.premises, ru.premises)),
                    act_eqs: self.act_eqs.then_all(zipped(kept.actions, ru.actions)),
                    collisions: true,
                    ..self
                }
            } else {
                NodeMerge { collisions: true, shape_mismatch: true, ..self }
            },
        }
    }

    /// Further nodes, one after the other.
    pub open spec fn with_all(self, l: List<(LVar, RuleACInst)>) -> NodeMerge
        decreases l,
    {
        match l {
            List::Nil => self,
            List::Cons(n, rest) => self.with(n.0, n.1).with_all(*rest),
        }
    }

    fn put(self, id: &LVar, ru: &RuleACInst) -> (r: NodeMerge)
        ensures
            r == self.with(*id, *ru),
    {
        match look_up(&self.nodes, id) {
            None => NodeMerge {
                nodes: self.nodes.with_last((id.dup(), ru.dup())),
                conc_eqs: self.conc_eqs,
                prem_eqs: self.prem_eqs,
                act_eqs: self.act_eqs,
                collisions: self.collisions,
                shape_mismatch: self.shape_mismatch,
            },
            Some(kept) => if have_same_shape(&kept, ru) {
                NodeMerge {
                    nodes: self.nodes,
                    conc_eqs: self.conc_eqs.concat(zip(&kept.conclusions, &ru.conclusions)),
                    prem_eqs: self.prem_eqs.concat(zip(&kept.premises, &ru.premises)),
                    act_eqs: self.act_eqs.concat(zip(&kept.actions, &ru.actions)),
                    collisions: true,
                    shape_mismatch: self.shape_mismatch,
                }
            } else {
                NodeMerge {
                    nodes: self.nodes,
                    conc_eqs: self.conc_eqs,
                    prem_eqs: self.prem_eqs,
                    act_eqs: self.act_eqs,
                    collisions: true,
                    shape_mismatch: true,
                }
            },
        }
    }

    fn put_all(self, l: &List<(LVar, RuleACInst)>) -> (r: NodeMerge)
        ensures
            r == self.with_all(*l),
        decreases l,
    {
        match l {
            List::Nil => self,
            List::Cons(n, rest) => self.put(&n.0, &n.1).put_all(rest),
        }
    }

    /// All equations: conclusions, premises, actions.
    pub open spec fn eqs(self) -> List<(Fact, Fact)> {
        self.conc_eqs.then_all(self.prem_eqs.then_all(self.act_eqs))
    }
}

/// The merged nodes of the system under the ids that `s` gives them.
pub open spec fn merged_nodes(s: Subst, l: List<(LVar, RuleACInst)>) -> NodeMerge {
    NodeMerge::none().with_all(renamed_nodes(s, l.sorted()))
}

/// The nodes with their rules substituted.
pub open spec fn applied_nodes(s: Subst, l: List<(LVar, RuleACInst)>) -> List<(LVar, RuleACInst)>
    decreases l,
{
    match l {
        List::Nil => List::Nil,
        List::Cons(n, rest) => List::Cons(
            (n.0, applied_rule(s, n.1)),
            Box::new(applied_nodes(s, *rest)),
        ),
    }
}

fn apply_nodes(s: &Subst, l: &List<(LVar, RuleACInst)>) -> (r: List<(LVar, RuleACInst)>)
    ensures
        r == applied_nodes(*s, *l),
    decreases l,
{
    match l {
        List::Nil => List::Nil,
        List::Cons(n, rest) => List::Cons(
            (n.0.dup(), apply_rule(s, &n.1)),
            Box::new(apply_nodes(s, rest)),
        ),
    }
}

/// Whether a rule of the nodes is substituted.
pub open spec fn nodes_touched(s: Subst, l: List<(LVar, RuleACInst)>) -> bool
    decreases l,
{
    match l {
        List::Nil => false,
        List::Cons(n, rest) => rule_touched(s, n.1) || nodes_touched(s, *rest),
    }
}

fn are_nodes_touched(s: &Subst, l: &List<(LVar, RuleACInst)>) -> (r: bool)
    ensures
        r == nodes_touched(*s, *l),
    decreases l,
{
    match l {
        List::Nil => false,
        List::Cons(n, rest) => is_rule_touched(s, &n.1) || are_nodes_touched(s, rest),
    }
}

/// The edge between the nodes under new ids.
pub open spec fn renamed_edge(s: Subst, e: Edge) -> Edge {
    Edge { src: (renamed(s, e.src.0), e.src.1), tgt: (renamed(s, e.tgt.0), e.tgt.1) }
}

pub open spec fn renamed_edges(s: Subst, l: List<Edge>) -> List<Edge>
    decreases l,
{
    match l {
        List::Nil => List::Nil,
        List::Cons(e, rest) => List::Cons(renamed_edge(s, e), Box::new(renamed_edges(s, *rest))),
    }
}

fn rename_edges(s: &Subst, l: &List<Edge>) -> (r: List<Edge>)
    ensures
        r == renamed_edges(*s, *l),
    decreases l,
{
    match l {
        List::Nil => List::Nil,
        List::Cons(e, rest) => {
            let moved = Edge {
                src: (rename_var(s, &e.src.0), e.src.1),
                tgt: (rename_var(s, &e.tgt.0), e.tgt.1),
            };
            List::Cons(moved, Box::new(rename_edges(s, rest)))
        },
    }
}

/// The ordering between the nodes under new ids.
pub open spec fn renamed_less(s: Subst, a: LessAtom) -> LessAtom {
    LessAtom {
        smaller: renamed(s, a.smaller),
        larger: renamed(s, a.larger),
        reason: a.reason,
    }
}

pub open spec fn renamed_lesses(s: Subst, l: List<LessAtom>) -> List<LessAtom>
    decreases l,
{
    match l {
        List::Nil => List::Nil,
        List::Cons(a, rest) => List::Cons(renamed_less(s, a), Box::new(renamed_lesses(s, *rest))),
    }
}

fn rename_lesses(s: &Subst, l: &List<LessAtom>) -> (r: List<LessAtom>)
    ensures
        r == renamed_lesses(*s, *l),
    decreases l,
{
    match l {
        List::Nil => List::Nil,
        List::Cons(a, rest) => {
            let moved = LessAtom {
                smaller: rename_var(s, &a.smaller),
                larger: rename_var(s, &a.larger),
                reason: a.reason,
            };
            List::Cons(moved, Box::new(rename_lesses(s, rest)))
        },
    }
}

/// The orderings `acc`, followed by those of `l` that order a new pair.
pub open spec fn distinct_lesses(acc: List<LessAtom>, l: List<LessAtom>) -> List<LessAtom>
    decreases l,
{
    match l {
        List::Nil => acc,
        List::Cons(a, rest) => distinct_lesses(
            if orders(acc, a.smaller, a.larger) {
                acc
            } else {
                acc.snoc(a)
            },
            *rest,
        ),
    }
}

pub fn drop_repeated_lesses(acc: List<LessAtom>, l: &List<LessAtom>) -> (r: List<LessAtom>)
    ensures
        r == distinct_lesses(acc, *l),
    decreases l,
{
    match l {
        List::Nil => acc,
        List::Cons(a, rest) => if does_order(&acc, &a.smaller, &a.larger) {
            drop_repeated_lesses(acc, rest)
        } else {
            drop_repeated_lesses(acc.with_last(a.dup()), rest)
        },
    }
}

/// The alternatives of a disjunction under the substitution `fs`.
pub open spec fn settled_alternatives(fs: FormulaSubst, l: List<Guarded>) -> List<Guarded>
    decreases l,
{
    match l {
        List::Nil => List::Nil,
        List::Cons(g, rest) => List::Cons(
            settled_alternative(fs, g),
            Box::new(settled_alternatives(fs, *rest)),
        ),
    }
}

fn settle_alternatives(fs: &FormulaSubst, l: &List<Guarded>) -> (r: List<Guarded>)
    ensures
        r == settled_alternatives(*fs, *l),
    decreases l,
{
    match l {
        List::Nil => List::Nil,
        List::Cons(g, rest) => List::Cons(
            settle_alternative(fs, g),
            Box::new(settle_alternatives(fs, rest)),
        ),
    }
}

/// The goal under the substitution.
pub open spec fn applied_goal(s: Subst, fs: FormulaSubst, g: Goal) -> Goal {
    match g {
        Goal::Action(i, fa) => Goal::Action(renamed(s, i), applied_fact(s, fa)),
        Goal::Premise(p, fa) => Goal::Premise((renamed(s, p.0), p.1), applied_fact(s, fa)),
        Goal::Chain(c, p) => Goal::Chain((renamed(s, c.0), c.1), (renamed(s, p.0), p.1)),
        Goal::Disj(l) => if fs is Nil {
            g
        } else {
            Goal::Disj(normal_alternatives(settled_alternatives(fs, l)))
        },
        Goal::Split(_) => g,
        Goal::Subterm(t, u) => Goal::Subterm(applied(s, t), applied(s, u)),
    }
}

fn apply_goal(s: &Subst, fs: &FormulaSubst, g: &Goal) -> (r: Goal)
    ensures
        r == applied_goal(*s, *fs, *g),
{
    match g {
        Goal::Action(i, fa) => Goal::Action(rename_var(s, i), apply_fact(s, fa)),
        Goal::Premise(p, fa) => Goal::Premise((rename_var(s, &p.0), p.1), apply_fact(s, fa)),
        Goal::Chain(c, p) => Goal::Chain(
            (rename_var(s, &c.0), c.1),
            (rename_var(s, &p.0), p.1),
        ),
        Goal::Disj(l) => if fs.is_empty() {
            g.dup()
        } else {
            Goal::Disj(normalise_disj_list(&settle_alternatives(fs, l)))
        },
        Goal::Split(_) => g.dup(),
        Goal::Subterm(t, u) => Goal::Subterm(apply_term(s, t), apply_term(s, u)),
    }
}

/// Whether `s` binds `v` to a variable.
pub open spec fn renames(s: Subst, v: LVar) -> bool {
    match find(s, v) {
        Some(Term::Var(_)) => true,
        _ => false,
    }
}

fn does_rename(s: &Subst, v: &LVar) -> (r: bool)
    ensures
        r == renames(*s, *v),
{
    match look_up(s, v) {
        Some(Term::Var(_)) => true,
        _ => false,
    }
}

/// Whether the substitution reaches the goal.
pub open spec fn goal_touched(s: Subst, fs: FormulaSubst, g: Goal) -> bool {
    match g {
        Goal::Action(i, fa) => renames(s, i) || touches_any(s, fa.terms),
        Goal::Premise(p, fa) => renames(s, p.0) || touches_any(s, fa.terms),
        Goal::Chain(c, p) => renames(s, c.0) || renames(s, p.0),
        Goal::Disj(l) => fs !is Nil && (replaces_any(fs, guardeds_frees(l)) || mapped_guardeds(
            Canon {  },
            0,
            l,
        ) != l),
        Goal::Split(_) => false,
        Goal::Subterm(t, u) => touches(s, t) || touches(s, u),
    }
}

fn is_goal_touched(s: &Subst, fs: &FormulaSubst, g: &Goal) -> (r: bool)
    ensures
        r == goal_touched(*s, *fs, *g),
{
    match g {
        Goal::Action(i, fa) => does_rename(s, i) || is_any_touched(s, &fa.terms),
        Goal::Premise(p, fa) => does_rename(s, &p.0) || is_any_touched(s, &fa.terms),
        Goal::Chain(c, p) => does_rename(s, &c.0) || does_rename(s, &p.0),
        Goal::Disj(l) => !fs.is_empty() && (does_replace_any(fs, &frees_of_guardeds(l))
            || !map_guardeds(&Canon {  }, 0, l).same(l)),
        Goal::Split(_) => false,
        Goal::Subterm(t, u) => is_touched(s, t) || is_touched(s, u),
    }
}

/// Whether a goal has to be taken apart again: the intruder has to know a
/// message variable, a product or a union, and the substitution changes it.
pub open spec fn reopens(s: Subst, g: Goal, status: GoalStatus) -> bool {
    match g {
        Goal::Action(_, fa) => match (fa.tag, first_term(fa)) {
            (FactTag::Ku, Some(t)) => !status.solved && (var_of_sort(t, LSort::Msg)
                || product_or_union(t)) && touches(s, t) && applied(s, t) != t,
            _ => false,
        },
        _ => false,
    }
}

fn does_reopen(s: &Subst, g: &Goal, status: &GoalStatus) -> (r: bool)
    ensures
        r == reopens(*s, *g, *status),
{
    match g {
        Goal::Action(_, fa) => match (&fa.tag, get_first_term(fa)) {
            (FactTag::Ku, Some(t)) => !status.solved && (is_var_of_sort(&t, LSort::Msg)
                || is_product_or_union(&t)) && is_touched(s, &t) && !apply_term(s, &t).same(&t),
            _ => false,
        },
        _ => false,
    }
}

/// The goals under the substitution: those that stay, those that are taken
/// apart again, and whether anything changed.
pub struct GoalPass {
    pub kept: List<(Goal, GoalStatus)>,
    pub reopened: List<(Goal, GoalStatus)>,
    pub value_changed: bool,
}

impl GoalPass {
    /// A further goal: where it equals one that is there, the two statuses are
    /// combined.
    pub open spec fn with(self, s: Subst, fs: FormulaSubst, g: Goal, status: GoalStatus) -> GoalPass {
        let image = applied_goal(s, fs, g);
        let changed = self.value_changed || goal_touched(s, fs, g);
        if reopens(s, g, status) {
            GoalPass {
                reopened: self.reopened.snoc((image, status)),
                value_changed: changed,
                ..self
            }
        } else {
            GoalPass {
                kept: put_goal(self.kept, image, status),
                value_changed: changed || match find(self.kept, image) {
                    Some(there) => combined(there, status) != there,
                    None => false,
                },
                ..self
            }
        }
    }

    pub open spec fn with_all(
        self,
        s: Subst,
        fs: FormulaSubst,
        l: List<(Goal, GoalStatus)>,
    ) -> GoalPass
        decreases l,
    {
        match l {
            List::Nil => self,
            List::Cons(g, rest) => self.with(s, fs, g.0, g.1).with_all(s, fs, *rest),
        }
    }

    fn put(self, s: &Subst, fs: &FormulaSubst, g: &Goal, status: &GoalStatus) -> (r: GoalPass)
        ensures
            r == self.with(*s, *fs, *g, *status),
    {
        let image = apply_goal(s, fs, g);
        let changed = self.value_changed || is_goal_touched(s, fs, g);
        if does_reopen(s, g, status) {
            GoalPass {
                kept: self.kept,
                reopened: self.reopened.with_last((image, status.dup())),
                value_changed: changed,
            }
        } else {
            let merges = match look_up(&self.kept, &image) {
                Some(there) => !crate::system::combine_goal_status(&there, status).same(&there),
                None => false,
            };
            GoalPass {
                kept: set_goal(&self.kept, &image, status),
                reopened: self.reopened,
                value_changed: changed || merges,
            }
        }
    }

    fn put_all(self, s: &Subst, fs: &FormulaSubst, l: &List<(Goal, GoalStatus)>) -> (r: GoalPass)
        ensures
            r == self.with_all(*s, *fs, *l),
        decreases l,
    {
        match l {
            List::Nil => self,
            List::Cons(g, rest) => self.put(s, fs, &g.0, &g.1).put_all(s, fs, rest),
        }
    }
}

/// The goals under the substitution, in the order of goals.
pub open spec fn passed_goals(s: Subst, fs: FormulaSubst, l: List<(Goal, GoalStatus)>) -> GoalPass {
    GoalPass { kept: List::Nil, reopened: List::Nil, value_changed: false }.with_all(
        s,
        fs,
        l.sorted(),
    )
}

/// The stored formulas under the substitution `fs`.
pub open spec fn settled_formulas(fs: FormulaSubst, l: List<Guarded>) -> List<Guarded>
    decreases l,
{
    match l {
        List::Nil => List::Nil,
        List::Cons(g, rest) => List::Cons(
            settled_formula(fs, g),
            Box::new(settled_formulas(fs, *rest)),
        ),
    }
}

fn settle_formulas(fs: &FormulaSubst, l: &List<Guarded>) -> (r: List<Guarded>)
    ensures
        r == settled_formulas(*fs, *l),
    decreases l,
{
    match l {
        List::Nil => List::Nil,
        List::Cons(g, rest) => List::Cons(
            settle_formula(fs, g),
            Box::new(settle_formulas(fs, rest)),
        ),
    }
}

/// Whether a disjunction is among the goals.
pub open spec fn has_disj(l: List<(Goal, GoalStatus)>) -> bool
    decreases l,
{
    match l {
        List::Nil => false,
        List::Cons(g, rest) => g.0 is Disj || has_disj(*rest),
    }
}

fn does_have_disj(l: &List<(Goal, GoalStatus)>) -> (r: bool)
    ensures
        r == has_disj(*l),
    decreases l,
{
    match l {
        List::Nil => false,
        List::Cons(g, rest) => {
            let here = match &g.0 {
                Goal::Disj(_) => true,
                _ => false,
            };
            here || does_have_disj(rest)
        },
    }
}

/// The subterm constraints under the substitution.
pub open spec fn applied_subterms(s: Subst, l: List<SubtermConstraint>) -> List<SubtermConstraint>
    decreases l,
{
    match l {
        List::Nil => List::Nil,
        List::Cons(c, rest) => List::Cons(
            SubtermConstraint {
                small: applied(s, c.small),
                big: applied(s, c.big),
                propagated: c.propagated,
            },
            Box::new(applied_subterms(s, *rest)),
        ),
    }
}

fn apply_subterms(s: &Subst, l: &List<SubtermConstraint>) -> (r: List<SubtermConstraint>)
    ensures
        r == applied_subterms(*s, *l),
    decreases l,
{
    match l {
        List::Nil => List::Nil,
        List::Cons(c, rest) => List::Cons(
            SubtermConstraint {
                small: apply_term(s, &c.small),
                big: apply_term(s, &c.big),
                propagated: c.propagated,
            },
            Box::new(apply_subterms(s, rest)),
        ),
    }
}

/// The pairs of terms under the substitution.
pub open spec fn applied_pairs(s: Subst, l: List<(Term, Term)>) -> List<(Term, Term)>
    decreases l,
{
    match l {
        List::Nil => List::Nil,
        List::Cons(p, rest) => List::Cons(
            (applied(s, p.0), applied(s, p.1)),
            Box::new(applied_pairs(s, *rest)),
        ),
    }
}

fn apply_pairs(s: &Subst, l: &List<(Term, Term)>) -> (r: List<(Term, Term)>)
    ensures
        r == applied_pairs(*s, *l),
    decreases l,
{
    match l {
        List::Nil => List::Nil,
        List::Cons(p, rest) => List::Cons(
            (apply_term(s, &p.0), apply_term(s, &p.1)),
            Box::new(apply_pairs(s, rest)),
        ),
    }
}

/// The subterm store under the substitution.  The negated constraints that
/// were seen before are left as they are, so that changed ones count as new.
pub open spec fn applied_store(s: Subst, st: SubtermStore) -> SubtermStore {
    SubtermStore {
        subterms: applied_subterms(s, st.subterms),
        solved_subterms: applied_subterms(s, st.solved_subterms),
        neg_subterms: applied_pairs(s, st.neg_subterms).nub().sorted(),
        ..st
    }
}

/// Whether the substitution changes a subterm constraint.
pub open spec fn store_changes(s: Subst, st: SubtermStore) -> bool {
    ||| applied_subterms(s, st.subterms) != st.subterms
    ||| applied_subterms(s, st.solved_subterms) != st.solved_subterms
    ||| applied_pairs(s, st.neg_subterms) != st.neg_subterms
}

/// Whether the subterm constraints are others after a pass, or in another order.
pub open spec fn store_differs(s: Subst, st: SubtermStore) -> bool {
    store_changes(s, st) || applied_store(s, st).neg_subterms != st.neg_subterms
}

/// The equations between facts that agree on symbol and number of arguments.
pub open spec fn alike_eqs(eqs: List<(Fact, Fact)>) -> List<(Fact, Fact)>
    decreases eqs,
{
    match eqs {
        List::Nil => List::Nil,
        List::Cons(e, rest) => if alike(e.0, e.1) {
            List::Cons(e, Box::new(alike_eqs(*rest)))
        } else {
            alike_eqs(*rest)
        },
    }
}

fn keep_alike_eqs(eqs: &List<(Fact, Fact)>) -> (r: List<(Fact, Fact)>)
    ensures
        r == alike_eqs(*eqs),
    decreases eqs,
{
    match eqs {
        List::Nil => List::Nil,
        List::Cons(e, rest) => if are_alike(&e.0, &e.1) {
            List::Cons(e.dup(), Box::new(keep_alike_eqs(rest)))
        } else {
            keep_alike_eqs(rest)
        },
    }
}

impl<'a> Reduction<'a> {
    /// The substitution that a pass applies to formulas: none where there is
    /// nothing to apply it to.
    pub open spec fn pass_formula_subst(self) -> FormulaSubst {
        if self.sys.formulas is Nil && self.sys.solved_formulas is Nil && self.sys.lemmas is Nil
            && !has_disj(self.sys.goals) {
            List::Nil
        } else {
            formula_subst(self.sys.eq_store.subst, self.sys.eq_store.subst, List::Nil)
        }
    }

    /// The reduction after the nodes have been substituted.
    pub open spec fn nodes_passed(self, s: Subst) -> Self {
        let m = merged_nodes(s, self.sys.nodes);
        let red = self.on(System { nodes: applied_nodes(s, m.nodes), ..self.sys });
        if m.shape_mismatch {
            red.refuted()
        } else {
            red
        }
    }

    /// The reduction after edges, last node and orderings have been
    /// substituted.
    pub open spec fn order_passed(self, s: Subst) -> Self {
        self.on(
            System {
                edges: renamed_edges(s, self.sys.edges).sorted().nub(),
                last_atom: match self.sys.last_atom {
                    Some(i) => Some(renamed(s, i)),
                    None => None,
                },
                less_atoms: distinct_lesses(List::Nil, renamed_lesses(s, self.sys.less_atoms)),
                ..self.sys
            },
        )
    }

    /// The reduction with the goals inserted anew.
    pub open spec fn goals_reopened(self, l: List<(Goal, GoalStatus)>) -> Self
        decreases l,
    {
        match l {
            List::Nil => self,
            List::Cons(g, rest) => self.goal_inserted(g.0, g.1.looping).goals_reopened(*rest),
        }
    }

    /// The reduction after the goals have been substituted.
    pub open spec fn goals_passed(self, s: Subst, fs: FormulaSubst) -> Self {
        let p = passed_goals(s, fs, self.sys.goals);
        self.on(System { goals: p.kept, ..self.sys }).goals_reopened(p.reopened)
    }

    /// Whether the substitution changes a stored formula.
    pub open spec fn formulas_change(self, fs: FormulaSubst) -> bool {
        fs !is Nil && (settled_formulas(fs, self.sys.formulas) != self.sys.formulas
            || settled_formulas(fs, self.sys.solved_formulas) != self.sys.solved_formulas
            || settled_formulas(fs, self.sys.lemmas) != self.sys.lemmas)
    }

    /// Whether the formulas are others after a pass.
    pub open spec fn formulas_differ(self, fs: FormulaSubst) -> bool {
        self.formulas_change(fs) || fs !is Nil && (settled_formulas(fs, self.sys.formulas).nub()
            != self.sys.formulas || settled_formulas(fs, self.sys.solved_formulas).nub()
            != self.sys.solved_formulas || settled_formulas(fs, self.sys.lemmas).nub()
            != self.sys.lemmas)
    }

    /// The reduction after the formulas have been substituted; formulas that
    /// became equal are kept once.
    pub open spec fn formulas_passed(self, fs: FormulaSubst) -> Self {
        if fs is Nil {
            self
        } else {
            self.on(
                System {
                    formulas: settled_formulas(fs, self.sys.formulas).nub(),
                    solved_formulas: settled_formulas(fs, self.sys.solved_formulas).nub(),
                    lemmas: settled_formulas(fs, self.sys.lemmas).nub(),
                    ..self.sys
                },
            ).touched_if(self.formulas_change(fs))
        }
    }

    /// The reduction after the subterm constraints have been substituted.
    pub open spec fn subterms_passed(self, s: Subst) -> Self {
        self.on(
            System { subterm_store: applied_store(s, self.sys.subterm_store), ..self.sys },
        ).touched_if(store_changes(s, self.sys.subterm_store))
    }

    /// The reduction after the rules that came to share a node have been
    /// equated.  Where that is impossible, there is no model.
    pub open spec fn collisions_solved(self, eqs: List<(Fact, Fact)>) -> Answered<Self> {
        if eqs is Nil {
            Ok(self)
        } else {
            let safe = alike_eqs(eqs);
            let start = if safe.size() == eqs.size() {
                self
            } else {
                self.refuted()
            };
            match start.fact_eqs(SplitStrategy::SplitLater, safe) {
                Err(q) => Err(q),
                Ok((red, out)) => Ok(
                    if out.dead() {
                        red.refuted()
                    } else {
                        red
                    },
                ),
            }
        }
    }

    /// What a pass changes.
    pub open spec fn signals(self) -> PassSignals {
        let s = self.sys.eq_store.subst;
        let fs = self.pass_formula_subst();
        let m = merged_nodes(s, self.sys.nodes);
        let p = passed_goals(s, fs, self.sys.goals);
        let before = self.nodes_passed(s).order_passed(s).goals_passed(s, fs);
        PassSignals {
            nodes_value_changed: ids_change(s, self.sys.nodes) || nodes_touched(s, m.nodes)
                || applied_nodes(s, m.nodes) != self.sys.nodes,
            collisions: m.collisions,
            shape_mismatch: m.shape_mismatch,
            edges_value_changed: renamed_edges(s, self.sys.edges) != self.sys.edges
                || renamed_edges(s, self.sys.edges).sorted().nub() != self.sys.edges,
            last_atom_changed: match self.sys.last_atom {
                Some(i) => renamed(s, i) != i,
                None => false,
            },
            less_value_changed: renamed_lesses(s, self.sys.less_atoms) != self.sys.less_atoms
                || distinct_lesses(List::Nil, renamed_lesses(s, self.sys.less_atoms))
                != self.sys.less_atoms,
            goals_value_changed: p.value_changed || p.kept != self.sys.goals,
            formulas_value_changed: before.formulas_differ(fs),
            changed_sst: store_differs(s, self.sys.subterm_store),
            had_rule_eqs: m.eqs() !is Nil,
            had_insert_action: p.reopened !is Nil,
        }
    }

    /// The reduction after one pass of the substitution over the system.
    #[verifier::opaque]
    pub open spec fn passed(self) -> Answered<(Self, bool)> {
        let s = self.sys.eq_store.subst;
        let fs = self.pass_formula_subst();
        if s is Nil {
            Ok((self, false))
        } else {
            let red = self.nodes_passed(s).order_passed(s).goals_passed(s, fs).formulas_passed(
                fs,
            ).subterms_passed(s);
            match red.collisions_solved(merged_nodes(s, self.sys.nodes).eqs()) {
                Err(q) => Err(q),
                Ok(end) => Ok((end, self.signals().any())),
            }
        }
    }

    fn pass_order(&mut self, s: &Subst) -> (moved: (bool, bool))
        ensures
            *final(self) == old(self).order_passed(*s),
            moved.0 == (final(self).sys.edges != old(self).sys.edges),
            moved.1 == (final(self).sys.less_atoms != old(self).sys.less_atoms),
    {
        let edges = rename_edges(s, &self.sys.edges).sort().dedup();
        let edges_moved = !edges.same(&self.sys.edges);
        self.sys.edges = edges;
        let last = match &self.sys.last_atom {
            Some(i) => Some(rename_var(s, i)),
            None => None,
        };
        self.sys.last_atom = last;
        let less_atoms = drop_repeated_lesses(
            List::Nil,
            &rename_lesses(s, &self.sys.less_atoms),
        );
        let less_moved = !less_atoms.same(&self.sys.less_atoms);
        self.sys.less_atoms = less_atoms;
        (edges_moved, less_moved)
    }

    fn reopen_goals(&mut self, l: &List<(Goal, GoalStatus)>)
        ensures
            *final(self) == old(self).goals_reopened(*l),
        decreases l,
    {
        match l {
            List::Nil => {},
            List::Cons(g, rest) => {
                self.insert_goal_with_loop_flag(g.0.dup(), g.1.looping);
                self.reopen_goals(rest);
            },
        }
    }

    fn pass_formulas(&mut self, fs: &FormulaSubst) -> (differ: bool)
        ensures
            *final(self) == old(self).formulas_passed(*fs),
            differ == old(self).formulas_differ(*fs),
    {
        if fs.is_empty() {
            return false;
        }
        let formulas = settle_formulas(fs, &self.sys.formulas);
        let solved = settle_formulas(fs, &self.sys.solved_formulas);
        let lemmas = settle_formulas(fs, &self.sys.lemmas);
        let changed = !formulas.same(&self.sys.formulas) || !solved.same(&self.sys.solved_formulas)
            || !lemmas.same(&self.sys.lemmas);
        let formulas = formulas.dedup();
        let solved = solved.dedup();
        let lemmas = lemmas.dedup();
        let differ = changed || !formulas.same(&self.sys.formulas) || !solved.same(
            &self.sys.solved_formulas,
        ) || !lemmas.same(&self.sys.lemmas);
        self.sys.formulas = formulas;
        self.sys.solved_formulas = solved;
        self.sys.lemmas = lemmas;
        if changed {
            self.changed = ChangeIndicator::Changed;
        }
        differ
    }

    fn pass_subterms(&mut self, s: &Subst) -> (differ: bool)
        ensures
            *final(self) == old(self).subterms_passed(*s),
            differ == store_differs(*s, old(self).sys.subterm_store),
    {
        let subterms = apply_subterms(s, &self.sys.subterm_store.subterms);
        let solved = apply_subterms(s, &self.sys.subterm_store.solved_subterms);
        let negs = apply_pairs(s, &self.sys.subterm_store.neg_subterms);
        let changed = !subterms.same(&self.sys.subterm_store.subterms) || !solved.same(
            &self.sys.subterm_store.solved_subterms,
        ) || !negs.same(&self.sys.subterm_store.neg_subterms);
        self.sys.subterm_store.subterms = subterms;
        self.sys.subterm_store.solved_subterms = solved;
        let negs = negs.dedup().sort();
        let differ = changed || !negs.same(&self.sys.subterm_store.neg_subterms);
        self.sys.subterm_store.neg_subterms = negs;
        if changed {
            self.changed = ChangeIndicator::Changed;
        }
        differ
    }

    fn solve_collisions(&mut self, eqs: &List<(Fact, Fact)>) -> (r: Answered<()>)
        ensures
            match old(self).collisions_solved(*eqs) {
                Ok(red) => r == Ok::<(), Query>(()) && *final(self) == red,
                Err(q) => r == Err::<(), Query>(q),
            },
    {
        if eqs.is_empty() {
            return Ok(());
        }
        let safe = keep_alike_eqs(eqs);
        if !same_size(&safe, eqs) {
            self.mark_contradictory();
        }
        match self.solve_fact_eqs(SplitStrategy::SplitLater, &safe) {
            Err(q) => Err(q),
            Ok(out) => {
                if out.is_dead() {
                    self.mark_contradictory();
                }
                Ok(())
            },
        }
    }

    /// One pass of the substitution over the system; says whether anything
    /// changed, the order of the parts among it.
    pub fn subst_system_once(&mut self) -> (r: Answered<bool>)
        ensures
            ends(old(self).passed(), *final(self), r),
    {
        proof {
            reveal(Reduction::passed);
        }
        if self.sys.eq_store.subst.is_empty() {
            return Ok(false);
        }
        let s = self.sys.eq_store.subst.dup();
        let fs = if self.sys.formulas.is_empty() && self.sys.solved_formulas.is_empty()
            && self.sys.lemmas.is_empty() && !does_have_disj(&self.sys.goals) {
            List::Nil
        } else {
            build_formula_subst(&s, &s, List::Nil)
        };
        let ids_changed = do_ids_change(&s, &self.sys.nodes);
        let none = NodeMerge {
            nodes: List::Nil,
            conc_eqs: List::Nil,
            prem_eqs: List::Nil,
            act_eqs: List::Nil,
            collisions: false,
            shape_mismatch: false,
        };
        let m = none.put_all(&rename_nodes(&s, &self.sys.nodes.sort()));
        let rules_changed = are_nodes_touched(&s, &m.nodes);
        let nodes = apply_nodes(&s, &m.nodes);
        let nodes_moved = !nodes.same(&self.sys.nodes);
        self.sys.nodes = nodes;
        if m.shape_mismatch {
            self.mark_contradictory();
        }
        let edges_value_changed = !rename_edges(&s, &self.sys.edges).same(&self.sys.edges);
        let last_atom_changed = match &self.sys.last_atom {
            Some(i) => !rename_var(&s, i).same(i),
            None => false,
        };
        let less_value_changed = !rename_lesses(&s, &self.sys.less_atoms).same(
            &self.sys.less_atoms,
        );
        let (edges_moved, less_moved) = self.pass_order(&s);
        let start = GoalPass { kept: List::Nil, reopened: List::Nil, value_changed: false };
        let p = start.put_all(&s, &fs, &self.sys.goals.sort());
        let goals_moved = !p.kept.same(&self.sys.goals);
        self.sys.goals = p.kept;
        self.reopen_goals(&p.reopened);
        let formulas_value_changed = self.pass_formulas(&fs);
        let changed_sst = self.pass_subterms(&s);
        let prem_act = m.prem_eqs.concat(m.act_eqs);
        let eqs = m.conc_eqs.concat(prem_act);
        let signals = PassSignals {
            nodes_value_changed: ids_changed || rules_changed || nodes_moved,
            collisions: m.collisions,
            shape_mismatch: m.shape_mismatch,
            edges_value_changed: edges_value_changed || edges_moved,
            last_atom_changed,
            less_value_changed: less_value_changed || less_moved,
            goals_value_changed: p.value_changed || goals_moved,
            formulas_value_changed,
            changed_sst,
            had_rule_eqs: !eqs.is_empty(),
            had_insert_action: !p.reopened.is_empty(),
        };
        match self.solve_collisions(&eqs) {
            Err(q) => Err(q),
            Ok(()) => Ok(signals.raised()),
        }
    }

    /// The reduction after at most `rounds` passes, until a pass adds no
    /// binding to the substitution.
    pub open spec fn passes(self, rounds: nat) -> Answered<Self>
        decreases rounds,
    {
        match self.passed() {
            Err(q) => Err(q),
            Ok((red, _)) => if red.sys.eq_store.subst.size() == self.sys.eq_store.subst.size()
                || rounds <= 1 {
                Ok(red)
            } else {
                red.passes((rounds - 1) as nat)
            },
        }
    }

    /// The reduction after the substitution has been applied to the system.
    #[verifier::opaque]
    pub open spec fn system_substituted(self) -> Answered<Self> {
        self.passes(PASSES as nat)
    }

    fn run_passes(&mut self, rounds: u64) -> (r: Answered<()>)
        ensures
            match old(self).passes(rounds as nat) {
                Ok(red) => r == Ok::<(), Query>(()) && *final(self) == red,
                Err(q) => r == Err::<(), Query>(q),
            },
        decreases rounds,
    {
        let before = self.sys.eq_store.subst.dup();
        match self.subst_system_once() {
            Err(q) => {
                return Err(q);
            },
            Ok(_) => {},
        }
        if same_size(&self.sys.eq_store.subst, &before) || rounds <= 1 {
            Ok(())
        } else {
            self.run_passes(rounds - 1)
        }
    }

    /// Applies the substitution of the equations to the whole system, until it
    /// grows no more.
    pub fn subst_system(&mut self) -> (r: Answered<()>)
        ensures
            match old(self).system_substituted() {
                Ok(red) => r == Ok::<(), Query>(()) && *final(self) == red,
                Err(q) => r == Err::<(), Query>(q),
            },
    {
        proof {
            reveal(Reduction::system_substituted);
        }
        self.run_passes(PASSES)
    }
}

/// The passes after which the substitution is applied no further.
pub const PASSES: u64 = 32;

} // verus!
