//! That renumbering does not depend on the order of operands.
use crate::constraints::{EquationStore, Goal, GoalStatus, SubtermConstraint, SubtermStore};
use crate::facts::{Fact, RuleACInst};
use crate::leaves::{
    mapped_fact, mapped_facts, mapped_rule, mapped_term, mapped_terms, Canon, Leaves,
};
use crate::list::List;
use crate::rename_laws::{
    each, law_renaming_is_total, lemma_namer_visits, lemma_renamed_alike, lemma_system_renamed,
    renumbered, renumbers, system_vars, visited_alike,
};
use crate::rename_precise::{
    on_terms, precise, renamed_constraints, renamed_goal, renamed_goals, renamed_nodes,
    renamed_pairs, renamed_subst, renamed_system, system_namer, Namer, Renaming,
};
use crate::system::System;
use crate::term_laws::{images_normal, law_normal_form_is_mapped, law_normal_forms_are_mapped};
use crate::terms::{LVar, Term};
use vstd::prelude::*;

verus! {

/// The normal form of a term.
pub open spec fn normal_form(t: Term) -> Term {
    mapped_term(Canon {  }, 0, t)
}

/// The node with its terms in normal form.
pub open spec fn node_normal() -> spec_fn((LVar, RuleACInst)) -> (LVar, RuleACInst) {
    |n: (LVar, RuleACInst)| (n.0, mapped_rule(Canon {  }, n.1))
}

/// The pair of terms in normal form.
pub open spec fn pair_normal() -> spec_fn((Term, Term)) -> (Term, Term) {
    |p: (Term, Term)| (normal_form(p.0), normal_form(p.1))
}

/// The subterm constraint with its terms in normal form.
pub open spec fn constraint_normal() -> spec_fn(SubtermConstraint) -> SubtermConstraint {
    |c: SubtermConstraint|
        SubtermConstraint { small: normal_form(c.small), big: normal_form(c.big), ..c }
}

/// The binding with its term in normal form.
pub open spec fn binding_normal() -> spec_fn((LVar, Term)) -> (LVar, Term) {
    |b: (LVar, Term)| (b.0, normal_form(b.1))
}

/// The goal with its terms in normal form; a disjunction stays as it is.
pub open spec fn goal_normal() -> spec_fn((Goal, GoalStatus)) -> (Goal, GoalStatus) {
    |g: (Goal, GoalStatus)|
        (
            match g.0 {
                Goal::Action(i, fa) => Goal::Action(i, mapped_fact(Canon {  }, 0, fa)),
                Goal::Premise(p, fa) => Goal::Premise(p, mapped_fact(Canon {  }, 0, fa)),
                Goal::Subterm(s, t) => Goal::Subterm(normal_form(s), normal_form(t)),
                _ => g.0,
            },
            g.1,
        )
}

/// The system with all terms outside formulas in normal form.
pub open spec fn normalised(sys: System) -> System {
    System {
        nodes: each(sys.nodes, node_normal()),
        goals: each(sys.goals, goal_normal()),
        eq_store: EquationStore {
            subst: each(sys.eq_store.subst, binding_normal()),
            ..sys.eq_store
        },
        subterm_store: SubtermStore {
            subterms: each(sys.subterm_store.subterms, constraint_normal()),
            solved_subterms: each(sys.subterm_store.solved_subterms, constraint_normal()),
            neg_subterms: each(sys.subterm_store.neg_subterms, pair_normal()),
            ..sys.subterm_store
        },
        ..sys
    }
}

proof fn lemma_renaming_is_normal(pairs: Renaming)
    ensures
        on_terms(pairs).rebuilds(),
        images_normal(on_terms(pairs)),
{
}

proof fn lemma_term(pairs: Renaming, t: Term)
    ensures
        mapped_term(on_terms(pairs), 0, normal_form(t)) == mapped_term(on_terms(pairs), 0, t),
{
    lemma_renaming_is_normal(pairs);
    law_normal_form_is_mapped(on_terms(pairs), 0, 0, t);
}

proof fn lemma_terms(pairs: Renaming, l: List<Term>)
    ensures
        mapped_terms(on_terms(pairs), 0, mapped_terms(Canon {  }, 0, l)) == mapped_terms(
            on_terms(pairs),
            0,
            l,
        ),
{
    lemma_renaming_is_normal(pairs);
    law_normal_forms_are_mapped(on_terms(pairs), 0, 0, l);
}

proof fn lemma_facts(pairs: Renaming, l: List<Fact>)
    ensures
        mapped_facts(on_terms(pairs), mapped_facts(Canon {  }, l)) == mapped_facts(
            on_terms(pairs),
            l,
        ),
    decreases l,
{
    match l {
        List::Nil => {},
        List::Cons(fa, rest) => {
            lemma_terms(pairs, fa.terms);
            lemma_facts(pairs, *rest);
        },
    }
}

proof fn lemma_nodes(pairs: Renaming, l: List<(LVar, RuleACInst)>)
    ensures
        renamed_nodes(pairs, each(l, node_normal())) == renamed_nodes(pairs, l),
    decreases l,
{
    match l {
        List::Nil => {},
        List::Cons(n, rest) => {
            lemma_facts(pairs, n.1.premises);
            lemma_facts(pairs, n.1.conclusions);
            lemma_facts(pairs, n.1.actions);
            lemma_terms(pairs, n.1.new_vars);
            lemma_nodes(pairs, *rest);
        },
    }
}

proof fn lemma_pairs(pairs: Renaming, l: List<(Term, Term)>)
    ensures
        renamed_pairs(pairs, each(l, pair_normal())) == renamed_pairs(pairs, l),
    decreases l,
{
    match l {
        List::Nil => {},
        List::Cons(p, rest) => {
            lemma_term(pairs, p.0);
            lemma_term(pairs, p.1);
            lemma_pairs(pairs, *rest);
        },
    }
}

proof fn lemma_constraints(pairs: Renaming, l: List<SubtermConstraint>)
    ensures
        renamed_constraints(pairs, each(l, constraint_normal())) == renamed_constraints(pairs, l),
    decreases l,
{
    match l {
        List::Nil => {},
        List::Cons(c, rest) => {
            lemma_term(pairs, c.small);
            lemma_term(pairs, c.big);
            lemma_constraints(pairs, *rest);
        },
    }
}

proof fn lemma_bindings(pairs: Renaming, l: List<(LVar, Term)>)
    ensures
        renamed_subst(pairs, each(l, binding_normal())) == renamed_subst(pairs, l),
    decreases l,
{
    match l {
        List::Nil => {},
        List::Cons(b, rest) => {
            lemma_term(pairs, b.1);
            lemma_bindings(pairs, *rest);
        },
    }
}

proof fn lemma_goals(pairs: Renaming, l: List<(Goal, GoalStatus)>)
    ensures
        renamed_goals(pairs, each(l, goal_normal())) == renamed_goals(pairs, l),
    decreases l,
{
    match l {
        List::Nil => {},
        List::Cons(g, rest) => {
            match g.0 {
                Goal::Action(_, fa) => {
                    lemma_terms(pairs, fa.terms);
                },
                Goal::Premise(_, fa) => {
                    lemma_terms(pairs, fa.terms);
                },
                Goal::Subterm(s, t) => {
                    lemma_term(pairs, s);
                    lemma_term(pairs, t);
                },
                _ => {},
            }
            assert(renamed_goal(pairs, goal_normal()(g).0) == renamed_goal(pairs, g.0));
            lemma_goals(pairs, *rest);
        },
    }
}

/// A renaming makes the same of a system as of one with its terms in normal form.
pub proof fn law_renaming_ignores_operand_order(pairs: Renaming, sys: System)
    ensures
        renamed_system(pairs, normalised(sys)) == renamed_system(pairs, sys),
{
    lemma_nodes(pairs, sys.nodes);
    lemma_goals(pairs, sys.goals);
    lemma_bindings(pairs, sys.eq_store.subst);
    lemma_constraints(pairs, sys.subterm_store.subterms);
    lemma_constraints(pairs, sys.subterm_store.solved_subterms);
    lemma_pairs(pairs, sys.subterm_store.neg_subterms);
}

/// Systems with variables that differ only by the numbers of their variables, and by
/// the order of operands that comes of it, are the same once they have been
/// renumbered precisely, as long as the variables of each name are first met in the
/// same order.
pub proof fn law_rename_forgets_operand_order(f: spec_fn(LVar) -> LVar, sys: System)
    requires
        renumbers(f, system_vars(sys)),
        visited_alike(f, sys, normalised(renumbered(f, sys))),
        system_vars(sys) !is Nil,
    ensures
        precise(normalised(renumbered(f, sys))) == precise(sys),
{
    let other = normalised(renumbered(f, sys));
    let pairs = system_namer(sys).pairs;
    let image = system_namer(other).pairs;
    lemma_renamed_alike(f, sys, other);
    lemma_namer_visits(sys);
    law_renaming_is_total(Namer::none(), system_vars(sys));
    assert(pairs !is Nil);
    lemma_system_renamed(f, pairs, image, sys);
    law_renaming_ignores_operand_order(image, renumbered(f, sys));
}

} // verus!
