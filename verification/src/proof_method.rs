//! Proof methods: what can be done with a constraint system in one step.
use crate::constraints::{Goal, SubtermConstraint};
use crate::context::{Answered, Contradiction, ProofContext, Query, SimplifyQuery};
use crate::goals::{Case, GoalCases};
use crate::guarded::Guarded;
use crate::list::{find, look_up, List, Value};
use crate::names::{cat, decimal, to_decimal};
use crate::reduction::{ends, Reduction};
use crate::rename_precise::{cleaned, cleanup};
use crate::subterms::is_shorter;
use crate::system::System;
use crate::term_ops::{after, next_after};
use crate::terms::{FunSym, Term};
use crate::text::{text_of, Text};
use vstd::prelude::*;

verus! {

/// How a system is finished.
#[derive(Debug, PartialEq, Eq)]
pub enum Result {
    /// It has a solution.
    Solved,
    /// It has none.
    Contradictory(Option<Contradiction>),
    /// Nothing is left to do, and yet it is not known to have a solution.
    Unfinishable,
}

/// A step of a proof.
#[derive(Debug, PartialEq, Eq)]
pub enum ProofMethod {
    /// The proof is left open, for a reason that may be given.
    Sorry(Option<Text>),
    /// The system is simplified.
    Simplify,
    /// A goal is solved.
    SolveGoal(Goal),
    /// The formula is proved by induction.
    Induction,
    /// The system is finished.
    Finished(Result),
    /// The step does not fit any more.
    Invalidated,
    /// A goal that could not be read.
    RawSolve(Text),
}

/// Whether the symbol at the top of the term is one that no equation reduces.
pub open spec fn top_irreducible(reducible: List<FunSym>, t: Term) -> bool {
    match t {
        Term::App(f, _) => !reducible.has(f),
        _ => true,
    }
}

fn is_top_irreducible(reducible: &List<FunSym>, t: &Term) -> (r: bool)
    ensures
        r == top_irreducible(*reducible, *t),
{
    match t {
        Term::App(f, _) => !reducible.contains(f),
        _ => true,
    }
}

/// Whether the larger terms of the constraints are irreducible at the top.
pub open spec fn constraints_settled(reducible: List<FunSym>, l: List<SubtermConstraint>) -> bool
    decreases l,
{
    match l {
        List::Nil => true,
        List::Cons(c, rest) => top_irreducible(reducible, c.big) && constraints_settled(
            reducible,
            *rest,
        ),
    }
}

fn are_constraints_settled(reducible: &List<FunSym>, l: &List<SubtermConstraint>) -> (r: bool)
    ensures
        r == constraints_settled(*reducible, *l),
    decreases l,
{
    match l {
        List::Nil => true,
        List::Cons(c, rest) => is_top_irreducible(reducible, &c.big) && are_constraints_settled(
            reducible,
            rest,
        ),
    }
}

/// Whether the larger terms of the pairs are irreducible at the top.
pub open spec fn pairs_settled(reducible: List<FunSym>, l: List<(Term, Term)>) -> bool
    decreases l,
{
    match l {
        List::Nil => true,
        List::Cons(p, rest) => top_irreducible(reducible, p.1) && pairs_settled(reducible, *rest),
    }
}

fn are_pairs_settled(reducible: &List<FunSym>, l: &List<(Term, Term)>) -> (r: bool)
    ensures
        r == pairs_settled(*reducible, *l),
    decreases l,
{
    match l {
        List::Nil => true,
        List::Cons(p, rest) => is_top_irreducible(reducible, &p.1) && are_pairs_settled(
            reducible,
            rest,
        ),
    }
}

/// Whether no subterm constraint can change its meaning any more.
pub open spec fn subterms_settled(ctx: &ProofContext, sys: System) -> bool {
    &&& constraints_settled(ctx.reducible, sys.subterm_store.subterms)
    &&& constraints_settled(ctx.reducible, sys.subterm_store.solved_subterms)
    &&& pairs_settled(ctx.reducible, sys.subterm_store.neg_subterms)
}

/// Whether no subterm constraint can change its meaning any more: no larger term
/// has a reducible symbol at the top.
pub fn finished_subterms(ctx: &ProofContext, sys: &System) -> (r: bool)
    ensures
        r == subterms_settled(ctx, *sys),
{
    are_constraints_settled(&ctx.reducible, &sys.subterm_store.subterms)
        && are_constraints_settled(&ctx.reducible, &sys.subterm_store.solved_subterms)
        && are_pairs_settled(&ctx.reducible, &sys.subterm_store.neg_subterms)
}

/// How the system is finished, if it is.
pub open spec fn finished(ctx: &ProofContext, sys: System) -> Answered<Option<Result>> {
    if sys.initial() {
        Ok(None)
    } else {
        match find(ctx.answers.contradictions, sys) {
            None => Err(Query::Contradictions(sys)),
            Some(List::Cons(c, _)) => Ok(Some(Result::Contradictory(Some(c)))),
            Some(List::Nil) => match find(ctx.answers.open_goals, sys) {
                None => Err(Query::OpenGoals(sys)),
                Some(List::Cons(_, _)) => Ok(None),
                Some(List::Nil) => Ok(
                    Some(
                        if subterms_settled(ctx, sys) {
                            Result::Solved
                        } else {
                            Result::Unfinishable
                        },
                    ),
                ),
            },
        }
    }
}

/// How the system is finished, if it is.
pub fn is_finished(ctx: &ProofContext, sys: &System) -> (r: Answered<Option<Result>>)
    ensures
        r == finished(ctx, *sys),
{
    if sys.is_initial() {
        return Ok(None);
    }
    match look_up(&ctx.answers.contradictions, sys) {
        None => {
            return Err(Query::Contradictions(sys.dup()));
        },
        Some(List::Cons(c, _)) => {
            return Ok(Some(Result::Contradictory(Some(c))));
        },
        Some(List::Nil) => {},
    }
    match look_up(&ctx.answers.open_goals, sys) {
        None => Err(Query::OpenGoals(sys.dup())),
        Some(List::Cons(_, _)) => Ok(None),
        Some(List::Nil) => if finished_subterms(ctx, sys) {
            Ok(Some(Result::Solved))
        } else {
            Ok(Some(Result::Unfinishable))
        },
    }
}

/// The number of cases with the given name.
pub open spec fn occurrences(l: List<(Text, System)>, name: Text) -> u64
    decreases l,
{
    match l {
        List::Nil => 0,
        List::Cons(c, rest) => if c.0 == name {
            after(occurrences(*rest, name))
        } else {
            occurrences(*rest, name)
        },
    }
}

fn count_occurrences(l: &List<(Text, System)>, name: &Text) -> (r: u64)
    ensures
        r == occurrences(*l, *name),
    decreases l,
{
    match l {
        List::Nil => 0,
        List::Cons(c, rest) => if c.0.same(name) {
            next_after(count_occurrences(rest, name))
        } else {
            count_occurrences(rest, name)
        },
    }
}

/// The digits with zeros in front, so that there are as many as in `widest`.
pub open spec fn zero_padded(digits: List<char>, widest: List<char>) -> List<char>
    decreases widest,
{
    match widest {
        List::Nil => digits,
        List::Cons(_, rest) => if digits.size() < widest.size() {
            List::Cons('0', Box::new(zero_padded(digits, *rest)))
        } else {
            digits
        },
    }
}

fn pad_with_zeros(digits: &List<char>, widest: &List<char>) -> (r: List<char>)
    ensures
        r == zero_padded(*digits, *widest),
    decreases widest,
{
    match widest {
        List::Nil => digits.dup(),
        List::Cons(_, rest) => if is_shorter(digits, widest) {
            List::Cons('0', Box::new(pad_with_zeros(digits, rest)))
        } else {
            digits.dup()
        },
    }
}

/// The name of the case that is the `n`-th of `total` cases of the same name.
pub open spec fn case_of_several(name: Text, n: u64, total: u64) -> Text {
    cat(
        cat(name, text_of("_case_"@)),
        Text { chars: zero_padded(decimal(n).chars, decimal(total).chars) },
    )
}

fn name_of_several(name: &Text, n: u64, total: u64) -> (r: Text)
    ensures
        r == case_of_several(*name, n, total),
{
    let digits = pad_with_zeros(&to_decimal(n).chars, &to_decimal(total).chars);
    let infix = Text::new("_case_");
    Text { chars: name.chars.concat(infix.chars).concat(digits) }
}

/// The cases of `l` under names that differ: where several of all cases share a
/// name, they are numbered.  `before` are the cases in front of `l`.
pub open spec fn told_apart(
    before: List<(Text, System)>,
    l: List<(Text, System)>,
    all: List<(Text, System)>,
) -> List<(Text, System)>
    decreases l,
{
    match l {
        List::Nil => List::Nil,
        List::Cons(c, rest) => {
            let total = occurrences(all, c.0);
            let name = if total > 1 {
                case_of_several(c.0, after(occurrences(before, c.0)), total)
            } else {
                c.0
            };
            List::Cons((name, c.1), Box::new(told_apart(before.snoc(c), *rest, all)))
        },
    }
}

fn tell_apart(
    before: List<(Text, System)>,
    l: &List<(Text, System)>,
    all: &List<(Text, System)>,
) -> (r: List<(Text, System)>)
    ensures
        r == told_apart(before, *l, *all),
    decreases l,
{
    match l {
        List::Nil => List::Nil,
        List::Cons(c, rest) => {
            let total: u64 = count_occurrences(all, &c.0);
            let name = if total > 1 {
                name_of_several(&c.0, next_after(count_occurrences(&before, &c.0)), total)
            } else {
                c.0.dup()
            };
            let more = tell_apart(before.with_last(c.dup()), rest, all);
            List::Cons((name, c.1.dup()), Box::new(more))
        },
    }
}

/// The cases under names that differ.
pub open spec fn distinguished(cases: List<(Text, System)>) -> List<(Text, System)> {
    told_apart(List::Nil, cases, cases)
}

/// Tells cases of the same name apart by numbers.
pub fn distinguish_case_names(cases: &List<(Text, System)>) -> (r: List<(Text, System)>)
    ensures
        r == distinguished(*cases),
{
    tell_apart(List::Nil, cases, cases)
}

/// The elements at the given positions.
pub open spec fn picked<T>(l: List<T>, positions: List<u64>) -> List<T>
    decreases positions,
{
    match positions {
        List::Nil => List::Nil,
        List::Cons(i, rest) => match l.nth(i as nat) {
            Some(x) => List::Cons(x, Box::new(picked(l, *rest))),
            None => picked(l, *rest),
        },
    }
}

fn pick<T: Value>(l: &List<T>, positions: &List<u64>) -> (r: List<T>)
    ensures
        r == picked(*l, *positions),
    decreases positions,
{
    match positions {
        List::Nil => List::Nil,
        List::Cons(i, rest) => match l.get(*i) {
            Some(x) => List::Cons(x, Box::new(pick(l, rest))),
            None => pick(l, rest),
        },
    }
}

/// The systems of the cases.
pub open spec fn systems(l: List<(Text, System)>) -> List<System>
    decreases l,
{
    match l {
        List::Nil => List::Nil,
        List::Cons(c, rest) => List::Cons(c.1, Box::new(systems(*rest))),
    }
}

fn get_systems(l: &List<(Text, System)>) -> (r: List<System>)
    ensures
        r == systems(*l),
    decreases l,
{
    match l {
        List::Nil => List::Nil,
        List::Cons(c, rest) => List::Cons(c.1.dup(), Box::new(get_systems(rest))),
    }
}

/// The positions of the systems that are not redundant.
pub open spec fn kept_positions(ctx: &ProofContext, l: List<System>) -> Answered<List<u64>> {
    match find(ctx.answers.non_redundant, l) {
        None => Err(Query::NonRedundant(l)),
        Some(positions) => Ok(positions),
    }
}

fn get_kept_positions(ctx: &ProofContext, l: List<System>) -> (r: Answered<List<u64>>)
    ensures
        r == kept_positions(ctx, l),
{
    match look_up(&ctx.answers.non_redundant, &l) {
        None => Err(Query::NonRedundant(l)),
        Some(positions) => Ok(positions),
    }
}

/// The cases without the redundant ones, under names that differ.
pub open spec fn processed(ctx: &ProofContext, cases: List<(Text, System)>) -> Answered<
    List<(Text, System)>,
> {
    match kept_positions(ctx, systems(cases)) {
        Err(q) => Err(q),
        Ok(positions) => Ok(distinguished(picked(cases, positions))),
    }
}

/// Drops the redundant cases and tells the rest apart.
pub fn process_cases(ctx: &ProofContext, cases: &List<(Text, System)>) -> (r: Answered<
    List<(Text, System)>,
>)
    ensures
        r == processed(ctx, *cases),
{
    match get_kept_positions(ctx, get_systems(cases)) {
        Err(q) => Err(q),
        Ok(positions) => Ok(distinguish_case_names(&pick(cases, &positions))),
    }
}

/// The systems to which `sys` simplifies.
pub open spec fn simplified_systems(ctx: &ProofContext, sys: System, seed: Option<u64>) -> Answered<
    List<System>,
> {
    let q = SimplifyQuery { sys, seed };
    match find(ctx.answers.simplify, q) {
        None => Err(Query::Simplify(q)),
        Some(l) => Ok(l),
    }
}

fn simplify_system(ctx: &ProofContext, sys: System, seed: Option<u64>) -> (r: Answered<
    List<System>,
>)
    ensures
        r == simplified_systems(ctx, sys, seed),
{
    let q = SimplifyQuery { sys, seed };
    match look_up(&ctx.answers.simplify, &q) {
        None => Err(Query::Simplify(q)),
        Some(l) => Ok(l),
    }
}

/// The systems whose equations have a solution, cleaned up.
pub open spec fn surviving(l: List<System>) -> List<System>
    decreases l,
{
    match l {
        List::Nil => List::Nil,
        List::Cons(s, rest) => if s.eq_store.contradictory {
            surviving(*rest)
        } else {
            List::Cons(cleaned(s), Box::new(surviving(*rest)))
        },
    }
}

fn keep_surviving(l: &List<System>) -> (r: List<System>)
    ensures
        r == surviving(*l),
    decreases l,
{
    match l {
        List::Nil => List::Nil,
        List::Cons(s, rest) => if s.eq_store.is_false() {
            keep_surviving(rest)
        } else {
            List::Cons(cleanup(s), Box::new(keep_surviving(rest)))
        },
    }
}

/// The systems as cases of the same name.
pub open spec fn named(name: Text, l: List<System>) -> List<(Text, System)>
    decreases l,
{
    match l {
        List::Nil => List::Nil,
        List::Cons(s, rest) => List::Cons((name, s), Box::new(named(name, *rest))),
    }
}

fn name_all(name: &Text, l: List<System>) -> (r: List<(Text, System)>)
    ensures
        r == named(*name, l),
    decreases l,
{
    match l {
        List::Nil => List::Nil,
        List::Cons(s, rest) => List::Cons((name.dup(), s), Box::new(name_all(name, *rest))),
    }
}

/// The systems as cases that are numbered from `n` on.
pub open spec fn numbered(n: u64, l: List<System>) -> List<(Text, System)>
    decreases l,
{
    match l {
        List::Nil => List::Nil,
        List::Cons(s, rest) => List::Cons(
            (decimal(n), s),
            Box::new(numbered(after(n), *rest)),
        ),
    }
}

fn number_all(n: u64, l: List<System>) -> (r: List<(Text, System)>)
    ensures
        r == numbered(n, l),
    decreases l,
{
    match l {
        List::Nil => List::Nil,
        List::Cons(s, rest) => List::Cons(
            (to_decimal(n), s),
            Box::new(number_all(next_after(n), *rest)),
        ),
    }
}

/// The cases of a simplification; none where it leaves the system as it is.
#[verifier::opaque]
pub open spec fn simplify_cases(ctx: &ProofContext, sys: System) -> Answered<
    Option<List<(Text, System)>>,
> {
    match simplified_systems(ctx, sys, None) {
        Err(q) => Err(q),
        Ok(l) => if l == List::one(sys) {
            Ok(
                if sys.eq_store.contradictory {
                    Some(List::Nil)
                } else {
                    None
                },
            )
        } else {
            match kept_positions(ctx, surviving(l)) {
                Err(q) => Err(q),
                Ok(positions) => {
                    let kept = picked(surviving(l), positions);
                    Ok(
                        match kept.only() {
                            Some(s) => if s == cleaned(sys) {
                                None
                            } else {
                                Some(List::one((Text { chars: List::Nil }, s)))
                            },
                            None => Some(numbered(1, kept)),
                        },
                    )
                },
            }
        },
    }
}

fn exec_simplify(ctx: &ProofContext, sys: &System) -> (r: Answered<Option<List<(Text, System)>>>)
    ensures
        r == simplify_cases(ctx, *sys),
{
    proof {
        reveal(simplify_cases);
    }
    let l = match simplify_system(ctx, sys.dup(), None) {
        Err(q) => {
            return Err(q);
        },
        Ok(l) => l,
    };
    if l.same(&List::single(sys.dup())) {
        return if sys.eq_store.is_false() {
            Ok(Some(List::Nil))
        } else {
            Ok(None)
        };
    }
    let survivors = keep_surviving(&l);
    let positions = match get_kept_positions(ctx, survivors.dup()) {
        Err(q) => {
            return Err(q);
        },
        Ok(positions) => positions,
    };
    let kept = pick(&survivors, &positions);
    match kept.get_only() {
        Some(s) => if s.same(&cleanup(sys)) {
            Ok(None)
        } else {
            Ok(Some(List::single((Text { chars: List::Nil }, s))))
        },
        None => Ok(Some(number_all(1, kept))),
    }
}

impl<'a> Reduction<'a> {
    /// The reduction after the goal has been solved.
    #[verifier::opaque]
    pub open spec fn dispatched(self, g: Goal) -> Answered<(Self, GoalCases)> {
        match g {
            Goal::Action(i, fa) => self.action_solved(i, fa),
            Goal::Premise(p, fa) => self.premise_solved(p, fa),
            Goal::Chain(c, p) => self.chain_solved(c, p),
            Goal::Split(id) => self.split_solved(id),
            Goal::Disj(l) => self.disj_solved(l),
            Goal::Subterm(small, big) => self.subterm_solved(small, big),
        }
    }

    /// Solves the goal.
    pub fn dispatch_solve_goal(&mut self, g: &Goal) -> (r: Answered<GoalCases>)
        ensures
            ends(old(self).dispatched(*g), *final(self), r),
    {
        proof {
            reveal(Reduction::dispatched);
        }
        match g {
            Goal::Action(i, fa) => self.solve_action_goal(i, fa),
            Goal::Premise(p, fa) => self.solve_premise_goal(p, fa),
            Goal::Chain(c, p) => self.solve_chain_goal(c, p),
            Goal::Split(id) => self.solve_split_goal(*id),
            Goal::Disj(l) => self.solve_disj_goal(l),
            Goal::Subterm(small, big) => self.solve_subterm_goal(small, big),
        }
    }
}

/// The cases with the state of the supply in each; a case for which no state is
/// on record goes on from `next`.
pub open spec fn with_seeds(l: List<(Text, System)>, seeds: List<u64>, next: u64) -> List<Case>
    decreases l,
{
    match l {
        List::Nil => List::Nil,
        List::Cons(c, rest) => match seeds {
            List::Nil => List::Cons(
                Case { name: c.0, sys: c.1, next },
                Box::new(with_seeds(*rest, List::Nil, next)),
            ),
            List::Cons(seed, more) => List::Cons(
                Case { name: c.0, sys: c.1, next: seed },
                Box::new(with_seeds(*rest, *more, next)),
            ),
        },
    }
}

fn add_seeds(l: List<(Text, System)>, seeds: &List<u64>, next: u64) -> (r: List<Case>)
    ensures
        r == with_seeds(l, *seeds, next),
    decreases l,
{
    match l {
        List::Nil => List::Nil,
        List::Cons((name, sys), rest) => match seeds {
            List::Nil => List::Cons(
                Case { name, sys, next },
                Box::new(add_seeds(*rest, seeds, next)),
            ),
            List::Cons(seed, more) => List::Cons(
                Case { name, sys, next: *seed },
                Box::new(add_seeds(*rest, more, next)),
            ),
        },
    }
}

/// The cases that a solved goal leaves; none where it has no solution.
pub open spec fn outcome_cases(red: Reduction, out: GoalCases) -> Option<List<Case>> {
    match out {
        GoalCases::Linear => Some(
            List::one(
                Case { name: Text { chars: List::Nil }, sys: red.sys, next: red.supply.next },
            ),
        ),
        GoalCases::LinearNamed(name) => Some(
            List::one(Case { name, sys: red.sys, next: red.supply.next }),
        ),
        GoalCases::Cases(l) => Some(with_seeds(l, red.last_case_counters, red.supply.next)),
        GoalCases::Contradictory => None,
    }
}

fn get_outcome_cases(red: Reduction, out: GoalCases) -> (r: Option<List<Case>>)
    ensures
        r == outcome_cases(red, out),
{
    let next: u64 = red.supply.next;
    match out {
        GoalCases::Linear => Some(
            List::single(Case { name: Text { chars: List::Nil }, sys: red.sys, next }),
        ),
        GoalCases::LinearNamed(name) => Some(List::single(Case { name, sys: red.sys, next })),
        GoalCases::Cases(l) => Some(add_seeds(l, &red.last_case_counters, next)),
        GoalCases::Contradictory => None,
    }
}

/// The cases after each has been simplified.
pub open spec fn all_simplified(ctx: &ProofContext, l: List<Case>) -> Answered<
    List<(Text, System)>,
>
    decreases l,
{
    match l {
        List::Nil => Ok(List::Nil),
        List::Cons(c, rest) => match simplified_systems(ctx, c.sys, Some(c.next)) {
            Err(q) => Err(q),
            Ok(systems) => match all_simplified(ctx, *rest) {
                Err(q) => Err(q),
                Ok(more) => Ok(named(c.name, surviving(systems)).then_all(more)),
            },
        },
    }
}

fn simplify_all(ctx: &ProofContext, l: &List<Case>) -> (r: Answered<List<(Text, System)>>)
    ensures
        r == all_simplified(ctx, *l),
    decreases l,
{
    match l {
        List::Nil => Ok(List::Nil),
        List::Cons(c, rest) => {
            let systems = match simplify_system(ctx, c.sys.dup(), Some(c.next)) {
                Err(q) => {
                    return Err(q);
                },
                Ok(systems) => systems,
            };
            match simplify_all(ctx, rest) {
                Err(q) => Err(q),
                Ok(more) => Ok(name_all(&c.name, keep_surviving(&systems)).concat(more)),
            }
        },
    }
}

/// The cases of solving the goal `g`: each is simplified, and those without a
/// solution are dropped.
#[verifier::opaque]
pub open spec fn goal_cases(ctx: &ProofContext, g: Goal, sys: System) -> Answered<
    Option<List<(Text, System)>>,
> {
    match Reduction::of_floor(ctx, sys, ctx.refine_floor).dispatched(g) {
        Err(q) => Err(q),
        Ok((red, out)) => match outcome_cases(red, out) {
            None => Ok(Some(List::Nil)),
            Some(cases) => match all_simplified(ctx, cases) {
                Err(q) => Err(q),
                Ok(kept) => match processed(ctx, kept) {
                    Err(q) => Err(q),
                    Ok(l) => Ok(Some(l)),
                },
            },
        },
    }
}

fn exec_solve_goal(ctx: &ProofContext, g: &Goal, sys: &System) -> (r: Answered<
    Option<List<(Text, System)>>,
>)
    ensures
        r == goal_cases(ctx, *g, *sys),
{
    proof {
        reveal(goal_cases);
    }
    let mut red = Reduction::new(ctx, sys.dup());
    let out = match red.dispatch_solve_goal(g) {
        Err(q) => {
            return Err(q);
        },
        Ok(out) => out,
    };
    let cases = match get_outcome_cases(red, out) {
        None => {
            return Ok(Some(List::Nil));
        },
        Some(cases) => cases,
    };
    match simplify_all(ctx, &cases) {
        Err(q) => Err(q),
        Ok(kept) => match process_cases(ctx, &kept) {
            Err(q) => Err(q),
            Ok(l) => Ok(Some(l)),
        },
    }
}

/// The cases of an induction in which `fm` has to be shown.
pub open spec fn induction_case(
    ctx: &ProofContext,
    sys: System,
    name: Text,
    fm: Guarded,
) -> Answered<
    List<(Text, System)>,
> {
    match simplified_systems(ctx, System { formulas: List::one(fm), ..sys }, None) {
        Err(q) => Err(q),
        Ok(l) => Ok(named(name, surviving(l))),
    }
}

fn exec_induction_case(ctx: &ProofContext, sys: &System, name: &Text, fm: Guarded) -> (r: Answered<
    List<(Text, System)>,
>)
    ensures
        r == induction_case(ctx, *sys, *name, fm),
{
    let mut case_sys = sys.dup();
    case_sys.formulas = List::single(fm);
    match simplify_system(ctx, case_sys, None) {
        Err(q) => Err(q),
        Ok(l) => Ok(name_all(name, keep_surviving(&l))),
    }
}

/// The cases of a proof by induction on the first formula: the empty trace and a
/// longer one.
#[verifier::opaque]
pub open spec fn induction_cases(ctx: &ProofContext, sys: System) -> Answered<
    Option<List<(Text, System)>>,
> {
    match sys.formulas {
        List::Nil => Ok(None),
        List::Cons(fm, _) => match find(ctx.answers.induction, fm) {
            None => Err(Query::Induction(fm)),
            Some(None) => Ok(None),
            Some(Some((base, step))) => match induction_case(
                ctx,
                sys,
                text_of("empty_trace"@),
                base,
            ) {
                Err(q) => Err(q),
                Ok(first) => match induction_case(
                    ctx,
                    sys,
                    text_of("non_empty_trace"@),
                    step,
                ) {
                    Err(q) => Err(q),
                    Ok(second) => match processed(ctx, first.then_all(second)) {
                        Err(q) => Err(q),
                        Ok(l) => Ok(Some(l)),
                    },
                },
            },
        },
    }
}

fn exec_induction(ctx: &ProofContext, sys: &System) -> (r: Answered<Option<List<(Text, System)>>>)
    ensures
        r == induction_cases(ctx, *sys),
{
    proof {
        reveal(induction_cases);
    }
    let fm = match &sys.formulas {
        List::Nil => {
            return Ok(None);
        },
        List::Cons(fm, _) => fm.dup(),
    };
    let (base, step) = match look_up(&ctx.answers.induction, &fm) {
        None => {
            return Err(Query::Induction(fm));
        },
        Some(None) => {
            return Ok(None);
        },
        Some(Some(parts)) => parts,
    };
    let first = match exec_induction_case(ctx, sys, &Text::new("empty_trace"), base) {
        Err(q) => {
            return Err(q);
        },
        Ok(first) => first,
    };
    let second = match exec_induction_case(ctx, sys, &Text::new("non_empty_trace"), step) {
        Err(q) => {
            return Err(q);
        },
        Ok(second) => second,
    };
    match process_cases(ctx, &first.concat(second)) {
        Err(q) => Err(q),
        Ok(l) => Ok(Some(l)),
    }
}

/// The cases that a proof method leaves; none where it does not apply.  Nothing
/// applies once the time is over.
pub open spec fn executed(ctx: &ProofContext, method: ProofMethod, sys: System) -> Answered<
    Option<List<(Text, System)>>,
> {
    if ctx.out_of_time {
        Ok(None)
    } else {
        match method {
            ProofMethod::Sorry(_) => Ok(Some(List::Nil)),
            ProofMethod::Finished(_) => Ok(Some(List::Nil)),
            ProofMethod::Invalidated => Ok(None),
            ProofMethod::RawSolve(_) => Ok(None),
            ProofMethod::Simplify => simplify_cases(ctx, sys),
            ProofMethod::SolveGoal(g) => goal_cases(ctx, g, sys),
            ProofMethod::Induction => induction_cases(ctx, sys),
        }
    }
}

/// Carries out a proof method: the cases that it leaves, or none where it does
/// not apply.
pub fn exec_proof_method(ctx: &ProofContext, method: &ProofMethod, sys: &System) -> (r: Answered<
    Option<List<(Text, System)>>,
>)
    ensures
        r == executed(ctx, *method, *sys),
{
    if ctx.out_of_time {
        return Ok(None);
    }
    match method {
        ProofMethod::Sorry(_) => Ok(Some(List::Nil)),
        ProofMethod::Finished(_) => Ok(Some(List::Nil)),
        ProofMethod::Invalidated => Ok(None),
        ProofMethod::RawSolve(_) => Ok(None),
        ProofMethod::Simplify => exec_simplify(ctx, sys),
        ProofMethod::SolveGoal(g) => exec_solve_goal(ctx, g, sys),
        ProofMethod::Induction => exec_induction(ctx, sys),
    }
}

/// Whether a method is offered for the system: simplification and induction only
/// where they apply, other methods unless they cannot be carried out at all.
pub open spec fn shown(ctx: &ProofContext, method: ProofMethod, sys: System) -> Answered<bool> {
    match method {
        ProofMethod::SolveGoal(_) => Ok(true),
        ProofMethod::Sorry(_) => Ok(true),
        ProofMethod::Finished(_) => Ok(true),
        ProofMethod::Invalidated => Ok(false),
        ProofMethod::RawSolve(_) => Ok(false),
        _ => match executed(ctx, method, sys) {
            Err(q) => Err(q),
            Ok(cases) => Ok(cases is Some),
        },
    }
}

/// Whether a method is offered for the system.
pub fn is_applicable_for_display(ctx: &ProofContext, method: &ProofMethod, sys: &System) -> (r:
    Answered<bool>)
    ensures
        r == shown(ctx, *method, *sys),
{
    match method {
        ProofMethod::SolveGoal(_) => Ok(true),
        ProofMethod::Sorry(_) => Ok(true),
        ProofMethod::Finished(_) => Ok(true),
        ProofMethod::Invalidated => Ok(false),
        ProofMethod::RawSolve(_) => Ok(false),
        _ => match exec_proof_method(ctx, method, sys) {
            Err(q) => Err(q),
            Ok(Some(_)) => Ok(true),
            Ok(None) => Ok(false),
        },
    }
}

/// Whether two results are alike, contradictions of any kind among them.
pub open spec fn of_same_kind(a: Result, b: Result) -> bool {
    ||| a is Solved && b is Solved
    ||| a is Unfinishable && b is Unfinishable
    ||| a is Contradictory && b is Contradictory
}

/// Whether two results are alike.
pub fn same_kind(a: &Result, b: &Result) -> (r: bool)
    ensures
        r == of_same_kind(*a, *b),
{
    match (a, b) {
        (Result::Solved, Result::Solved) => true,
        (Result::Unfinishable, Result::Unfinishable) => true,
        (Result::Contradictory(_), Result::Contradictory(_)) => true,
        _ => false,
    }
}

/// Whether the system has the goal.
pub open spec fn has_goal(sys: System, g: Goal) -> bool {
    find(sys.goals, g) is Some
}

/// Whether the method may be carried out on the system: a claim that it is
/// finished has to be true, induction needs a system that is nothing but one
/// formula, and a goal has to be one of the system's.
pub open spec fn fits(ctx: &ProofContext, method: ProofMethod, sys: System) -> Answered<bool> {
    match method {
        ProofMethod::Finished(r) => match finished(ctx, sys) {
            Err(q) => Err(q),
            Ok(None) => Ok(false),
            Ok(Some(actual)) => Ok(of_same_kind(r, actual)),
        },
        ProofMethod::Induction => Ok(
            sys.nodes is Nil && sys.solved_formulas is Nil && sys.goals is Nil
                && sys.formulas.only() is Some,
        ),
        ProofMethod::SolveGoal(g) => Ok(has_goal(sys, g)),
        ProofMethod::RawSolve(_) => Ok(false),
        _ => Ok(true),
    }
}

fn does_fit(ctx: &ProofContext, method: &ProofMethod, sys: &System) -> (r: Answered<bool>)
    ensures
        r == fits(ctx, *method, *sys),
{
    match method {
        ProofMethod::Finished(r) => match is_finished(ctx, sys) {
            Err(q) => Err(q),
            Ok(None) => Ok(false),
            Ok(Some(actual)) => Ok(same_kind(r, &actual)),
        },
        ProofMethod::Induction => {
            let one = match sys.formulas.get_only() {
                Some(_) => true,
                None => false,
            };
            Ok(
                sys.nodes.is_empty() && sys.solved_formulas.is_empty() && sys.goals.is_empty()
                    && one,
            )
        },
        ProofMethod::SolveGoal(g) => match look_up(&sys.goals, g) {
            Some(_) => Ok(true),
            None => Ok(false),
        },
        ProofMethod::RawSolve(_) => Ok(false),
        _ => Ok(true),
    }
}

/// The cases that a proof method leaves where it fits; none where it does not
/// fit or does not apply.
pub open spec fn checked_and_executed(
    ctx: &ProofContext,
    method: ProofMethod,
    sys: System,
) -> Answered<
    Option<List<(Text, System)>>,
> {
    match fits(ctx, method, sys) {
        Err(q) => Err(q),
        Ok(false) => Ok(None),
        Ok(true) => executed(ctx, method, sys),
    }
}

/// Carries out a proof method where it fits: the cases that it leaves, or none
/// where it does not fit or does not apply.
pub fn check_and_exec_proof_method(ctx: &ProofContext, method: &ProofMethod, sys: &System) -> (r:
    Answered<Option<List<(Text, System)>>>)
    ensures
        r == checked_and_executed(ctx, *method, *sys),
{
    match does_fit(ctx, method, sys) {
        Err(q) => Err(q),
        Ok(false) => Ok(None),
        Ok(true) => exec_proof_method(ctx, method, sys),
    }
}

} // verus!
