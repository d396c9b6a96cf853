//! When a proof method is offered, refused and carried out.
use crate::constraints::GoalStatus;
use crate::context::{Contradiction, ProofContext, Query, SimplifyQuery};
use crate::guarded::Guarded;
use crate::list::{find, List};
use crate::proof_method::{
    checked_and_executed, executed, finished, fits, induction_cases, of_same_kind, shown,
    ProofMethod, Result,
};
use crate::system::System;
use crate::text::Text;
use vstd::prelude::*;

verus! {

/// Results are of the same kind exactly where they are of the same variant: this
/// is an equivalence, and it does not look at why a system is contradictory.
pub proof fn law_same_kind(
    a: Result,
    b: Result,
    c: Result,
    x: Option<Contradiction>,
    y: Option<Contradiction>,
)
    ensures
        of_same_kind(a, b) <==> (match a {
            Result::Solved => b is Solved,
            Result::Contradictory(_) => b is Contradictory,
            Result::Unfinishable => b is Unfinishable,
        }),
        of_same_kind(a, a),
        of_same_kind(a, b) ==> of_same_kind(b, a),
        of_same_kind(a, b) && of_same_kind(b, c) ==> of_same_kind(a, c),
        of_same_kind(Result::Contradictory(x), Result::Contradictory(y)),
{
}

/// A method that fits is carried out as it would be without the check, and one
/// that does not fit leaves no cases.
pub proof fn law_check_only_refuses(ctx: &ProofContext, method: ProofMethod, sys: System)
    ensures
        checked_and_executed(ctx, method, sys) matches Ok(Some(l)) ==> executed(ctx, method, sys)
            == Ok::<Option<List<(Text, System)>>, Query>(Some(l)),
        fits(ctx, method, sys) == Ok::<bool, Query>(true) ==> checked_and_executed(ctx, method, sys)
            == executed(ctx, method, sys),
        fits(ctx, method, sys) == Ok::<bool, Query>(false) ==> checked_and_executed(
            ctx,
            method,
            sys,
        ) == Ok::<Option<List<(Text, System)>>, Query>(None),
{
}

proof fn lemma_found_entry<K, V>(l: List<(K, V)>, k: K)
    ensures
        find(l, k) matches Some(v) ==> l.has((k, v)),
    decreases l,
{
    match l {
        List::Nil => {},
        List::Cons(_, rest) => {
            lemma_found_entry(*rest, k);
        },
    }
}

proof fn lemma_entry_found<K, V>(l: List<(K, V)>, k: K, v: V)
    requires
        l.has((k, v)),
    ensures
        find(l, k) is Some,
    decreases l,
{
    match l {
        List::Nil => {},
        List::Cons(e, rest) => {
            if e.0 != k {
                lemma_entry_found(*rest, k, v);
            }
        },
    }
}

/// A goal is solved where it is one of the system's, solved already or not, and
/// refused otherwise; a goal that could not be read is always refused; and a
/// simplification, a gap and a step that does not fit any more are carried out as
/// they would be without the check.
pub proof fn law_other_methods_checked(ctx: &ProofContext, method: ProofMethod, sys: System)
    requires
        !(method is Finished),
        !(method is Induction),
    ensures
        method matches ProofMethod::SolveGoal(g) ==> checked_and_executed(ctx, method, sys) == (
        if exists|status: GoalStatus| sys.goals.has((g, status)) {
            executed(ctx, method, sys)
        } else {
            Ok::<Option<List<(Text, System)>>, Query>(None)
        }),
        method is RawSolve ==> checked_and_executed(ctx, method, sys) == Ok::<
            Option<List<(Text, System)>>,
            Query,
        >(None),
        method is Simplify || method is Sorry || method is Invalidated ==> checked_and_executed(
            ctx,
            method,
            sys,
        ) == executed(ctx, method, sys),
{
    match method {
        ProofMethod::SolveGoal(g) => {
            lemma_found_entry(sys.goals, g);
            if exists|status: GoalStatus| sys.goals.has((g, status)) {
                let status = choose|status: GoalStatus| sys.goals.has((g, status));
                lemma_entry_found(sys.goals, g, status);
            }
        },
        _ => {},
    }
}

/// An induction is carried out on a system that is nothing but one formula, and
/// refused otherwise.  Goals that are solved count, and falsity is a formula like
/// any other.
pub proof fn law_induction_checked(ctx: &ProofContext, sys: System)
    ensures
        checked_and_executed(ctx, ProofMethod::Induction, sys) == (if sys.nodes is Nil
            && sys.solved_formulas is Nil && sys.goals is Nil && sys.formulas.size() == 1 {
            executed(ctx, ProofMethod::Induction, sys)
        } else {
            Ok::<Option<List<(Text, System)>>, Query>(None)
        }),
{
    reveal_with_fuel(List::size, 3);
}

/// A claim that the system is finished is accepted, and then leaves no cases,
/// exactly where the system is finished with a result of the same kind.
pub proof fn law_finish_checked(ctx: &ProofContext, r: Result, sys: System)
    requires
        !ctx.out_of_time,
    ensures
        checked_and_executed(ctx, ProofMethod::Finished(r), sys) == (match finished(ctx, sys) {
            Err(q) => Err::<Option<List<(Text, System)>>, Query>(q),
            Ok(None) => Ok(None),
            Ok(Some(actual)) => if of_same_kind(r, actual) {
                Ok(Some(List::Nil))
            } else {
                Ok(None)
            },
        }),
{
}

/// Solving a goal is always offered, even one that the system does not have and
/// even once the time is over, and so are a gap and a claim that the system is
/// finished; simplification and induction are offered exactly where they leave
/// cases; other steps never are.
pub proof fn law_methods_offered(ctx: &ProofContext, method: ProofMethod, sys: System)
    ensures
        shown(ctx, method, sys) == (match method {
            ProofMethod::SolveGoal(_) => Ok::<bool, Query>(true),
            ProofMethod::Sorry(_) => Ok(true),
            ProofMethod::Finished(_) => Ok(true),
            ProofMethod::Invalidated => Ok(false),
            ProofMethod::RawSolve(_) => Ok(false),
            ProofMethod::Simplify => match executed(ctx, method, sys) {
                Err(q) => Err(q),
                Ok(cases) => Ok(cases is Some),
            },
            ProofMethod::Induction => match executed(ctx, method, sys) {
                Err(q) => Err(q),
                Ok(cases) => Ok(cases is Some),
            },
        }),
{
}

/// Once the time is over no method leaves cases.
pub proof fn law_nothing_after_the_deadline(ctx: &ProofContext, method: ProofMethod, sys: System)
    requires
        ctx.out_of_time,
    ensures
        executed(ctx, method, sys) == Ok::<Option<List<(Text, System)>>, Query>(None),
{
}

/// An induction asks first for the systems to which the one with what is to be shown for the
/// empty trace simplifies, and then for those of the one with what is to be shown for the
/// longer ones.
pub proof fn law_induction_asks(
    ctx: &ProofContext,
    sys: System,
    fm: Guarded,
    base: Guarded,
    step: Guarded,
)
    requires
        sys.formulas.nth(0) == Some(fm),
        find(ctx.answers.induction, fm) == Some(Some((base, step))),
    ensures
        ({
            let first = SimplifyQuery {
                sys: System { formulas: List::one(base), ..sys },
                seed: None,
            };
            let second = SimplifyQuery {
                sys: System { formulas: List::one(step), ..sys },
                seed: None,
            };
            &&& find(ctx.answers.simplify, first) is None ==> induction_cases(ctx, sys) == Err::<
                Option<List<(Text, System)>>,
                Query,
            >(Query::Simplify(first))
            &&& find(ctx.answers.simplify, first) is Some && find(
                ctx.answers.simplify,
                second,
            ) is None ==> induction_cases(ctx, sys) == Err::<Option<List<(Text, System)>>, Query>(
                Query::Simplify(second),
            )
        }),
{
    reveal(induction_cases);
}

} // verus!
