use tamarin_theory::constraints::{Edge, EqDisj, EquationStore, Goal, GoalStatus, LessAtom, Reason};
use tamarin_theory::context::{
    refine_floor, set_refine_floor, ActionSourceCase, ActionSourcesAnswer, AddEqsAnswer, Answered,
    Answers, Contradiction, PremiseSourceCase, PremiseSourcesAnswer, ProofContext, Query,
    SimpAnswer, UnifiableQuery,
};
use tamarin_theory::facts::{
    fresh_fact, in_fact, k_log_fact, kd_fact, ku_fact, out_fact, Fact, FactTag, IntrRuleACInfo, Multiplicity,
    ProtoRuleACInstInfo, ProtoRuleName, RuleACInst, RuleInfo,
};
use tamarin_theory::guarded::{gfalse, gtrue, Binding, GAtom, Guarded, Quant};
use tamarin_theory::list::{List, Value};
use tamarin_theory::goals::{Case, GoalCases};
use tamarin_theory::proof_method::{
    check_and_exec_proof_method, exec_proof_method, finished_subterms, is_applicable_for_display,
    is_finished, process_cases, ProofMethod, Result as Finish,
};
use tamarin_theory::reduction::{ChangeIndicator, Reduction, SolveOutcome, SplitStrategy};
use tamarin_theory::rule_goals::has_fresh_consumer_conflation;
use tamarin_theory::rules::{IntrRuleAC, OpenProtoRule, ProtoRuleE};
use tamarin_theory::system::System;
use tamarin_theory::term_ops::{apply_term, f_app_ac, Subst};
use tamarin_theory::terms::{AcSym, FunSym, LSort, LVar, NoEqSym, Term};
use tamarin_theory::text::Text;

/// A list of the given elements.
fn list<T>(items: Vec<T>) -> List<T> {
    let mut l = List::Nil;
    for x in items.into_iter().rev() {
        l = List::Cons(x, Box::new(l));
    }
    l
}

/// The elements of a list.
fn items<T>(l: &List<T>) -> Vec<&T> {
    let mut out = Vec::new();
    let mut rest = l;
    while let List::Cons(x, more) = rest {
        out.push(x);
        rest = more;
    }
    out
}

fn push<T>(l: &mut List<T>, x: T) {
    let old = std::mem::replace(l, List::Nil);
    *l = List::Cons(x, Box::new(old));
}

fn var(name: &str, sort: LSort, idx: u64) -> LVar {
    LVar { name: Text::new(name), sort, idx }
}

fn var_term(name: &str, sort: LSort, idx: u64) -> Term {
    Term::Var(var(name, sort, idx))
}

fn app(name: &str, args: Vec<Term>) -> Term {
    Term::App(
        FunSym::NoEq(NoEqSym {
            name: Text::new(name),
            arity: args.len() as u64,
            private: false,
            constructor: true,
        }),
        Box::new(list(args)),
    )
}

fn proto_fact(name: &str, terms: Vec<Term>) -> Fact {
    let arity = terms.len() as u64;
    Fact::new(FactTag::Proto(Multiplicity::Linear, Text::new(name), arity), list(terms))
}

fn proto_info(name: &str) -> RuleInfo {
    RuleInfo::Proto(ProtoRuleACInstInfo {
        name: ProtoRuleName::Stand(Text::new(name)),
        attributes: List::Nil,
        loop_breakers: List::Nil,
    })
}

fn proto_rule(name: &str, premises: Vec<Fact>, conclusions: Vec<Fact>, actions: Vec<Fact>) -> OpenProtoRule {
    OpenProtoRule {
        rule: ProtoRuleE {
            name: ProtoRuleName::Stand(Text::new(name)),
            attributes: List::Nil,
            premises: list(premises),
            conclusions: list(conclusions),
            actions: list(actions),
            new_vars: List::Nil,
        },
        abstracted_rule: None,
        variant_substs: List::Nil,
        loop_breakers: List::Nil,
    }
}

fn intruder_rule(info: IntrRuleACInfo, premises: Vec<Fact>, conclusions: Vec<Fact>, actions: Vec<Fact>) -> IntrRuleAC {
    IntrRuleAC {
        info,
        premises: list(premises),
        conclusions: list(conclusions),
        actions: list(actions),
        new_vars: List::Nil,
    }
}

/// A context without protocol rules, with the intruder's basic rules.
fn ctx() -> ProofContext {
    let x = || var_term("x", LSort::Msg, 0);
    ProofContext {
        rules: List::Nil,
        intruder_rules: list(vec![
            intruder_rule(
                IntrRuleACInfo::Coerce,
                vec![kd_fact(x())],
                vec![ku_fact(x())],
                vec![ku_fact(x())],
            ),
            intruder_rule(
                IntrRuleACInfo::ISend,
                vec![ku_fact(x())],
                vec![in_fact(x())],
                vec![k_log_fact(x())],
            ),
            intruder_rule(IntrRuleACInfo::IRecv, vec![out_fact(x())], vec![kd_fact(x())], vec![]),
        ]),
        reducible: List::Nil,
        has_sources: false,
        in_precompute: false,
        in_initial_sources: false,
        refine_floor: 0,
        out_of_time: false,
        answers: Answers::empty(),
    }
}

fn occurs(v: &LVar, t: &Term) -> bool {
    match t {
        Term::Var(w) => v == w,
        Term::App(_, args) => items(args).into_iter().any(|a| occurs(v, a)),
        _ => false,
    }
}

fn may_stand_for(v: &LVar, t: &Term) -> bool {
    match t {
        Term::Var(w) => w.sort == v.sort || (v.sort == LSort::Msg && w.sort != LSort::Node),
        _ => v.sort == LSort::Msg,
    }
}

fn bind(subst: &Subst, v: &LVar, t: &Term) -> Subst {
    let one = list(vec![(v.dup(), t.dup())]);
    let mut out: Vec<(LVar, Term)> =
        items(subst).into_iter().map(|(k, u)| (k.dup(), apply_term(&one, u))).collect();
    out.push((v.dup(), t.dup()));
    list(out)
}

/// The most general unifier in the free algebra, if there is one.
fn unify(subst: &Subst, eqs: &[(Term, Term)]) -> Option<Subst> {
    let mut subst = subst.dup();
    let mut todo: Vec<(Term, Term)> = eqs.iter().map(|e| e.dup()).collect();
    while !todo.is_empty() {
        let (l, r) = todo.remove(0);
        let l = apply_term(&subst, &l);
        let r = apply_term(&subst, &r);
        if l == r {
            continue;
        }
        match (&l, &r) {
            (Term::Var(v), t) if may_stand_for(v, t) => {
                if occurs(v, t) {
                    return None;
                }
                subst = bind(&subst, v, t);
            }
            (t, Term::Var(v)) if may_stand_for(v, t) => {
                if occurs(v, t) {
                    return None;
                }
                subst = bind(&subst, v, t);
            }
            (Term::App(f, a), Term::App(g, b)) if f == g => {
                let (a, b) = (items(a), items(b));
                if a.len() != b.len() {
                    return None;
                }
                for (x, y) in a.into_iter().zip(b) {
                    todo.push((x.dup(), y.dup()));
                }
            }
            _ => return None,
        }
    }
    Some(subst)
}

/// Answers a question of the solver: terms are those of the free algebra, and
/// nothing but the question itself is simplified.
fn answer(ctx: &mut ProofContext, q: Query) {
    match q {
        Query::AddEqs(q) => {
            let eqs: Vec<(Term, Term)> = items(&q.eqs).into_iter().map(|e| e.dup()).collect();
            let store = match unify(&q.store.subst, &eqs) {
                Some(subst) => EquationStore {
                    subst,
                    conj: q.store.conj.dup(),
                    next_split: q.store.next_split,
                    contradictory: q.store.contradictory,
                },
                None => q.store.dup().set_false(),
            };
            let next = q.next;
            push(&mut ctx.answers.add_eqs, (q, AddEqsAnswer::Added(store, None, next)));
        }
        Query::Simp(q) => {
            let a = SimpAnswer { store: q.store.dup(), next: q.next };
            push(&mut ctx.answers.simp, (q, a));
        }
        Query::Split(q) => {
            let mut out = Vec::new();
            for d in items(&q.store.conj) {
                if d.split_id == q.id {
                    for s in items(&d.substs) {
                        let eqs: Vec<(Term, Term)> = items(s)
                            .into_iter()
                            .map(|(k, t)| (Term::Var(k.dup()), t.dup()))
                            .collect();
                        if let Some(subst) = unify(&q.store.subst, &eqs) {
                            out.push(EquationStore {
                                subst,
                                conj: list(
                                    items(&q.store.conj)
                                        .into_iter()
                                        .filter(|e| e.split_id != q.id)
                                        .map(|e| EqDisj {
                                            split_id: e.split_id,
                                            substs: e.substs.dup(),
                                        })
                                        .collect(),
                                ),
                                next_split: q.store.next_split,
                                contradictory: q.store.contradictory,
                            });
                        }
                    }
                }
            }
            push(&mut ctx.answers.split, (q, list(out)));
        }
        Query::Reduce(t) => {
            let a = Some(t.dup());
            push(&mut ctx.answers.reduce, (t, a));
        }
        Query::Unifiable(q) => {
            let a = Some(q.left.info == q.right.info);
            push(&mut ctx.answers.unifiable, (q, a));
        }
        Query::ActionSources(q) => {
            let a = ActionSourcesAnswer { cases: None, next: q.next };
            push(&mut ctx.answers.action_sources, (q, a));
        }
        Query::PremiseSources(q) => {
            let a = PremiseSourcesAnswer { cases: None, next: q.next };
            push(&mut ctx.answers.premise_sources, (q, a));
        }
        Query::Simplify(q) => {
            let a = list(vec![q.sys.dup()]);
            push(&mut ctx.answers.simplify, (q, a));
        }
        Query::Contradictions(sys) => {
            let a = if items(&sys.formulas).into_iter().any(|f| *f == gfalse()) {
                list(vec![Contradiction::FormulasFalse])
            } else {
                List::Nil
            };
            push(&mut ctx.answers.contradictions, (sys, a));
        }
        Query::OpenGoals(sys) => {
            let a = list(
                items(&sys.goals)
                    .into_iter()
                    .filter(|(_, st)| !st.solved)
                    .map(|(g, _)| g.dup())
                    .collect::<Vec<Goal>>(),
            );
            push(&mut ctx.answers.open_goals, (sys, a));
        }
        Query::NonRedundant(l) => {
            let a = list((0..items(&l).len() as u64).collect());
            push(&mut ctx.answers.non_redundant, (l, a));
        }
        Query::Induction(fm) => {
            let a = Some((fm.dup(), Guarded::Conj(Box::new(list(vec![fm.dup(), gtrue()])))));
            push(&mut ctx.answers.induction, (fm, a));
        }
    }
}

/// Runs `f` until all its questions are answered.
fn solve<T>(ctx: &mut ProofContext, f: impl Fn(&ProofContext) -> Answered<T>) -> T {
    loop {
        match f(ctx) {
            Ok(t) => return t,
            Err(q) => answer(ctx, q),
        }
    }
}

fn eqs(pairs: Vec<(Term, Term)>) -> List<(Term, Term)> {
    list(pairs)
}

fn holds(l: &List<Guarded>, g: &Guarded) -> bool {
    items(l).into_iter().any(|f| f == g)
}

#[test]
fn reduction_starts_unchanged() {
    let ctx = ctx();
    let r = Reduction::new(&ctx, System::empty());
    assert_eq!(r.changed, ChangeIndicator::Unchanged);
}

#[test]
fn insert_goal_marks_changed() {
    let ctx = ctx();
    let mut r = Reduction::new(&ctx, System::empty());
    let v = var("k", LSort::Msg, 0);
    let f = Fact::new(FactTag::Out, List::Nil);
    r.insert_goal(Goal::Action(v, f));
    assert_eq!(r.changed, ChangeIndicator::Changed);
    assert_eq!(items(&r.sys.goals).len(), 1);
}

#[test]
fn solve_term_eqs_trivial_equation_no_change() {
    let mut ctx = ctx();
    let r_out = solve(&mut ctx, |c| {
        let mut r = Reduction::new(c, System::empty());
        let t = var_term("x", LSort::Msg, 0);
        r.solve_term_eqs(SplitStrategy::SplitNow, &eqs(vec![(t.dup(), t)]))
    });
    assert!(matches!(r_out, SolveOutcome::Linear(ChangeIndicator::Unchanged)));
}

#[test]
fn solve_term_eqs_unifies_two_vars() {
    let mut ctx = ctx();
    let (r_out, changed) = solve(&mut ctx, |c| {
        let mut r = Reduction::new(c, System::empty());
        let tx = var_term("x", LSort::Msg, 0);
        let ty = var_term("y", LSort::Msg, 0);
        let out = r.solve_term_eqs(SplitStrategy::SplitNow, &eqs(vec![(tx, ty)]))?;
        Ok((out, r.changed))
    });
    assert!(matches!(r_out, SolveOutcome::Linear(ChangeIndicator::Changed)));
    assert_eq!(changed, ChangeIndicator::Changed);
}

/// The system after `i = j` has been solved and applied.
fn with_nodes_equated(sys: &System) -> System {
    let mut ctx = ctx();
    solve(&mut ctx, |c| {
        let mut r = Reduction::new(c, sys.dup());
        let ti = var_term("i", LSort::Node, 2);
        let tj = var_term("j", LSort::Node, 3);
        r.solve_term_eqs(SplitStrategy::SplitNow, &eqs(vec![(ti, tj)]))?;
        r.subst_system()?;
        Ok(r.sys)
    })
}

#[test]
fn subst_system_rewrites_edge_node_ids_through_eqstore() {
    let mut sys = System::empty();
    let i = var("i", LSort::Node, 2);
    let tgt = var("t", LSort::Node, 99);
    sys.edges = list(vec![Edge { src: (i.dup(), 0), tgt: (tgt, 0) }]);
    let sys = with_nodes_equated(&sys);
    let canonical = match apply_term(&sys.eq_store.subst, &Term::Var(i.dup())) {
        Term::Var(v) => v,
        _ => i,
    };
    assert_eq!(
        items(&sys.edges)[0].src.0, canonical,
        "edge src should be the canonical node id after subst_system"
    );
}

#[test]
fn subst_system_rewrites_less_atom_node_ids() {
    let mut sys = System::empty();
    let i = var("i", LSort::Node, 2);
    let target = var("t", LSort::Node, 9);
    sys.less_atoms =
        list(vec![LessAtom { smaller: i.dup(), larger: target, reason: Reason::Formula }]);
    let sys = with_nodes_equated(&sys);
    let canonical = match apply_term(&sys.eq_store.subst, &Term::Var(i.dup())) {
        Term::Var(v) => v,
        _ => i,
    };
    assert_eq!(items(&sys.less_atoms)[0].smaller, canonical);
}

#[test]
fn subst_system_idempotent_on_empty_substitution() {
    let mut ctx = ctx();
    let (before_changed, changed, sys) = solve(&mut ctx, |c| {
        let mut r = Reduction::new(c, System::empty());
        let before_changed = r.changed;
        r.subst_system()?;
        Ok((before_changed, r.changed, r.sys))
    });
    assert_eq!(changed, before_changed);
    assert!(sys.nodes.is_empty());
    assert!(sys.edges.is_empty());
    assert!(sys.less_atoms.is_empty());
}

#[test]
fn subst_system_marks_contradiction_on_shape_mismatch() {
    let mut sys = System::empty();
    let i = var("i", LSort::Node, 2);
    let j = var("j", LSort::Node, 3);
    sys.add_node(i, RuleACInst::new(proto_info("R"), List::Nil, List::Nil, List::Nil));
    let dummy_fact = Fact::new(FactTag::Out, List::Nil);
    sys.add_node(
        j,
        RuleACInst::new(proto_info("R"), List::Nil, list(vec![dummy_fact]), List::Nil),
    );
    let sys = with_nodes_equated(&sys);
    let bot = gfalse();
    assert!(
        holds(&sys.formulas, &bot),
        "shape mismatch must push gfalse onto the formula list"
    );
}

#[test]
fn subst_system_merges_collided_nodes_and_equates_their_rules() {
    let mut sys = System::empty();
    let ru = || RuleACInst::new(proto_info("R"), List::Nil, List::Nil, List::Nil);
    sys.add_node(var("i", LSort::Node, 2), ru());
    sys.add_node(var("j", LSort::Node, 3), ru());
    let sys = with_nodes_equated(&sys);
    assert_eq!(
        items(&sys.nodes).len(),
        1,
        "two nodes with the same canonical id should merge"
    );
}

#[test]
fn solve_fact_eqs_tag_mismatch_is_contradictory() {
    let mut ctx = ctx();
    let r_out = solve(&mut ctx, |c| {
        let mut r = Reduction::new(c, System::empty());
        let f1 = Fact::new(FactTag::Out, List::Nil);
        let f2 = Fact::new(FactTag::In, List::Nil);
        r.solve_fact_eqs(SplitStrategy::SplitNow, &list(vec![(f1, f2)]))
    });
    assert!(matches!(r_out, SolveOutcome::Contradictory));
}

#[test]
fn solve_disj_goal_empty_is_contradictory() {
    let mut ctx = ctx();
    let out = solve(&mut ctx, |c| {
        let mut r = Reduction::new(c, System::empty());
        r.solve_disj_goal(&List::Nil)
    });
    assert!(matches!(out, GoalCases::Contradictory));
}

#[test]
fn solve_disj_goal_singleton_is_linear() {
    let mut ctx = ctx();
    let f = gtrue();
    let (out, sys) = solve(&mut ctx, |c| {
        let mut r = Reduction::new(c, System::empty());
        let d = list(vec![gtrue()]);
        r.insert_goal(Goal::Disj(d.dup()));
        let out = r.solve_disj_goal(&d)?;
        Ok((out, r.sys))
    });
    assert!(matches!(&out, GoalCases::LinearNamed(n) if n.to_string() == "case_1"));
    assert!(holds(&sys.solved_formulas, &f));
    assert!(items(&sys.goals).iter().any(|(g, s)| matches!(g, Goal::Disj(_)) && s.solved));
}

#[test]
fn solve_disj_goal_two_branches_forks() {
    let mut ctx = ctx();
    let f1 = gtrue();
    let f2 = gfalse();
    let out = solve(&mut ctx, |c| {
        let mut r = Reduction::new(c, System::empty());
        let d = list(vec![gtrue(), gfalse()]);
        r.insert_goal(Goal::Disj(d.dup()));
        r.solve_disj_goal(&d)
    });
    match out {
        GoalCases::Cases(systems) => {
            let systems = items(&systems);
            assert_eq!(systems.len(), 2);
            assert!(holds(&systems[0].1.solved_formulas, &f1));
            assert!(holds(&systems[1].1.formulas, &f2));
            for (_, s) in systems {
                assert!(items(&s.goals)
                    .iter()
                    .any(|(g, st)| matches!(g, Goal::Disj(_)) && st.solved));
            }
        }
        other => panic!("expected Cases, got {:?}", other),
    }
}

#[test]
fn solve_subterm_goal_marks_solved_and_moves() {
    let mut ctx = ctx();
    let (out, sys) = solve(&mut ctx, |c| {
        let mut sys = System::empty();
        let tx = var_term("x", LSort::Msg, 0);
        let ty = var_term("y", LSort::Msg, 0);
        sys.subterm_store.add(tx.dup(), ty.dup());
        sys.add_goal(Goal::Subterm(tx.dup(), ty.dup()));
        let mut r = Reduction::new(c, sys);
        let out = r.solve_subterm_goal(&tx, &ty)?;
        Ok((out, r.sys))
    });
    assert!(matches!(&out, GoalCases::LinearNamed(n) if n.to_string() == "SubtermSplit1"));
    assert_eq!(items(&sys.subterm_store.subterms).len(), 1);
    assert_eq!(items(&sys.subterm_store.solved_subterms).len(), 1);
    assert!(items(&sys.goals).iter().any(|(g, s)| matches!(g, Goal::Subterm(_, _)) && s.solved));
}

#[test]
fn solve_subterm_self_is_contradictory() {
    let mut ctx = ctx();
    let (out, sys) = solve(&mut ctx, |c| {
        let mut sys = System::empty();
        let tx = var_term("x", LSort::Msg, 0);
        sys.subterm_store.add(tx.dup(), tx.dup());
        let mut r = Reduction::new(c, sys);
        let out = r.solve_subterm_goal(&tx, &tx)?;
        Ok((out, r.sys))
    });
    assert!(matches!(out, GoalCases::Contradictory));
    assert!(sys.subterm_store.contradictory);
}

#[test]
fn solve_action_goal_existing_node_with_action_is_linear_named() {
    let mut ctx = ctx();
    let (out, sys) = solve(&mut ctx, |c| {
        let mut sys = System::empty();
        let i = var("i", LSort::Node, 0);
        let fa = out_fact(var_term("x", LSort::Msg, 0));
        let ru = RuleACInst::new(
            RuleInfo::Intr(IntrRuleACInfo::ISend),
            List::Nil,
            List::Nil,
            list(vec![fa.dup()]),
        );
        sys.add_node(i.dup(), ru);
        sys.add_goal(Goal::Action(i.dup(), fa.dup()));
        let mut r = Reduction::new(c, sys);
        let out = r.solve_action_goal(&i, &fa)?;
        Ok((out, r.sys))
    });
    match &out {
        GoalCases::LinearNamed(name) => {
            assert!(!name.to_string().is_empty(), "rule case name must be non-empty")
        }
        other => panic!("expected GoalCases::LinearNamed, got {:?}", other),
    }
    assert!(items(&sys.goals).iter().any(|(g, s)| matches!(g, Goal::Action(_, _)) && s.solved));
}

#[test]
fn solve_action_goal_no_node_no_rules_is_contradictory() {
    let mut ctx = ctx();
    let out = solve(&mut ctx, |c| {
        let mut r = Reduction::new(c, System::empty());
        let i = var("i", LSort::Node, 0);
        let fa = out_fact(var_term("x", LSort::Msg, 0));
        r.solve_action_goal(&i, &fa)
    });
    assert!(matches!(out, GoalCases::Contradictory));
}

#[test]
fn solve_action_goal_no_node_with_matching_rule_unifies() {
    let mut ctx2 = ctx();
    let fact_y = out_fact(var_term("y", LSort::Msg, 0));
    ctx2.rules = list(vec![proto_rule("Send", vec![], vec![], vec![fact_y])]);
    let i = var("i", LSort::Node, 0);
    let (out, sys) = solve(&mut ctx2, |c| {
        let mut r = Reduction::new(c, System::empty());
        let fa = out_fact(var_term("x", LSort::Msg, 0));
        let out = r.solve_action_goal(&var("i", LSort::Node, 0), &fa)?;
        Ok((out, r.sys))
    });
    assert!(
        matches!(&out, GoalCases::LinearNamed(n) if n.to_string() == "Send"),
        "expected LinearNamed(\"Send\"), got {:?}",
        out
    );
    assert_eq!(items(&sys.nodes).len(), 1);
    assert_eq!(items(&sys.nodes)[0].0, i);
}

#[test]
fn solve_premise_goal_no_user_rules_uses_intruder() {
    let mut ctx = ctx();
    let out = solve(&mut ctx, |c| {
        let mut r = Reduction::new(c, System::empty());
        let fa = in_fact(var_term("x", LSort::Msg, 0));
        r.solve_premise_goal(&(var("i", LSort::Node, 0), 0), &fa)
    });
    assert!(
        matches!(out, GoalCases::LinearNamed(_)),
        "expected LinearNamed, got {:?}",
        out
    );
}

#[test]
fn solve_premise_goal_no_user_rules_unmatchable_fact_is_contradictory() {
    let mut ctx = ctx();
    let out = solve(&mut ctx, |c| {
        let mut r = Reduction::new(c, System::empty());
        let fa = proto_fact("Foo", vec![var_term("x", LSort::Msg, 0)]);
        r.solve_premise_goal(&(var("i", LSort::Node, 0), 0), &fa)
    });
    assert!(matches!(out, GoalCases::Contradictory));
}

#[test]
fn solve_premise_goal_with_matching_rule_inserts_edge() {
    let mut ctx2 = ctx();
    let conc_y = out_fact(var_term("y", LSort::Msg, 0));
    ctx2.rules = list(vec![proto_rule("Producer", vec![], vec![conc_y], vec![])]);
    let p = (var("i", LSort::Node, 5), 0u64);
    let (out, sys) = solve(&mut ctx2, |c| {
        let mut r = Reduction::new(c, System::empty());
        let fa = out_fact(var_term("x", LSort::Msg, 0));
        let out = r.solve_premise_goal(&(var("i", LSort::Node, 5), 0), &fa)?;
        Ok((out, r.sys))
    });
    assert!(
        matches!(&out, GoalCases::LinearNamed(n) if n.to_string() == "Producer"),
        "expected LinearNamed(\"Producer\"), got {:?}",
        out
    );
    assert_eq!(items(&sys.nodes).len(), 1);
    assert_eq!(items(&sys.edges).len(), 1);
    assert_eq!(items(&sys.edges)[0].tgt, p);
}

#[test]
fn solve_premise_goal_kd_fact_inserts_irecv_chain() {
    let mut ctx = ctx();
    let sys = solve(&mut ctx, |c| {
        let mut r = Reduction::new(c, System::empty());
        let fa = kd_fact(var_term("x", LSort::Msg, 0));
        let _out = r.solve_premise_goal(&(var("i", LSort::Node, 0), 0), &fa)?;
        Ok(r.sys)
    });
    assert!(items(&sys.nodes)
        .iter()
        .any(|(_, ru)| matches!(ru.info, RuleInfo::Intr(IntrRuleACInfo::IRecv))));
    assert!(items(&sys.goals).iter().any(|(g, _)| matches!(g, Goal::Chain(_, _))));
}

#[test]
fn solve_chain_goal_missing_node_is_contradictory() {
    let mut ctx = ctx();
    let out = solve(&mut ctx, |c| {
        let mut r = Reduction::new(c, System::empty());
        let i = var("i", LSort::Node, 0);
        let j = var("j", LSort::Node, 0);
        r.solve_chain_goal(&(i, 0), &(j, 0))
    });
    assert!(matches!(out, GoalCases::Contradictory));
}

#[test]
fn solve_chain_goal_compatible_facts_inserts_edge() {
    let mut ctx = ctx();
    let (out, sys) = solve(&mut ctx, |cx| {
        let mut sys = System::empty();
        let i = var("i", LSort::Node, 0);
        let j = var("j", LSort::Node, 0);
        let tx = var_term("x", LSort::Msg, 0);
        let ru_i = RuleACInst::new(
            RuleInfo::Intr(IntrRuleACInfo::IRecv),
            List::Nil,
            list(vec![kd_fact(tx.dup())]),
            List::Nil,
        );
        sys.add_node(i.dup(), ru_i);
        let ru_j = RuleACInst::new(
            RuleInfo::Intr(IntrRuleACInfo::ISend),
            list(vec![kd_fact(tx)]),
            List::Nil,
            List::Nil,
        );
        sys.add_node(j.dup(), ru_j);
        let c = (i, 0u64);
        let p = (j, 0u64);
        sys.add_goal(Goal::Chain(c.dup(), p.dup()));
        let mut r = Reduction::new(cx, sys);
        let out = r.solve_chain_goal(&c, &p)?;
        Ok((out, r.sys))
    });
    assert!(
        matches!(out, GoalCases::LinearNamed(_)),
        "expected LinearNamed, got {:?}",
        out
    );
    assert_eq!(items(&sys.edges).len(), 1);
    assert!(items(&sys.goals).iter().any(|(g, s)| matches!(g, Goal::Chain(_, _)) && s.solved));
}

#[test]
fn insert_atom_action_creates_action_goal() {
    let mut ctx = ctx();
    let (ok, sys) = solve(&mut ctx, |c| {
        let mut r = Reduction::new(c, System::empty());
        let action = GAtom::Action(
            proto_fact("Setup", vec![var_term("k", LSort::Msg, 0)]),
            var_term("i", LSort::Node, 0),
        );
        let ok = r.insert_atom(&action)?;
        Ok((ok, r.sys))
    });
    assert!(ok);
    assert_eq!(items(&sys.goals).len(), 1);
    assert!(matches!(&items(&sys.goals)[0].0, Goal::Action(_, fact)
        if fact.tag == FactTag::Proto(Multiplicity::Linear, Text::new("Setup"), 1)));
}

#[test]
fn insert_atom_less_creates_less_atom() {
    let mut ctx = ctx();
    let (ok, sys) = solve(&mut ctx, |c| {
        let mut r = Reduction::new(c, System::empty());
        let less = GAtom::Less(var_term("i", LSort::Node, 0), var_term("j", LSort::Node, 0));
        let ok = r.insert_atom(&less)?;
        Ok((ok, r.sys))
    });
    assert!(ok);
    assert_eq!(items(&sys.less_atoms).len(), 1);
}

#[test]
fn insert_atom_last_sets_last_atom() {
    let mut ctx = ctx();
    let (ok, sys) = solve(&mut ctx, |c| {
        let mut r = Reduction::new(c, System::empty());
        let last = GAtom::Last(var_term("i", LSort::Node, 0));
        let ok = r.insert_atom(&last)?;
        Ok((ok, r.sys))
    });
    assert!(ok);
    assert!(sys.last_atom.is_some());
}

#[test]
fn solve_action_with_fresh_premise_adds_fresh_supplier() {
    let mut ctx2 = ctx();
    let tk = var_term("k", LSort::Fresh, 0);
    let prem = fresh_fact(tk.dup());
    let act = proto_fact("Setup", vec![tk.dup()]);
    let conc = out_fact(tk);
    ctx2.rules = list(vec![proto_rule("Setup", vec![prem], vec![conc], vec![act])]);
    let (out, sys) = solve(&mut ctx2, |c| {
        let mut r = Reduction::new(c, System::empty());
        let i = var("i", LSort::Node, 0);
        let fa = proto_fact("Setup", vec![var_term("x", LSort::Msg, 1)]);
        let out = r.solve_action_goal(&i, &fa)?;
        Ok((out, r.sys))
    });
    assert!(
        matches!(&out, GoalCases::LinearNamed(n) if n.to_string() == "Setup"),
        "expected LinearNamed(\"Setup\"), got {:?}",
        out
    );
    assert_eq!(
        items(&sys.nodes).len(),
        2,
        "expected 2 nodes (Setup + Fresh supplier), got {}",
        items(&sys.nodes).len()
    );
    assert_eq!(items(&sys.edges).len(), 1, "expected 1 edge");
}

#[test]
fn while_changing_terminates() {
    let ctx = ctx();
    let r = Reduction::new(&ctx, System::empty());
    let count = std::cell::Cell::new(0);
    r.while_changing(|mut red| {
        count.set(count.get() + 1);
        if count.get() < 3 {
            let v = var("k", LSort::Msg, count.get() as u64);
            let f = Fact::new(FactTag::Out, List::Nil);
            red.insert_goal(Goal::Action(v, f));
        }
        red
    });
    assert!(count.get() >= 3);
}

fn neg_less_node_universal(i_name: &str, j_name: &str) -> Guarded {
    let guard = GAtom::Less(var_term(i_name, LSort::Node, 0), var_term(j_name, LSort::Node, 0));
    Guarded::GGuarded(Quant::All, List::Nil, list(vec![guard]), Box::new(gfalse()))
}

#[test]
fn insert_formula_negated_less_mark_false_does_not_push_solved() {
    let mut ctx = ctx();
    let g = neg_less_node_universal("i", "j");
    let (before, sys) = solve(&mut ctx, |c| {
        let mut r = Reduction::new(c, System::empty());
        let before = r.sys.solved_formulas.is_empty();
        r.insert_formula_inner(&neg_less_node_universal("i", "j"), false)?;
        Ok((before, r.sys))
    });
    assert!(before, "precondition: solved_formulas starts empty");
    assert!(
        !holds(&sys.solved_formulas, &g),
        "without the mark the formula must not be stored as solved"
    );
}

#[test]
fn insert_formula_negated_less_mark_true_pushes_solved() {
    let mut ctx = ctx();
    let g = neg_less_node_universal("i", "j");
    let sys = solve(&mut ctx, |c| {
        let mut r = Reduction::new(c, System::empty());
        r.insert_formula_inner(&neg_less_node_universal("i", "j"), true)?;
        Ok(r.sys)
    });
    assert!(
        holds(&sys.solved_formulas, &g),
        "with the mark the formula must be stored as solved"
    );
}

#[test]
fn empty_system_is_not_finished() {
    let mut ctx = ctx();
    let r = solve(&mut ctx, |c| is_finished(c, &System::empty()));
    assert!(r.is_none(), "initial system shouldn't be finished");
}

#[test]
fn solved_when_no_goals_and_subterms_done() {
    let mut ctx = ctx();
    let mut s = System::empty();
    s.solved_formulas = list(vec![gtrue()]);
    let nid = var("i", LSort::Node, 0);
    let rule = RuleACInst::new(proto_info("Test"), List::Nil, List::Nil, List::Nil);
    s.add_node(nid, rule);
    match solve(&mut ctx, |c| is_finished(c, &s)) {
        Some(Finish::Solved) => {}
        r => panic!("expected Solved, got {:?}", r),
    }
}

#[test]
fn gfalse_formula_is_contradictory_not_unfinishable() {
    let mut ctx = ctx();
    let mut s = System::empty();
    s.formulas = list(vec![gfalse()]);
    match solve(&mut ctx, |c| is_finished(c, &s)) {
        Some(Finish::Contradictory(Some(Contradiction::FormulasFalse))) => {}
        r => panic!("expected Contradictory(FormulasFalse), got {:?}", r),
    }
}

#[test]
fn exec_sorry_is_empty_cases() {
    let mut ctx = ctx();
    let s = System::empty();
    let cases =
        solve(&mut ctx, |c| exec_proof_method(c, &ProofMethod::Sorry(None), &s)).unwrap();
    assert!(cases.is_empty());
}

#[test]
fn induction_on_open_formula_returns_none() {
    let mut ctx = ctx();
    let s = System::empty();
    let r = solve(&mut ctx, |c| exec_proof_method(c, &ProofMethod::Induction, &s));
    assert!(r.is_none());
}

#[test]
fn induction_creates_two_cases() {
    let mut ctx = ctx();
    let action_atom =
        GAtom::Action(proto_fact("Setup", vec![Term::Bound(1)]), Term::Bound(0));
    let fm = Guarded::GGuarded(
        Quant::Ex,
        list(vec![
            Binding { name: Text::new("k"), sort: LSort::Msg },
            Binding { name: Text::new("i"), sort: LSort::Node },
        ]),
        list(vec![action_atom]),
        Box::new(Guarded::Conj(Box::new(List::Nil))),
    );
    let mut s = System::empty();
    s.formulas = list(vec![fm]);
    let r = solve(&mut ctx, |c| exec_proof_method(c, &ProofMethod::Induction, &s))
        .expect("induction");
    let r = items(&r);
    assert_eq!(r.len(), 2);
    assert!(r.iter().any(|(n, _)| n.to_string() == "empty_trace"));
    assert!(r.iter().any(|(n, _)| n.to_string() == "non_empty_trace"));
}

#[test]
fn check_solve_goal_rejects_unknown() {
    let mut ctx = ctx();
    let s = System::empty();
    let v = var("k", LSort::Msg, 0);
    let f = Fact::new(FactTag::Out, List::Nil);
    let method = ProofMethod::SolveGoal(Goal::Action(v, f));
    let r = solve(&mut ctx, |c| check_and_exec_proof_method(c, &method, &s));
    assert!(r.is_none());
}

fn x(idx: u64) -> Term {
    var_term("x", LSort::Msg, idx)
}

fn node(name: &str, idx: u64) -> LVar {
    var(name, LSort::Node, idx)
}

fn at(name: &str, idx: u64) -> Term {
    Term::Var(node(name, idx))
}

fn atom(a: GAtom) -> Guarded {
    Guarded::Atom(a)
}

#[test]
fn marking_as_contradictory_holds_and_repeats() {
    let ctx = ctx();
    let mut r = Reduction::new(&ctx, System::empty());
    r.mark_contradictory();
    assert!(r.sys.eq_store.is_false());
    assert!(holds(&r.sys.formulas, &gfalse()));
    assert_eq!(r.changed, ChangeIndicator::Changed);
    let once = r.sys.dup();
    r.changed = ChangeIndicator::Unchanged;
    r.mark_contradictory();
    assert_eq!(r.sys, once);
    assert_eq!(r.changed, ChangeIndicator::Unchanged);
    assert!(!r.set_eq_store_false());
}

#[test]
fn known_pairs_are_taken_apart() {
    let ctx = ctx();
    let mut r = Reduction::new(&ctx, System::empty());
    let pair = app("pair", vec![x(1), x(2)]);
    let g = || Goal::Action(node("i", 4), ku_fact(app("pair", vec![x(1), x(2)])));
    r.insert_goal(Goal::Action(node("i", 4), ku_fact(pair)));
    let goals: Vec<Goal> = items(&r.sys.goals).iter().map(|(g, _)| g.dup()).collect();
    assert_eq!(
        goals,
        vec![
            g(),
            Goal::Action(node("vk", 5), ku_fact(x(1))),
            Goal::Action(node("vk", 6), ku_fact(x(2))),
        ]
    );
    let orders: Vec<(u64, u64)> =
        items(&r.sys.less_atoms).iter().map(|l| (l.smaller.idx, l.larger.idx)).collect();
    assert_eq!(orders, vec![(5, 4), (6, 4)]);
    assert_eq!(r.next_fresh_node_idx(), 7);
    let before = r.sys.dup();
    r.insert_goal(g());
    assert_eq!(r.sys, before);
}

#[test]
fn fresh_nodes_are_above_the_system() {
    let ctx = ctx();
    let mut sys = System::empty();
    sys.add_goal(Goal::Action(node("i", 30), out_fact(x(3))));
    let mut r = Reduction::new(&ctx, sys);
    assert_eq!(r.fresh_var_baseline(), 30);
    assert_eq!(r.next_fresh_node_idx(), 31);
    assert_eq!(r.next_fresh_node_idx(), 32);
}

#[test]
fn floors_raise_the_supply() {
    let mut ctx = ctx();
    assert_eq!(set_refine_floor(&mut ctx, 50), 0);
    assert_eq!(refine_floor(&ctx), 50);
    assert_eq!(Reduction::new(&ctx, System::empty()).supply.next, 51);
    assert_eq!(Reduction::new_with_floor(&ctx, System::empty(), 0).supply.next, 0);
    assert_eq!(Reduction::new_inheriting(&ctx, System::empty(), 70).supply.next, 70);
    assert_eq!(Reduction::new_inheriting(&ctx, System::empty(), 7).supply.next, 51);
    assert_eq!(set_refine_floor(&mut ctx, 0), 50);
}

#[test]
fn solved_goals_are_marked_or_dropped() {
    let ctx = ctx();
    let mut sys = System::empty();
    sys.add_goal(Goal::Split(1));
    sys.add_goal(Goal::Chain((node("i", 0), 0), (node("j", 1), 0)));
    sys.add_goal(Goal::Premise((node("i", 0), 0), kd_fact(x(1))));
    let mut r = Reduction::new(&ctx, sys);
    r.mark_goal_as_solved(&Goal::Chain((node("i", 0), 0), (node("j", 1), 0)));
    r.mark_goal_as_solved(&Goal::Premise((node("i", 0), 0), kd_fact(x(1))));
    r.mark_goal_as_solved(&Goal::Split(1));
    assert_eq!(
        r.sys.goals,
        list(vec![(Goal::Split(1), GoalStatus { solved: true, looping: false, nr: 0 })])
    );
    r.changed = ChangeIndicator::Unchanged;
    r.mark_goal_as_solved(&Goal::Split(1));
    assert_eq!(r.changed, ChangeIndicator::Unchanged);
}

#[test]
fn solved_disjunctions_leave_the_formulas() {
    let ctx = ctx();
    let alts = || list(vec![atom(GAtom::Last(at("i", 0))), atom(GAtom::Last(at("j", 1)))]);
    let fm = Guarded::Disj(Box::new(alts()));
    let mut sys = System::empty();
    sys.formulas = list(vec![fm.dup()]);
    sys.add_goal(Goal::Disj(alts()));
    let mut r = Reduction::new(&ctx, sys);
    r.mark_goal_as_solved(&Goal::Disj(alts()));
    assert!(r.sys.formulas.is_empty());
    assert_eq!(r.sys.solved_formulas, list(vec![fm]));
}

#[test]
fn splits_without_disjunction_are_removed() {
    let ctx = ctx();
    let mut sys = System::empty();
    let id = sys.eq_store.add_disj(list(vec![list(vec![(var("x", LSort::Msg, 0), x(1))])]));
    sys.add_goal(Goal::Split(id));
    sys.add_goal(Goal::Split(77));
    let mut r = Reduction::new(&ctx, sys);
    r.remove_solved_split_goals();
    assert_eq!(r.changed, ChangeIndicator::Changed);
    assert_eq!(items(&r.sys.goals).len(), 1);
    assert_eq!(items(&r.sys.goals)[0].0, Goal::Split(id));
    r.changed = ChangeIndicator::Unchanged;
    r.remove_solved_split_goals();
    assert_eq!(r.changed, ChangeIndicator::Unchanged);
}

#[test]
fn nodes_are_set_once_each() {
    let mut ctx = ctx();
    let ru = |t: Term| RuleACInst::new(proto_info("R"), list(vec![in_fact(t)]), List::Nil, List::Nil);
    let (out, sys) = solve(&mut ctx, |c| {
        let mut r = Reduction::new(c, System::empty());
        let out = r.set_nodes(&list(vec![
            (node("i", 1), ru(x(1))),
            (node("j", 2), ru(x(2))),
            (node("i", 1), ru(x(3))),
        ]))?;
        Ok((out, r.sys))
    });
    assert!(matches!(out, SolveOutcome::Linear(ChangeIndicator::Changed)));
    assert_eq!(
        sys.nodes,
        list(vec![(node("i", 1), ru(x(1))), (node("j", 2), ru(x(2)))])
    );
    assert_eq!(items(&sys.eq_store.subst).len(), 1);
}

#[test]
fn nodes_with_identifiers_of_their_own_ask_nothing() {
    let ctx = ctx();
    let ru = || RuleACInst::new(proto_info("R"), List::Nil, List::Nil, List::Nil);
    let nodes = list(vec![(node("i", 1), ru()), (node("j", 2), ru())]);
    let mut r = Reduction::new(&ctx, System::empty());
    let out = r.set_nodes(&nodes);
    assert_eq!(out, Ok(SolveOutcome::Linear(ChangeIndicator::Unchanged)));
    assert_eq!(r.sys.nodes, nodes);
}

#[test]
fn rules_of_different_names_contradict() {
    let ctx = ctx();
    let ru = |n: &str| RuleACInst::new(proto_info(n), List::Nil, List::Nil, List::Nil);
    let mut r = Reduction::new(&ctx, System::empty());
    let out = r.solve_rule_eqs(SplitStrategy::SplitNow, &list(vec![(ru("R"), ru("S"))]));
    assert_eq!(out, Ok(SolveOutcome::Contradictory));
    assert!(r.sys.eq_store.is_false());
}

#[test]
fn edges_between_different_facts_are_not_added() {
    let ctx = ctx();
    let mut r = Reduction::new(&ctx, System::empty());
    let e = || Edge { src: (node("i", 0), 0), tgt: (node("j", 1), 0) };
    let out = r.insert_edge_labeled_with_facts(e(), &out_fact(x(1)), &in_fact(x(1)));
    assert_eq!(out, Ok(SolveOutcome::Contradictory));
    assert!(r.sys.edges.is_empty());
    assert!(holds(&r.sys.formulas, &gfalse()));
    let mut r = Reduction::new(&ctx, System::empty());
    let out = r.insert_edge_labeled(e());
    assert_eq!(out, Ok(SolveOutcome::Linear(ChangeIndicator::Unchanged)));
    assert_eq!(r.sys.edges, list(vec![e()]));
}

#[test]
fn edges_unify_the_facts_at_their_ends() {
    let mut ctx = ctx();
    let sys = solve(&mut ctx, |c| {
        let mut sys = System::empty();
        sys.add_node(
            node("i", 5),
            RuleACInst::new(proto_info("R"), List::Nil, list(vec![out_fact(x(1))]), List::Nil),
        );
        sys.add_node(
            node("j", 6),
            RuleACInst::new(proto_info("S"), list(vec![out_fact(x(2))]), List::Nil, List::Nil),
        );
        let mut r = Reduction::new(c, sys);
        r.insert_edge_labeled(Edge { src: (node("i", 5), 0), tgt: (node("j", 6), 0) })?;
        r.subst_system()?;
        Ok(r.sys)
    });
    let nodes = items(&sys.nodes);
    assert_eq!(nodes[0].1.conclusions, nodes[1].1.premises);
    assert_eq!(items(&sys.edges).len(), 1);
}

#[test]
fn last_node_is_one() {
    let mut ctx = ctx();
    let sys = solve(&mut ctx, |c| {
        let mut r = Reduction::new(c, System::empty());
        r.insert_last(&node("i", 1))?;
        r.insert_last(&node("i", 1))?;
        r.insert_last(&node("j", 2))?;
        r.subst_system()?;
        Ok(r.sys)
    });
    let same = apply_term(&sys.eq_store.subst, &at("i", 1));
    assert_eq!(same, apply_term(&sys.eq_store.subst, &at("j", 2)));
    assert_eq!(sys.last_atom.map(Term::Var), Some(same));
}

#[test]
fn stored_formulas_are_inserted_once() {
    let mut ctx = ctx();
    let fm = || {
        Guarded::Disj(Box::new(list(vec![
            atom(GAtom::Last(at("i", 0))),
            atom(GAtom::Last(at("j", 1))),
        ])))
    };
    let (once, twice) = solve(&mut ctx, |c| {
        let mut r = Reduction::new(c, System::empty());
        r.insert_formula(&fm())?;
        let once = r.sys.dup();
        r.insert_formula(&fm())?;
        Ok((once, r.sys))
    });
    assert_eq!(once, twice);
    assert_eq!(items(&once.goals).len(), 1);
    assert_eq!(once.formulas, list(vec![fm()]));
}

#[test]
fn conjunctions_are_inserted_part_by_part() {
    let mut ctx = ctx();
    let less = |a: &str, b: &str| atom(GAtom::Less(at(a, 0), at(b, 0)));
    let sys = solve(&mut ctx, |c| {
        let mut r = Reduction::new(c, System::empty());
        r.insert_formula(&Guarded::Conj(Box::new(list(vec![less("i", "j"), less("j", "k")]))))?;
        Ok(r.sys)
    });
    assert_eq!(items(&sys.less_atoms).len(), 2);
}

#[test]
fn existential_formulas_get_witnesses_above_the_system() {
    let mut ctx = ctx();
    let fm = Guarded::GGuarded(
        Quant::Ex,
        list(vec![Binding { name: Text::new("j"), sort: LSort::Node }]),
        list(vec![GAtom::Less(at("i", 4), Term::Bound(0))]),
        Box::new(gtrue()),
    );
    let sys = solve(&mut ctx, |c| {
        let mut r = Reduction::new(c, System::empty());
        r.insert_formula(&fm)?;
        Ok(r.sys)
    });
    let l = items(&sys.less_atoms)[0];
    assert_eq!(l.smaller, node("i", 4));
    assert_eq!(l.larger, node("j", 5));
    assert!(holds(&sys.solved_formulas, &fm));
}

#[test]
fn negated_orders_become_disjunctions() {
    let mut ctx = ctx();
    let sys = solve(&mut ctx, |c| {
        let mut r = Reduction::new(c, System::empty());
        r.insert_formula(&neg_less_node_universal("i", "j"))?;
        Ok(r.sys)
    });
    let goals = items(&sys.goals);
    assert_eq!(goals.len(), 1);
    match &goals[0].0 {
        Goal::Disj(alts) => assert_eq!(
            *alts,
            list(vec![
                atom(GAtom::Eq(at("i", 0), at("j", 0))),
                atom(GAtom::Less(at("j", 0), at("i", 0))),
            ])
        ),
        g => panic!("unexpected {:?}", g),
    }
}

#[test]
fn atoms_that_are_no_constraints_are_refused() {
    let mut ctx = ctx();
    let ok = solve(&mut ctx, |c| {
        let mut r = Reduction::new(c, System::empty());
        let a = r.insert_atom(&GAtom::Pred(proto_fact("P", vec![])))?;
        let b = r.insert_atom(&GAtom::Less(Term::Bound(0), at("i", 0)))?;
        let d = r.insert_atom(&GAtom::Eq(Term::Bound(0), x(0)))?;
        Ok((a, b, d))
    });
    assert_eq!(ok, (false, false, false));
}

#[test]
fn adding_nothing_changes_nothing() {
    let mut ctx = ctx();
    let mut sys = System::empty();
    sys.add_node(node("i", 1), RuleACInst::new(proto_info("R"), List::Nil, List::Nil, List::Nil));
    sys.add_goal(Goal::Action(node("i", 1), out_fact(x(2))));
    let (out, end) = solve(&mut ctx, |c| {
        let mut r = Reduction::new(c, sys.dup());
        let out = r.conjoin_system(&System::empty())?;
        Ok((out, r.sys))
    });
    assert_eq!(out, SolveOutcome::Linear(ChangeIndicator::Changed));
    assert_eq!(end, sys);
}

#[test]
fn systems_are_joined() {
    let mut ctx = ctx();
    let ru = || RuleACInst::new(proto_info("R"), List::Nil, List::Nil, List::Nil);
    let mut a = System::empty();
    a.add_node(node("i", 1), ru());
    let mut b = System::empty();
    b.add_node(node("j", 2), ru());
    b.add_edge(Edge { src: (node("j", 2), 0), tgt: (node("i", 1), 0) });
    b.add_less(LessAtom { smaller: node("j", 2), larger: node("i", 1), reason: Reason::Fresh });
    b.add_goal(Goal::Action(node("j", 2), out_fact(x(3))));
    b.lemmas = list(vec![gtrue()]);
    let end = solve(&mut ctx, |c| {
        let mut r = Reduction::new(c, a.dup());
        r.conjoin_system(&b)?;
        Ok(r.sys)
    });
    assert_eq!(items(&end.nodes).len(), 2);
    assert_eq!(end.edges, b.edges);
    assert_eq!(end.less_atoms, b.less_atoms);
    assert_eq!(items(&end.goals).len(), 1);
    assert_eq!(end.lemmas, b.lemmas);
}

#[test]
fn variants_are_a_disjunction_with_a_goal() {
    let mut ctx = ctx();
    let (dead, sys) = solve(&mut ctx, |c| {
        let mut r = Reduction::new(c, System::empty());
        let variants = list(vec![
            list(vec![(var("x", LSort::Msg, 0), x(1))]),
            list(vec![(var("x", LSort::Msg, 0), x(2))]),
        ]);
        let dead = r.solve_rule_constraints(Some(variants))?;
        Ok((dead, r.sys))
    });
    assert!(!dead);
    assert_eq!(items(&sys.eq_store.conj).len(), 1);
    assert_eq!(items(&sys.goals)[0].0, Goal::Split(0));
    let none = solve(&mut ctx, |c| {
        let mut r = Reduction::new(c, System::empty());
        r.solve_rule_constraints(None)
    });
    assert!(!none);
}

#[test]
fn splits_give_a_case_for_each_substitution() {
    let mut ctx = ctx();
    let (out, counters) = solve(&mut ctx, |c| {
        let mut sys = System::empty();
        let id = sys.eq_store.add_disj(list(vec![
            list(vec![(var("x", LSort::Msg, 0), x(1))]),
            list(vec![(var("x", LSort::Msg, 0), x(2))]),
        ]));
        sys.add_goal(Goal::Split(id));
        sys.add_goal(Goal::Action(node("i", 3), out_fact(x(0))));
        let mut r = Reduction::new(c, sys);
        let out = r.solve_split_goal(id)?;
        Ok((out, items(&r.last_case_counters).len()))
    });
    match out {
        GoalCases::Cases(l) => {
            let l = items(&l);
            assert_eq!(l.len(), 2);
            assert_eq!(counters, 2);
            assert!(l.iter().all(|(n, _)| n.to_string() == "split"));
            for ((_, sys), k) in l.iter().zip(1u64..) {
                assert!(items(&sys.goals)
                    .iter()
                    .any(|(g, _)| *g == Goal::Action(node("i", 3), out_fact(x(k)))));
                assert!(items(&sys.goals)
                    .iter()
                    .any(|(g, st)| *g == Goal::Split(0) && st.solved));
            }
        }
        other => panic!("expected Cases, got {:?}", other),
    }
}

#[test]
fn unknown_splits_contradict() {
    let mut ctx = ctx();
    let out = solve(&mut ctx, |c| {
        let mut r = Reduction::new(c, System::empty());
        r.solve_split_goal(5)
    });
    assert_eq!(out, GoalCases::Contradictory);
}

#[test]
fn finished_cases_are_taken_over_or_handed_out() {
    let ctx = ctx();
    let case = |n: &str, next: u64| Case { name: Text::new(n), sys: System::empty(), next };
    let mut r = Reduction::new(&ctx, System::empty());
    assert_eq!(r.finish_goal_cases(List::Nil, Text::new("n")), GoalCases::Contradictory);
    let out = r.finish_goal_cases(list(vec![case("a", 9)]), Text::new("n"));
    assert_eq!(out, GoalCases::LinearNamed(Text::new("n")));
    assert_eq!(r.supply.next, 9);
    let out = r.finish_goal_cases(list(vec![case("a", 3), case("b", 4)]), Text::new("n"));
    assert!(matches!(out, GoalCases::Cases(_)));
    assert_eq!(r.last_case_counters, list(vec![3, 4]));
}

#[test]
fn messages_are_supplied_by_the_intruder() {
    let ctx = ctx();
    let mut r = Reduction::new(&ctx, System::empty());
    r.add_isend_supplier_for(&node("i", 4), 2, &in_fact(x(1)));
    let edges = items(&r.sys.edges);
    assert_eq!(edges.len(), 1);
    assert_eq!(edges[0].tgt, (node("i", 4), 2));
    assert!(matches!(
        items(&r.sys.nodes)[0].1.info,
        RuleInfo::Intr(IntrRuleACInfo::ISend)
    ));
}

#[test]
fn premises_of_a_rule_are_exploited() {
    let mut ctx = ctx();
    let sys = solve(&mut ctx, |c| {
        let mut sys = System::empty();
        let ru = RuleACInst::new(
            proto_info("R"),
            list(vec![
                fresh_fact(var_term("k", LSort::Fresh, 1)),
                in_fact(x(2)),
                proto_fact("State", vec![x(2)]),
            ]),
            List::Nil,
            List::Nil,
        );
        sys.add_node(node("i", 9), ru.dup());
        let mut r = Reduction::new(c, sys);
        r.exploit_prems(&node("i", 9), &ru)?;
        Ok(r.sys)
    });
    assert_eq!(items(&sys.nodes).len(), 3);
    assert_eq!(items(&sys.edges).len(), 2);
    assert!(items(&sys.goals)
        .iter()
        .any(|(g, _)| *g == Goal::Premise((node("i", 9), 2), proto_fact("State", vec![x(2)]))));
}

#[test]
fn sums_are_taken_apart_in_all_ways() {
    let mut ctx = ctx();
    let sum = || {
        f_app_ac(AcSym::Xor, &list(vec![
            var_term("a", LSort::Msg, 1),
            var_term("b", LSort::Msg, 2),
        ]))
    };
    let out = solve(&mut ctx, |c| {
        let mut sys = System::empty();
        sys.add_goal(Goal::Action(node("i", 3), ku_fact(sum())));
        let mut r = Reduction::new(c, sys);
        r.solve_action_goal(&node("i", 3), &ku_fact(sum()))
    });
    match out {
        GoalCases::Cases(l) => {
            assert_eq!(items(&l).len(), 2);
            for (_, sys) in items(&l) {
                assert!(items(&sys.nodes).iter().any(|(v, _)| *v == node("i", 3)));
            }
        }
        other => panic!("expected Cases, got {:?}", other),
    }
}

#[test]
fn actions_are_solved_by_sources_where_there_are_some() {
    let mut ctx = ctx();
    ctx.has_sources = true;
    let fa = ku_fact(x(1));
    let source = |sys: &System| {
        let mut out = sys.dup();
        out.add_node(
            node("i", 3),
            RuleACInst::new(proto_info("R"), List::Nil, List::Nil, list(vec![ku_fact(x(1))])),
        );
        out
    };
    let out = loop {
        let r = {
            let mut r = Reduction::new(&ctx, System::empty());
            r.solve_action_goal(&node("i", 3), &fa)
        };
        match r {
            Ok(out) => break out,
            Err(Query::ActionSources(q)) => {
                let case = ActionSourceCase {
                    label: Text::new("R"),
                    sys: source(&q.sys),
                    action: ku_fact(x(1)),
                    next: q.next,
                };
                let a = ActionSourcesAnswer { cases: Some(list(vec![case])), next: q.next };
                push(&mut ctx.answers.action_sources, (q, a));
            }
            Err(q) => answer(&mut ctx, q),
        }
    };
    assert!(matches!(&out, GoalCases::LinearNamed(n) if n.to_string() == "R"), "{:?}", out);
}

#[test]
fn premises_are_solved_by_sources_where_there_are_some() {
    let mut ctx = ctx();
    ctx.has_sources = true;
    let fa = proto_fact("S", vec![x(1)]);
    let out = loop {
        let r = {
            let mut r = Reduction::new(&ctx, System::empty());
            r.solve_premise_goal(&(node("i", 3), 0), &fa)
        };
        match r {
            Ok(out) => break out,
            Err(Query::PremiseSources(q)) => {
                let case = |n: &str| PremiseSourceCase {
                    label: Text::new(n),
                    sys: q.sys.dup(),
                    next: q.next,
                };
                let cases = Some(list(vec![case("R"), case("S")]));
                let a = PremiseSourcesAnswer { cases, next: q.next };
                push(&mut ctx.answers.premise_sources, (q, a));
            }
            Err(q) => answer(&mut ctx, q),
        }
    };
    match out {
        GoalCases::Cases(l) => {
            let names: Vec<String> = items(&l).iter().map(|(n, _)| n.to_string()).collect();
            assert_eq!(names, vec!["R", "S"]);
        }
        other => panic!("expected Cases, got {:?}", other),
    }
}

#[test]
fn every_kind_of_question_is_asked() {
    let ctx0 = ctx();
    let sys = System::empty();
    let mut r = Reduction::new(&ctx0, System::empty());
    let one = eqs(vec![(x(0), x(1))]);
    assert!(matches!(
        r.solve_term_eqs(SplitStrategy::SplitNow, &one),
        Err(Query::AddEqs(q)) if q.eqs == one && q.next == 0
    ));
    let mut r = Reduction::new(&ctx0, System::empty());
    let variants = list(vec![list(vec![(var("x", LSort::Msg, 0), x(1))])]);
    assert!(matches!(r.solve_rule_constraints(Some(variants)), Err(Query::Simp(_))));
    let mut with_disj = System::empty();
    let id = with_disj.eq_store.add_disj(list(vec![List::Nil]));
    let mut r = Reduction::new(&ctx0, with_disj);
    assert!(matches!(r.solve_split_goal(id), Err(Query::Split(q)) if q.id == id));
    let mut r = Reduction::new(&ctx0, System::empty());
    assert!(matches!(
        r.insert_atom(&GAtom::Eq(x(0), x(1))),
        Err(Query::Reduce(t)) if t == x(0)
    ));
    let mut ctx1 = ctx();
    ctx1.has_sources = true;
    let mut r = Reduction::new(&ctx1, System::empty());
    assert!(matches!(
        r.solve_action_goal(&node("i", 0), &ku_fact(x(1))),
        Err(Query::ActionSources(_))
    ));
    let mut r = Reduction::new(&ctx1, System::empty());
    assert!(matches!(
        r.solve_premise_goal(&(node("i", 0), 0), &proto_fact("A", vec![])),
        Err(Query::PremiseSources(_))
    ));
    assert!(matches!(
        exec_proof_method(&ctx0, &ProofMethod::Simplify, &sys),
        Err(Query::Simplify(q)) if q.sys == sys && q.seed.is_none()
    ));
    let mut begun = System::empty();
    begun.solved_formulas = list(vec![gtrue()]);
    assert!(matches!(is_finished(&ctx0, &begun), Err(Query::Contradictions(s)) if s == begun));
    let mut ctx2 = ctx();
    push(&mut ctx2.answers.contradictions, (begun.dup(), List::Nil));
    assert!(matches!(is_finished(&ctx2, &begun), Err(Query::OpenGoals(s)) if s == begun));
    let cases = list(vec![(Text::new("a"), System::empty())]);
    assert!(matches!(process_cases(&ctx0, &cases), Err(Query::NonRedundant(_))));
    let mut posed = System::empty();
    posed.formulas = list(vec![gtrue()]);
    assert!(matches!(
        exec_proof_method(&ctx0, &ProofMethod::Induction, &posed),
        Err(Query::Induction(fm)) if fm == gtrue()
    ));
}

/// A system in which two rules consume the same fresh value.
fn fresh_shared() -> System {
    let k = || var_term("k", LSort::Fresh, 1);
    let mut sys = System::empty();
    for (idx, name) in [(2u64, "R"), (3u64, "S")] {
        sys.add_node(
            node("i", idx),
            RuleACInst::new(proto_info(name), list(vec![fresh_fact(k())]), List::Nil, List::Nil),
        );
    }
    sys
}

#[test]
fn fresh_values_are_consumed_once() {
    let mut ctx0 = ctx();
    assert!(solve(&mut ctx0, |c| has_fresh_consumer_conflation(c, &fresh_shared())));
    let mut alike = ctx();
    let conflated = loop {
        match has_fresh_consumer_conflation(&alike, &fresh_shared()) {
            Ok(b) => break b,
            Err(Query::Unifiable(q)) => push(&mut alike.answers.unifiable, (q, Some(true))),
            Err(q) => answer(&mut alike, q),
        }
    };
    assert!(!conflated);
    let mut ctx1 = ctx();
    assert!(!solve(&mut ctx1, |c| has_fresh_consumer_conflation(c, &System::empty())));
    assert!(matches!(
        has_fresh_consumer_conflation(&ctx(), &fresh_shared()),
        Err(Query::Unifiable(UnifiableQuery { .. }))
    ));
}

#[test]
fn simplification_that_changes_nothing_does_not_apply() {
    let mut ctx = ctx();
    let s = System::empty();
    assert_eq!(solve(&mut ctx, |c| exec_proof_method(c, &ProofMethod::Simplify, &s)), None);
    assert!(!solve(&mut ctx, |c| is_applicable_for_display(c, &ProofMethod::Simplify, &s)));
    let mut dead = System::empty();
    dead.eq_store.contradictory = true;
    assert_eq!(
        solve(&mut ctx, |c| exec_proof_method(c, &ProofMethod::Simplify, &dead)),
        Some(List::Nil)
    );
}

#[test]
fn simplified_cases_are_numbered_and_clean() {
    let mut ctx = ctx();
    let s = System::empty();
    let found = |idx: u64| {
        let mut t = System::empty();
        t.last_atom = Some(node("i", idx));
        t.lemmas = if idx == 8 { list(vec![gtrue()]) } else { List::Nil };
        t.eq_store.subst = list(vec![(var("x", LSort::Msg, 0), x(1))]);
        t
    };
    let mut lost = System::empty();
    lost.eq_store.contradictory = true;
    let r = loop {
        match exec_proof_method(&ctx, &ProofMethod::Simplify, &s) {
            Ok(r) => break r,
            Err(Query::Simplify(q)) => {
                let a = list(vec![found(5), lost.dup(), found(8)]);
                push(&mut ctx.answers.simplify, (q, a));
            }
            Err(q) => answer(&mut ctx, q),
        }
    };
    let r = r.expect("cases");
    let r = items(&r);
    let names: Vec<String> = r.iter().map(|(n, _)| n.to_string()).collect();
    assert_eq!(names, vec!["1", "2"]);
    for (_, sys) in r {
        assert!(sys.eq_store.subst.is_empty());
        assert!(!sys.eq_store.contradictory);
        assert_eq!(sys.last_atom, Some(node("i", 0)));
    }
}

#[test]
fn redundant_cases_are_dropped_and_names_told_apart() {
    let mut ctx = ctx();
    let case = |n: &str, idx: u64| {
        let mut s = System::empty();
        s.next_goal_nr = idx;
        (Text::new(n), s)
    };
    let cases = list(vec![case("a", 0), case("a", 1), case("a", 2), case("b", 3)]);
    let systems = list(items(&cases).iter().map(|(_, s)| s.dup()).collect());
    push(&mut ctx.answers.non_redundant, (systems, list(vec![0, 2, 3])));
    let kept = process_cases(&ctx, &cases).expect("answered");
    let kept: Vec<(String, u64)> =
        items(&kept).iter().map(|(n, s)| (n.to_string(), s.next_goal_nr)).collect();
    assert_eq!(
        kept,
        vec![("a_case_1".to_string(), 0), ("a_case_2".to_string(), 2), ("b".to_string(), 3)]
    );
}

#[test]
fn goals_are_solved_as_proof_steps() {
    let mut ctx2 = ctx();
    ctx2.rules = list(vec![
        proto_rule("R", vec![], vec![], vec![proto_fact("A", vec![])]),
        proto_rule("S", vec![], vec![], vec![proto_fact("A", vec![])]),
    ]);
    let g = || Goal::Action(node("i", 0), proto_fact("A", vec![]));
    let mut s = System::empty();
    s.add_goal(g());
    let m = ProofMethod::SolveGoal(g());
    let r = solve(&mut ctx2, |c| check_and_exec_proof_method(c, &m, &s)).expect("cases");
    let names: Vec<String> = items(&r).iter().map(|(n, _)| n.to_string()).collect();
    assert_eq!(names, vec!["R", "S"]);
    assert_eq!(solve(&mut ctx2, |c| exec_proof_method(c, &m, &s)), Some(r));
    assert!(solve(&mut ctx2, |c| is_applicable_for_display(c, &m, &s)));
}

#[test]
fn goals_without_solution_leave_no_case() {
    let mut ctx = ctx();
    let g = || Goal::Action(node("i", 0), proto_fact("A", vec![]));
    let mut s = System::empty();
    s.add_goal(g());
    let r = solve(&mut ctx, |c| exec_proof_method(c, &ProofMethod::SolveGoal(g()), &s));
    assert_eq!(r, Some(List::Nil));
}

#[test]
fn nothing_applies_after_the_deadline() {
    let mut ctx = ctx();
    ctx.out_of_time = true;
    let s = System::empty();
    assert_eq!(exec_proof_method(&ctx, &ProofMethod::Sorry(None), &s), Ok(None));
    assert_eq!(exec_proof_method(&ctx, &ProofMethod::Simplify, &s), Ok(None));
    assert_eq!(
        check_and_exec_proof_method(&ctx, &ProofMethod::Finished(Finish::Solved), &s),
        Ok(None)
    );
}

#[test]
fn methods_without_effect() {
    let ctx = ctx();
    let s = System::empty();
    assert_eq!(exec_proof_method(&ctx, &ProofMethod::Invalidated, &s), Ok(None));
    let raw = ProofMethod::RawSolve(Text::new("?"));
    assert_eq!(exec_proof_method(&ctx, &raw, &s), Ok(None));
    assert_eq!(check_and_exec_proof_method(&ctx, &raw, &s), Ok(None));
    assert_eq!(is_applicable_for_display(&ctx, &raw, &s), Ok(false));
    assert_eq!(is_applicable_for_display(&ctx, &ProofMethod::Invalidated, &s), Ok(false));
    assert_eq!(is_applicable_for_display(&ctx, &ProofMethod::Sorry(None), &s), Ok(true));
    let fin = ProofMethod::Finished(Finish::Solved);
    assert_eq!(exec_proof_method(&ctx, &fin, &s), Ok(Some(List::Nil)));
}

#[test]
fn claims_to_be_finished_are_checked() {
    let mut ctx = ctx();
    let mut s = System::empty();
    s.formulas = list(vec![gfalse()]);
    let claim = |r: Finish| ProofMethod::Finished(r);
    let check = |ctx: &mut ProofContext, r: Finish| {
        let m = claim(r);
        solve(ctx, |c| check_and_exec_proof_method(c, &m, &s))
    };
    assert_eq!(check(&mut ctx, Finish::Contradictory(None)), Some(List::Nil));
    assert_eq!(
        check(&mut ctx, Finish::Contradictory(Some(Contradiction::Cyclic))),
        Some(List::Nil)
    );
    assert_eq!(check(&mut ctx, Finish::Solved), None);
    assert_eq!(check(&mut ctx, Finish::Unfinishable), None);
}

#[test]
fn induction_needs_one_formula_and_nothing_else() {
    let mut ctx = ctx();
    let mut s = System::empty();
    s.formulas = list(vec![gtrue(), gfalse()]);
    let r = solve(&mut ctx, |c| check_and_exec_proof_method(c, &ProofMethod::Induction, &s));
    assert_eq!(r, None);
}

#[test]
fn reducible_subterm_constraints_are_unfinishable() {
    let mut ctx = ctx();
    let dec = || FunSym::NoEq(NoEqSym {
        name: Text::new("dec"),
        arity: 1,
        private: false,
        constructor: true,
    });
    ctx.reducible = list(vec![dec()]);
    let mut s = System::empty();
    s.solved_formulas = list(vec![gtrue()]);
    assert!(finished_subterms(&ctx, &s));
    s.subterm_store.add(x(0), app("dec", vec![x(1)]));
    assert!(!finished_subterms(&ctx, &s));
    assert_eq!(solve(&mut ctx, |c| is_finished(c, &s)), Some(Finish::Unfinishable));
}

#[test]
fn open_goals_keep_a_system_unfinished() {
    let mut ctx = ctx();
    let mut s = System::empty();
    s.solved_formulas = list(vec![gtrue()]);
    s.add_goal(Goal::Split(3));
    assert_eq!(solve(&mut ctx, |c| is_finished(c, &s)), None);
}

#[test]
fn rounds_stop_when_nothing_changes() {
    let ctx = ctx();
    let r = Reduction::new(&ctx, System::empty());
    let end = r.while_changing(|mut red| {
        red.insert_goal(Goal::Split(4));
        red
    });
    assert_eq!(items(&end.sys.goals).len(), 1);
    assert_eq!(end.sys.next_goal_nr, 2);
}

#[test]
fn node_equations_reach_pending_stores() {
    let mut ctx = ctx();
    let (out, arms) = solve(&mut ctx, |c| {
        let mut r = Reduction::new(c, System::empty());
        r.pending_eq_arms = list(vec![EquationStore::empty()]);
        let out = r.solve_node_id_eqs_broadcast(&list(vec![(node("i", 1), node("j", 2))]))?;
        Ok((out, r.pending_eq_arms))
    });
    assert!(matches!(out, SolveOutcome::Linear(ChangeIndicator::Changed)));
    let arms = items(&arms);
    assert_eq!(arms.len(), 1);
    assert_eq!(
        apply_term(&arms[0].subst, &at("i", 1)),
        apply_term(&arms[0].subst, &at("j", 2))
    );
}

#[test]
fn passes_signal_changes_and_then_none() {
    let mut ctx = ctx();
    let mut sys = System::empty();
    sys.eq_store.subst = list(vec![(node("i", 1), at("j", 2))]);
    sys.add_less(LessAtom { smaller: node("i", 1), larger: node("k", 3), reason: Reason::Fresh });
    let (first, second, end) = solve(&mut ctx, |c| {
        let mut r = Reduction::new(c, sys.dup());
        let first = r.subst_system_once()?;
        let once = r.sys.dup();
        let second = r.subst_system_once()?;
        assert_eq!(once, r.sys);
        Ok((first, second, r.sys))
    });
    assert!(first);
    assert!(!second);
    assert_eq!(items(&end.less_atoms)[0].smaller, node("j", 2));
}

fn plain_edge(src: LVar, tgt: LVar) -> Edge {
    Edge { src: (src, 0), tgt: (tgt, 0) }
}

#[test]
fn passes_that_only_sort_signal_a_change() {
    let mut ctx = ctx();
    let mut sys = System::empty();
    sys.eq_store.subst = list(vec![(node("u", 8), at("w", 9))]);
    let low = || plain_edge(node("i", 1), node("j", 2));
    let high = || plain_edge(node("k", 3), node("l", 4));
    sys.edges = list(vec![high(), low()]);
    let (first, second, end) = solve(&mut ctx, |c| {
        let mut r = Reduction::new(c, sys.dup());
        let first = r.subst_system_once()?;
        let sorted = r.sys.dup();
        let second = r.subst_system_once()?;
        assert_eq!(sorted, r.sys);
        Ok((first, second, r.sys))
    });
    assert!(first, "another order is a change");
    assert!(!second);
    assert_eq!(end.edges, list(vec![low(), high()]));
}

#[test]
fn passes_that_drop_repeated_formulas_signal_a_change() {
    let mut ctx = ctx();
    let f = || atom(GAtom::Last(at("i", 1)));
    let mut sys = System::empty();
    sys.eq_store.subst = list(vec![(node("u", 8), at("w", 9))]);
    sys.formulas = list(vec![f(), f()]);
    let (first, second, end) = solve(&mut ctx, |c| {
        let mut r = Reduction::new(c, sys.dup());
        let first = r.subst_system_once()?;
        let second = r.subst_system_once()?;
        Ok((first, second, r.sys))
    });
    assert!(first);
    assert!(!second);
    assert_eq!(end.formulas, list(vec![f()]));
}

#[test]
fn members_of_a_conjunction_are_not_marked() {
    let mut ctx = ctx();
    let member = || {
        Guarded::GGuarded(
            Quant::Ex,
            list(vec![Binding { name: Text::new("j"), sort: LSort::Node }]),
            list(vec![GAtom::Less(at("i", 4), Term::Bound(0))]),
            Box::new(gtrue()),
        )
    };
    let fm = Guarded::Conj(Box::new(list(vec![atom(GAtom::Less(at("k", 1), at("i", 4))), member()])));
    let stored = atom(GAtom::Last(at("z", 2)));
    let mut sys = System::empty();
    sys.formulas = list(vec![stored.dup()]);
    let end = solve(&mut ctx, |c| {
        let mut r = Reduction::new(c, sys.dup());
        r.insert_formula(&fm)?;
        Ok(r.sys)
    });
    assert_eq!(end.solved_formulas, list(vec![fm.dup()]));
    assert!(!holds(&end.formulas, &member()));
    assert!(holds(&end.formulas, &stored), "a stored formula stays");
    assert_eq!(items(&end.less_atoms).len(), 2);
    assert_eq!(items(&end.less_atoms)[1].larger, node("j", 5));
}

#[test]
fn nodes_that_become_the_same_are_one() {
    let mut ctx = ctx();
    let inst = || RuleACInst {
        info: proto_info("R"),
        premises: List::Nil,
        conclusions: List::Nil,
        actions: List::Nil,
        new_vars: List::Nil,
    };
    let mut sys = System::empty();
    sys.eq_store.subst = list(vec![(node("i", 1), at("j", 2))]);
    sys.nodes = list(vec![(node("i", 1), inst()), (node("j", 2), inst())]);
    sys.edges = list(vec![
        plain_edge(node("i", 1), node("k", 3)),
        plain_edge(node("j", 2), node("k", 3)),
    ]);
    sys.formulas = list(vec![atom(GAtom::Last(at("i", 1)))]);
    let end = solve(&mut ctx, |c| {
        let mut r = Reduction::new(c, sys.dup());
        r.subst_system()?;
        Ok(r.sys)
    });
    assert_eq!(end.nodes, list(vec![(node("j", 2), inst())]));
    assert_eq!(end.edges, list(vec![plain_edge(node("j", 2), node("k", 3))]));
    assert_eq!(end.formulas, list(vec![atom(GAtom::Last(at("j", 2)))]));
}

#[test]
fn orderings_are_between_representatives_that_are_nodes() {
    let mut ctx = ctx();
    let mut sys = System::empty();
    sys.eq_store.subst = list(vec![
        (node("i", 1), at("j", 2)),
        (node("k", 3), var_term("x", LSort::Msg, 4)),
    ]);
    let end = solve(&mut ctx, |c| {
        let mut r = Reduction::new(c, sys.dup());
        r.insert_formula(&atom(GAtom::Less(at("i", 1), at("k", 3))))?;
        Ok(r.sys)
    });
    let l = items(&end.less_atoms)[0];
    assert_eq!(l.smaller, node("j", 2));
    assert_eq!(l.larger, node("k", 3));
}
