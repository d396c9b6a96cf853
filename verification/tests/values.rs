use std::collections::BTreeSet;
use tamarin_theory::bounds::{
    avoid_fresh_state, bm_fact_pub, bm_rule_pub, bm_term_pub, bounds_max, bounds_max_nodes,
    bounds_max_rest, bounds_max_uncached, system_has_any_free_var,
};
use tamarin_theory::constraints::{
    EqDisj, Edge, EquationStore, Goal, GoalStatus, LessAtom, Reason, SubtermConstraint,
};
use tamarin_theory::facts::{
    fresh_fact, in_fact, k_log_fact, kd_fact, ku_fact, out_fact, Fact, FactTag, IntrRuleACInfo,
    Multiplicity, ProtoRuleACInstInfo, ProtoRuleName, RuleACInst, RuleInfo,
};
use tamarin_theory::goals::{fanout_arm_systems, set_goal_solved};
use tamarin_theory::guarded::{
    gconj, gdisj, gfalse, gtrue, normalise_disj_list, normalise_stored_formula, GAtom, Guarded,
};
use tamarin_theory::list::{List, Value};
use tamarin_theory::names::{
    chain_direct_case_name, rule_case_name, rule_trace_name, to_decimal,
};
use tamarin_theory::context::Contradiction;
use tamarin_theory::proof_method::{distinguish_case_names, same_kind, Result as Finish};
use tamarin_theory::reduction::{ku_decomp_subterms, ChangeIndicator, SolveOutcome};
use tamarin_theory::rename_precise::{cleanup, rename_precise_system};
use tamarin_theory::rule_goals::two_partitions;
use tamarin_theory::rules::{
    canonical_rule_inst, forbidden_edge, freshen_rule, freshen_rule_with_constrs,
    get_remaining_rule_applications, illegal_coerce, intr_rule_to_rule_ac_inst,
    is_destr_rule_info, non_silent_rule_insts_with_constrs,
    premise_solving_rule_insts_with_constrs, rule_insts_with_constrs,
    set_remaining_rule_applications, IntrRuleAC, OpenProtoRule, ProtoRuleE, Supply,
};
use tamarin_theory::subterms::{
    process_ac_subterm, split_subterm_single, subterm_is_true_false, SubtermSplit,
};
use tamarin_theory::system::{combine_goal_status, System};
use tamarin_theory::term_ops::{
    apply_term, elem_not_below_reducible, f_app, f_app_ac, flattened_ac_terms, make_nat_one,
    sort_of_lnterm,
};
use tamarin_theory::terms::{AcSym, FunSym, LSort, LVar, Name, NameTag, NoEqSym, Term};
use tamarin_theory::text::Text;

fn list<T>(items: Vec<T>) -> List<T> {
    let mut l = List::Nil;
    for x in items.into_iter().rev() {
        l = List::Cons(x, Box::new(l));
    }
    l
}

fn items<T>(l: &List<T>) -> Vec<&T> {
    let mut out = Vec::new();
    let mut rest = l;
    while let List::Cons(x, more) = rest {
        out.push(x);
        rest = more;
    }
    out
}

fn var(name: &str, sort: LSort, idx: u64) -> LVar {
    LVar { name: Text::new(name), sort, idx }
}

fn node(idx: u64) -> LVar {
    var("i", LSort::Node, idx)
}

fn msg(name: &str, idx: u64) -> Term {
    Term::Var(var(name, LSort::Msg, idx))
}

fn constant(name: &str) -> Term {
    Term::Con(Name { tag: NameTag::Pub, id: Text::new(name) })
}

fn sym(name: &str, arity: u64) -> FunSym {
    FunSym::NoEq(NoEqSym { name: Text::new(name), arity, private: false, constructor: true })
}

fn fun(name: &str, args: Vec<Term>) -> Term {
    Term::App(sym(name, args.len() as u64), Box::new(list(args)))
}

fn proto_info(name: &str) -> RuleInfo {
    RuleInfo::Proto(ProtoRuleACInstInfo {
        name: ProtoRuleName::Stand(Text::new(name)),
        attributes: List::Nil,
        loop_breakers: List::Nil,
    })
}

fn rule(name: &str, premises: Vec<Fact>, conclusions: Vec<Fact>, actions: Vec<Fact>) -> RuleACInst {
    RuleACInst::new(proto_info(name), list(premises), list(conclusions), list(actions))
}

fn destruction(name: &str, left: i64) -> RuleACInst {
    RuleACInst::new(
        RuleInfo::Intr(IntrRuleACInfo::DestrRule(Text::new(name), left, true, false)),
        List::Nil,
        List::Nil,
        List::Nil,
    )
}

fn system_at(base: u64) -> System {
    let mut sys = System::empty();
    sys.add_node(
        node(base + 2),
        rule("R", vec![in_fact(msg("x", base + 1))], vec![out_fact(msg("y", base + 4))], vec![]),
    );
    sys.add_node(node(base), rule("S", vec![], vec![], vec![]));
    sys.add_edge(Edge { src: (node(base), 0), tgt: (node(base + 2), 0) });
    sys.add_less(LessAtom { smaller: node(base), larger: node(base + 2), reason: Reason::Fresh });
    sys.add_goal(Goal::Action(node(base + 3), ku_fact(msg("x", base + 1))));
    sys.last_atom = Some(node(base + 7));
    sys.formulas = list(vec![Guarded::Atom(GAtom::Last(Term::Var(node(base + 7))))]);
    sys.eq_store.subst = list(vec![(var("z", LSort::Msg, base + 9), msg("y", base + 4))]);
    sys.subterm_store.add(msg("x", base + 1), msg("y", base + 4));
    sys
}

#[test]
fn sorting_ascends_and_repeats() {
    let l = list(vec![node(3), node(1), node(2), node(1)]);
    let once = l.sort();
    assert_eq!(once, list(vec![node(1), node(1), node(2), node(3)]));
    assert_eq!(once.sort(), once);
}

#[test]
fn dedup_keeps_first_occurrences() {
    let l = list(vec![node(3), node(1), node(3), node(2), node(1)]);
    assert_eq!(l.dedup(), list(vec![node(3), node(1), node(2)]));
    assert_eq!(l.dedup().dedup(), l.dedup());
}

#[test]
fn variables_are_ordered_by_index_first() {
    let l = list(vec![var("a", LSort::Node, 2), var("z", LSort::Msg, 1), var("b", LSort::Pub, 1)]);
    assert_eq!(
        l.sort(),
        list(vec![var("b", LSort::Pub, 1), var("z", LSort::Msg, 1), var("a", LSort::Node, 2)])
    );
}

#[test]
fn operators_forget_order_and_brackets() {
    let (a, b, c) = (|| msg("a", 1), || msg("b", 2), || msg("c", 3));
    let inner = f_app_ac(AcSym::Mult, &list(vec![c(), a()]));
    let left = f_app_ac(AcSym::Mult, &list(vec![inner, b()]));
    let right = f_app_ac(AcSym::Mult, &list(vec![b(), a(), c()]));
    assert_eq!(left, right);
    assert_eq!(flattened_ac_terms(AcSym::Mult, &left), list(vec![a(), b(), c()]));
}

#[test]
fn operator_on_one_operand_is_the_operand() {
    assert_eq!(f_app_ac(AcSym::Union, &list(vec![msg("a", 1)])), msg("a", 1));
}

#[test]
fn different_operators_are_not_flattened() {
    let inner = f_app_ac(AcSym::Xor, &list(vec![msg("a", 1), msg("b", 2)]));
    let t = f_app_ac(AcSym::Mult, &list(vec![inner.dup(), msg("c", 3)]));
    assert_eq!(items(&flattened_ac_terms(AcSym::Mult, &t)).len(), 2);
}

#[test]
fn pairing_map_sorts_its_arguments() {
    let t = f_app(&FunSym::EMap, list(vec![msg("b", 2), msg("a", 1)]));
    assert_eq!(t, Term::App(FunSym::EMap, Box::new(list(vec![msg("a", 1), msg("b", 2)]))));
}

#[test]
fn substitution_is_applied_once() {
    let s = list(vec![(var("x", LSort::Msg, 0), msg("y", 1))]);
    let t = fun("h", vec![msg("x", 0)]);
    let once = apply_term(&s, &t);
    assert_eq!(once, fun("h", vec![msg("y", 1)]));
    assert_eq!(apply_term(&s, &once), once);
    let other = fun("h", vec![msg("z", 0)]);
    assert_eq!(apply_term(&s, &other), other);
}

#[test]
fn substitution_rebuilds_operators() {
    let s = list(vec![(var("x", LSort::Msg, 5), f_app_ac(AcSym::Xor, &list(vec![msg("a", 1), msg("b", 2)])))]);
    let t = f_app_ac(AcSym::Xor, &list(vec![msg("x", 5), msg("c", 0)]));
    assert_eq!(
        apply_term(&s, &t),
        f_app_ac(AcSym::Xor, &list(vec![msg("c", 0), msg("a", 1), msg("b", 2)]))
    );
}

#[test]
fn bounds_cover_nodes_and_the_rest() {
    let sys = system_at(10);
    assert_eq!(bounds_max_nodes(&sys), 14);
    assert_eq!(bounds_max_rest(&sys), 19);
    assert_eq!(bounds_max(&sys), 19);
    assert_eq!(bounds_max_uncached(&sys), 19);
    assert_eq!(avoid_fresh_state(&sys), 20);
}

#[test]
fn bounds_accumulate() {
    let mut max: u64 = 4;
    bm_term_pub(&msg("x", 3), &mut max);
    assert_eq!(max, 4);
    bm_fact_pub(&out_fact(msg("x", 6)), &mut max);
    assert_eq!(max, 6);
    bm_rule_pub(&rule("R", vec![], vec![], vec![out_fact(msg("x", 8))]), &mut max);
    assert_eq!(max, 8);
}

#[test]
fn nothing_to_avoid_in_an_empty_system() {
    let sys = System::empty();
    assert!(!system_has_any_free_var(&sys));
    assert_eq!(avoid_fresh_state(&sys), 0);
}

#[test]
fn variable_with_index_zero_is_avoided() {
    let mut sys = System::empty();
    sys.add_goal(Goal::Action(node(0), out_fact(constant("a"))));
    assert_eq!(bounds_max(&sys), 0);
    assert!(system_has_any_free_var(&sys));
    assert_eq!(avoid_fresh_state(&sys), 1);
}

#[test]
fn disjunctions_among_goals_count() {
    let mut sys = System::empty();
    sys.add_goal(Goal::Disj(list(vec![Guarded::Atom(GAtom::Last(Term::Var(node(7))))])));
    assert_eq!(bounds_max_uncached(&sys), 7);
    assert_eq!(bounds_max(&sys), 7);
    assert!(system_has_any_free_var(&sys));
    assert_eq!(avoid_fresh_state(&sys), 8);
}

#[test]
fn splits_among_goals_hold_no_variable() {
    let mut sys = System::empty();
    sys.add_goal(Goal::Split(9));
    assert_eq!(bounds_max(&sys), 0);
    assert!(!system_has_any_free_var(&sys));
}

#[test]
fn bindings_of_disjunctions_count_by_their_variables() {
    let mut sys = System::empty();
    sys.eq_store.conj = list(vec![EqDisj {
        split_id: 0,
        substs: list(vec![list(vec![(var("x", LSort::Msg, 3), msg("w", 70))])]),
    }]);
    assert_eq!(bounds_max(&sys), 3);
}

#[test]
fn freshened_rules_move_together() {
    let ru = rule("R", vec![in_fact(msg("x", 4))], vec![out_fact(msg("y", 6))], vec![]);
    let mut supply = Supply { next: 3 };
    let fresh = freshen_rule(ru, 10, &mut supply);
    assert_eq!(
        fresh,
        rule("R", vec![in_fact(msg("x", 11))], vec![out_fact(msg("y", 13))], vec![])
    );
    assert_eq!(supply.next, 14);
}

#[test]
fn freshened_variants_move_what_they_bind() {
    let ru = rule("R", vec![in_fact(msg("x", 0))], vec![], vec![]);
    let variants = list(vec![list(vec![(var("x", LSort::Msg, 0), msg("w", 5))])]);
    let mut supply = Supply { next: 20 };
    let (fresh, variants) = freshen_rule_with_constrs((ru, Some(variants)), 0, &mut supply);
    assert_eq!(fresh, rule("R", vec![in_fact(msg("x", 20))], vec![], vec![]));
    assert_eq!(
        variants,
        Some(list(vec![list(vec![(var("x", LSort::Msg, 20), msg("w", 5))])]))
    );
    assert_eq!(supply.next, 21);
}

#[test]
fn rules_without_variables_take_no_index() {
    let ru = rule("R", vec![], vec![out_fact(constant("a"))], vec![]);
    let mut supply = Supply { next: 3 };
    assert_eq!(freshen_rule(ru.dup(), 10, &mut supply), ru);
    assert_eq!(supply.next, 3);
}

#[test]
fn supplies_reserve_and_never_go_back() {
    let mut supply = Supply { next: 3 };
    assert_eq!(supply.reserve_idxs(4), 3);
    assert_eq!(supply.fresh_idx(), 7);
    supply.ensure_above(5);
    assert_eq!(supply.next, 8);
    supply.ensure_above(8);
    assert_eq!(supply.next, 9);
}

#[test]
fn changes_are_joined() {
    let (c, u) = (ChangeIndicator::Changed, ChangeIndicator::Unchanged);
    assert_eq!(c.or(u), c);
    assert_eq!(u.or(c), c);
    assert_eq!(u.or(u), u);
    assert_eq!(c.or(c), c);
}

#[test]
fn goals_keep_their_number() {
    let mut sys = System::empty();
    assert!(sys.add_goal(Goal::Split(1)));
    assert!(sys.add_goal(Goal::Split(2)));
    assert!(!sys.add_goal_with_loop_flag(Goal::Split(1), true));
    assert_eq!(
        sys.goals,
        list(vec![
            (Goal::Split(1), GoalStatus { solved: false, looping: true, nr: 0 }),
            (Goal::Split(2), GoalStatus { solved: false, looping: false, nr: 1 }),
        ])
    );
    assert_eq!(sys.next_goal_nr, 3);
}

#[test]
fn statuses_are_combined() {
    let a = GoalStatus { solved: true, looping: false, nr: 7 };
    let b = GoalStatus { solved: false, looping: true, nr: 4 };
    assert_eq!(combine_goal_status(&a, &b), GoalStatus { solved: true, looping: true, nr: 4 });
}

#[test]
fn edges_and_orderings_are_kept_once() {
    let mut sys = System::empty();
    let e = || Edge { src: (node(1), 0), tgt: (node(2), 0) };
    assert!(sys.add_edge(e()));
    assert!(!sys.add_edge(e()));
    let l = |reason| LessAtom { smaller: node(1), larger: node(2), reason };
    assert!(sys.add_less(l(Reason::Fresh)));
    assert!(!sys.add_less(l(Reason::Formula)));
    assert_eq!(items(&sys.edges).len(), 1);
    assert_eq!(sys.less_atoms, list(vec![l(Reason::Fresh)]));
}

#[test]
fn solved_goals_are_marked_in_place() {
    let mut sys = System::empty();
    sys.add_goal(Goal::Split(1));
    sys.add_goal(Goal::Split(2));
    set_goal_solved(&mut sys, &Goal::Split(1));
    let solved: Vec<bool> = items(&sys.goals).iter().map(|(_, st)| st.solved).collect();
    assert_eq!(solved, vec![true, false]);
}

#[test]
fn fanout_gives_one_system_for_each_store() {
    let base = system_at(0);
    let stores = list(vec![EquationStore::empty(), EquationStore::empty().set_false()]);
    let arms = fanout_arm_systems(SolveOutcome::Cases(stores), base.dup());
    let arms = items(&arms);
    assert_eq!(arms.len(), 2);
    assert!(!arms[0].eq_store.contradictory);
    assert!(arms[1].eq_store.contradictory);
    assert_eq!(arms[1].nodes, base.nodes);
    let alone =
        fanout_arm_systems(SolveOutcome::Linear(ChangeIndicator::Changed), base.dup());
    assert_eq!(alone, list(vec![base]));
}

#[test]
fn renaming_forgets_numbers() {
    let mut a = system_at(0);
    let mut b = system_at(40);
    rename_precise_system(&mut a);
    rename_precise_system(&mut b);
    assert_eq!(a, b);
}

#[test]
fn renaming_numbers_each_name_from_zero() {
    let mut sys = system_at(40);
    rename_precise_system(&mut sys);
    let ids: Vec<&LVar> = items(&sys.nodes).into_iter().map(|(v, _)| v).collect();
    assert_eq!(ids, vec![&node(0), &node(1)]);
    assert_eq!(sys.last_atom, Some(node(2)));
    assert_eq!(items(&sys.goals)[0].0, Goal::Action(node(3), ku_fact(msg("x", 0))));
    assert_eq!(sys.subterm_store.subterms, list(vec![SubtermConstraint {
        small: msg("x", 0),
        big: msg("y", 0),
        propagated: false,
    }]));
    assert_eq!(sys.eq_store.subst, list(vec![(var("z", LSort::Msg, 0), msg("y", 0))]));
}

#[test]
fn renaming_tells_sorts_apart_under_one_name() {
    let mut sys = System::empty();
    sys.add_goal(Goal::Subterm(msg("x", 8), Term::Var(var("x", LSort::Fresh, 8))));
    rename_precise_system(&mut sys);
    assert_eq!(
        items(&sys.goals)[0].0,
        Goal::Subterm(msg("x", 0), Term::Var(var("x", LSort::Fresh, 1)))
    );
}

#[test]
fn renaming_keeps_the_values_of_disjunctions() {
    let mut sys = System::empty();
    sys.eq_store.conj = list(vec![EqDisj {
        split_id: 0,
        substs: list(vec![list(vec![(var("x", LSort::Msg, 9), msg("w", 70))])]),
    }]);
    rename_precise_system(&mut sys);
    let d = items(&sys.eq_store.conj)[0];
    assert_eq!(d.substs, list(vec![list(vec![(var("x", LSort::Msg, 0), msg("w", 70))])]));
}

#[test]
fn renaming_twice_is_renaming_once() {
    let mut once = system_at(17);
    rename_precise_system(&mut once);
    let mut twice = once.dup();
    rename_precise_system(&mut twice);
    assert_eq!(once, twice);
}

#[test]
fn cleaning_up_drops_the_substitution() {
    let sys = cleanup(&system_at(40));
    assert!(sys.eq_store.subst.is_empty());
    assert_eq!(items(&sys.nodes)[0].0, node(0));
}

#[test]
fn cases_of_one_name_are_numbered() {
    let case = |name: &str| (Text::new(name), System::empty());
    let cases = list(vec![case("a"), case("b"), case("a")]);
    let names: Vec<String> = items(&distinguish_case_names(&cases))
        .iter()
        .map(|(n, _)| n.to_string())
        .collect();
    assert_eq!(names, vec!["a_case_1", "b", "a_case_2"]);
}

#[test]
fn numbers_of_cases_are_padded() {
    let cases: Vec<(Text, System)> =
        (0..11).map(|k| (Text::new("a"), system_at(k))).collect();
    let cases = list(cases);
    let told = distinguish_case_names(&cases);
    let told = items(&told);
    let names: Vec<String> = told.iter().map(|(n, _)| n.to_string()).collect();
    assert_eq!(names[0], "a_case_01");
    assert_eq!(names[9], "a_case_10");
    assert_eq!(names[10], "a_case_11");
    let unique: BTreeSet<&String> = names.iter().collect();
    assert_eq!(unique.len(), 11);
    assert_eq!(told[4].1, system_at(4));
}

#[test]
fn decimal_notation() {
    assert_eq!(to_decimal(0).to_string(), "0");
    assert_eq!(to_decimal(1907).to_string(), "1907");
    assert_eq!(to_decimal(u64::MAX).to_string(), "18446744073709551615");
}

#[test]
fn names_of_rules() {
    assert_eq!(rule_case_name(&rule("Send", vec![], vec![], vec![])), "Send");
    assert_eq!(rule_trace_name(&rule("Send", vec![], vec![], vec![])), "Send");
    let intr = |info| RuleACInst::new(RuleInfo::Intr(info), List::Nil, List::Nil, List::Nil);
    assert_eq!(rule_case_name(&intr(IntrRuleACInfo::Coerce)), "coerce");
    assert_eq!(rule_case_name(&intr(IntrRuleACInfo::ISend)), "isend");
    assert_eq!(rule_case_name(&intr(IntrRuleACInfo::IRecv)), "irecv");
}

#[test]
fn names_of_direct_chains() {
    assert!(chain_direct_case_name(&kd_fact(fun("h", vec![msg("x", 0)]))).is_some());
    let a = chain_direct_case_name(&kd_fact(fun("h", vec![msg("x", 0)])));
    let b = chain_direct_case_name(&kd_fact(fun("g", vec![msg("x", 0)])));
    assert_ne!(a, b);
}

#[test]
fn parts_of_known_terms() {
    let pair = fun("pair", vec![msg("b", 2), msg("a", 1)]);
    assert_eq!(ku_decomp_subterms(&pair), Some(list(vec![msg("b", 2), msg("a", 1)])));
    assert_eq!(ku_decomp_subterms(&fun("inv", vec![msg("a", 1)])), Some(list(vec![msg("a", 1)])));
    let product = f_app_ac(AcSym::Mult, &list(vec![msg("b", 2), msg("a", 1)]));
    assert_eq!(ku_decomp_subterms(&product), Some(list(vec![msg("a", 1), msg("b", 2)])));
    let sum = f_app_ac(AcSym::Xor, &list(vec![msg("b", 2), msg("a", 1)]));
    assert_eq!(ku_decomp_subterms(&sum), None);
    assert_eq!(ku_decomp_subterms(&fun("h", vec![msg("a", 1)])), None);
    assert_eq!(ku_decomp_subterms(&msg("a", 1)), None);
}

#[test]
fn partitions_into_two_parts() {
    let l = list(vec![msg("a", 1), msg("b", 2), msg("c", 3)]);
    let ps = two_partitions(&l);
    let ps = items(&ps);
    assert_eq!(ps.len(), 4);
    assert_eq!(*ps[0], (l.dup(), List::Nil));
    for (x, y) in ps {
        assert!(!x.is_empty());
        assert_eq!(x.concat(y.dup()).sort(), l.sort());
    }
    assert!(two_partitions(&List::Nil).is_empty());
}

#[test]
fn remaining_applications_are_what_was_set() {
    let ru = destruction("_fst", 5);
    assert_eq!(get_remaining_rule_applications(&ru), 5);
    let ru = set_remaining_rule_applications(ru, 2);
    assert_eq!(get_remaining_rule_applications(&ru), 2);
    let other = rule("R", vec![], vec![], vec![]);
    assert_eq!(set_remaining_rule_applications(other.dup(), 3), other);
    assert_eq!(get_remaining_rule_applications(&other), 0);
}

#[test]
fn chains_that_may_not_go_on() {
    assert!(forbidden_edge(&destruction("_exp", 0), &destruction("_exp", 0)));
    assert!(forbidden_edge(&destruction("_pmult", 0), &destruction("_em", 0)));
    assert!(!forbidden_edge(&destruction("_em", 0), &destruction("_pmult", 0)));
    assert!(forbidden_edge(&destruction("_sdec", 1), &destruction("_sdec", 3)));
    assert!(!forbidden_edge(&destruction("_sdec", 2), &destruction("_sdec", 1)));
    let coerce =
        RuleACInst::new(RuleInfo::Intr(IntrRuleACInfo::Coerce), List::Nil, List::Nil, List::Nil);
    assert!(illegal_coerce(&coerce, &kd_fact(fun("pair", vec![msg("a", 1), msg("b", 2)]))));
    assert!(!illegal_coerce(&coerce, &kd_fact(fun("h", vec![msg("a", 1)]))));
    assert!(!illegal_coerce(&destruction("_fst", 0), &kd_fact(fun("inv", vec![msg("a", 1)]))));
}

fn intruder(info: IntrRuleACInfo, actions: Vec<Fact>) -> IntrRuleAC {
    IntrRuleAC {
        info,
        premises: List::Nil,
        conclusions: List::Nil,
        actions: list(actions),
        new_vars: List::Nil,
    }
}

fn protocol_rule(name: &str, actions: Vec<Fact>) -> OpenProtoRule {
    OpenProtoRule {
        rule: ProtoRuleE {
            name: ProtoRuleName::Stand(Text::new(name)),
            attributes: List::Nil,
            premises: List::Nil,
            conclusions: List::Nil,
            actions: list(actions),
            new_vars: List::Nil,
        },
        abstracted_rule: None,
        variant_substs: List::Nil,
        loop_breakers: list(vec![2]),
    }
}

#[test]
fn candidates_for_actions_have_actions() {
    let act = || proto("A", vec![]);
    let intr = list(vec![
        intruder(IntrRuleACInfo::Coerce, vec![ku_fact(msg("x", 0))]),
        intruder(IntrRuleACInfo::IRecv, vec![]),
    ]);
    let rules = list(vec![protocol_rule("R", vec![act()]), protocol_rule("S", vec![])]);
    let l = non_silent_rule_insts_with_constrs(&intr, &rules);
    for (ru, _) in items(&l) {
        assert!(!ru.actions.is_empty());
    }
    assert!(items(&l).iter().any(|(ru, _)| rule_case_name(ru) == "R"));
    let p = premise_solving_rule_insts_with_constrs(&intr, &rules);
    assert!(items(&p).iter().any(|(ru, _)| rule_case_name(ru) == "S"));
    assert_eq!(items(&rule_insts_with_constrs(&rules, true)).len(), 1);
    assert_eq!(items(&rule_insts_with_constrs(&rules, false)).len(), 2);
}

fn proto(name: &str, terms: Vec<Term>) -> Fact {
    let arity = terms.len() as u64;
    Fact::new(FactTag::Proto(Multiplicity::Linear, Text::new(name), arity), list(terms))
}

#[test]
fn instances_keep_what_the_rule_says() {
    let ru = canonical_rule_inst(&protocol_rule("R", vec![proto("A", vec![])]));
    assert_eq!(ru.actions, list(vec![proto("A", vec![])]));
    match &ru.info {
        RuleInfo::Proto(info) => assert_eq!(info.loop_breakers, list(vec![2])),
        other => panic!("unexpected {:?}", other),
    }
    let ir = intr_rule_to_rule_ac_inst(intruder(IntrRuleACInfo::Coerce, vec![]));
    assert_eq!(ir.info, RuleInfo::Intr(IntrRuleACInfo::Coerce));
    assert!(is_destr_rule_info(&IntrRuleACInfo::DestrRule(Text::new("d"), 0, true, false)));
    assert!(!is_destr_rule_info(&IntrRuleACInfo::Coerce));
    assert!(!is_destr_rule_info(&IntrRuleACInfo::IEquality));
}

#[test]
fn facts_of_the_intruder() {
    let t = || msg("x", 0);
    assert_eq!(out_fact(t()).tag, FactTag::Out);
    assert_eq!(in_fact(t()).tag, FactTag::In);
    assert_eq!(fresh_fact(t()).tag, FactTag::Fresh);
    assert_eq!(ku_fact(t()).tag, FactTag::Ku);
    assert_eq!(kd_fact(t()).tag, FactTag::Kd);
    assert_eq!(k_log_fact(t()).terms, list(vec![t()]));
}

#[test]
fn no_term_is_below_itself() {
    let t = fun("h", vec![msg("x", 0)]);
    assert_eq!(subterm_is_true_false(&List::Nil, &t, &t), Some(false));
    let mut supply = Supply { next: 5 };
    assert!(split_subterm_single(&List::Nil, &t, &t, &mut supply).is_empty());
    assert_eq!(supply.next, 5);
}

#[test]
fn subterms_that_are_visible() {
    let x = msg("x", 0);
    let t = fun("h", vec![x.dup()]);
    assert_eq!(subterm_is_true_false(&List::Nil, &x, &t), Some(true));
    assert_eq!(subterm_is_true_false(&List::Nil, &t, &x), Some(false));
    assert_eq!(subterm_is_true_false(&List::Nil, &x, &msg("y", 1)), None);
    assert_eq!(subterm_is_true_false(&List::Nil, &x, &constant("a")), Some(false));
    assert!(elem_not_below_reducible(&List::Nil, &x, &t));
    assert!(!elem_not_below_reducible(&list(vec![sym("h", 1)]), &x, &t));
}

#[test]
fn subterm_of_an_application_is_below_or_equal_to_an_argument() {
    let (x, y) = (|| msg("x", 0), || msg("y", 1));
    let big = fun("h", vec![y()]);
    let mut supply = Supply { next: 5 };
    let l = split_subterm_single(&List::Nil, &x(), &big, &mut supply);
    assert_eq!(
        l,
        list(vec![SubtermSplit::SubtermD(x(), y()), SubtermSplit::EqualD(x(), y())])
    );
}

#[test]
fn subterm_of_a_product_takes_a_new_variable() {
    let (x, y, z) = (|| msg("x", 0), || msg("y", 1), || msg("z", 2));
    let big = f_app_ac(AcSym::Mult, &list(vec![y(), z()]));
    let mut supply = Supply { next: 5 };
    let l = split_subterm_single(&List::Nil, &x(), &big, &mut supply);
    let l = items(&l);
    assert_eq!(supply.next, 6);
    assert_eq!(l.len(), 3);
    assert!(l.iter().any(|s| matches!(s, SubtermSplit::AcNewVarD(_, t, v) if *t == big && v.idx == 5)));
}

#[test]
fn common_operands_are_crossed_out() {
    let (x, y, z) = (|| msg("x", 0), || msg("y", 1), || msg("z", 2));
    let prod = |l: Vec<Term>| f_app_ac(AcSym::Mult, &list(l));
    assert_eq!(
        process_ac_subterm(AcSym::Mult, &prod(vec![x(), y()]), &prod(vec![y(), z()])),
        Ok((x(), z()))
    );
    assert_eq!(process_ac_subterm(AcSym::Mult, &x(), &prod(vec![x(), z()])), Err(true));
    assert_eq!(process_ac_subterm(AcSym::Mult, &prod(vec![x(), z()]), &x()), Err(false));
}

#[test]
fn one_is_below_larger_numbers() {
    let n = Term::Var(var("n", LSort::Nat, 0));
    let big = f_app_ac(AcSym::NatPlus, &list(vec![make_nat_one(), n]));
    assert_eq!(sort_of_lnterm(&big), LSort::Nat);
    assert_eq!(subterm_is_true_false(&List::Nil, &make_nat_one(), &big), Some(true));
}

#[test]
fn truth_and_falsity_absorb() {
    let a = Guarded::Atom(GAtom::Last(Term::Var(node(1))));
    assert_eq!(gconj(&list(vec![gtrue(), a.dup()])), a);
    assert_eq!(gconj(&list(vec![gfalse(), a.dup()])), gfalse());
    assert_eq!(gdisj(&list(vec![gfalse(), a.dup()])), a);
    assert_eq!(gdisj(&list(vec![gtrue(), a.dup()])), gtrue());
}

#[test]
fn stored_formulas_are_normal() {
    let a = || Guarded::Atom(GAtom::Last(Term::Var(node(1))));
    let nested = Guarded::Conj(Box::new(list(vec![
        Guarded::Conj(Box::new(list(vec![a(), gtrue()]))),
    ])));
    assert_eq!(normalise_stored_formula(&nested), a());
    assert_eq!(normalise_disj_list(&list(vec![a(), gfalse(), a()])), list(vec![a()]));
}

#[test]
fn comparison_of_terms_is_a_candidate_for_both() {
    let destr = || IntrRuleACInfo::DestrRule(Text::new("d"), 0, true, false);
    let act = || vec![proto("A", vec![])];
    let intr = list(vec![
        intruder(IntrRuleACInfo::Coerce, act()),
        intruder(destr(), act()),
        intruder(IntrRuleACInfo::IEquality, act()),
        intruder(IntrRuleACInfo::IRecv, act()),
    ]);
    let rules = list(vec![protocol_rule("R", act())]);
    let infos = |l: &List<(RuleACInst, Option<List<_>>)>| -> Vec<RuleInfo> {
        items(l).into_iter().map(|(ru, _)| ru.info.dup()).collect()
    };
    let own = |i: IntrRuleACInfo| RuleInfo::Intr(i);
    let actions = infos(&non_silent_rule_insts_with_constrs(&intr, &rules));
    assert_eq!(actions.len(), 5);
    assert_eq!(actions[0], own(IntrRuleACInfo::IRecv));
    assert_eq!(actions[2], own(destr()));
    assert_eq!(actions[3], own(IntrRuleACInfo::IEquality));
    assert_eq!(actions[4], own(IntrRuleACInfo::Coerce));
    let premises = infos(&premise_solving_rule_insts_with_constrs(&intr, &rules));
    assert_eq!(premises.len(), 4);
    assert_eq!(premises[0], own(IntrRuleACInfo::IEquality));
    assert_eq!(premises[1], own(IntrRuleACInfo::IRecv));
    assert_eq!(premises[3], own(IntrRuleACInfo::Coerce));
}

#[test]
fn renumbering_forgets_numbers_across_names() {
    let with = |terms: Vec<Term>| {
        let mut sys = System::empty();
        sys.nodes = list(vec![(node(0), rule("R", vec![proto("P", terms)], vec![], vec![]))]);
        sys
    };
    let mut a = with(vec![msg("x", 3), msg("y", 5)]);
    let mut b = with(vec![msg("x", 9), msg("y", 7)]);
    rename_precise_system(&mut a);
    rename_precise_system(&mut b);
    assert_eq!(a, b);
    assert_eq!(a, with(vec![msg("x", 0), msg("y", 0)]));
}

#[test]
fn renumbering_forgets_the_order_of_operands() {
    let with = |x: u64, y: u64| {
        let t = f_app_ac(AcSym::Mult, &list(vec![msg("x", x), msg("y", y)]));
        let mut sys = System::empty();
        sys.nodes = list(vec![(node(0), rule("R", vec![in_fact(t)], vec![], vec![]))]);
        sys
    };
    let mut a = with(3, 5);
    let mut b = with(9, 7);
    rename_precise_system(&mut a);
    rename_precise_system(&mut b);
    assert_eq!(a, b);
    assert_eq!(a, with(0, 0));
}

#[test]
fn common_operands_cancel_as_often_as_they_occur() {
    let sum = |l: Vec<Term>| f_app_ac(AcSym::Union, &list(l));
    let x = || msg("x", 0);
    let y = || msg("y", 0);
    let z = || msg("z", 0);
    assert_eq!(
        process_ac_subterm(AcSym::Union, &sum(vec![x(), x(), y()]), &sum(vec![x(), z(), z()])),
        Ok((sum(vec![x(), y()]), sum(vec![z(), z()])))
    );
    assert_eq!(
        process_ac_subterm(AcSym::Union, &sum(vec![x(), y()]), &sum(vec![y(), x(), x()])),
        Err(true)
    );
    assert_eq!(
        process_ac_subterm(AcSym::Union, &sum(vec![x(), x(), y()]), &sum(vec![y(), x()])),
        Err(false)
    );
}

#[test]
fn results_are_alike_by_their_kind() {
    let all = || {
        vec![
            Finish::Solved,
            Finish::Unfinishable,
            Finish::Contradictory(None),
            Finish::Contradictory(Some(Contradiction::Cyclic)),
        ]
    };
    let kind = [0, 1, 2, 2];
    for (i, a) in all().iter().enumerate() {
        for (j, b) in all().iter().enumerate() {
            assert_eq!(same_kind(a, b), kind[i] == kind[j]);
        }
    }
}
