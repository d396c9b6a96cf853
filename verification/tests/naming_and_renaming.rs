use std::collections::BTreeSet;
use tamarin_theory::constraints::{LessAtom, Reason};
use tamarin_theory::list::List;
use tamarin_theory::names::default_case_name;
use tamarin_theory::rename_precise::rename_precise_system;
use tamarin_theory::system::System;
use tamarin_theory::terms::{LSort, LVar};
use tamarin_theory::text::Text;

fn node(name: &str, idx: u64) -> LVar {
    LVar { name: Text::new(name), sort: LSort::Node, idx }
}

fn first_less(sys: &System) -> &LessAtom {
    match &sys.less_atoms {
        List::Cons(a, _) => a,
        List::Nil => panic!("no ordering"),
    }
}

#[test]
fn default_case_name_is_one_indexed() {
    assert_eq!(default_case_name(0), "case_1");
    assert_eq!(default_case_name(1), "case_2");
    assert_eq!(default_case_name(9), "case_10");
    assert_eq!(
        default_case_name(99),
        "case_100",
        "three-digit suffix renders without padding"
    );
}

#[test]
fn default_case_name_is_injective() {
    let n = 25usize;
    let names: Vec<String> = (0..n).map(default_case_name).collect();
    let unique: BTreeSet<&String> = names.iter().collect();
    assert_eq!(
        unique.len(),
        n,
        "default_case_name must produce {} distinct names; got {}",
        n,
        unique.len()
    );
}

#[test]
fn rename_idempotent_on_empty_system() {
    let mut sys = System::empty();
    rename_precise_system(&mut sys);
    assert_eq!(sys, System::empty());
}

#[test]
fn rename_normalises_node_ids() {
    let mk_sys = |i_a: u64, i_b: u64| -> System {
        let mut sys = System::empty();
        sys.less_atoms = List::Cons(
            LessAtom { smaller: node("i", i_a), larger: node("i", i_b), reason: Reason::Fresh },
            Box::new(List::Nil),
        );
        sys
    };
    let mut a = mk_sys(0, 5);
    let mut b = mk_sys(7, 99);
    rename_precise_system(&mut a);
    rename_precise_system(&mut b);
    assert_eq!(first_less(&a).smaller, first_less(&b).smaller);
    assert_eq!(first_less(&a).larger, first_less(&b).larger);
    assert_ne!(first_less(&a).smaller, first_less(&a).larger);
}
