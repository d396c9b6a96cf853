//! Constraint reduction for a symbolic protocol prover.
pub mod list;
pub mod list_laws;
pub mod text;
pub mod terms;
pub mod term_ops;
pub mod facts;
pub mod guarded;
pub mod leaves;
pub mod constraints;
pub mod system;
pub mod names;
pub mod rules;
pub mod bounds;
pub mod context;
pub mod reduction;
pub mod equations;
pub mod subst_system;
pub mod formulas;
pub mod conjoin;
pub mod subterms;
pub mod goals;
pub mod rule_goals;
pub mod rename_precise;
pub mod proof_method;
pub mod rounds;
pub mod subst_laws;
pub mod rename_laws;
pub mod term_laws;
pub mod operand_laws;
pub mod system_laws;
pub mod bound_laws;
pub mod apply_laws;
pub mod formula_laws;
pub mod conjoin_laws;
pub mod case_laws;
pub mod method_laws;
pub mod query_laws;
pub mod goal_laws;
pub mod equation_laws;
pub mod follow_laws;
pub mod conjoined_laws;
pub mod origin_laws;
pub mod rule_laws;
pub mod exploit_laws;
pub mod action_laws;
pub mod premise_laws;
pub mod chain_laws;
pub mod pass_laws;
pub mod effect_laws;
pub mod split_laws;
pub mod knowledge_laws;
pub mod outcome_laws;
pub mod source_laws;
