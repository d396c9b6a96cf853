# tamarin_theory

The constraint reduction at the heart of a symbolic protocol prover, verified with
Verus: constraint systems, the insertion of constraints, the application of
substitutions, the solving of goals, renumbering, and the steps of a proof.

## How it works

All data are finite trees (`list.rs`, `text.rs`): equality at run time is equality in
the logic, so every function states its result as an equation.

The solver does not unify, simplify or look up precomputed sources itself. It looks
the results up in a table (`context.rs`); where one is missing, it stops with a
question. A driver (`app/`) has the question answered and calls again.
`query_laws.rs` shows that the solver never asks what is answered, and that answers
which are added never change a result.

## Layout

| | |
|---|---|
| `list`, `text`, `terms`, `term_ops`, `facts`, `guarded`, `leaves` | terms, facts, formulas, and what is done to their variables |
| `constraints`, `system`, `rules`, `bounds`, `names` | constraint systems, rule instances, fresh indices, case names |
| `context`, `reduction`, `equations`, `subst_system`, `formulas`, `conjoin` | the state of a reduction and the insertion of constraints |
| `subterms`, `goals`, `rule_goals` | solving goals |
| `rename_precise`, `proof_method`, `rounds` | renumbering, proof steps, repetition |
| `*_laws` | what holds across functions |

`tests/` runs the library on concrete systems. The hash table of `rename_precise`
comes from `hashbrown`, with the hasher of `rustc-hash`.
