# Verified expression evaluator

The evaluator of a small reactive language's expressions, verified with Verus.

- `src/ast.rs`: expressions, statements and values, their mathematical models
  (`SpecExpr`, `SpecVal`), and copies proved equal to their originals.
- `src/env.rs`: the environment of variable values and the bindings of
  parameters, as association lists whose views are maps.
- `src/subst.rs`: substitution of expressions for free names (`subst_spec`)
  and its implementation.
- `src/eval.rs`: the meaning of evaluation as a function of a fuel bound
  (`eval`), the evaluator `evaluate_expr`, which returns the value that `eval`
  gives with any fuel that suffices, and the laws of evaluation.
- `app/`: the evaluator over a `HashMap` environment.
