//! A verified evaluator for the expression language of a small reactive
//! programming runtime: integer and boolean constants, variables, unary and
//! binary operators, conditionals, lambdas with call-by-name application, and
//! actions.
pub mod ast;
pub mod env;
pub mod subst;
pub mod eval;
