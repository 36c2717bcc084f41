//! Evaluation of expressions in an environment.
//!
//! The meaning of evaluation is `eval`, a function of a fuel bound: each
//! evaluation step uses one unit of fuel, so that `eval` is total even though
//! an application may instantiate a lambda whose evaluation never ends.
use vstd::prelude::*;
use crate::ast::{
    Binop, Expr, SpecExpr, SpecVal, Uop, Val, exprs_model, lemma_exprs_model_index,
    opt_val_model,
};
use crate::env::{Bindings, Env};
use crate::subst::{subst, subst_spec};

verus! {

/// What evaluating with a given fuel bound comes to.
pub enum Outcome {
    /// Evaluation finished, with a value or with none (an unbound name, or an
    /// operand or condition without a value).
    Value(Option<SpecVal>),
    /// Evaluation stopped on an operation that is not defined on its operands.
    Panic,
    /// The fuel ran out first.
    OutOfFuel,
}

/// The value of a name in the environment; none where the name is unbound or
/// bound to no value.
pub open spec fn lookup_val(env: Map<Seq<char>, Option<SpecVal>>, x: Seq<char>) -> Option<SpecVal> {
    if env.contains_key(x) {
        env[x]
    } else {
        None
    }
}

/// Whether an integer fits in an `i32`.
pub open spec fn fits_i32(x: int) -> bool {
    i32::MIN <= x <= i32::MAX
}

/// Integer division that rounds toward zero.
pub open spec fn div_toward_zero(i: int, j: int) -> int {
    let q = abs(i) / abs(j);
    if (i < 0) == (j < 0) {
        q
    } else {
        -q
    }
}

/// The absolute value.
pub open spec fn abs(i: int) -> int {
    if i < 0 {
        -i
    } else {
        i
    }
}

/// The value of a binary operation on two values; `None` where it is not
/// defined: on operands of the wrong kinds, on arithmetic whose exact result
/// does not fit in an `i32`, and on division by zero.
pub open spec fn binop_result(v1: SpecVal, v2: SpecVal, bop: Binop) -> Option<SpecVal> {
    match (v1, v2) {
        (SpecVal::Int(i), SpecVal::Int(j)) => match bop {
            Binop::Add => if fits_i32(i + j) {
                Some(SpecVal::Int((i + j) as i32))
            } else {
                None
            },
            Binop::Sub => if fits_i32(i - j) {
                Some(SpecVal::Int((i - j) as i32))
            } else {
                None
            },
            Binop::Mul => if fits_i32(i * j) {
                Some(SpecVal::Int((i * j) as i32))
            } else {
                None
            },
            Binop::Div => if j != 0 && !(i == i32::MIN && j == -1) {
                Some(SpecVal::Int(div_toward_zero(i as int, j as int) as i32))
            } else {
                None
            },
            Binop::Eq => Some(SpecVal::Bool(i == j)),
            Binop::Lt => Some(SpecVal::Bool(i < j)),
            Binop::Gt => Some(SpecVal::Bool(i > j)),
            Binop::And => None,
            Binop::Or => None,
        },
        (SpecVal::Bool(a), SpecVal::Bool(b)) => match bop {
            Binop::And => Some(SpecVal::Bool(a && b)),
            Binop::Or => Some(SpecVal::Bool(a || b)),
            _ => None,
        },
        _ => None,
    }
}

/// The value of a unary operation on a value; `None` where it is not defined:
/// on an operand of the wrong kind, and on negating `i32::MIN`.
pub open spec fn uop_result(v: SpecVal, uop: Uop) -> Option<SpecVal> {
    match v {
        SpecVal::Int(i) => match uop {
            Uop::Neg => if fits_i32(-i) {
                Some(SpecVal::Int((-i) as i32))
            } else {
                None
            },
            Uop::Not => None,
        },
        SpecVal::Bool(b) => match uop {
            Uop::Neg => None,
            Uop::Not => Some(SpecVal::Bool(!b)),
        },
        _ => None,
    }
}

/// The parameters and body of the lambda that an expression denotes: a
/// lambda itself, or a name bound in the environment to a lambda value whose
/// expression is a lambda.
pub open spec fn lambda_parts(le: SpecExpr, env: Map<Seq<char>, Option<SpecVal>>) -> Option<
    (Seq<SpecExpr>, SpecExpr),
> {
    match le {
        SpecExpr::Lambda { pars, body } => Some((pars, *body)),
        SpecExpr::IdExpr { ident } => if env.contains_key(ident) {
            match env[ident] {
                Some(SpecVal::Lambda(SpecExpr::Lambda { pars, body })) => Some((pars, *body)),
                _ => None,
            }
        } else {
            None
        },
        _ => None,
    }
}

/// The bindings of the first `k` parameters to the first `k` arguments, a
/// later binding of a name replacing an earlier one; `None` where one of those
/// parameters is not a name.
pub open spec fn bind_params(pars: Seq<SpecExpr>, args: Seq<SpecExpr>, k: int) -> Option<
    Map<Seq<char>, SpecExpr>,
>
    decreases k,
{
    if k <= 0 {
        Some(Map::empty())
    } else {
        match bind_params(pars, args, k - 1) {
            Some(m) => match pars[k - 1] {
                SpecExpr::IdExpr { ident } => Some(m.insert(ident, args[k - 1])),
                _ => None,
            },
            None => None,
        }
    }
}

/// The smaller of two integers.
pub open spec fn min(a: int, b: int) -> int {
    if a <= b {
        a
    } else {
        b
    }
}

/// The body of the applied lambda with the arguments substituted for its
/// parameters, pairing them up to the shorter of the two lists; `None` where
/// the function value is not a lambda or its instantiation is not defined.
pub open spec fn instantiate(
    fv: SpecVal,
    args: Seq<SpecExpr>,
    env: Map<Seq<char>, Option<SpecVal>>,
) -> Option<SpecExpr> {
    match fv {
        SpecVal::Lambda(le) => match lambda_parts(le, env) {
            Some((pars, body)) => match bind_params(pars, args, min(pars.len() as int, args.len() as int)) {
                Some(m) => subst_spec(body, m),
                None => None,
            },
            None => None,
        },
        _ => None,
    }
}

/// Evaluation of an expression in an environment with `fuel` steps at most.
pub open spec fn eval(fuel: nat, e: SpecExpr, env: Map<Seq<char>, Option<SpecVal>>) -> Outcome
    decreases fuel,
{
    if fuel == 0 {
        Outcome::OutOfFuel
    } else {
        let f = (fuel - 1) as nat;
        match e {
            SpecExpr::IdExpr { ident } => Outcome::Value(lookup_val(env, ident)),
            SpecExpr::IntConst { val } => Outcome::Value(Some(SpecVal::Int(val))),
            SpecExpr::BoolConst { val } => Outcome::Value(Some(SpecVal::Bool(val))),
            SpecExpr::Action { .. } => Outcome::Value(Some(SpecVal::Action(e))),
            SpecExpr::Member { .. } => Outcome::Panic,
            SpecExpr::Apply { fun, args } => match eval(f, *fun, env) {
                Outcome::Value(Some(fv)) => match instantiate(fv, args, env) {
                    Some(body) => eval(f, body, env),
                    None => Outcome::Panic,
                },
                Outcome::Value(None) => Outcome::Value(None),
                Outcome::Panic => Outcome::Panic,
                Outcome::OutOfFuel => Outcome::OutOfFuel,
            },
            SpecExpr::BopExpr { opd1, opd2, bop } => match eval(f, *opd1, env) {
                Outcome::Value(v1) => match eval(f, *opd2, env) {
                    Outcome::Value(v2) => match (v1, v2) {
                        (Some(a), Some(b)) => match binop_result(a, b, bop) {
                            Some(v) => Outcome::Value(Some(v)),
                            None => Outcome::Panic,
                        },
                        _ => Outcome::Value(None),
                    },
                    Outcome::Panic => Outcome::Panic,
                    Outcome::OutOfFuel => Outcome::OutOfFuel,
                },
                Outcome::Panic => Outcome::Panic,
                Outcome::OutOfFuel => Outcome::OutOfFuel,
            },
            SpecExpr::UopExpr { opd, uop } => match eval(f, *opd, env) {
                Outcome::Value(Some(v)) => match uop_result(v, uop) {
                    Some(r) => Outcome::Value(Some(r)),
                    None => Outcome::Panic,
                },
                Outcome::Value(None) => Outcome::Value(None),
                Outcome::Panic => Outcome::Panic,
                Outcome::OutOfFuel => Outcome::OutOfFuel,
            },
            SpecExpr::IfExpr { cond, then, elze } => match eval(f, *cond, env) {
                Outcome::Value(Some(SpecVal::Bool(b))) => if b {
                    eval(f, *then, env)
                } else {
                    eval(f, *elze, env)
                },
                Outcome::Value(_) => Outcome::Value(None),
                Outcome::Panic => Outcome::Panic,
                Outcome::OutOfFuel => Outcome::OutOfFuel,
            },
            SpecExpr::Lambda { .. } => Outcome::Value(Some(SpecVal::Lambda(e))),
        }
    }
}

/// Evaluation finishes without panicking, given enough fuel.
pub open spec fn evaluates(e: SpecExpr, env: Map<Seq<char>, Option<SpecVal>>) -> bool {
    exists|fuel: nat| #[trigger] eval(fuel, e, env) is Value
}

/// A fuel bound within which evaluation finishes, where there is one.
pub open spec fn enough_fuel(e: SpecExpr, env: Map<Seq<char>, Option<SpecVal>>) -> nat {
    choose|fuel: nat| #[trigger] eval(fuel, e, env) is Value
}

/// The result of evaluation, where it finishes without panicking.
pub open spec fn eval_value(e: SpecExpr, env: Map<Seq<char>, Option<SpecVal>>) -> Option<SpecVal> {
    eval(enough_fuel(e, env), e, env)->Value_0
}

/// Reading a name after writing it: in an environment where `x` has just been
/// given the value `v` (or no value), `x` evaluates to `v` (or to none).
pub proof fn law_eval_name_after_insert(
    env: Map<Seq<char>, Option<SpecVal>>,
    x: Seq<char>,
    v: Option<SpecVal>,
)
    ensures
        evaluates(SpecExpr::IdExpr { ident: x }, env.insert(x, v)),
        eval_value(SpecExpr::IdExpr { ident: x }, env.insert(x, v)) == v,
{
    let e = SpecExpr::IdExpr { ident: x };
    assert(eval(1, e, env.insert(x, v)) == Outcome::Value(v));
    law_eval_value_unique(1, e, env.insert(x, v));
}

/// The arithmetic operators `+` and `*`, comparison for equality, and the
/// logical connectives are commutative, in where they are defined as well as
/// in their values.
pub proof fn law_binop_commutative(v1: SpecVal, v2: SpecVal, bop: Binop)
    requires
        bop == Binop::Add || bop == Binop::Mul || bop == Binop::Eq || bop == Binop::And || bop
            == Binop::Or,
    ensures
        binop_result(v1, v2, bop) == binop_result(v2, v1, bop),
{
    if let (SpecVal::Int(i), SpecVal::Int(j)) = (v1, v2) {
        assert(i * j == j * i) by (nonlinear_arith);
    }
}

/// The integer comparisons order the integers: each of `<`, `==`, `>` gives a
/// boolean, exactly one of them holds of any two integers, `==` holds exactly
/// of equal integers, and `i > j` is `j < i`.
pub proof fn law_int_comparisons(i: i32, j: i32)
    ensures
        binop_result(SpecVal::Int(i), SpecVal::Int(j), Binop::Lt) matches Some(SpecVal::Bool(_)),
        binop_result(SpecVal::Int(i), SpecVal::Int(j), Binop::Eq) matches Some(SpecVal::Bool(_)),
        binop_result(SpecVal::Int(i), SpecVal::Int(j), Binop::Gt) matches Some(SpecVal::Bool(_)),
        ({
            let lt = binop_result(SpecVal::Int(i), SpecVal::Int(j), Binop::Lt) == Some(
                SpecVal::Bool(true),
            );
            let eq = binop_result(SpecVal::Int(i), SpecVal::Int(j), Binop::Eq) == Some(
                SpecVal::Bool(true),
            );
            let gt = binop_result(SpecVal::Int(i), SpecVal::Int(j), Binop::Gt) == Some(
                SpecVal::Bool(true),
            );
            &&& lt || eq || gt
            &&& !(lt && eq)
            &&& !(lt && gt)
            &&& !(eq && gt)
            &&& eq <==> i == j
        }),
        binop_result(SpecVal::Int(i), SpecVal::Int(j), Binop::Gt) == binop_result(
            SpecVal::Int(j),
            SpecVal::Int(i),
            Binop::Lt,
        ),
{
}

/// `&&` and `||` are the boolean lattice operations: both give booleans and
/// are idempotent, `true` is the unit of `&&` and absorbs `||`, `false` is the
/// unit of `||` and absorbs `&&`, each absorbs the other, and De Morgan's law
/// relates them through `!`.
pub proof fn law_bool_connectives(a: bool, b: bool)
    ensures
        binop_result(SpecVal::Bool(a), SpecVal::Bool(b), Binop::And) matches Some(SpecVal::Bool(_)),
        binop_result(SpecVal::Bool(a), SpecVal::Bool(b), Binop::Or) matches Some(SpecVal::Bool(_)),
        binop_result(SpecVal::Bool(a), SpecVal::Bool(a), Binop::And) == Some(SpecVal::Bool(a)),
        binop_result(SpecVal::Bool(a), SpecVal::Bool(a), Binop::Or) == Some(SpecVal::Bool(a)),
        binop_result(SpecVal::Bool(true), SpecVal::Bool(b), Binop::And) == Some(SpecVal::Bool(b)),
        binop_result(SpecVal::Bool(false), SpecVal::Bool(b), Binop::And) == Some(SpecVal::Bool(false)),
        binop_result(SpecVal::Bool(false), SpecVal::Bool(b), Binop::Or) == Some(SpecVal::Bool(b)),
        binop_result(SpecVal::Bool(true), SpecVal::Bool(b), Binop::Or) == Some(SpecVal::Bool(true)),
        binop_result(
            SpecVal::Bool(a),
            binop_result(SpecVal::Bool(a), SpecVal::Bool(b), Binop::And).unwrap(),
            Binop::Or,
        ) == Some(SpecVal::Bool(a)),
        binop_result(
            SpecVal::Bool(a),
            binop_result(SpecVal::Bool(a), SpecVal::Bool(b), Binop::Or).unwrap(),
            Binop::And,
        ) == Some(SpecVal::Bool(a)),
        binop_result(SpecVal::Bool(a), SpecVal::Bool(b), Binop::Or) == uop_result(
            binop_result(
                uop_result(SpecVal::Bool(a), Uop::Not).unwrap(),
                uop_result(SpecVal::Bool(b), Uop::Not).unwrap(),
                Binop::And,
            ).unwrap(),
            Uop::Not,
        ),
{
}

/// A conditional takes the outcome of the branch its condition selects,
/// whatever the other branch would do: where the condition evaluates to
/// `true` and the then-branch evaluates, the conditional evaluates to the
/// then-branch's value, and likewise for `false` and the else-branch.
pub proof fn law_if_selects_branch(
    cond: SpecExpr,
    then: SpecExpr,
    elze: SpecExpr,
    env: Map<Seq<char>, Option<SpecVal>>,
    b: bool,
)
    requires
        evaluates(cond, env),
        eval_value(cond, env) == Some(SpecVal::Bool(b)),
        evaluates(if b { then } else { elze }, env),
    ensures
        evaluates(
            SpecExpr::IfExpr { cond: Box::new(cond), then: Box::new(then), elze: Box::new(elze) },
            env,
        ),
        eval_value(
            SpecExpr::IfExpr { cond: Box::new(cond), then: Box::new(then), elze: Box::new(elze) },
            env,
        ) == eval_value(if b { then } else { elze }, env),
{
    let chosen = if b { then } else { elze };
    let fc = enough_fuel(cond, env);
    let fb = enough_fuel(chosen, env);
    let f = if fc <= fb { fb } else { fc };
    law_eval_fuel_monotone(fc, f, cond, env);
    law_eval_fuel_monotone(fb, f, chosen, env);
    let e = SpecExpr::IfExpr { cond: Box::new(cond), then: Box::new(then), elze: Box::new(elze) };
    assert(eval(f + 1, e, env) == eval(f, chosen, env));
    law_eval_value_unique(f + 1, e, env);
    law_eval_value_unique(f, chosen, env);
}

/// Binding parameters to arguments: among the first `k` parameters, which are
/// all names, the map binds `x` exactly where some parameter is `x`, and then
/// to the argument paired with the last such parameter.
pub proof fn lemma_bind_params_lookup(pars: Seq<SpecExpr>, args: Seq<SpecExpr>, k: int, x: Seq<char>, i: int)
    requires
        0 <= k <= pars.len(),
        k <= args.len(),
        forall|j: int| 0 <= j < k ==> #[trigger] pars[j] is IdExpr,
        0 <= i < k,
        pars[i] == (SpecExpr::IdExpr { ident: x }),
        forall|j: int| i < j < k ==> #[trigger] pars[j] != (SpecExpr::IdExpr { ident: x }),
    ensures
        bind_params(pars, args, k) is Some,
        bind_params(pars, args, k).unwrap().contains_key(x),
        bind_params(pars, args, k).unwrap()[x] == args[i],
    decreases k,
{
    lemma_bind_params_all_names(pars, args, k);
    if i < k - 1 {
        lemma_bind_params_lookup(pars, args, k - 1, x, i);
        assert(pars[k - 1] is IdExpr);
        assert(pars[k - 1] != (SpecExpr::IdExpr { ident: x }));
    }
}

/// Binding succeeds where the parameters bound are all names.
pub proof fn lemma_bind_params_all_names(pars: Seq<SpecExpr>, args: Seq<SpecExpr>, k: int)
    requires
        0 <= k <= pars.len(),
        forall|j: int| 0 <= j < k ==> #[trigger] pars[j] is IdExpr,
    ensures
        bind_params(pars, args, k) is Some,
    decreases k,
{
    if k > 0 {
        lemma_bind_params_all_names(pars, args, k - 1);
        assert(pars[k - 1] is IdExpr);
    }
}

/// Applying a lambda binds each parameter to its argument whatever the
/// environment holds: in a lambda whose body is a parameter `x`, paired (in
/// its last occurrence among the first min(#pars, #args) parameters, all
/// names) with argument `a`, the application evaluates to the value of `a`,
/// also where the environment gives `x` a value of its own.
pub proof fn law_apply_binds_parameter(
    pars: Seq<SpecExpr>,
    args: Seq<SpecExpr>,
    x: Seq<char>,
    i: int,
    env: Map<Seq<char>, Option<SpecVal>>,
)
    requires
        forall|j: int| 0 <= j < min(pars.len() as int, args.len() as int) ==> #[trigger] pars[j] is IdExpr,
        0 <= i < min(pars.len() as int, args.len() as int),
        pars[i] == (SpecExpr::IdExpr { ident: x }),
        forall|j: int|
            i < j < min(pars.len() as int, args.len() as int) ==> #[trigger] pars[j] != (
            SpecExpr::IdExpr { ident: x }),
        evaluates(args[i], env),
    ensures
        evaluates(
            SpecExpr::Apply {
                fun: Box::new(SpecExpr::Lambda { pars, body: Box::new(SpecExpr::IdExpr { ident: x }) }),
                args,
            },
            env,
        ),
        eval_value(
            SpecExpr::Apply {
                fun: Box::new(SpecExpr::Lambda { pars, body: Box::new(SpecExpr::IdExpr { ident: x }) }),
                args,
            },
            env,
        ) == eval_value(args[i], env),
{
    let k = min(pars.len() as int, args.len() as int);
    let lam = SpecExpr::Lambda { pars, body: Box::new(SpecExpr::IdExpr { ident: x }) };
    let e = SpecExpr::Apply { fun: Box::new(lam), args };
    lemma_bind_params_lookup(pars, args, k, x, i);
    let m = bind_params(pars, args, k).unwrap();
    assert(subst_spec(SpecExpr::IdExpr { ident: x }, m) == Some(args[i]));
    assert(instantiate(SpecVal::Lambda(lam), args, env) == Some(args[i]));
    let f = enough_fuel(args[i], env);
    law_eval_fuel_monotone(f, f + 1, args[i], env);
    assert(eval(f + 1, lam, env) == Outcome::Value(Some(SpecVal::Lambda(lam))));
    assert(eval(f + 2, e, env) == eval(f + 1, args[i], env));
    law_eval_value_unique(f + 2, e, env);
}

/// One more unit of fuel changes no outcome that is not `OutOfFuel`.
pub proof fn lemma_eval_fuel_step(f: nat, e: SpecExpr, env: Map<Seq<char>, Option<SpecVal>>)
    requires
        !(eval(f, e, env) is OutOfFuel),
    ensures
        eval(f + 1, e, env) == eval(f, e, env),
    decreases f,
{
    if f > 0 {
        let g = (f - 1) as nat;
        match e {
            SpecExpr::Apply { fun, args } => {
                if !(eval(g, *fun, env) is OutOfFuel) {
                    lemma_eval_fuel_step(g, *fun, env);
                    if let Outcome::Value(Some(fv)) = eval(g, *fun, env) {
                        if let Some(body) = instantiate(fv, args, env) {
                            if !(eval(g, body, env) is OutOfFuel) {
                                lemma_eval_fuel_step(g, body, env);
                            }
                        }
                    }
                }
            },
            SpecExpr::BopExpr { opd1, opd2, bop } => {
                if !(eval(g, *opd1, env) is OutOfFuel) {
                    lemma_eval_fuel_step(g, *opd1, env);
                }
                if !(eval(g, *opd2, env) is OutOfFuel) {
                    lemma_eval_fuel_step(g, *opd2, env);
                }
            },
            SpecExpr::UopExpr { opd, uop } => {
                if !(eval(g, *opd, env) is OutOfFuel) {
                    lemma_eval_fuel_step(g, *opd, env);
                }
            },
            SpecExpr::IfExpr { cond, then, elze } => {
                if !(eval(g, *cond, env) is OutOfFuel) {
                    lemma_eval_fuel_step(g, *cond, env);
                }
                if !(eval(g, *then, env) is OutOfFuel) {
                    lemma_eval_fuel_step(g, *then, env);
                }
                if !(eval(g, *elze, env) is OutOfFuel) {
                    lemma_eval_fuel_step(g, *elze, env);
                }
            },
            _ => {},
        }
    }
}

/// Fuel monotonicity: once evaluation finishes (with a value or a panic)
/// within some fuel bound, any larger bound gives the same outcome.
pub proof fn law_eval_fuel_monotone(
    f1: nat,
    f2: nat,
    e: SpecExpr,
    env: Map<Seq<char>, Option<SpecVal>>,
)
    requires
        f1 <= f2,
        !(eval(f1, e, env) is OutOfFuel),
    ensures
        eval(f2, e, env) == eval(f1, e, env),
    decreases f2 - f1,
{
    if f1 < f2 {
        lemma_eval_fuel_step(f1, e, env);
        law_eval_fuel_monotone(f1 + 1, f2, e, env);
    }
}

/// Determinism: every fuel bound within which evaluation finishes without a
/// panic gives the same value, and that value is `eval_value`, the result
/// that `evaluate_expr` returns.
pub proof fn law_eval_value_unique(fuel: nat, e: SpecExpr, env: Map<Seq<char>, Option<SpecVal>>)
    requires
        eval(fuel, e, env) is Value,
    ensures
        evaluates(e, env),
        eval_value(e, env) == eval(fuel, e, env)->Value_0,
{
    assert(evaluates(e, env));
    let g = enough_fuel(e, env);
    if g <= fuel {
        law_eval_fuel_monotone(g, fuel, e, env);
    } else {
        law_eval_fuel_monotone(fuel, g, e, env);
    }
}

/// Division of a natural number by a negative divisor.
proof fn lemma_div_neg_divisor(x: int, d: int)
    requires
        x >= 0,
        d < 0,
    ensures
        x / d == -(x / (-d)),
{
    let q1 = x / d;
    let r1 = x % d;
    let q = x / (-d);
    let r = x % (-d);
    vstd::arithmetic::div_mod::lemma_fundamental_div_mod(x, d);
    vstd::arithmetic::div_mod::lemma_fundamental_div_mod(x, -d);
    vstd::arithmetic::div_mod::lemma_mod_bound(x, -d);
    assert(0 <= r1 < -d) by (nonlinear_arith)
        requires
            d < 0,
            r1 == x % d,
    ;
    assert(q1 == -q) by (nonlinear_arith)
        requires
            x == d * q1 + r1,
            x == (-d) * q + r,
            0 <= r1 < -d,
            0 <= r < -d,
    ;
}

/// `div_toward_zero` is the quotient that `/` gives on signed integers:
/// Euclidean for a natural dividend, and the negated quotient of the negated
/// dividend otherwise.
proof fn lemma_div_toward_zero(i: int, j: int)
    requires
        j != 0,
    ensures
        div_toward_zero(i, j) == if i >= 0 {
            i / j
        } else {
            -((-i) / j)
        },
{
    if j < 0 {
        if i >= 0 {
            lemma_div_neg_divisor(i, j);
        } else {
            lemma_div_neg_divisor(-i, j);
        }
    }
}

/// Binding the first `k` parameters succeeds only if binding fewer does.
pub proof fn lemma_bind_params_prefix(pars: Seq<SpecExpr>, args: Seq<SpecExpr>, j: int, k: int)
    requires
        0 <= j <= k,
        bind_params(pars, args, k) is Some,
    ensures
        bind_params(pars, args, j) is Some,
    decreases k,
{
    if j < k {
        lemma_bind_params_prefix(pars, args, j, k - 1);
    }
}

/// Applies a binary operator to two values.
pub fn evaluate_binop_vals(val1: &Val, val2: &Val, bop: &Binop) -> (r: Val)
    requires
        binop_result(val1@, val2@, *bop) is Some,
    ensures
        r@ == binop_result(val1@, val2@, *bop).unwrap(),
{
    match (val1, val2) {
        (Val::Int(i), Val::Int(j)) => match bop {
            Binop::Add => Val::Int(*i + *j),
            Binop::Sub => Val::Int(*i - *j),
            Binop::Mul => Val::Int(*i * *j),
            Binop::Div => {
                let q = *i / *j;
                proof {
                    lemma_div_toward_zero(*i as int, *j as int);
                }
                Val::Int(q)
            },
            Binop::Eq => Val::Bool(*i == *j),
            Binop::Lt => Val::Bool(*i < *j),
            Binop::Gt => Val::Bool(*i > *j),
            Binop::And | Binop::Or => vstd::pervasive::unreached(),
        },
        (Val::Bool(b1), Val::Bool(b2)) => match bop {
            Binop::And => Val::Bool(*b1 && *b2),
            Binop::Or => Val::Bool(*b1 || *b2),
            _ => vstd::pervasive::unreached(),
        },
        _ => vstd::pervasive::unreached(),
    }
}

/// Applies a unary operator to a value.
pub fn evaluate_uop_vals(val: &Val, uop: &Uop) -> (r: Val)
    requires
        uop_result(val@, *uop) is Some,
    ensures
        r@ == uop_result(val@, *uop).unwrap(),
{
    match val {
        Val::Int(i) => match uop {
            Uop::Neg => Val::Int(-*i),
            Uop::Not => vstd::pervasive::unreached(),
        },
        Val::Bool(b) => match uop {
            Uop::Neg => vstd::pervasive::unreached(),
            Uop::Not => Val::Bool(!*b),
        },
        _ => vstd::pervasive::unreached(),
    }
}

/// The parameters and body of the lambda that `fun` denotes, where
/// `lambda_parts` gives them.
fn lambda_parts_of<'a>(fun: &'a Expr, names_to_values: &'a Env) -> (r: (&'a Vec<Expr>, &'a Expr))
    requires
        lambda_parts(fun@, names_to_values@) is Some,
    ensures
        exprs_model(r.0@) == lambda_parts(fun@, names_to_values@).unwrap().0,
        r.1@ == lambda_parts(fun@, names_to_values@).unwrap().1,
{
    match fun {
        Expr::Lambda { pars, body } => (pars, &**body),
        Expr::IdExpr { ident } => match names_to_values.get(ident) {
            Some(val) => match val {
                Some(Val::Lambda(lam)) => match lam {
                    Expr::Lambda { pars, body } => (pars, &**body),
                    _ => vstd::pervasive::unreached(),
                },
                _ => vstd::pervasive::unreached(),
            },
            None => vstd::pervasive::unreached(),
        },
        _ => vstd::pervasive::unreached(),
    }
}

/// Evaluates the function of an application and instantiates the lambda it
/// denotes with the arguments: none where the function has no value.
fn subst_pars_of_apply_for_args(
    fun: &Expr,
    args: &Vec<Expr>,
    names_to_values: &Env,
    Ghost(fuel): Ghost<nat>,
) -> (r: Option<Expr>)
    requires
        eval(fuel, fun@, names_to_values@) is Value,
        eval(fuel, fun@, names_to_values@) matches Outcome::Value(Some(fv)) ==> instantiate(
            fv,
            exprs_model(args@),
            names_to_values@,
        ) is Some,
    ensures
        match eval(fuel, fun@, names_to_values@) {
            Outcome::Value(Some(fv)) => r is Some && r.unwrap()@ == instantiate(
                fv,
                exprs_model(args@),
                names_to_values@,
            ).unwrap(),
            _ => r is None,
        },
    decreases fuel, 1nat,
{
    let fun_val = eval_with_fuel(fun, names_to_values, Ghost(fuel));
    let fun_val = match fun_val {
        Some(v) => v,
        None => {
            return None;
        },
    };
    let ghost am = exprs_model(args@);
    let lam = match &fun_val {
        Val::Lambda(e) => e,
        _ => vstd::pervasive::unreached(),
    };
    let (pars, body) = lambda_parts_of(lam, names_to_values);
    let ghost pm = exprs_model(pars@);
    let ghost k = min(pm.len() as int, am.len() as int);
    proof {
        lemma_exprs_model_index(pars@);
        lemma_exprs_model_index(args@);
    }
    let mut par_arg_map = Bindings::new();
    let n = if pars.len() < args.len() {
        pars.len()
    } else {
        args.len()
    };
    for i in 0..n
        invariant
            n == k,
            n <= pars@.len(),
            n <= args@.len(),
            pm == exprs_model(pars@),
            am == exprs_model(args@),
            pm.len() == pars@.len(),
            am.len() == args@.len(),
            forall|j: int| 0 <= j < pars@.len() ==> #[trigger] pm[j] == pars@[j]@,
            forall|j: int| 0 <= j < args@.len() ==> #[trigger] am[j] == args@[j]@,
            bind_params(pm, am, k) is Some,
            par_arg_map@ == bind_params(pm, am, i as int).unwrap(),
    {
        proof {
            lemma_bind_params_prefix(pm, am, i + 1, k);
            assert(pm[i as int] is IdExpr);
        }
        let par_ident = match &pars[i] {
            Expr::IdExpr { ident } => ident.clone(),
            _ => vstd::pervasive::unreached(),
        };
        par_arg_map.insert(par_ident, args[i].deep_clone());
    }
    let mut substed_expr = body.deep_clone();
    subst(&mut substed_expr, &par_arg_map);
    Some(substed_expr)
}

/// Evaluation with a fuel bound within which it finishes without panicking.
fn eval_with_fuel(expr: &Expr, names_to_values: &Env, Ghost(fuel): Ghost<nat>) -> (r: Option<Val>)
    requires
        eval(fuel, expr@, names_to_values@) is Value,
    ensures
        opt_val_model(r) == eval(fuel, expr@, names_to_values@)->Value_0,
    decreases fuel, 0nat,
{
    let ghost f = (fuel - 1) as nat;
    match expr {
        Expr::IdExpr { ident } => {
            return match names_to_values.get(ident) {
                Some(Some(v)) => Some(v.deep_clone()),
                _ => None,
            };
        },
        Expr::IntConst { val } => Some(Val::Int(*val)),
        Expr::BoolConst { val } => Some(Val::Bool(*val)),
        Expr::Action { stmt: _ } => Some(Val::Action(expr.deep_clone())),
        Expr::Member { srv_name: _, member: _ } => vstd::pervasive::unreached(),
        Expr::Apply { fun, args } => {
            let opt_substed_body = subst_pars_of_apply_for_args(fun, args, names_to_values, Ghost(f));
            let substed_body = match opt_substed_body {
                Some(bd) => bd,
                None => return None,
            };
            eval_with_fuel(&substed_body, names_to_values, Ghost(f))
        },
        Expr::BopExpr { opd1, opd2, bop } => {
            let opt_val1 = eval_with_fuel(opd1, names_to_values, Ghost(f));
            let opt_val2 = eval_with_fuel(opd2, names_to_values, Ghost(f));
            let (val1, val2) = match (opt_val1, opt_val2) {
                (Some(v1), Some(v2)) => (v1, v2),
                _ => {
                    return None;
                },
            };
            Some(evaluate_binop_vals(&val1, &val2, bop))
        },
        Expr::UopExpr { opd, uop } => {
            let opt_val = eval_with_fuel(opd, names_to_values, Ghost(f));
            let val = match opt_val {
                Some(v) => v,
                None => return None,
            };
            Some(evaluate_uop_vals(&val, uop))
        },
        Expr::IfExpr { cond, then, elze } => {
            let opt_cond = eval_with_fuel(cond, names_to_values, Ghost(f));
            let evaled_cond = match opt_cond {
                Some(Val::Bool(b)) => b,
                _ => {
                    return None;
                },
            };
            if evaled_cond {
                eval_with_fuel(then, names_to_values, Ghost(f))
            } else {
                eval_with_fuel(elze, names_to_values, Ghost(f))
            }
        },
        Expr::Lambda { pars: _, body: _ } => Some(Val::Lambda(expr.deep_clone())),
    }
}

/// Evaluates an expression in an environment: the value of a name is its
/// value in the environment; constants, actions and lambdas are their own
/// values; operators apply to the values of their operands; a conditional
/// evaluates the branch its condition selects; an application substitutes the
/// arguments, unevaluated, for the parameters of the lambda that the function
/// evaluates to, and evaluates the result. None where a name has no value or
/// an operand or condition has none.
pub fn evaluate_expr(expr: &Expr, names_to_values: &Env) -> (r: Option<Val>)
    requires
        evaluates(expr@, names_to_values@),
    ensures
        opt_val_model(r) == eval_value(expr@, names_to_values@),
{
    let ghost fuel = enough_fuel(expr@, names_to_values@);
    eval_with_fuel(expr, names_to_values, Ghost(fuel))
}

} // verus!
