use lib::ast::{Binop, Expr, SglStmt, Stmt, Uop, Val};
use lib::env::{Bindings, Env};
use lib::eval::{evaluate_binop_vals, evaluate_expr, evaluate_uop_vals};
use lib::subst::subst;

fn id(name: &str) -> Expr {
    Expr::IdExpr { ident: name.to_string() }
}

fn num(v: i32) -> Expr {
    Expr::IntConst { val: v }
}

fn boolean(v: bool) -> Expr {
    Expr::BoolConst { val: v }
}

fn bop(a: Expr, b: Expr, op: Binop) -> Expr {
    Expr::BopExpr { opd1: Box::new(a), opd2: Box::new(b), bop: op }
}

fn lambda(pars: &[&str], body: Expr) -> Expr {
    Expr::Lambda { pars: pars.iter().map(|p| id(p)).collect(), body: Box::new(body) }
}

fn apply(fun: Expr, args: Vec<Expr>) -> Expr {
    Expr::Apply { fun: Box::new(fun), args }
}

fn show(v: &Option<Val>) -> String {
    format!("{:?}", v)
}

fn eval_int(e: &Expr, env: &Env) -> Option<i32> {
    match evaluate_expr(e, env) {
        Some(Val::Int(i)) => Some(i),
        _ => None,
    }
}

fn eval_bool(e: &Expr, env: &Env) -> Option<bool> {
    match evaluate_expr(e, env) {
        Some(Val::Bool(b)) => Some(b),
        _ => None,
    }
}

#[test]
fn constants_are_their_own_values() {
    let env = Env::new();
    assert_eq!(eval_int(&num(42), &env), Some(42));
    assert_eq!(eval_bool(&boolean(true), &env), Some(true));
    assert_eq!(eval_bool(&boolean(false), &env), Some(false));
}

#[test]
fn names_take_their_values_from_the_environment() {
    let mut env = Env::new();
    env.insert("x".to_string(), Some(Val::Int(7)));
    env.insert("y".to_string(), None);
    assert_eq!(eval_int(&id("x"), &env), Some(7));
    assert!(evaluate_expr(&id("y"), &env).is_none());
    assert!(evaluate_expr(&id("z"), &env).is_none());
}

#[test]
fn insert_replaces_an_earlier_value() {
    let mut env = Env::new();
    env.insert("x".to_string(), Some(Val::Int(1)));
    env.insert("y".to_string(), Some(Val::Int(2)));
    env.insert("x".to_string(), Some(Val::Int(3)));
    assert_eq!(eval_int(&id("x"), &env), Some(3));
    assert_eq!(eval_int(&id("y"), &env), Some(2));
    assert!(matches!(env.get(&"x".to_string()), Some(Some(Val::Int(3)))));
    assert!(env.get(&"w".to_string()).is_none());
}

#[test]
fn arithmetic_operators() {
    let env = Env::new();
    assert_eq!(eval_int(&bop(num(2), num(3), Binop::Add), &env), Some(5));
    assert_eq!(eval_int(&bop(num(2), num(3), Binop::Sub), &env), Some(-1));
    assert_eq!(eval_int(&bop(num(6), num(7), Binop::Mul), &env), Some(42));
    assert_eq!(eval_int(&bop(num(7), num(2), Binop::Div), &env), Some(3));
    assert_eq!(eval_int(&bop(num(-7), num(2), Binop::Div), &env), Some(-3));
    assert_eq!(eval_int(&bop(num(7), num(-2), Binop::Div), &env), Some(-3));
    assert_eq!(eval_int(&bop(num(-7), num(-2), Binop::Div), &env), Some(3));
    assert_eq!(eval_int(&bop(num(i32::MAX), num(0), Binop::Add), &env), Some(i32::MAX));
}

#[test]
fn comparison_and_logical_operators() {
    let env = Env::new();
    assert_eq!(eval_bool(&bop(num(2), num(2), Binop::Eq), &env), Some(true));
    assert_eq!(eval_bool(&bop(num(2), num(3), Binop::Eq), &env), Some(false));
    assert_eq!(eval_bool(&bop(num(2), num(3), Binop::Lt), &env), Some(true));
    assert_eq!(eval_bool(&bop(num(2), num(3), Binop::Gt), &env), Some(false));
    assert_eq!(eval_bool(&bop(boolean(true), boolean(false), Binop::And), &env), Some(false));
    assert_eq!(eval_bool(&bop(boolean(true), boolean(false), Binop::Or), &env), Some(true));
}

#[test]
fn an_operand_without_value_gives_no_value() {
    let env = Env::new();
    assert!(evaluate_expr(&bop(id("u"), num(1), Binop::Add), &env).is_none());
    assert!(evaluate_expr(&bop(num(1), id("u"), Binop::Add), &env).is_none());
    let neg = Expr::UopExpr { opd: Box::new(id("u")), uop: Uop::Neg };
    assert!(evaluate_expr(&neg, &env).is_none());
}

#[test]
fn unary_operators() {
    let env = Env::new();
    let neg = Expr::UopExpr { opd: Box::new(num(5)), uop: Uop::Neg };
    assert_eq!(eval_int(&neg, &env), Some(-5));
    let not = Expr::UopExpr { opd: Box::new(boolean(true)), uop: Uop::Not };
    assert_eq!(eval_bool(&not, &env), Some(false));
}

#[test]
fn conditional_selects_a_branch() {
    let env = Env::new();
    let e = Expr::IfExpr {
        cond: Box::new(bop(num(1), num(2), Binop::Lt)),
        then: Box::new(num(10)),
        elze: Box::new(num(20)),
    };
    assert_eq!(eval_int(&e, &env), Some(10));
    let e = Expr::IfExpr {
        cond: Box::new(boolean(false)),
        then: Box::new(num(10)),
        elze: Box::new(num(20)),
    };
    assert_eq!(eval_int(&e, &env), Some(20));
}

#[test]
fn conditional_without_boolean_condition_gives_no_value() {
    let env = Env::new();
    let e = Expr::IfExpr { cond: Box::new(num(1)), then: Box::new(num(10)), elze: Box::new(num(20)) };
    assert!(evaluate_expr(&e, &env).is_none());
    let e = Expr::IfExpr { cond: Box::new(id("c")), then: Box::new(num(10)), elze: Box::new(num(20)) };
    assert!(evaluate_expr(&e, &env).is_none());
}

#[test]
fn lambdas_and_actions_are_their_own_values() {
    let env = Env::new();
    let l = lambda(&["x"], id("x"));
    let r = evaluate_expr(&l, &env);
    assert!(matches!(r, Some(Val::Lambda(_))));
    assert_eq!(show(&r), format!("Some(Lambda({:?}))", l));
    let a = Expr::Action {
        stmt: Stmt::Stmt { sgl_stmts: vec![SglStmt::Ass { dst: id("x"), src: num(1) }] },
    };
    let r = evaluate_expr(&a, &env);
    assert_eq!(show(&r), format!("Some(Action({:?}))", a));
}

#[test]
fn application_substitutes_arguments() {
    let env = Env::new();
    let e = apply(lambda(&["x"], bop(id("x"), num(1), Binop::Add)), vec![num(41)]);
    assert_eq!(eval_int(&e, &env), Some(42));
    let e = apply(
        lambda(&["x", "y"], bop(id("x"), id("y"), Binop::Sub)),
        vec![num(10), num(3)],
    );
    assert_eq!(eval_int(&e, &env), Some(7));
}

#[test]
fn application_of_a_named_lambda() {
    let mut env = Env::new();
    env.insert(
        "double".to_string(),
        Some(Val::Lambda(lambda(&["x"], bop(id("x"), num(2), Binop::Mul)))),
    );
    let e = apply(id("double"), vec![num(21)]);
    assert_eq!(eval_int(&e, &env), Some(42));
}

#[test]
fn application_pairs_parameters_with_arguments_up_to_the_shorter() {
    let env = Env::new();
    let e = apply(lambda(&["x", "y"], id("x")), vec![num(1)]);
    assert_eq!(eval_int(&e, &env), Some(1));
    let e = apply(lambda(&["x", "y"], id("y")), vec![num(1)]);
    assert!(evaluate_expr(&e, &env).is_none());
    let e = apply(lambda(&["x"], id("x")), vec![num(1), num(2)]);
    assert_eq!(eval_int(&e, &env), Some(1));
}

#[test]
fn a_repeated_parameter_takes_the_later_argument() {
    let env = Env::new();
    let e = apply(lambda(&["x", "x"], id("x")), vec![num(1), num(2)]);
    assert_eq!(eval_int(&e, &env), Some(2));
}

#[test]
fn substitution_stops_at_an_inner_binder() {
    let env = Env::new();
    let inner = apply(lambda(&["x"], id("x")), vec![num(5)]);
    let e = apply(lambda(&["x"], inner), vec![num(1)]);
    assert_eq!(eval_int(&e, &env), Some(5));
    let inner = apply(lambda(&["y"], bop(id("x"), id("y"), Binop::Add)), vec![num(5)]);
    let e = apply(lambda(&["x"], inner), vec![num(1)]);
    assert_eq!(eval_int(&e, &env), Some(6));
}

#[test]
fn arguments_are_passed_unevaluated() {
    let mut env = Env::new();
    env.insert("n".to_string(), Some(Val::Int(4)));
    let e = apply(lambda(&["x"], bop(id("x"), id("x"), Binop::Mul)), vec![bop(id("n"), num(1), Binop::Add)]);
    assert_eq!(eval_int(&e, &env), Some(25));
}

#[test]
fn application_of_a_function_without_value_gives_no_value() {
    let env = Env::new();
    let e = apply(id("f"), vec![num(1)]);
    assert!(evaluate_expr(&e, &env).is_none());
}

#[test]
fn evaluation_is_deterministic() {
    let mut env = Env::new();
    env.insert("x".to_string(), Some(Val::Int(3)));
    let e = apply(lambda(&["y"], bop(id("x"), id("y"), Binop::Mul)), vec![num(14)]);
    let a = evaluate_expr(&e, &env);
    let b = evaluate_expr(&e, &env);
    assert_eq!(show(&a), show(&b));
    assert_eq!(show(&a), "Some(Int(42))");
}

#[test]
fn binop_vals_directly() {
    assert!(matches!(evaluate_binop_vals(&Val::Int(9), &Val::Int(4), &Binop::Sub), Val::Int(5)));
    assert!(matches!(evaluate_binop_vals(&Val::Int(-9), &Val::Int(4), &Binop::Div), Val::Int(-2)));
    assert!(matches!(evaluate_binop_vals(&Val::Bool(false), &Val::Bool(false), &Binop::Or), Val::Bool(false)));
    assert!(matches!(evaluate_uop_vals(&Val::Int(-3), &Uop::Neg), Val::Int(3)));
    assert!(matches!(evaluate_uop_vals(&Val::Bool(false), &Uop::Not), Val::Bool(true)));
}

#[test]
fn commutative_operators_commute() {
    let pairs = [(3, 4), (-5, 7), (0, 9)];
    for (i, j) in pairs {
        for op in [Binop::Add, Binop::Mul, Binop::Eq] {
            let a = evaluate_binop_vals(&Val::Int(i), &Val::Int(j), &op);
            let b = evaluate_binop_vals(&Val::Int(j), &Val::Int(i), &op);
            assert_eq!(format!("{:?}", a), format!("{:?}", b));
        }
    }
    for (p, q) in [(true, false), (false, true), (true, true)] {
        for op in [Binop::And, Binop::Or] {
            let a = evaluate_binop_vals(&Val::Bool(p), &Val::Bool(q), &op);
            let b = evaluate_binop_vals(&Val::Bool(q), &Val::Bool(p), &op);
            assert_eq!(format!("{:?}", a), format!("{:?}", b));
        }
    }
}

#[test]
fn subst_replaces_free_names_only() {
    let mut m = Bindings::new();
    m.insert("x".to_string(), num(7));
    let mut e = bop(id("x"), Expr::Apply { fun: Box::new(lambda(&["x"], id("x"))), args: vec![id("x")] }, Binop::Add);
    subst(&mut e, &m);
    let expected = bop(num(7), Expr::Apply { fun: Box::new(lambda(&["x"], id("x"))), args: vec![num(7)] }, Binop::Add);
    assert_eq!(format!("{:?}", e), format!("{:?}", expected));
}

#[test]
fn subst_leaves_assignment_targets() {
    let mut m = Bindings::new();
    m.insert("x".to_string(), num(7));
    let mut e = Expr::Action {
        stmt: Stmt::Stmt {
            sgl_stmts: vec![
                SglStmt::Ass { dst: id("x"), src: id("x") },
                SglStmt::Do { act: id("x") },
            ],
        },
    };
    subst(&mut e, &m);
    let expected = Expr::Action {
        stmt: Stmt::Stmt {
            sgl_stmts: vec![SglStmt::Ass { dst: id("x"), src: num(7) }, SglStmt::Do { act: num(7) }],
        },
    };
    assert_eq!(format!("{:?}", e), format!("{:?}", expected));
}

#[test]
fn subst_with_nothing_changes_nothing() {
    let m = Bindings::new();
    let original = apply(lambda(&["y"], bop(id("x"), id("y"), Binop::Add)), vec![num(5), id("z")]);
    let mut e = original.deep_clone();
    subst(&mut e, &m);
    assert_eq!(format!("{:?}", e), format!("{:?}", original));
}

#[test]
fn bindings_later_insert_wins() {
    let mut m = Bindings::new();
    m.insert("x".to_string(), num(1));
    m.insert("x".to_string(), num(2));
    assert!(matches!(m.get(&"x".to_string()), Some(Expr::IntConst { val: 2 })));
    assert!(m.get(&"y".to_string()).is_none());
}

#[test]
fn deep_clone_copies() {
    let e = apply(lambda(&["y"], Expr::UopExpr { opd: Box::new(id("y")), uop: Uop::Not }), vec![boolean(true)]);
    let c = e.deep_clone();
    assert_eq!(format!("{:?}", c), format!("{:?}", e));
    let v = Val::Action(e);
    assert_eq!(format!("{:?}", v.deep_clone()), format!("{:?}", v));
}

#[test]
fn subst_of_names_not_free_changes_nothing() {
    let mut m = Bindings::new();
    m.insert("x".to_string(), num(7));
    let original = bop(lambda(&["x"], id("x")), bop(id("y"), num(1), Binop::Add), Binop::Eq);
    let mut e = original.deep_clone();
    subst(&mut e, &m);
    assert_eq!(format!("{:?}", e), format!("{:?}", original));
}

#[test]
fn a_name_reads_back_what_was_written() {
    let mut env = Env::new();
    env.insert("x".to_string(), Some(Val::Bool(true)));
    assert_eq!(eval_bool(&id("x"), &env), Some(true));
    env.insert("x".to_string(), None);
    assert!(evaluate_expr(&id("x"), &env).is_none());
}
