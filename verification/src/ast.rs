//! Abstract syntax of expressions and statements, the runtime values, and
//! their mathematical models.
use vstd::prelude::*;

verus! {

/// Binary operators.
#[derive(Clone, Copy, Debug, PartialEq, Eq, Structural)]
pub enum Binop {
    Add,
    Sub,
    Mul,
    Div,
    Eq,
    Lt,
    Gt,
    And,
    Or,
}

/// Unary operators.
#[derive(Clone, Copy, Debug, PartialEq, Eq, Structural)]
pub enum Uop {
    Neg,
    Not,
}

/// Expressions.
#[derive(Debug)]
#[allow(inconsistent_fields)]
pub enum Expr {
    IdExpr { ident: String },
    IntConst { val: i32 },
    BoolConst { val: bool },
    Action { stmt: Stmt },
    Member { srv_name: String, member: String },
    Apply { fun: Box<Expr>, args: Vec<Expr> },
    BopExpr { opd1: Box<Expr>, opd2: Box<Expr>, bop: Binop },
    UopExpr { opd: Box<Expr>, uop: Uop },
    IfExpr { cond: Box<Expr>, then: Box<Expr>, elze: Box<Expr> },
    Lambda { pars: Vec<Expr>, body: Box<Expr> },
}

/// A statement: a sequence of single statements.
#[derive(Debug)]
pub enum Stmt {
    Stmt { sgl_stmts: Vec<SglStmt> },
}

/// A single statement: performing an action, or an assignment.
#[derive(Debug)]
pub enum SglStmt {
    Do { act: Expr },
    Ass { dst: Expr, src: Expr },
}

/// Runtime values.
#[derive(Debug)]
pub enum Val {
    Int(i32),
    Bool(bool),
    Action(Expr),
    Lambda(Expr),
}

/// Mathematical model of an expression: strings become character sequences
/// and vectors become sequences.
#[allow(inconsistent_fields)]
pub enum SpecExpr {
    IdExpr { ident: Seq<char> },
    IntConst { val: i32 },
    BoolConst { val: bool },
    Action { stmts: Seq<SpecSglStmt> },
    Member { srv_name: Seq<char>, member: Seq<char> },
    Apply { fun: Box<SpecExpr>, args: Seq<SpecExpr> },
    BopExpr { opd1: Box<SpecExpr>, opd2: Box<SpecExpr>, bop: Binop },
    UopExpr { opd: Box<SpecExpr>, uop: Uop },
    IfExpr { cond: Box<SpecExpr>, then: Box<SpecExpr>, elze: Box<SpecExpr> },
    Lambda { pars: Seq<SpecExpr>, body: Box<SpecExpr> },
}

/// Mathematical model of a single statement.
pub enum SpecSglStmt {
    Do { act: SpecExpr },
    Ass { dst: SpecExpr, src: SpecExpr },
}

/// Mathematical model of a value.
pub enum SpecVal {
    Int(i32),
    Bool(bool),
    Action(SpecExpr),
    Lambda(SpecExpr),
}

/// The model of an expression.
pub open spec fn expr_model(e: Expr) -> SpecExpr
    decreases e,
{
    match e {
        Expr::IdExpr { ident } => SpecExpr::IdExpr { ident: ident@ },
        Expr::IntConst { val } => SpecExpr::IntConst { val },
        Expr::BoolConst { val } => SpecExpr::BoolConst { val },
        Expr::Action { stmt } => match stmt {
            Stmt::Stmt { sgl_stmts } => SpecExpr::Action { stmts: sgls_model(sgl_stmts@) },
        },
        Expr::Member { srv_name, member } => SpecExpr::Member {
            srv_name: srv_name@,
            member: member@,
        },
        Expr::Apply { fun, args } => SpecExpr::Apply {
            fun: Box::new(expr_model(*fun)),
            args: exprs_model(args@),
        },
        Expr::BopExpr { opd1, opd2, bop } => SpecExpr::BopExpr {
            opd1: Box::new(expr_model(*opd1)),
            opd2: Box::new(expr_model(*opd2)),
            bop,
        },
        Expr::UopExpr { opd, uop } => SpecExpr::UopExpr { opd: Box::new(expr_model(*opd)), uop },
        Expr::IfExpr { cond, then, elze } => SpecExpr::IfExpr {
            cond: Box::new(expr_model(*cond)),
            then: Box::new(expr_model(*then)),
            elze: Box::new(expr_model(*elze)),
        },
        Expr::Lambda { pars, body } => SpecExpr::Lambda {
            pars: exprs_model(pars@),
            body: Box::new(expr_model(*body)),
        },
    }
}

/// The models of a sequence of expressions, element by element.
pub open spec fn exprs_model(es: Seq<Expr>) -> Seq<SpecExpr>
    decreases es,
{
    if es.len() == 0 {
        Seq::empty()
    } else {
        exprs_model(es.subrange(0, es.len() - 1)).push(expr_model(es[es.len() - 1]))
    }
}

/// The model of a single statement.
pub open spec fn sgl_model(s: SglStmt) -> SpecSglStmt
    decreases s,
{
    match s {
        SglStmt::Do { act } => SpecSglStmt::Do { act: expr_model(act) },
        SglStmt::Ass { dst, src } => SpecSglStmt::Ass { dst: expr_model(dst), src: expr_model(src) },
    }
}

/// The models of a sequence of single statements, element by element.
pub open spec fn sgls_model(ss: Seq<SglStmt>) -> Seq<SpecSglStmt>
    decreases ss,
{
    if ss.len() == 0 {
        Seq::empty()
    } else {
        sgls_model(ss.subrange(0, ss.len() - 1)).push(sgl_model(ss[ss.len() - 1]))
    }
}

impl View for Expr {
    type V = SpecExpr;

    open spec fn view(&self) -> SpecExpr {
        expr_model(*self)
    }
}

impl View for Val {
    type V = SpecVal;

    open spec fn view(&self) -> SpecVal {
        match *self {
            Val::Int(i) => SpecVal::Int(i),
            Val::Bool(b) => SpecVal::Bool(b),
            Val::Action(e) => SpecVal::Action(e@),
            Val::Lambda(e) => SpecVal::Lambda(e@),
        }
    }
}

/// The model of an optional value.
pub open spec fn opt_val_model(v: Option<Val>) -> Option<SpecVal> {
    match v {
        Some(x) => Some(x@),
        None => None,
    }
}

/// The models of a sequence of expressions have the same length, and each is
/// the model of the expression at the same index.
pub proof fn lemma_exprs_model_index(es: Seq<Expr>)
    ensures
        exprs_model(es).len() == es.len(),
        forall|i: int| 0 <= i < es.len() ==> #[trigger] exprs_model(es)[i] == es[i]@,
    decreases es.len(),
{
    if es.len() > 0 {
        lemma_exprs_model_index(es.subrange(0, es.len() - 1));
    }
}

/// The models of a sequence of single statements have the same length, and each
/// is the model of the statement at the same index.
pub proof fn lemma_sgls_model_index(ss: Seq<SglStmt>)
    ensures
        sgls_model(ss).len() == ss.len(),
        forall|i: int| 0 <= i < ss.len() ==> #[trigger] sgls_model(ss)[i] == sgl_model(ss[i]),
    decreases ss.len(),
{
    if ss.len() > 0 {
        lemma_sgls_model_index(ss.subrange(0, ss.len() - 1));
    }
}

/// Two sequences of expressions whose elements have equal models have equal models.
pub proof fn lemma_exprs_model_ext(a: Seq<Expr>, b: Seq<Expr>)
    requires
        a.len() == b.len(),
        forall|i: int| 0 <= i < a.len() ==> #[trigger] a[i]@ == b[i]@,
    ensures
        exprs_model(a) == exprs_model(b),
{
    lemma_exprs_model_index(a);
    lemma_exprs_model_index(b);
    assert(exprs_model(a) =~= exprs_model(b));
}

/// Two sequences of single statements whose elements have equal models have
/// equal models.
pub proof fn lemma_sgls_model_ext(a: Seq<SglStmt>, b: Seq<SglStmt>)
    requires
        a.len() == b.len(),
        forall|i: int| 0 <= i < a.len() ==> #[trigger] sgl_model(a[i]) == sgl_model(b[i]),
    ensures
        sgls_model(a) == sgls_model(b),
{
    lemma_sgls_model_index(a);
    lemma_sgls_model_index(b);
    assert(sgls_model(a) =~= sgls_model(b));
}

impl Expr {
    /// A copy of the expression with the same model.
    pub fn deep_clone(&self) -> (r: Expr)
        ensures
            r@ == self@,
        decreases self,
    {
        match self {
            Expr::IdExpr { ident } => Expr::IdExpr { ident: ident.clone() },
            Expr::IntConst { val } => Expr::IntConst { val: *val },
            Expr::BoolConst { val } => Expr::BoolConst { val: *val },
            Expr::Action { stmt } => match stmt {
                Stmt::Stmt { sgl_stmts } => Expr::Action {
                    stmt: Stmt::Stmt { sgl_stmts: clone_sgls(sgl_stmts) },
                },
            },
            Expr::Member { srv_name, member } => Expr::Member {
                srv_name: srv_name.clone(),
                member: member.clone(),
            },
            Expr::Apply { fun, args } => Expr::Apply {
                fun: Box::new(fun.deep_clone()),
                args: clone_exprs(args),
            },
            Expr::BopExpr { opd1, opd2, bop } => Expr::BopExpr {
                opd1: Box::new(opd1.deep_clone()),
                opd2: Box::new(opd2.deep_clone()),
                bop: *bop,
            },
            Expr::UopExpr { opd, uop } => Expr::UopExpr {
                opd: Box::new(opd.deep_clone()),
                uop: *uop,
            },
            Expr::IfExpr { cond, then, elze } => Expr::IfExpr {
                cond: Box::new(cond.deep_clone()),
                then: Box::new(then.deep_clone()),
                elze: Box::new(elze.deep_clone()),
            },
            Expr::Lambda { pars, body } => Expr::Lambda {
                pars: clone_exprs(pars),
                body: Box::new(body.deep_clone()),
            },
        }
    }
}

/// A copy of a vector of expressions with the same models.
pub fn clone_exprs(es: &Vec<Expr>) -> (r: Vec<Expr>)
    ensures
        r@.len() == es@.len(),
        exprs_model(r@) == exprs_model(es@),
    decreases es,
{
    let mut r: Vec<Expr> = Vec::new();
    let n = es.len();
    for i in 0..n
        invariant
            n == es@.len(),
            r@.len() == i,
            forall|j: int| 0 <= j < i ==> #[trigger] r@[j]@ == es@[j]@,
    {
        proof {
            assert(decreases_to!(es => es@[i as int]));
        }
        r.push(es[i].deep_clone());
    }
    proof {
        lemma_exprs_model_ext(r@, es@);
    }
    r
}

/// A copy of a vector of single statements with the same models.
pub fn clone_sgls(ss: &Vec<SglStmt>) -> (r: Vec<SglStmt>)
    ensures
        r@.len() == ss@.len(),
        sgls_model(r@) == sgls_model(ss@),
    decreases ss,
{
    let mut r: Vec<SglStmt> = Vec::new();
    let n = ss.len();
    for i in 0..n
        invariant
            n == ss@.len(),
            r@.len() == i,
            forall|j: int| 0 <= j < i ==> #[trigger] sgl_model(r@[j]) == sgl_model(ss@[j]),
    {
        proof {
            assert(decreases_to!(ss => ss@[i as int]));
        }
        let c = match &ss[i] {
            SglStmt::Do { act } => SglStmt::Do { act: act.deep_clone() },
            SglStmt::Ass { dst, src } => SglStmt::Ass { dst: dst.deep_clone(), src: src.deep_clone() },
        };
        r.push(c);
    }
    proof {
        lemma_sgls_model_ext(r@, ss@);
    }
    r
}

impl Val {
    /// A copy of the value with the same model.
    pub fn deep_clone(&self) -> (r: Val)
        ensures
            r@ == self@,
    {
        match self {
            Val::Int(i) => Val::Int(*i),
            Val::Bool(b) => Val::Bool(*b),
            Val::Action(e) => Val::Action(e.deep_clone()),
            Val::Lambda(e) => Val::Lambda(e.deep_clone()),
        }
    }
}

} // verus!
