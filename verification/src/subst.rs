//! Substitution of expressions for names, as used to instantiate a lambda's
//! body with the arguments of an application.
use vstd::prelude::*;
use crate::ast::{
    Expr, SglStmt, SpecExpr, SpecSglStmt, Stmt, clone_exprs, exprs_model, lemma_exprs_model_index,
    lemma_sgls_model_index, sgl_model, sgls_model,
};
use crate::env::{Bindings, bindings_map, lemma_bindings_map_push};

verus! {

/// Every parameter is a name.
pub open spec fn all_names(pars: Seq<SpecExpr>) -> bool {
    forall|i: int| 0 <= i < pars.len() ==> #[trigger] pars[i] is IdExpr
}

/// The names among the parameters.
pub open spec fn par_names(pars: Seq<SpecExpr>) -> Set<Seq<char>> {
    Set::new(
        |x: Seq<char>|
            exists|i: int| 0 <= i < pars.len() && #[trigger] pars[i] == (SpecExpr::IdExpr { ident: x }),
    )
}

/// Replaces each free occurrence of a bound name by the expression bound to it.
/// A name bound by an inner lambda's parameters is not replaced inside that
/// lambda's body, and assignment targets are left alone. `None` where the
/// substitution meets a member access or a lambda with a parameter that is
/// not a name, on which it stops.
pub open spec fn subst_spec(e: SpecExpr, m: Map<Seq<char>, SpecExpr>) -> Option<SpecExpr>
    decreases e,
{
    match e {
        SpecExpr::IdExpr { ident } => Some(
            if m.contains_key(ident) {
                m[ident]
            } else {
                e
            },
        ),
        SpecExpr::IntConst { .. } => Some(e),
        SpecExpr::BoolConst { .. } => Some(e),
        SpecExpr::Action { stmts } => match subst_sgls(stmts, m) {
            Some(s) => Some(SpecExpr::Action { stmts: s }),
            None => None,
        },
        SpecExpr::Member { .. } => None,
        SpecExpr::Apply { fun, args } => match (subst_spec(*fun, m), subst_seq(args, m)) {
            (Some(f), Some(a)) => Some(SpecExpr::Apply { fun: Box::new(f), args: a }),
            _ => None,
        },
        SpecExpr::BopExpr { opd1, opd2, bop } => match (subst_spec(*opd1, m), subst_spec(*opd2, m)) {
            (Some(a), Some(b)) => Some(SpecExpr::BopExpr { opd1: Box::new(a), opd2: Box::new(b), bop }),
            _ => None,
        },
        SpecExpr::UopExpr { opd, uop } => match subst_spec(*opd, m) {
            Some(a) => Some(SpecExpr::UopExpr { opd: Box::new(a), uop }),
            None => None,
        },
        SpecExpr::IfExpr { cond, then, elze } => match (
            subst_spec(*cond, m),
            subst_spec(*then, m),
            subst_spec(*elze, m),
        ) {
            (Some(c), Some(t), Some(f)) => Some(
                SpecExpr::IfExpr { cond: Box::new(c), then: Box::new(t), elze: Box::new(f) },
            ),
            _ => None,
        },
        SpecExpr::Lambda { pars, body } => if all_names(pars) {
            match subst_spec(*body, m.remove_keys(par_names(pars))) {
                Some(b) => Some(SpecExpr::Lambda { pars, body: Box::new(b) }),
                None => None,
            }
        } else {
            None
        },
    }
}

/// Substitution in each expression of a sequence.
pub open spec fn subst_seq(es: Seq<SpecExpr>, m: Map<Seq<char>, SpecExpr>) -> Option<
    Seq<SpecExpr>,
>
    decreases es,
{
    if es.len() == 0 {
        Some(Seq::empty())
    } else {
        match (subst_seq(es.subrange(0, es.len() - 1), m), subst_spec(es[es.len() - 1], m)) {
            (Some(p), Some(x)) => Some(p.push(x)),
            _ => None,
        }
    }
}

/// Substitution in a single statement: in the action performed, or in the
/// source of an assignment.
pub open spec fn subst_sgl(s: SpecSglStmt, m: Map<Seq<char>, SpecExpr>) -> Option<SpecSglStmt>
    decreases s,
{
    match s {
        SpecSglStmt::Do { act } => match subst_spec(act, m) {
            Some(a) => Some(SpecSglStmt::Do { act: a }),
            None => None,
        },
        SpecSglStmt::Ass { dst, src } => match subst_spec(src, m) {
            Some(a) => Some(SpecSglStmt::Ass { dst, src: a }),
            None => None,
        },
    }
}

/// Substitution in each single statement of a sequence.
pub open spec fn subst_sgls(ss: Seq<SpecSglStmt>, m: Map<Seq<char>, SpecExpr>) -> Option<
    Seq<SpecSglStmt>,
>
    decreases ss,
{
    if ss.len() == 0 {
        Some(Seq::empty())
    } else {
        match (subst_sgls(ss.subrange(0, ss.len() - 1), m), subst_sgl(ss[ss.len() - 1], m)) {
            (Some(p), Some(x)) => Some(p.push(x)),
            _ => None,
        }
    }
}

/// Substitution in a sequence succeeds exactly when it succeeds on every
/// element, and then works element by element.
pub proof fn lemma_subst_seq_index(es: Seq<SpecExpr>, m: Map<Seq<char>, SpecExpr>)
    ensures
        subst_seq(es, m) is Some <==> forall|i: int|
            0 <= i < es.len() ==> #[trigger] subst_spec(es[i], m) is Some,
        subst_seq(es, m) is Some ==> {
            &&& subst_seq(es, m).unwrap().len() == es.len()
            &&& forall|i: int|
                0 <= i < es.len() ==> #[trigger] subst_seq(es, m).unwrap()[i] == subst_spec(
                    es[i],
                    m,
                ).unwrap()
        },
    decreases es.len(),
{
    if es.len() > 0 {
        let p = es.subrange(0, es.len() - 1);
        lemma_subst_seq_index(p, m);
        let last = es.len() - 1;
        if forall|i: int| 0 <= i < es.len() ==> #[trigger] subst_spec(es[i], m) is Some {
            assert forall|i: int| 0 <= i < p.len() implies #[trigger] subst_spec(p[i], m) is Some by {
                assert(p[i] == es[i]);
                assert(subst_spec(es[i], m) is Some);
            }
            assert(subst_spec(es[last], m) is Some);
        }
        if subst_seq(es, m) is Some {
            assert forall|i: int| 0 <= i < es.len() implies #[trigger] subst_spec(es[i], m) is Some
                && subst_seq(es, m).unwrap()[i] == subst_spec(es[i], m).unwrap() by {
                if i < last {
                    assert(p[i] == es[i]);
                    assert(subst_spec(p[i], m) is Some);
                }
            }
        }
    }
}

/// Substitution in a sequence of single statements succeeds exactly when it
/// succeeds on every statement, and then works statement by statement.
pub proof fn lemma_subst_sgls_index(ss: Seq<SpecSglStmt>, m: Map<Seq<char>, SpecExpr>)
    ensures
        subst_sgls(ss, m) is Some <==> forall|i: int|
            0 <= i < ss.len() ==> #[trigger] subst_sgl(ss[i], m) is Some,
        subst_sgls(ss, m) is Some ==> {
            &&& subst_sgls(ss, m).unwrap().len() == ss.len()
            &&& forall|i: int|
                0 <= i < ss.len() ==> #[trigger] subst_sgls(ss, m).unwrap()[i] == subst_sgl(
                    ss[i],
                    m,
                ).unwrap()
        },
    decreases ss.len(),
{
    if ss.len() > 0 {
        let p = ss.subrange(0, ss.len() - 1);
        lemma_subst_sgls_index(p, m);
        let last = ss.len() - 1;
        if forall|i: int| 0 <= i < ss.len() ==> #[trigger] subst_sgl(ss[i], m) is Some {
            assert forall|i: int| 0 <= i < p.len() implies #[trigger] subst_sgl(p[i], m) is Some by {
                assert(p[i] == ss[i]);
                assert(subst_sgl(ss[i], m) is Some);
            }
            assert(subst_sgl(ss[last], m) is Some);
        }
        if subst_sgls(ss, m) is Some {
            assert forall|i: int| 0 <= i < ss.len() implies #[trigger] subst_sgl(ss[i], m) is Some
                && subst_sgls(ss, m).unwrap()[i] == subst_sgl(ss[i], m).unwrap() by {
                if i < last {
                    assert(p[i] == ss[i]);
                    assert(subst_sgl(p[i], m) is Some);
                }
            }
        }
    }
}

/// Whether `x` occurs free in `e` at a place that substitution reaches: not
/// inside the body of a lambda that has `x` among its parameters, and not as
/// the target of an assignment.
pub open spec fn free_in(x: Seq<char>, e: SpecExpr) -> bool
    decreases e,
{
    match e {
        SpecExpr::IdExpr { ident } => ident == x,
        SpecExpr::Action { stmts } => free_in_sgls(x, stmts),
        SpecExpr::Apply { fun, args } => free_in(x, *fun) || free_in_seq(x, args),
        SpecExpr::BopExpr { opd1, opd2, .. } => free_in(x, *opd1) || free_in(x, *opd2),
        SpecExpr::UopExpr { opd, .. } => free_in(x, *opd),
        SpecExpr::IfExpr { cond, then, elze } => free_in(x, *cond) || free_in(x, *then) || free_in(
            x,
            *elze,
        ),
        SpecExpr::Lambda { pars, body } => !par_names(pars).contains(x) && free_in(x, *body),
        _ => false,
    }
}

/// Whether `x` occurs free in one of the expressions.
pub open spec fn free_in_seq(x: Seq<char>, es: Seq<SpecExpr>) -> bool
    decreases es,
{
    if es.len() == 0 {
        false
    } else {
        free_in_seq(x, es.subrange(0, es.len() - 1)) || free_in(x, es[es.len() - 1])
    }
}

/// Whether `x` occurs free in one of the single statements, in an action
/// performed or in the source of an assignment.
pub open spec fn free_in_sgls(x: Seq<char>, ss: Seq<SpecSglStmt>) -> bool
    decreases ss,
{
    if ss.len() == 0 {
        false
    } else {
        free_in_sgls(x, ss.subrange(0, ss.len() - 1)) || match ss[ss.len() - 1] {
            SpecSglStmt::Do { act } => free_in(x, act),
            SpecSglStmt::Ass { src, .. } => free_in(x, src),
        }
    }
}

/// Substitution leaves an expression unchanged where none of the bound names
/// occurs free in it, wherever substitution is defined.
pub proof fn law_subst_fresh(e: SpecExpr, m: Map<Seq<char>, SpecExpr>)
    requires
        forall|k: Seq<char>| #[trigger] m.contains_key(k) ==> !free_in(k, e),
    ensures
        subst_spec(e, m) is Some ==> subst_spec(e, m) == Some(e),
    decreases e,
{
    match e {
        SpecExpr::Action { stmts } => lemma_subst_sgls_fresh(stmts, m),
        SpecExpr::Apply { fun, args } => {
            law_subst_fresh(*fun, m);
            lemma_subst_seq_fresh(args, m);
        },
        SpecExpr::BopExpr { opd1, opd2, bop } => {
            law_subst_fresh(*opd1, m);
            law_subst_fresh(*opd2, m);
        },
        SpecExpr::UopExpr { opd, uop } => law_subst_fresh(*opd, m),
        SpecExpr::IfExpr { cond, then, elze } => {
            law_subst_fresh(*cond, m);
            law_subst_fresh(*then, m);
            law_subst_fresh(*elze, m);
        },
        SpecExpr::Lambda { pars, body } => {
            let inner = m.remove_keys(par_names(pars));
            assert forall|k: Seq<char>| #[trigger] inner.contains_key(k) implies !free_in(k, *body) by {
                assert(m.contains_key(k));
                assert(!free_in(k, e));
            }
            law_subst_fresh(*body, inner);
        },
        SpecExpr::IdExpr { ident } => {
            if m.contains_key(ident) {
                assert(!free_in(ident, e));
            }
        },
        _ => {},
    }
}

/// Substitution leaves a sequence of expressions unchanged where none of the
/// bound names occurs free in it.
proof fn lemma_subst_seq_fresh(es: Seq<SpecExpr>, m: Map<Seq<char>, SpecExpr>)
    requires
        forall|k: Seq<char>| #[trigger] m.contains_key(k) ==> !free_in_seq(k, es),
    ensures
        subst_seq(es, m) is Some ==> subst_seq(es, m) == Some(es),
    decreases es,
{
    if es.len() > 0 {
        let p = es.subrange(0, es.len() - 1);
        let last = es[es.len() - 1];
        lemma_subst_seq_fresh(p, m);
        assert forall|k: Seq<char>| #[trigger] m.contains_key(k) implies !free_in(k, last) by {
            assert(!free_in_seq(k, es));
        }
        law_subst_fresh(last, m);
        assert(p.push(last) =~= es);
    }
}

/// Substitution leaves a sequence of single statements unchanged where none
/// of the bound names occurs free in it.
proof fn lemma_subst_sgls_fresh(ss: Seq<SpecSglStmt>, m: Map<Seq<char>, SpecExpr>)
    requires
        forall|k: Seq<char>| #[trigger] m.contains_key(k) ==> !free_in_sgls(k, ss),
    ensures
        subst_sgls(ss, m) is Some ==> subst_sgls(ss, m) == Some(ss),
    decreases ss,
{
    if ss.len() > 0 {
        let p = ss.subrange(0, ss.len() - 1);
        let last = ss[ss.len() - 1];
        lemma_subst_sgls_fresh(p, m);
        assert(decreases_to!(ss => last));
        match last {
            SpecSglStmt::Do { act } => {
                assert forall|k: Seq<char>| #[trigger] m.contains_key(k) implies !free_in(k, act) by {
                    assert(!free_in_sgls(k, ss));
                }
                law_subst_fresh(act, m);
            },
            SpecSglStmt::Ass { dst, src } => {
                assert forall|k: Seq<char>| #[trigger] m.contains_key(k) implies !free_in(k, src) by {
                    assert(!free_in_sgls(k, ss));
                }
                law_subst_fresh(src, m);
            },
        }
        assert(subst_sgl(last, m) is Some ==> subst_sgl(last, m) == Some(last));
        assert(p.push(last) =~= ss);
    }
}

/// Substituting nothing changes nothing: wherever substitution is defined,
/// substituting with no bindings gives the expression back.
pub proof fn law_subst_nothing(e: SpecExpr)
    ensures
        subst_spec(e, Map::empty()) is Some ==> subst_spec(e, Map::empty()) == Some(e),
{
    law_subst_fresh(e, Map::empty());
}

/// Substitution reaches every free occurrence: where substitution is
/// defined, a bound name `k` no longer occurs free in the result, provided no
/// bound expression mentions `k` free itself.
pub proof fn law_subst_removes_bound_names(e: SpecExpr, m: Map<Seq<char>, SpecExpr>, k: Seq<char>)
    requires
        m.contains_key(k),
        forall|j: Seq<char>| #[trigger] m.contains_key(j) ==> !free_in(k, m[j]),
        subst_spec(e, m) is Some,
    ensures
        !free_in(k, subst_spec(e, m).unwrap()),
    decreases e,
{
    match e {
        SpecExpr::Action { stmts } => lemma_subst_sgls_removes(stmts, m, k),
        SpecExpr::Apply { fun, args } => {
            law_subst_removes_bound_names(*fun, m, k);
            lemma_subst_seq_removes(args, m, k);
        },
        SpecExpr::BopExpr { opd1, opd2, bop } => {
            law_subst_removes_bound_names(*opd1, m, k);
            law_subst_removes_bound_names(*opd2, m, k);
        },
        SpecExpr::UopExpr { opd, uop } => law_subst_removes_bound_names(*opd, m, k),
        SpecExpr::IfExpr { cond, then, elze } => {
            law_subst_removes_bound_names(*cond, m, k);
            law_subst_removes_bound_names(*then, m, k);
            law_subst_removes_bound_names(*elze, m, k);
        },
        SpecExpr::Lambda { pars, body } => {
            if !par_names(pars).contains(k) {
                let inner = m.remove_keys(par_names(pars));
                assert forall|j: Seq<char>| #[trigger] inner.contains_key(j) implies !free_in(
                    k,
                    inner[j],
                ) by {
                    assert(m.contains_key(j));
                }
                law_subst_removes_bound_names(*body, inner, k);
            }
        },
        SpecExpr::IdExpr { ident } => {
            if m.contains_key(ident) {
                assert(m.contains_key(ident));
            }
        },
        _ => {},
    }
}

/// A bound name does not occur free in a sequence of expressions after
/// substitution.
proof fn lemma_subst_seq_removes(es: Seq<SpecExpr>, m: Map<Seq<char>, SpecExpr>, k: Seq<char>)
    requires
        m.contains_key(k),
        forall|j: Seq<char>| #[trigger] m.contains_key(j) ==> !free_in(k, m[j]),
        subst_seq(es, m) is Some,
    ensures
        !free_in_seq(k, subst_seq(es, m).unwrap()),
    decreases es,
{
    if es.len() > 0 {
        let p = es.subrange(0, es.len() - 1);
        let last = es[es.len() - 1];
        lemma_subst_seq_removes(p, m, k);
        law_subst_removes_bound_names(last, m, k);
        let r = subst_seq(es, m).unwrap();
        let rp = subst_seq(p, m).unwrap();
        assert(r == rp.push(subst_spec(last, m).unwrap()));
        assert(r.subrange(0, r.len() - 1) =~= rp);
    }
}

/// A bound name does not occur free in a sequence of single statements after
/// substitution.
proof fn lemma_subst_sgls_removes(ss: Seq<SpecSglStmt>, m: Map<Seq<char>, SpecExpr>, k: Seq<char>)
    requires
        m.contains_key(k),
        forall|j: Seq<char>| #[trigger] m.contains_key(j) ==> !free_in(k, m[j]),
        subst_sgls(ss, m) is Some,
    ensures
        !free_in_sgls(k, subst_sgls(ss, m).unwrap()),
    decreases ss,
{
    if ss.len() > 0 {
        let p = ss.subrange(0, ss.len() - 1);
        let last = ss[ss.len() - 1];
        lemma_subst_sgls_removes(p, m, k);
        assert(decreases_to!(ss => last));
        match last {
            SpecSglStmt::Do { act } => law_subst_removes_bound_names(act, m, k),
            SpecSglStmt::Ass { dst, src } => law_subst_removes_bound_names(src, m, k),
        }
        let r = subst_sgls(ss, m).unwrap();
        let rp = subst_sgls(p, m).unwrap();
        assert(r == rp.push(subst_sgl(last, m).unwrap()));
        assert(r.subrange(0, r.len() - 1) =~= rp);
    }
}

/// Whether `k` is among `names`.
fn contains_name(names: &Vec<String>, k: &String) -> (r: bool)
    ensures
        r == exists|i: int| 0 <= i < names@.len() && #[trigger] names@[i]@ == k@,
{
    let n = names.len();
    for i in 0..n
        invariant
            n == names@.len(),
            forall|j: int| 0 <= j < i ==> #[trigger] names@[j]@ != k@,
    {
        if names[i] == *k {
            return true;
        }
    }
    false
}

/// The bindings without those of the given names.
fn bindings_without(m: &Bindings, names: &Vec<String>) -> (r: Bindings)
    ensures
        r@ == m@.remove_keys(
            Set::new(|x: Seq<char>| exists|i: int| 0 <= i < names@.len() && #[trigger] names@[i]@ == x),
        ),
{
    let ghost removed = Set::new(
        |x: Seq<char>| exists|i: int| 0 <= i < names@.len() && #[trigger] names@[i]@ == x,
    );
    let mut r = Bindings::new();
    let n = m.entries.len();
    for i in 0..n
        invariant
            n == m.entries@.len(),
            removed == Set::new(
                |x: Seq<char>| exists|i: int| 0 <= i < names@.len() && #[trigger] names@[i]@ == x,
            ),
            r@ == bindings_map(m.entries@.subrange(0, i as int)).remove_keys(removed),
    {
        let ghost prefix = m.entries@.subrange(0, i as int);
        proof {
            assert(m.entries@.subrange(0, i + 1) =~= prefix.push(m.entries@[i as int]));
            lemma_bindings_map_push(prefix, m.entries@[i as int]);
        }
        let (k, v) = &m.entries[i];
        if !contains_name(names, k) {
            assert(!removed.contains(k@));
            r.insert(k.clone(), v.deep_clone());
            assert(r@ =~= bindings_map(m.entries@.subrange(0, i + 1)).remove_keys(removed));
        } else {
            assert(removed.contains(k@));
            assert(r@ =~= bindings_map(m.entries@.subrange(0, i + 1)).remove_keys(removed));
        }
    }
    assert(m.entries@.subrange(0, n as int) =~= m.entries@);
    r
}

/// The expression with `m` substituted in, as `subst_spec` describes.
fn substituted(e: &Expr, m: &Bindings) -> (r: Expr)
    requires
        subst_spec(e@, m@) is Some,
    ensures
        r@ == subst_spec(e@, m@).unwrap(),
    decreases e,
{
    match e {
        Expr::IdExpr { ident } => match m.get(ident) {
            Some(x) => x.deep_clone(),
            None => Expr::IdExpr { ident: ident.clone() },
        },
        Expr::IntConst { val } => Expr::IntConst { val: *val },
        Expr::BoolConst { val } => Expr::BoolConst { val: *val },
        Expr::Action { stmt } => match stmt {
            Stmt::Stmt { sgl_stmts } => Expr::Action {
                stmt: Stmt::Stmt { sgl_stmts: substituted_sgls(sgl_stmts, m) },
            },
        },
        Expr::Apply { fun, args } => Expr::Apply {
            fun: Box::new(substituted(fun, m)),
            args: substituted_exprs(args, m),
        },
        Expr::BopExpr { opd1, opd2, bop } => Expr::BopExpr {
            opd1: Box::new(substituted(opd1, m)),
            opd2: Box::new(substituted(opd2, m)),
            bop: *bop,
        },
        Expr::UopExpr { opd, uop } => Expr::UopExpr { opd: Box::new(substituted(opd, m)), uop: *uop },
        Expr::IfExpr { cond, then, elze } => Expr::IfExpr {
            cond: Box::new(substituted(cond, m)),
            then: Box::new(substituted(then, m)),
            elze: Box::new(substituted(elze, m)),
        },
        Expr::Lambda { pars, body } => {
            let ghost pm = exprs_model(pars@);
            proof {
                lemma_exprs_model_index(pars@);
            }
            let mut names: Vec<String> = Vec::new();
            let n = pars.len();
            for i in 0..n
                invariant
                    n == pars@.len(),
                    pm == exprs_model(pars@),
                    pm.len() == n,
                    forall|j: int| 0 <= j < n ==> #[trigger] pm[j] == pars@[j]@,
                    all_names(pm),
                    names@.len() == i,
                    forall|j: int|
                        0 <= j < i ==> pm[j] == (SpecExpr::IdExpr { ident: #[trigger] names@[j]@ }),
            {
                assert(pm[i as int] is IdExpr);
                match &pars[i] {
                    Expr::IdExpr { ident } => names.push(ident.clone()),
                    _ => {
                        assert(false);
                    },
                }
            }
            let inner = bindings_without(m, &names);
            proof {
                let removed = Set::new(
                    |x: Seq<char>| exists|i: int| 0 <= i < names@.len() && #[trigger] names@[i]@ == x,
                );
                assert forall|x: Seq<char>| removed.contains(x) <==> par_names(pm).contains(x) by {
                    if removed.contains(x) {
                        let i = choose|i: int| 0 <= i < names@.len() && #[trigger] names@[i]@ == x;
                        assert(pm[i] == (SpecExpr::IdExpr { ident: x }));
                    }
                    if par_names(pm).contains(x) {
                        let i = choose|i: int|
                            0 <= i < pm.len() && #[trigger] pm[i] == (SpecExpr::IdExpr { ident: x });
                        assert(names@[i]@ == x);
                    }
                }
                assert(removed =~= par_names(pm));
            }
            Expr::Lambda { pars: clone_exprs(pars), body: Box::new(substituted(body, &inner)) }
        },
        Expr::Member { .. } => {
            proof {
                assert(false);
            }
            Expr::IntConst { val: 0 }
        },
    }
}

/// Each expression of the vector with `m` substituted in.
fn substituted_exprs(es: &Vec<Expr>, m: &Bindings) -> (r: Vec<Expr>)
    requires
        subst_seq(exprs_model(es@), m@) is Some,
    ensures
        exprs_model(r@) == subst_seq(exprs_model(es@), m@).unwrap(),
    decreases es,
{
    let ghost em = exprs_model(es@);
    proof {
        lemma_exprs_model_index(es@);
        lemma_subst_seq_index(em, m@);
    }
    let mut r: Vec<Expr> = Vec::new();
    let n = es.len();
    for i in 0..n
        invariant
            n == es@.len(),
            em == exprs_model(es@),
            em.len() == n,
            forall|j: int| 0 <= j < n ==> #[trigger] em[j] == es@[j]@,
            forall|j: int| 0 <= j < n ==> #[trigger] subst_spec(em[j], m@) is Some,
            r@.len() == i,
            forall|j: int|
                0 <= j < i ==> #[trigger] r@[j]@ == subst_spec(em[j], m@).unwrap(),
    {
        proof {
            assert(decreases_to!(es => es@[i as int]));
            assert(subst_spec(em[i as int], m@) is Some);
        }
        r.push(substituted(&es[i], m));
    }
    proof {
        lemma_exprs_model_index(r@);
        assert(exprs_model(r@) =~= subst_seq(em, m@).unwrap());
    }
    r
}

/// Each single statement of the vector with `m` substituted in.
fn substituted_sgls(ss: &Vec<SglStmt>, m: &Bindings) -> (r: Vec<SglStmt>)
    requires
        subst_sgls(sgls_model(ss@), m@) is Some,
    ensures
        sgls_model(r@) == subst_sgls(sgls_model(ss@), m@).unwrap(),
    decreases ss,
{
    let ghost sm = sgls_model(ss@);
    proof {
        lemma_sgls_model_index(ss@);
        lemma_subst_sgls_index(sm, m@);
    }
    let mut r: Vec<SglStmt> = Vec::new();
    let n = ss.len();
    for i in 0..n
        invariant
            n == ss@.len(),
            sm == sgls_model(ss@),
            sm.len() == n,
            forall|j: int| 0 <= j < n ==> #[trigger] sm[j] == sgl_model(ss@[j]),
            forall|j: int| 0 <= j < n ==> #[trigger] subst_sgl(sm[j], m@) is Some,
            r@.len() == i,
            forall|j: int|
                0 <= j < i ==> #[trigger] sgl_model(r@[j]) == subst_sgl(sm[j], m@).unwrap(),
    {
        proof {
            assert(decreases_to!(ss => ss@[i as int]));
            assert(subst_sgl(sm[i as int], m@) is Some);
        }
        let c = match &ss[i] {
            SglStmt::Do { act } => SglStmt::Do { act: substituted(act, m) },
            SglStmt::Ass { dst, src } => SglStmt::Ass { dst: dst.deep_clone(), src: substituted(src, m) },
        };
        r.push(c);
    }
    proof {
        lemma_sgls_model_index(r@);
        assert(sgls_model(r@) =~= subst_sgls(sm, m@).unwrap());
    }
    r
}

/// Substitutes the bindings into the expression in place.
pub fn subst(expr: &mut Expr, ident_expr_map: &Bindings)
    requires
        subst_spec(old(expr)@, ident_expr_map@) is Some,
    ensures
        final(expr)@ == subst_spec(old(expr)@, ident_expr_map@).unwrap(),
{
    let r = substituted(expr, ident_expr_map);
    *expr = r;
}

} // verus!
