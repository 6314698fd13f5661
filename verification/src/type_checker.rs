//! The type checker of the source language.
use vstd::prelude::*;
use crate::common::{
    BinOp, Type, SpecType, Expr, SpecExpr, TypeEnv, type_view, types_view, named_type_view,
    named_types_view, lookup_type, option_type_view, copy_type, copy_named_types, type_eq,
    lemma_types_view, exprs_view, expr_bindings_view, lemma_exprs_view,
    lemma_expr_bindings_view,
};

verus! {

broadcast use vstd::std_specs::vec::group_vec_axioms;

/// A type error, with its message.
#[derive(Debug)]
pub struct TypeError(String);

impl View for TypeError {
    type V = Seq<char>;

    closed spec fn view(&self) -> Seq<char> {
        self.0@
    }
}

impl TypeError {
    fn from_message(message: &str) -> (e: TypeError)
        ensures
            e@ == message@,
    {
        TypeError(String::from_str(message))
    }

    fn with_name(message: &str, name: &String) -> (e: TypeError)
        ensures
            e@ == message@ + name@,
    {
        TypeError(String::from_str(message).concat(name.as_str()))
    }

    /// The message of this error.
    pub fn message(&self) -> (m: &String)
        ensures
            m@ == self@,
    {
        &self.0
    }
}

/// The types of a list of named types, in order.
pub open spec fn param_types(params: Seq<(Seq<char>, SpecType)>) -> Seq<SpecType> {
    params.map_values(|p: (Seq<char>, SpecType)| p.1)
}

/// The type of `op` applied to operands of types `a` and `b`.
pub open spec fn binop_type(op: BinOp, a: SpecType, b: SpecType) -> Result<SpecType, Seq<char>> {
    match op {
        BinOp::Add | BinOp::Sub | BinOp::Mul | BinOp::Div => if a == SpecType::Int && b
            == SpecType::Int {
            Ok(SpecType::Int)
        } else {
            Err("arithmetic needs two integers"@)
        },
        BinOp::LessThan => if a == SpecType::Int && b == SpecType::Int {
            Ok(SpecType::Bool)
        } else {
            Err("comparison needs two integers"@)
        },
        BinOp::Concat => if a == SpecType::Str && b == SpecType::Str {
            Ok(SpecType::Str)
        } else {
            Err("concat needs two strings"@)
        },
        BinOp::And | BinOp::Or => if a == SpecType::Bool && b == SpecType::Bool {
            Ok(SpecType::Bool)
        } else {
            Err("logical operators need two booleans"@)
        },
    }
}

/// The type of `e` in `env`, or the message of the first type error met.
/// Subexpressions are checked left to right.
pub open spec fn type_of(env: Seq<(Seq<char>, SpecType)>, e: SpecExpr) -> Result<SpecType, Seq<char>>
    decreases e,
{
    match e {
        SpecExpr::Num(_) => Ok(SpecType::Int),
        SpecExpr::Bool(_) => Ok(SpecType::Bool),
        SpecExpr::Str(_) => Ok(SpecType::Str),
        SpecExpr::Id(x) => match lookup_type(env, x) {
            Some(t) => Ok(t),
            None => Err("unbound identifier: "@ + x),
        },
        SpecExpr::Binop(op, a, b) => match type_of(env, *a) {
            Err(m) => Err(m),
            Ok(ta) => match type_of(env, *b) {
                Err(m) => Err(m),
                Ok(tb) => binop_type(op, ta, tb),
            },
        },
        SpecExpr::If(p, c, a) => match type_of(env, *p) {
            Err(m) => Err(m),
            Ok(tp) => if tp != SpecType::Bool {
                Err("if condition is not a boolean"@)
            } else {
                match type_of(env, *c) {
                    Err(m) => Err(m),
                    Ok(tc) => match type_of(env, *a) {
                        Err(m) => Err(m),
                        Ok(ta) => if tc == ta {
                            Ok(tc)
                        } else {
                            Err("if branches have different types"@)
                        },
                    },
                }
            },
        },
        SpecExpr::Let(bindings, body) => match binding_types_of(env, bindings) {
            Err(m) => Err(m),
            Ok(bound) => type_of(env + bound, *body),
        },
        SpecExpr::Lambda(params, ret, body) => match type_of(env + params, *body) {
            Err(m) => Err(m),
            Ok(tb) => if tb == ret {
                Ok(SpecType::Func(param_types(params), Box::new(ret)))
            } else {
                Err("lambda body does not have the declared return type"@)
            },
        },
        SpecExpr::Begin(es) => if es.len() == 0 {
            Err("begin needs at least one expression"@)
        } else {
            match types_of(env, es) {
                Err(m) => Err(m),
                Ok(ts) => Ok(ts.last()),
            }
        },
        SpecExpr::SetBang(x, v) => match type_of(env, *v) {
            Err(m) => Err(m),
            Ok(tv) => match lookup_type(env, x) {
                None => Err("set! of an unbound identifier: "@ + x),
                Some(tx) => if tx == tv {
                    Ok(tv)
                } else {
                    Err("set! value does not have the identifier's type"@)
                },
            },
        },
        SpecExpr::Cons(a, l) => match type_of(env, *a) {
            Err(m) => Err(m),
            Ok(ta) => match type_of(env, *l) {
                Err(m) => Err(m),
                Ok(tl) => if tl == SpecType::List(Box::new(ta)) {
                    Ok(tl)
                } else {
                    Err("cons needs a list of the first argument's type"@)
                },
            },
        },
        SpecExpr::Car(l) => match type_of(env, *l) {
            Err(m) => Err(m),
            Ok(tl) => match tl {
                SpecType::List(t) => Ok(*t),
                _ => Err("car needs a list"@),
            },
        },
        SpecExpr::Cdr(l) => match type_of(env, *l) {
            Err(m) => Err(m),
            Ok(tl) => match tl {
                SpecType::List(t) => Ok(SpecType::List(t)),
                _ => Err("cdr needs a list"@),
            },
        },
        SpecExpr::IsNull(l) => match type_of(env, *l) {
            Err(m) => Err(m),
            Ok(tl) => match tl {
                SpecType::List(_) => Ok(SpecType::Bool),
                _ => Err("null? needs a list"@),
            },
        },
        SpecExpr::Null(t) => Ok(SpecType::List(Box::new(t))),
        SpecExpr::FnApp(f, args) => match type_of(env, *f) {
            Err(m) => Err(m),
            Ok(tf) => match tf {
                SpecType::Func(ps, r) => match types_of(env, args) {
                    Err(m) => Err(m),
                    Ok(ts) => if ts.len() != ps.len() {
                        Err("wrong number of arguments"@)
                    } else if ts != ps {
                        Err("argument does not have the parameter's type"@)
                    } else {
                        Ok(*r)
                    },
                },
                _ => Err("application of a value that is not a function"@),
            },
        },
    }
}

/// The types of a list of expressions, each in `env`, or the first type error.
pub open spec fn types_of(env: Seq<(Seq<char>, SpecType)>, es: Seq<SpecExpr>) -> Result<
    Seq<SpecType>,
    Seq<char>,
>
    decreases es,
{
    if es.len() == 0 {
        Ok(Seq::empty())
    } else {
        match types_of(env, es.drop_last()) {
            Err(m) => Err(m),
            Ok(ts) => match type_of(env, es.last()) {
                Err(m) => Err(m),
                Ok(t) => Ok(ts.push(t)),
            },
        }
    }
}

/// The names of a list of bindings with the types of their values, each in `env`,
/// or the first type error.
pub open spec fn binding_types_of(
    env: Seq<(Seq<char>, SpecType)>,
    bs: Seq<(Seq<char>, SpecExpr)>,
) -> Result<Seq<(Seq<char>, SpecType)>, Seq<char>>
    decreases bs,
{
    if bs.len() == 0 {
        Ok(Seq::empty())
    } else {
        match binding_types_of(env, bs.drop_last()) {
            Err(m) => Err(m),
            Ok(ts) => match type_of(env, bs.last().1) {
                Err(m) => Err(m),
                Ok(t) => Ok(ts.push((bs.last().0, t))),
            },
        }
    }
}

pub open spec fn type_error_view(r: Result<Type, TypeError>) -> Result<SpecType, Seq<char>> {
    match r {
        Ok(t) => Ok(t@),
        Err(e) => Err(e@),
    }
}

/// Once a prefix of a list fails to type, the whole list fails with the same error.
pub proof fn lemma_types_of_prefix(env: Seq<(Seq<char>, SpecType)>, es: Seq<SpecExpr>, k: int)
    requires
        0 <= k <= es.len(),
        types_of(env, es.take(k)) is Err,
    ensures
        types_of(env, es) == types_of(env, es.take(k)),
    decreases es.len(),
{
    if k == es.len() {
        assert(es.take(k) =~= es);
    } else {
        assert(es.drop_last().take(k) =~= es.take(k));
        lemma_types_of_prefix(env, es.drop_last(), k);
    }
}

/// Once a prefix of a list of bindings fails to type, the whole list fails with the same error.
pub proof fn lemma_binding_types_of_prefix(
    env: Seq<(Seq<char>, SpecType)>,
    bs: Seq<(Seq<char>, SpecExpr)>,
    k: int,
)
    requires
        0 <= k <= bs.len(),
        binding_types_of(env, bs.take(k)) is Err,
    ensures
        binding_types_of(env, bs) == binding_types_of(env, bs.take(k)),
    decreases bs.len(),
{
    if k == bs.len() {
        assert(bs.take(k) =~= bs);
    } else {
        assert(bs.drop_last().take(k) =~= bs.take(k));
        lemma_binding_types_of_prefix(env, bs.drop_last(), k);
    }
}

/// Decides whether two lists of types are equal by their models.
fn types_eq(a: &Vec<Type>, b: &Vec<Type>) -> (r: bool)
    ensures
        r == (types_view(a@) == types_view(b@)),
{
    proof {
        lemma_types_view(a@);
        lemma_types_view(b@);
    }
    if a.len() != b.len() {
        return false;
    }
    let mut i: usize = 0;
    while i < a.len()
        invariant
            i <= a.len(),
            a.len() == b.len(),
            types_view(a@).len() == a.len(),
            types_view(b@).len() == b.len(),
            forall|j: int| 0 <= j < a.len() ==> #[trigger] types_view(a@)[j] == type_view(a@[j]),
            forall|j: int| 0 <= j < b.len() ==> #[trigger] types_view(b@)[j] == type_view(b@[j]),
            forall|j: int| 0 <= j < i ==> type_view(#[trigger] a@[j]) == type_view(b@[j]),
        decreases a.len() - i,
    {
        if !type_eq(&a[i], &b[i]) {
            assert(types_view(a@)[i as int] != types_view(b@)[i as int]);
            return false;
        }
        i = i + 1;
    }
    assert(types_view(a@) =~= types_view(b@));
    true
}

fn is_type(t: &Type, expected: Type) -> (r: bool)
    ensures
        r == (t@ == expected@),
{
    type_eq(t, &expected)
}

/// The type of `exp` in the empty environment.
pub fn type_check(exp: &Expr) -> (r: Result<Type, TypeError>)
    ensures
        type_error_view(r) == type_of(Seq::empty(), exp@),
{
    let env = TypeEnv::new();
    tc_with_env(exp, &env)
}

/// The types of a list of expressions in `env`.
fn tc_exprs(exps: &Vec<Expr>, env: &TypeEnv) -> (r: Result<Vec<Type>, TypeError>)
    ensures
        match r {
            Ok(ts) => types_of(env@, exprs_view(exps@)) == Ok::<Seq<SpecType>, Seq<char>>(types_view(ts@)),
            Err(e) => types_of(env@, exprs_view(exps@)) == Err::<Seq<SpecType>, Seq<char>>(e@),
        },
    decreases exps, 1nat,
{
    let mut out: Vec<Type> = Vec::new();
    let mut i: usize = 0;
    while i < exps.len()
        invariant
            i <= exps.len(),
            types_of(env@, exprs_view(exps@.take(i as int))) == Ok::<Seq<SpecType>, Seq<char>>(types_view(out@)),
        decreases exps.len() - i,
    {
        let t = tc_with_env(&exps[i], env);
        proof {
            assert(exps@.take(i + 1).drop_last() == exps@.take(i as int));
            let v = exprs_view(exps@.take(i + 1));
            assert(v.drop_last() == exprs_view(exps@.take(i as int)));
        }
        match t {
            Ok(t) => {
                proof {
                    assert(out@.push(t).drop_last() == out@);
                }
                out.push(t);
            },
            Err(e) => {
                proof {
                    lemma_exprs_view(exps@);
                    lemma_exprs_view(exps@.take(i + 1));
                    assert(exprs_view(exps@.take(i + 1)) =~= exprs_view(exps@).take(i + 1));
                    lemma_types_of_prefix(env@, exprs_view(exps@), i + 1);
                }
                return Err(e);
            },
        }
        i = i + 1;
    }
    assert(exps@.take(exps.len() as int) == exps@);
    Ok(out)
}

/// The names of a list of bindings with the types of their values in `env`.
fn tc_bindings(bindings: &Vec<(String, Expr)>, env: &TypeEnv) -> (r: Result<Vec<(String, Type)>, TypeError>)
    ensures
        match r {
            Ok(ts) => binding_types_of(env@, expr_bindings_view(bindings@)) == Ok::<Seq<(Seq<char>, SpecType)>, Seq<char>>(named_types_view(ts@)),
            Err(e) => binding_types_of(env@, expr_bindings_view(bindings@)) == Err::<Seq<(Seq<char>, SpecType)>, Seq<char>>(e@),
        },
    decreases bindings, 1nat,
{
    let mut out: Vec<(String, Type)> = Vec::new();
    let mut i: usize = 0;
    assert(named_types_view(out@) =~= Seq::<(Seq<char>, SpecType)>::empty());
    assert(bindings@.take(0) =~= Seq::<(String, Expr)>::empty());
    while i < bindings.len()
        invariant
            i <= bindings.len(),
            binding_types_of(env@, expr_bindings_view(bindings@.take(i as int))) == Ok::<Seq<(Seq<char>, SpecType)>, Seq<char>>(named_types_view(out@)),
        decreases bindings.len() - i,
    {
        let t = tc_with_env(&bindings[i].1, env);
        proof {
            assert(bindings@.take(i + 1).drop_last() == bindings@.take(i as int));
            let v = expr_bindings_view(bindings@.take(i + 1));
            assert(v.drop_last() == expr_bindings_view(bindings@.take(i as int)));
        }
        match t {
            Ok(t) => {
                let name = bindings[i].0.clone();
                let ghost prev = out@;
                out.push((name, t));
                proof {
                    assert(named_types_view(out@) =~= named_types_view(prev).push((name@, t@)));
                }
            },
            Err(e) => {
                proof {
                    lemma_expr_bindings_view(bindings@);
                    lemma_expr_bindings_view(bindings@.take(i + 1));
                    assert(expr_bindings_view(bindings@.take(i + 1)) =~= expr_bindings_view(bindings@).take(i + 1));
                    lemma_binding_types_of_prefix(env@, expr_bindings_view(bindings@), i + 1);
                }
                return Err(e);
            },
        }
        i = i + 1;
    }
    assert(bindings@.take(bindings.len() as int) == bindings@);
    Ok(out)
}

/// The types of a list of named types, in order.
fn param_type_list(params: &Vec<(String, Type)>) -> (r: Vec<Type>)
    ensures
        types_view(r@) == param_types(named_types_view(params@)),
{
    let mut out: Vec<Type> = Vec::new();
    let mut i: usize = 0;
    while i < params.len()
        invariant
            i <= params.len(),
            out@.len() == i,
            forall|j: int| 0 <= j < i ==> type_view(#[trigger] out@[j]) == type_view(params@[j].1),
        decreases params.len() - i,
    {
        out.push(copy_type(&params[i].1));
        i = i + 1;
    }
    proof {
        lemma_types_view(out@);
    }
    assert(types_view(out@) =~= param_types(named_types_view(params@)));
    out
}

/// The type of `exp` in `env`, or the first type error met.
pub fn tc_with_env(exp: &Expr, env: &TypeEnv) -> (r: Result<Type, TypeError>)
    ensures
        type_error_view(r) == type_of(env@, exp@),
    decreases exp, 0nat,
{
    match exp {
        Expr::Num(_) => Ok(Type::Int),
        Expr::Bool(_) => Ok(Type::Bool),
        Expr::Str(_) => Ok(Type::Str),
        Expr::Id(x) => match env.lookup(x) {
            Some(t) => Ok(t),
            None => Err(TypeError::with_name("unbound identifier: ", x)),
        },
        Expr::Binop(op, a, b) => {
            let ta = match tc_with_env(a, env) {
                Ok(t) => t,
                Err(e) => return Err(e),
            };
            let tb = match tc_with_env(b, env) {
                Ok(t) => t,
                Err(e) => return Err(e),
            };
            match op {
                BinOp::Add | BinOp::Sub | BinOp::Mul | BinOp::Div => {
                    if is_type(&ta, Type::Int) && is_type(&tb, Type::Int) {
                        Ok(Type::Int)
                    } else {
                        Err(TypeError::from_message("arithmetic needs two integers"))
                    }
                },
                BinOp::LessThan => {
                    if is_type(&ta, Type::Int) && is_type(&tb, Type::Int) {
                        Ok(Type::Bool)
                    } else {
                        Err(TypeError::from_message("comparison needs two integers"))
                    }
                },
                BinOp::Concat => {
                    if is_type(&ta, Type::Str) && is_type(&tb, Type::Str) {
                        Ok(Type::Str)
                    } else {
                        Err(TypeError::from_message("concat needs two strings"))
                    }
                },
                BinOp::And | BinOp::Or => {
                    if is_type(&ta, Type::Bool) && is_type(&tb, Type::Bool) {
                        Ok(Type::Bool)
                    } else {
                        Err(TypeError::from_message("logical operators need two booleans"))
                    }
                },
            }
        },
        Expr::If(p, c, a) => {
            let tp = match tc_with_env(p, env) {
                Ok(t) => t,
                Err(e) => return Err(e),
            };
            if !is_type(&tp, Type::Bool) {
                return Err(TypeError::from_message("if condition is not a boolean"));
            }
            let tc = match tc_with_env(c, env) {
                Ok(t) => t,
                Err(e) => return Err(e),
            };
            let ta = match tc_with_env(a, env) {
                Ok(t) => t,
                Err(e) => return Err(e),
            };
            if type_eq(&tc, &ta) {
                Ok(tc)
            } else {
                Err(TypeError::from_message("if branches have different types"))
            }
        },
        Expr::Let(bindings, body) => {
            let bound = match tc_bindings(bindings, env) {
                Ok(b) => b,
                Err(e) => return Err(e),
            };
            let inner = env.add_bindings(bound);
            tc_with_env(body, &inner)
        },
        Expr::Lambda(params, ret, body) => {
            let inner = env.add_bindings(copy_named_types(params));
            let tb = match tc_with_env(body, &inner) {
                Ok(t) => t,
                Err(e) => return Err(e),
            };
            if type_eq(&tb, ret) {
                Ok(Type::Func(param_type_list(params), Box::new(copy_type(ret))))
            } else {
                Err(TypeError::from_message("lambda body does not have the declared return type"))
            }
        },
        Expr::Begin(exps) => {
            proof {
                lemma_exprs_view(exps@);
            }
            if exps.len() == 0 {
                return Err(TypeError::from_message("begin needs at least one expression"));
            }
            let mut ts = match tc_exprs(exps, env) {
                Ok(ts) => ts,
                Err(e) => return Err(e),
            };
            proof {
                lemma_types_view(ts@);
            }
            let ghost before = ts@;
            match ts.pop() {
                Some(t) => {
                    proof {
                        assert(before.last() == t);
                    }
                    Ok(t)
                },
                None => Err(TypeError::from_message("begin needs at least one expression")),
            }
        },
        Expr::SetBang(x, v) => {
            let tv = match tc_with_env(v, env) {
                Ok(t) => t,
                Err(e) => return Err(e),
            };
            match env.lookup(x) {
                None => Err(TypeError::with_name("set! of an unbound identifier: ", x)),
                Some(tx) => {
                    if type_eq(&tx, &tv) {
                        Ok(tv)
                    } else {
                        Err(TypeError::from_message("set! value does not have the identifier's type"))
                    }
                },
            }
        },
        Expr::Cons(a, l) => {
            let ta = match tc_with_env(a, env) {
                Ok(t) => t,
                Err(e) => return Err(e),
            };
            let tl = match tc_with_env(l, env) {
                Ok(t) => t,
                Err(e) => return Err(e),
            };
            let expected = Type::List(Box::new(ta));
            if type_eq(&tl, &expected) {
                Ok(tl)
            } else {
                Err(TypeError::from_message("cons needs a list of the first argument's type"))
            }
        },
        Expr::Car(l) => {
            let tl = match tc_with_env(l, env) {
                Ok(t) => t,
                Err(e) => return Err(e),
            };
            match tl {
                Type::List(t) => Ok(*t),
                _ => Err(TypeError::from_message("car needs a list")),
            }
        },
        Expr::Cdr(l) => {
            let tl = match tc_with_env(l, env) {
                Ok(t) => t,
                Err(e) => return Err(e),
            };
            match tl {
                Type::List(t) => Ok(Type::List(t)),
                _ => Err(TypeError::from_message("cdr needs a list")),
            }
        },
        Expr::IsNull(l) => {
            let tl = match tc_with_env(l, env) {
                Ok(t) => t,
                Err(e) => return Err(e),
            };
            match tl {
                Type::List(_) => Ok(Type::Bool),
                _ => Err(TypeError::from_message("null? needs a list")),
            }
        },
        Expr::Null(t) => Ok(Type::List(Box::new(copy_type(t)))),
        Expr::FnApp(f, args) => {
            let tf = match tc_with_env(f, env) {
                Ok(t) => t,
                Err(e) => return Err(e),
            };
            match tf {
                Type::Func(ps, r) => {
                    let ts = match tc_exprs(args, env) {
                        Ok(ts) => ts,
                        Err(e) => return Err(e),
                    };
                    proof {
                        lemma_types_view(ts@);
                        lemma_types_view(ps@);
                    }
                    if ts.len() != ps.len() {
                        Err(TypeError::from_message("wrong number of arguments"))
                    } else if !types_eq(&ts, &ps) {
                        Err(TypeError::from_message("argument does not have the parameter's type"))
                    } else {
                        Ok(*r)
                    }
                },
                _ => Err(TypeError::from_message("application of a value that is not a function")),
            }
        },
    }
}

} // verus!
