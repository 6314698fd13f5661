//! Closure conversion: every lambda becomes a closure that pairs a lambda,
//! whose first parameter is an explicit environment, with that environment.
use vstd::prelude::*;
use crate::common::{
    BinOp, expr_view, Type, SpecType, Expr, SpecExpr, TypeEnv, type_view, named_types_view, copy_type,
    copy_named_types, expr_bindings_view, exprs_view, lemma_exprs_view, lemma_expr_bindings_view,
};
use crate::gensym::{GensymCount, generate_env_name, env_name, next_count};
use crate::type_checker::{type_check, binding_types_of, type_error_view, lemma_binding_types_of_prefix};

verus! {

broadcast use vstd::std_specs::vec::group_vec_axioms;

/// An error during closure conversion, with its message.
#[derive(Clone, Debug)]
pub struct ClosureConvertError(String);

impl View for ClosureConvertError {
    type V = Seq<char>;

    closed spec fn view(&self) -> Seq<char> {
        self.0@
    }
}

impl ClosureConvertError {
    /// An error that carries `message`.
    pub fn from_message(message: &str) -> (e: ClosureConvertError)
        ensures
            e@ == message@,
    {
        ClosureConvertError(String::from_str(message))
    }

    /// The message of this error.
    pub fn message(&self) -> (m: &String)
        ensures
            m@ == self@,
    {
        &self.0
    }

    /// The error as text: `ClosureConvertError: ` and its message.
    pub fn to_string(&self) -> (s: String)
        ensures
            s@ == "ClosureConvertError: "@ + self@,
    {
        let s = String::from_str("ClosureConvertError: ");
        s.concat(self.0.as_str())
    }
}

/// A closure-converted expression.
#[derive(Debug, PartialEq)]
pub enum CExpr {
    // operator, arg1, arg2
    Binop(BinOp, Box<CExpr>, Box<CExpr>),
    // predicate, consequent, alternate
    If(Box<CExpr>, Box<CExpr>, Box<CExpr>),
    // variable bindings, body
    Let(Vec<(String, CExpr)>, Box<CExpr>),
    // arg names/types (environment should be first argument), return type, body
    Lambda(Vec<(String, Type)>, Type, Box<CExpr>),
    // lambda, environment
    Closure(Box<CExpr>, Box<CExpr>),
    // func, arguments
    ClosureApp(Box<CExpr>, Vec<CExpr>),
    // environment mapping
    Env(Vec<(String, CExpr)>),
    // environment name, key
    EnvGet(String, String),
    Begin(Vec<CExpr>),
    SetBang(String, Box<CExpr>),
    Cons(Box<CExpr>, Box<CExpr>),
    Car(Box<CExpr>),
    Cdr(Box<CExpr>),
    IsNull(Box<CExpr>),
    Null(Type),
    Id(String),
    Num(i64),
    Bool(bool),
    Str(String),
}

/// Mathematical model of a `CExpr`.
pub enum SpecCExpr {
    Binop(BinOp, Box<SpecCExpr>, Box<SpecCExpr>),
    If(Box<SpecCExpr>, Box<SpecCExpr>, Box<SpecCExpr>),
    Let(Seq<(Seq<char>, SpecCExpr)>, Box<SpecCExpr>),
    Lambda(Seq<(Seq<char>, SpecType)>, SpecType, Box<SpecCExpr>),
    Closure(Box<SpecCExpr>, Box<SpecCExpr>),
    ClosureApp(Box<SpecCExpr>, Seq<SpecCExpr>),
    Env(Seq<(Seq<char>, SpecCExpr)>),
    EnvGet(Seq<char>, Seq<char>),
    Begin(Seq<SpecCExpr>),
    SetBang(Seq<char>, Box<SpecCExpr>),
    Cons(Box<SpecCExpr>, Box<SpecCExpr>),
    Car(Box<SpecCExpr>),
    Cdr(Box<SpecCExpr>),
    IsNull(Box<SpecCExpr>),
    Null(SpecType),
    Id(Seq<char>),
    Num(i64),
    Bool(bool),
    Str(Seq<char>),
}

pub open spec fn cexpr_view(e: CExpr) -> SpecCExpr
    decreases e,
{
    match e {
        CExpr::Binop(op, a, b) => SpecCExpr::Binop(
            op,
            Box::new(cexpr_view(*a)),
            Box::new(cexpr_view(*b)),
        ),
        CExpr::If(p, c, a) => SpecCExpr::If(
            Box::new(cexpr_view(*p)),
            Box::new(cexpr_view(*c)),
            Box::new(cexpr_view(*a)),
        ),
        CExpr::Let(bindings, body) => SpecCExpr::Let(
            cbindings_view(bindings@),
            Box::new(cexpr_view(*body)),
        ),
        CExpr::Lambda(params, ret, body) => SpecCExpr::Lambda(
            named_types_view(params@),
            type_view(ret),
            Box::new(cexpr_view(*body)),
        ),
        CExpr::Closure(l, env) => SpecCExpr::Closure(
            Box::new(cexpr_view(*l)),
            Box::new(cexpr_view(*env)),
        ),
        CExpr::ClosureApp(f, args) => SpecCExpr::ClosureApp(
            Box::new(cexpr_view(*f)),
            cexprs_view(args@),
        ),
        CExpr::Env(bindings) => SpecCExpr::Env(cbindings_view(bindings@)),
        CExpr::EnvGet(n, k) => SpecCExpr::EnvGet(n@, k@),
        CExpr::Begin(es) => SpecCExpr::Begin(cexprs_view(es@)),
        CExpr::SetBang(x, v) => SpecCExpr::SetBang(x@, Box::new(cexpr_view(*v))),
        CExpr::Cons(a, b) => SpecCExpr::Cons(Box::new(cexpr_view(*a)), Box::new(cexpr_view(*b))),
        CExpr::Car(a) => SpecCExpr::Car(Box::new(cexpr_view(*a))),
        CExpr::Cdr(a) => SpecCExpr::Cdr(Box::new(cexpr_view(*a))),
        CExpr::IsNull(a) => SpecCExpr::IsNull(Box::new(cexpr_view(*a))),
        CExpr::Null(t) => SpecCExpr::Null(type_view(t)),
        CExpr::Id(x) => SpecCExpr::Id(x@),
        CExpr::Num(x) => SpecCExpr::Num(x),
        CExpr::Bool(x) => SpecCExpr::Bool(x),
        CExpr::Str(x) => SpecCExpr::Str(x@),
    }
}

pub open spec fn cexprs_view(s: Seq<CExpr>) -> Seq<SpecCExpr>
    decreases s,
{
    if s.len() == 0 {
        Seq::empty()
    } else {
        cexprs_view(s.drop_last()).push(cexpr_view(s.last()))
    }
}

pub open spec fn cbindings_view(s: Seq<(String, CExpr)>) -> Seq<(Seq<char>, SpecCExpr)>
    decreases s,
{
    if s.len() == 0 {
        Seq::empty()
    } else {
        cbindings_view(s.drop_last()).push((s.last().0@, cexpr_view(s.last().1)))
    }
}

impl View for CExpr {
    type V = SpecCExpr;

    open spec fn view(&self) -> SpecCExpr {
        cexpr_view(*self)
    }
}

pub proof fn lemma_cexprs_view(s: Seq<CExpr>)
    ensures
        cexprs_view(s).len() == s.len(),
        forall|i: int| 0 <= i < s.len() ==> #[trigger] cexprs_view(s)[i] == cexpr_view(s[i]),
    decreases s.len(),
{
    if s.len() > 0 {
        lemma_cexprs_view(s.drop_last());
    }
}

pub proof fn lemma_cbindings_view(s: Seq<(String, CExpr)>)
    ensures
        cbindings_view(s).len() == s.len(),
        forall|i: int|
            0 <= i < s.len() ==> #[trigger] cbindings_view(s)[i] == (s[i].0@, cexpr_view(s[i].1)),
    decreases s.len(),
{
    if s.len() > 0 {
        lemma_cbindings_view(s.drop_last());
    }
}

/// The names of a list of bindings, in order.
pub open spec fn binding_names<T>(bindings: Seq<(Seq<char>, T)>) -> Seq<Seq<char>> {
    bindings.map_values(|b: (Seq<char>, T)| b.0)
}

/// The strings of a list, by their models.
pub open spec fn strings_view(s: Seq<String>) -> Seq<Seq<char>> {
    s.map_values(|x: String| x@)
}

/// `names` with every name of `excluded` taken out; the rest keep their order
/// and their repetitions.
pub open spec fn without(names: Seq<Seq<char>>, excluded: Seq<Seq<char>>) -> Seq<Seq<char>>
    decreases names.len(),
{
    if names.len() == 0 {
        names
    } else if excluded.contains(names.last()) {
        without(names.drop_last(), excluded)
    } else {
        without(names.drop_last(), excluded).push(names.last())
    }
}

/// The free variables of a converted expression, in order of occurrence and with
/// repetitions. The bindings of a `Let` count only by the names they bind.
pub open spec fn free_vars(e: SpecCExpr) -> Seq<Seq<char>>
    decreases e,
{
    match e {
        SpecCExpr::Binop(_, a, b) => free_vars(*a) + free_vars(*b),
        SpecCExpr::If(p, c, a) => free_vars(*p) + free_vars(*c) + free_vars(*a),
        SpecCExpr::Let(bindings, body) => without(free_vars(*body), binding_names(bindings)),
        SpecCExpr::Lambda(params, _, body) => without(free_vars(*body), binding_names(params)),
        SpecCExpr::Closure(l, env) => free_vars(*l) + free_vars(*env),
        SpecCExpr::ClosureApp(f, args) => free_vars(*f) + free_vars_seq(args),
        SpecCExpr::Env(bindings) => free_vars_bindings(bindings),
        SpecCExpr::EnvGet(env_name, _) => seq![env_name],
        SpecCExpr::Begin(es) => free_vars_seq(es),
        SpecCExpr::SetBang(_, v) => free_vars(*v),
        SpecCExpr::Cons(a, b) => free_vars(*a) + free_vars(*b),
        SpecCExpr::Car(a) => free_vars(*a),
        SpecCExpr::Cdr(a) => free_vars(*a),
        SpecCExpr::IsNull(a) => free_vars(*a),
        SpecCExpr::Null(_) => Seq::empty(),
        SpecCExpr::Id(x) => seq![x],
        SpecCExpr::Num(_) => Seq::empty(),
        SpecCExpr::Bool(_) => Seq::empty(),
        SpecCExpr::Str(_) => Seq::empty(),
    }
}

/// The free variables of a list of expressions, one after the other.
pub open spec fn free_vars_seq(es: Seq<SpecCExpr>) -> Seq<Seq<char>>
    decreases es,
{
    if es.len() == 0 {
        Seq::empty()
    } else {
        free_vars_seq(es.drop_last()) + free_vars(es.last())
    }
}

/// The free variables of the values of a list of bindings, one after the other.
pub open spec fn free_vars_bindings(bs: Seq<(Seq<char>, SpecCExpr)>) -> Seq<Seq<char>>
    decreases bs,
{
    if bs.len() == 0 {
        Seq::empty()
    } else {
        free_vars_bindings(bs.drop_last()) + free_vars(bs.last().1)
    }
}

/// The free variables of a lambda body that its parameters do not bind.
pub open spec fn free_vars_lambda(params: Seq<(Seq<char>, SpecType)>, body: SpecCExpr) -> Seq<Seq<char>> {
    without(free_vars(body), binding_names(params))
}

/// `e` with every free-standing `Id(x)` replaced by `r`. A lambda that binds `x`
/// is left alone; a `Let` and the name of a `set!` are not.
pub open spec fn subst(e: SpecCExpr, x: Seq<char>, r: SpecCExpr) -> SpecCExpr
    decreases e,
{
    match e {
        SpecCExpr::Binop(op, a, b) => SpecCExpr::Binop(
            op,
            Box::new(subst(*a, x, r)),
            Box::new(subst(*b, x, r)),
        ),
        SpecCExpr::If(p, c, a) => SpecCExpr::If(
            Box::new(subst(*p, x, r)),
            Box::new(subst(*c, x, r)),
            Box::new(subst(*a, x, r)),
        ),
        SpecCExpr::Let(bindings, body) => SpecCExpr::Let(
            subst_bindings(bindings, x, r),
            Box::new(subst(*body, x, r)),
        ),
        SpecCExpr::Lambda(params, ret, body) => if binding_names(params).contains(x) {
            e
        } else {
            SpecCExpr::Lambda(params, ret, Box::new(subst(*body, x, r)))
        },
        SpecCExpr::Closure(l, env) => SpecCExpr::Closure(
            Box::new(subst(*l, x, r)),
            Box::new(subst(*env, x, r)),
        ),
        SpecCExpr::ClosureApp(f, args) => SpecCExpr::ClosureApp(
            Box::new(subst(*f, x, r)),
            subst_seq(args, x, r),
        ),
        SpecCExpr::Env(bindings) => SpecCExpr::Env(subst_bindings(bindings, x, r)),
        SpecCExpr::EnvGet(_, _) => e,
        SpecCExpr::Begin(es) => SpecCExpr::Begin(subst_seq(es, x, r)),
        SpecCExpr::SetBang(y, v) => SpecCExpr::SetBang(y, Box::new(subst(*v, x, r))),
        SpecCExpr::Cons(a, b) => SpecCExpr::Cons(
            Box::new(subst(*a, x, r)),
            Box::new(subst(*b, x, r)),
        ),
        SpecCExpr::Car(a) => SpecCExpr::Car(Box::new(subst(*a, x, r))),
        SpecCExpr::Cdr(a) => SpecCExpr::Cdr(Box::new(subst(*a, x, r))),
        SpecCExpr::IsNull(a) => SpecCExpr::IsNull(Box::new(subst(*a, x, r))),
        SpecCExpr::Null(_) => e,
        SpecCExpr::Id(y) => if y == x {
            r
        } else {
            e
        },
        SpecCExpr::Num(_) => e,
        SpecCExpr::Bool(_) => e,
        SpecCExpr::Str(_) => e,
    }
}

pub open spec fn subst_seq(es: Seq<SpecCExpr>, x: Seq<char>, r: SpecCExpr) -> Seq<SpecCExpr>
    decreases es,
{
    if es.len() == 0 {
        Seq::empty()
    } else {
        subst_seq(es.drop_last(), x, r).push(subst(es.last(), x, r))
    }
}

pub open spec fn subst_bindings(
    bs: Seq<(Seq<char>, SpecCExpr)>,
    x: Seq<char>,
    r: SpecCExpr,
) -> Seq<(Seq<char>, SpecCExpr)>
    decreases bs,
{
    if bs.len() == 0 {
        Seq::empty()
    } else {
        subst_bindings(bs.drop_last(), x, r).push((bs.last().0, subst(bs.last().1, x, r)))
    }
}

/// The message of a closure-conversion error caused by a type error with message `m`.
pub open spec fn type_error_message(m: Seq<char>) -> Seq<char> {
    "Type checking error during closure conversion: "@ + m
}

/// `body` with each variable of `vars`, in order, replaced by its entry in the
/// environment named `name`.
pub open spec fn subst_all(body: SpecCExpr, vars: Seq<Seq<char>>, name: Seq<char>) -> SpecCExpr
    decreases vars.len(),
{
    if vars.len() == 0 {
        body
    } else {
        subst(
            subst_all(body, vars.drop_last(), name),
            vars.last(),
            SpecCExpr::EnvGet(name, vars.last()),
        )
    }
}

/// The environment that captures `vars`: each bound to itself.
pub open spec fn env_bindings(vars: Seq<Seq<char>>) -> Seq<(Seq<char>, SpecCExpr)> {
    vars.map_values(|v: Seq<char>| (v, SpecCExpr::Id(v)))
}

/// The closure made of a lambda with parameters `params` and return type `ret`,
/// its environment named `name` holding `vars`, and the converted body `body`.
pub open spec fn closure_of(
    params: Seq<(Seq<char>, SpecType)>,
    ret: SpecType,
    name: Seq<char>,
    vars: Seq<Seq<char>>,
    body: SpecCExpr,
) -> SpecCExpr {
    SpecCExpr::Closure(
        Box::new(
            SpecCExpr::Lambda(
                seq![(name, SpecType::Unknown)] + params,
                ret,
                Box::new(subst_all(body, vars, name)),
            ),
        ),
        Box::new(SpecCExpr::Env(env_bindings(vars))),
    )
}

/// Closure conversion of `e` with the name counter at `n`: the converted expression,
/// or the message of the first error, and the counter afterwards. Subexpressions
/// are converted left to right, the arguments of an application before the function;
/// the bindings of each `Let` are first type checked in the empty environment. The
/// body of a lambda is converted twice: once to find its free variables, and once,
/// after its environment name is drawn, to make the body of the closure.
pub open spec fn cc_spec(e: SpecExpr, n: u64) -> (Result<SpecCExpr, Seq<char>>, u64)
    decreases e,
{
    match e {
        SpecExpr::Num(x) => (Ok(SpecCExpr::Num(x)), n),
        SpecExpr::Bool(x) => (Ok(SpecCExpr::Bool(x)), n),
        SpecExpr::Str(x) => (Ok(SpecCExpr::Str(x)), n),
        SpecExpr::Id(x) => (Ok(SpecCExpr::Id(x)), n),
        SpecExpr::Binop(op, a, b) => {
            let (ra, n1) = cc_spec(*a, n);
            match ra {
                Err(m) => (Err(m), n1),
                Ok(ca) => {
                    let (rb, n2) = cc_spec(*b, n1);
                    match rb {
                        Err(m) => (Err(m), n2),
                        Ok(cb) => (Ok(SpecCExpr::Binop(op, Box::new(ca), Box::new(cb))), n2),
                    }
                },
            }
        },
        SpecExpr::If(p, c, a) => {
            let (rp, n1) = cc_spec(*p, n);
            match rp {
                Err(m) => (Err(m), n1),
                Ok(cp) => {
                    let (rc, n2) = cc_spec(*c, n1);
                    match rc {
                        Err(m) => (Err(m), n2),
                        Ok(cc) => {
                            let (ra, n3) = cc_spec(*a, n2);
                            match ra {
                                Err(m) => (Err(m), n3),
                                Ok(ca) => (
                                    Ok(SpecCExpr::If(Box::new(cp), Box::new(cc), Box::new(ca))),
                                    n3,
                                ),
                            }
                        },
                    }
                },
            }
        },
        SpecExpr::Let(bindings, body) => match binding_types_of(Seq::empty(), bindings) {
            Err(m) => (Err(type_error_message(m)), n),
            Ok(_) => {
                let (rbs, n1) = cc_bindings_spec(bindings, n);
                match rbs {
                    Err(m) => (Err(m), n1),
                    Ok(cbs) => {
                        let (rb, n2) = cc_spec(*body, n1);
                        match rb {
                            Err(m) => (Err(m), n2),
                            Ok(cb) => (Ok(SpecCExpr::Let(cbs, Box::new(cb))), n2),
                        }
                    },
                }
            },
        },
        SpecExpr::Lambda(params, ret, body) => {
            let (r1, n1) = cc_spec(*body, n);
            match r1 {
                Err(m) => (Err(m), n1),
                Ok(cbody) => {
                    let (r2, n2) = cc_spec(*body, next_count(n1));
                    match r2 {
                        Err(m) => (Err(m), n2),
                        Ok(nb) => (
                            Ok(closure_of(params, ret, env_name(n1), free_vars_lambda(params, cbody), nb)),
                            n2,
                        ),
                    }
                },
            }
        },
        SpecExpr::Begin(es) => {
            let (r, n1) = cc_seq_spec(es, n);
            match r {
                Err(m) => (Err(m), n1),
                Ok(ces) => (Ok(SpecCExpr::Begin(ces)), n1),
            }
        },
        SpecExpr::SetBang(x, v) => {
            let (r, n1) = cc_spec(*v, n);
            match r {
                Err(m) => (Err(m), n1),
                Ok(cv) => (Ok(SpecCExpr::SetBang(x, Box::new(cv))), n1),
            }
        },
        SpecExpr::Cons(a, b) => {
            let (ra, n1) = cc_spec(*a, n);
            match ra {
                Err(m) => (Err(m), n1),
                Ok(ca) => {
                    let (rb, n2) = cc_spec(*b, n1);
                    match rb {
                        Err(m) => (Err(m), n2),
                        Ok(cb) => (Ok(SpecCExpr::Cons(Box::new(ca), Box::new(cb))), n2),
                    }
                },
            }
        },
        SpecExpr::Car(a) => {
            let (r, n1) = cc_spec(*a, n);
            match r {
                Err(m) => (Err(m), n1),
                Ok(ca) => (Ok(SpecCExpr::Car(Box::new(ca))), n1),
            }
        },
        SpecExpr::Cdr(a) => {
            let (r, n1) = cc_spec(*a, n);
            match r {
                Err(m) => (Err(m), n1),
                Ok(ca) => (Ok(SpecCExpr::Cdr(Box::new(ca))), n1),
            }
        },
        SpecExpr::IsNull(a) => {
            let (r, n1) = cc_spec(*a, n);
            match r {
                Err(m) => (Err(m), n1),
                Ok(ca) => (Ok(SpecCExpr::IsNull(Box::new(ca))), n1),
            }
        },
        SpecExpr::Null(t) => (Ok(SpecCExpr::Null(t)), n),
        SpecExpr::FnApp(f, args) => {
            let (ra, n1) = cc_seq_spec(args, n);
            match ra {
                Err(m) => (Err(m), n1),
                Ok(cargs) => {
                    let (rf, n2) = cc_spec(*f, n1);
                    match rf {
                        Err(m) => (Err(m), n2),
                        Ok(cf) => (Ok(SpecCExpr::ClosureApp(Box::new(cf), cargs)), n2),
                    }
                },
            }
        },
    }
}

/// Closure conversion of a list of expressions, in order, stopping at the first error.
pub open spec fn cc_seq_spec(es: Seq<SpecExpr>, n: u64) -> (Result<Seq<SpecCExpr>, Seq<char>>, u64)
    decreases es,
{
    if es.len() == 0 {
        (Ok(Seq::empty()), n)
    } else {
        let (r, n1) = cc_seq_spec(es.drop_last(), n);
        match r {
            Err(m) => (Err(m), n1),
            Ok(ces) => {
                let (rl, n2) = cc_spec(es.last(), n1);
                match rl {
                    Err(m) => (Err(m), n2),
                    Ok(c) => (Ok(ces.push(c)), n2),
                }
            },
        }
    }
}

/// Closure conversion of the values of a list of bindings, in order, stopping at
/// the first error.
pub open spec fn cc_bindings_spec(bs: Seq<(Seq<char>, SpecExpr)>, n: u64) -> (
    Result<Seq<(Seq<char>, SpecCExpr)>, Seq<char>>,
    u64,
)
    decreases bs,
{
    if bs.len() == 0 {
        (Ok(Seq::empty()), n)
    } else {
        let (r, n1) = cc_bindings_spec(bs.drop_last(), n);
        match r {
            Err(m) => (Err(m), n1),
            Ok(cbs) => {
                let (rl, n2) = cc_spec(bs.last().1, n1);
                match rl {
                    Err(m) => (Err(m), n2),
                    Ok(c) => (Ok(cbs.push((bs.last().0, c))), n2),
                }
            },
        }
    }
}

/// Once a prefix of a list fails to convert, the whole list fails with the same
/// error and the same counter.
pub proof fn lemma_cc_seq_prefix(es: Seq<SpecExpr>, n: u64, k: int)
    requires
        0 <= k <= es.len(),
        cc_seq_spec(es.take(k), n).0 is Err,
    ensures
        cc_seq_spec(es, n) == cc_seq_spec(es.take(k), n),
    decreases es.len(),
{
    if k == es.len() {
        assert(es.take(k) =~= es);
    } else {
        assert(es.drop_last().take(k) =~= es.take(k));
        lemma_cc_seq_prefix(es.drop_last(), n, k);
    }
}

/// Once a prefix of a list of bindings fails to convert, the whole list fails with
/// the same error and the same counter.
pub proof fn lemma_cc_bindings_prefix(bs: Seq<(Seq<char>, SpecExpr)>, n: u64, k: int)
    requires
        0 <= k <= bs.len(),
        cc_bindings_spec(bs.take(k), n).0 is Err,
    ensures
        cc_bindings_spec(bs, n) == cc_bindings_spec(bs.take(k), n),
    decreases bs.len(),
{
    if k == bs.len() {
        assert(bs.take(k) =~= bs);
    } else {
        assert(bs.drop_last().take(k) =~= bs.take(k));
        lemma_cc_bindings_prefix(bs.drop_last(), n, k);
    }
}

/// The result of a computation that may fail, by its model.
pub open spec fn cc_result_view(r: Result<CExpr, ClosureConvertError>) -> Result<SpecCExpr, Seq<char>> {
    match r {
        Ok(c) => Ok(c@),
        Err(e) => Err(e@),
    }
}

impl Clone for CExpr {
    fn clone(&self) -> (r: CExpr)
        ensures
            r@ == self@,
    {
        copy_cexpr(self)
    }
}

/// A copy of a converted expression, equal to it by its model.
fn copy_cexpr(e: &CExpr) -> (r: CExpr)
    ensures
        r@ == e@,
    decreases e, 0nat,
{
    match e {
        CExpr::Binop(op, a, b) => CExpr::Binop(*op, Box::new(copy_cexpr(a)), Box::new(copy_cexpr(b))),
        CExpr::If(p, c, a) => CExpr::If(
            Box::new(copy_cexpr(p)),
            Box::new(copy_cexpr(c)),
            Box::new(copy_cexpr(a)),
        ),
        CExpr::Let(bindings, body) => CExpr::Let(
            copy_cbindings(bindings),
            Box::new(copy_cexpr(body)),
        ),
        CExpr::Lambda(params, ret, body) => CExpr::Lambda(
            copy_named_types(params),
            copy_type(ret),
            Box::new(copy_cexpr(body)),
        ),
        CExpr::Closure(l, env) => CExpr::Closure(Box::new(copy_cexpr(l)), Box::new(copy_cexpr(env))),
        CExpr::ClosureApp(f, args) => CExpr::ClosureApp(Box::new(copy_cexpr(f)), copy_cexprs(args)),
        CExpr::Env(bindings) => CExpr::Env(copy_cbindings(bindings)),
        CExpr::EnvGet(n, k) => CExpr::EnvGet(n.clone(), k.clone()),
        CExpr::Begin(es) => CExpr::Begin(copy_cexprs(es)),
        CExpr::SetBang(x, v) => CExpr::SetBang(x.clone(), Box::new(copy_cexpr(v))),
        CExpr::Cons(a, b) => CExpr::Cons(Box::new(copy_cexpr(a)), Box::new(copy_cexpr(b))),
        CExpr::Car(a) => CExpr::Car(Box::new(copy_cexpr(a))),
        CExpr::Cdr(a) => CExpr::Cdr(Box::new(copy_cexpr(a))),
        CExpr::IsNull(a) => CExpr::IsNull(Box::new(copy_cexpr(a))),
        CExpr::Null(t) => CExpr::Null(copy_type(t)),
        CExpr::Id(x) => CExpr::Id(x.clone()),
        CExpr::Num(x) => CExpr::Num(*x),
        CExpr::Bool(x) => CExpr::Bool(*x),
        CExpr::Str(x) => CExpr::Str(x.clone()),
    }
}

fn copy_cexprs(es: &Vec<CExpr>) -> (r: Vec<CExpr>)
    ensures
        cexprs_view(r@) == cexprs_view(es@),
    decreases es, 1nat,
{
    let mut out: Vec<CExpr> = Vec::new();
    let mut i: usize = 0;
    while i < es.len()
        invariant
            i <= es.len(),
            cexprs_view(out@) == cexprs_view(es@.take(i as int)),
        decreases es.len() - i,
    {
        let c = copy_cexpr(&es[i]);
        proof {
            assert(out@.push(c).drop_last() == out@);
            assert(es@.take(i + 1).drop_last() == es@.take(i as int));
        }
        out.push(c);
        i = i + 1;
    }
    assert(es@.take(es.len() as int) == es@);
    out
}

fn copy_cbindings(bs: &Vec<(String, CExpr)>) -> (r: Vec<(String, CExpr)>)
    ensures
        cbindings_view(r@) == cbindings_view(bs@),
    decreases bs, 1nat,
{
    let mut out: Vec<(String, CExpr)> = Vec::new();
    let mut i: usize = 0;
    while i < bs.len()
        invariant
            i <= bs.len(),
            cbindings_view(out@) == cbindings_view(bs@.take(i as int)),
        decreases bs.len() - i,
    {
        let c = copy_cexpr(&bs[i].1);
        let name = bs[i].0.clone();
        proof {
            assert(out@.push((name, c)).drop_last() == out@);
            assert(bs@.take(i + 1).drop_last() == bs@.take(i as int));
        }
        out.push((name, c));
        i = i + 1;
    }
    assert(bs@.take(bs.len() as int) == bs@);
    out
}

/// Concatenation of two vectors.
fn concat_vectors<T>(vec1: Vec<T>, vec2: Vec<T>) -> (val: Vec<T>)
    ensures
        val@ == vec1@ + vec2@,
{
    let mut val = vec1;
    let mut rest = vec2;
    val.append(&mut rest);
    val
}

/// Whether `names` holds `x`.
fn contains_name(names: &Vec<String>, x: &String) -> (r: bool)
    ensures
        r == strings_view(names@).contains(x@),
{
    let mut i: usize = 0;
    while i < names.len()
        invariant
            i <= names.len(),
            forall|j: int| 0 <= j < i ==> names@[j]@ != x@,
        decreases names.len() - i,
    {
        if names[i] == *x {
            assert(strings_view(names@)[i as int] == x@);
            return true;
        }
        i = i + 1;
    }
    assert(!strings_view(names@).contains(x@)) by {
        if strings_view(names@).contains(x@) {
            let k = choose|k: int| 0 <= k < strings_view(names@).len() && strings_view(names@)[k] == x@;
            assert(names@[k]@ == x@);
        }
    }
    false
}

/// `names` with every element of `excluded` taken out.
fn retain_not_in(names: Vec<String>, excluded: &Vec<String>) -> (r: Vec<String>)
    ensures
        strings_view(r@) == without(strings_view(names@), strings_view(excluded@)),
{
    let mut out: Vec<String> = Vec::new();
    let mut i: usize = 0;
    while i < names.len()
        invariant
            i <= names.len(),
            strings_view(out@) == without(strings_view(names@.take(i as int)), strings_view(excluded@)),
        decreases names.len() - i,
    {
        let ghost prev = out@;
        assert(strings_view(names@.take(i + 1)).drop_last() =~= strings_view(names@.take(i as int)));
        assert(strings_view(names@.take(i + 1)).last() == names@[i as int]@);
        if !contains_name(excluded, &names[i]) {
            let name = names[i].clone();
            out.push(name);
            assert(strings_view(out@) =~= strings_view(prev).push(name@));
        }
        i = i + 1;
    }
    assert(names@.take(names.len() as int) == names@);
    out
}

/// The names bound by a list of parameters.
fn param_names(params: &Vec<(String, Type)>) -> (r: Vec<String>)
    ensures
        strings_view(r@) == binding_names(named_types_view(params@)),
{
    let mut out: Vec<String> = Vec::new();
    let mut i: usize = 0;
    while i < params.len()
        invariant
            i <= params.len(),
            out@.len() == i,
            forall|j: int| 0 <= j < i ==> (#[trigger] out@[j])@ == params@[j].0@,
        decreases params.len() - i,
    {
        out.push(params[i].0.clone());
        i = i + 1;
    }
    assert(strings_view(out@) =~= binding_names(named_types_view(params@)));
    out
}

/// The names bound by a list of converted bindings.
fn cbinding_names(bindings: &Vec<(String, CExpr)>) -> (r: Vec<String>)
    ensures
        strings_view(r@) == binding_names(cbindings_view(bindings@)),
{
    proof {
        lemma_cbindings_view(bindings@);
    }
    let mut out: Vec<String> = Vec::new();
    let mut i: usize = 0;
    while i < bindings.len()
        invariant
            i <= bindings.len(),
            out@.len() == i,
            cbindings_view(bindings@).len() == bindings@.len(),
            forall|j: int| 0 <= j < i ==> (#[trigger] out@[j])@ == bindings@[j].0@,
        decreases bindings.len() - i,
    {
        out.push(bindings[i].0.clone());
        i = i + 1;
    }
    assert(strings_view(out@) =~= binding_names(cbindings_view(bindings@)));
    out
}

fn substitute_array(
    exps: &Vec<CExpr>,
    match_exp: &String,
    replace_with: &CExpr,
) -> (r: Result<Vec<CExpr>, ClosureConvertError>)
    ensures
        r matches Ok(v) && cexprs_view(v@) == subst_seq(cexprs_view(exps@), match_exp@, replace_with@),
    decreases exps, 1nat,
{
    let mut out: Vec<CExpr> = Vec::new();
    let mut i: usize = 0;
    while i < exps.len()
        invariant
            i <= exps.len(),
            cexprs_view(out@) == subst_seq(cexprs_view(exps@.take(i as int)), match_exp@, replace_with@),
        decreases exps.len() - i,
    {
        let c = match substitute(&exps[i], match_exp, replace_with) {
            Ok(c) => c,
            Err(e) => return Err(e),
        };
        proof {
            assert(out@.push(c).drop_last() == out@);
            assert(exps@.take(i + 1).drop_last() == exps@.take(i as int));
            let v = cexprs_view(exps@.take(i + 1));
            assert(v.drop_last() == cexprs_view(exps@.take(i as int)));
        }
        out.push(c);
        i = i + 1;
    }
    assert(exps@.take(exps.len() as int) == exps@);
    Ok(out)
}

fn substitute_bindings(
    bindings: &Vec<(String, CExpr)>,
    match_exp: &String,
    replace_with: &CExpr,
) -> (r: Result<Vec<(String, CExpr)>, ClosureConvertError>)
    ensures
        r matches Ok(v) && cbindings_view(v@) == subst_bindings(cbindings_view(bindings@), match_exp@, replace_with@),
    decreases bindings, 1nat,
{
    let mut out: Vec<(String, CExpr)> = Vec::new();
    let mut i: usize = 0;
    while i < bindings.len()
        invariant
            i <= bindings.len(),
            cbindings_view(out@) == subst_bindings(cbindings_view(bindings@.take(i as int)), match_exp@, replace_with@),
        decreases bindings.len() - i,
    {
        let c = match substitute(&bindings[i].1, match_exp, replace_with) {
            Ok(c) => c,
            Err(e) => return Err(e),
        };
        let name = bindings[i].0.clone();
        proof {
            assert(out@.push((name, c)).drop_last() == out@);
            assert(bindings@.take(i + 1).drop_last() == bindings@.take(i as int));
            let v = cbindings_view(bindings@.take(i + 1));
            assert(v.drop_last() == cbindings_view(bindings@.take(i as int)));
        }
        out.push((name, c));
        i = i + 1;
    }
    assert(bindings@.take(bindings.len() as int) == bindings@);
    Ok(out)
}

/// Replaces the free-standing occurrences of `Id(match_exp)` in `exp` by `replace_with`.
fn substitute(
    exp: &CExpr,
    match_exp: &String,
    replace_with: &CExpr,
) -> (r: Result<CExpr, ClosureConvertError>)
    ensures
        r matches Ok(c) && c@ == subst(exp@, match_exp@, replace_with@),
    decreases exp, 0nat,
{
    match exp {
        CExpr::Binop(op, arg1, arg2) => {
            let sarg1 = match substitute(arg1, match_exp, replace_with) {
                Ok(v) => v,
                Err(e) => return Err(e),
            };
            let sarg2 = match substitute(arg2, match_exp, replace_with) {
                Ok(v) => v,
                Err(e) => return Err(e),
            };
            Ok(CExpr::Binop(*op, Box::new(sarg1), Box::new(sarg2)))
        },
        CExpr::If(pred, cons, alt) => {
            let spred = match substitute(pred, match_exp, replace_with) {
                Ok(v) => v,
                Err(e) => return Err(e),
            };
            let scons = match substitute(cons, match_exp, replace_with) {
                Ok(v) => v,
                Err(e) => return Err(e),
            };
            let salt = match substitute(alt, match_exp, replace_with) {
                Ok(v) => v,
                Err(e) => return Err(e),
            };
            Ok(CExpr::If(Box::new(spred), Box::new(scons), Box::new(salt)))
        },
        CExpr::Let(bindings, body) => {
            let bindings_sub = match substitute_bindings(bindings, match_exp, replace_with) {
                Ok(v) => v,
                Err(e) => return Err(e),
            };
            let sbody = match substitute(body, match_exp, replace_with) {
                Ok(v) => v,
                Err(e) => return Err(e),
            };
            Ok(CExpr::Let(bindings_sub, Box::new(sbody)))
        },
        CExpr::Lambda(params, ret_type, body) => {
            let names = param_names(params);
            if !contains_name(&names, match_exp) {
                let sbody = match substitute(body, match_exp, replace_with) {
                    Ok(v) => v,
                    Err(e) => return Err(e),
                };
                Ok(CExpr::Lambda(copy_named_types(params), copy_type(ret_type), Box::new(sbody)))
            } else {
                Ok(CExpr::Lambda(copy_named_types(params), copy_type(ret_type), Box::new(copy_cexpr(body))))
            }
        },
        CExpr::Closure(lambda, env) => {
            let slambda = match substitute(lambda, match_exp, replace_with) {
                Ok(v) => v,
                Err(e) => return Err(e),
            };
            let senv = match substitute(env, match_exp, replace_with) {
                Ok(v) => v,
                Err(e) => return Err(e),
            };
            Ok(CExpr::Closure(Box::new(slambda), Box::new(senv)))
        },
        CExpr::ClosureApp(func, args) => {
            let sfunc = match substitute(func, match_exp, replace_with) {
                Ok(v) => v,
                Err(e) => return Err(e),
            };
            let sargs = match substitute_array(args, match_exp, replace_with) {
                Ok(v) => v,
                Err(e) => return Err(e),
            };
            Ok(CExpr::ClosureApp(Box::new(sfunc), sargs))
        },
        CExpr::Env(bindings) => {
            match substitute_bindings(bindings, match_exp, replace_with) {
                Ok(v) => Ok(CExpr::Env(v)),
                Err(e) => Err(e),
            }
        },
        CExpr::EnvGet(_env_name, _var) => Ok(copy_cexpr(exp)),
        CExpr::Begin(exps) => {
            match substitute_array(exps, match_exp, replace_with) {
                Ok(v) => Ok(CExpr::Begin(v)),
                Err(e) => Err(e),
            }
        },
        CExpr::SetBang(var, val) => {
            match substitute(val, match_exp, replace_with) {
                Ok(v) => Ok(CExpr::SetBang(var.clone(), Box::new(v))),
                Err(e) => Err(e),
            }
        },
        CExpr::Cons(first, second) => {
            let sfirst = match substitute(first, match_exp, replace_with) {
                Ok(v) => v,
                Err(e) => return Err(e),
            };
            let ssecond = match substitute(second, match_exp, replace_with) {
                Ok(v) => v,
                Err(e) => return Err(e),
            };
            Ok(CExpr::Cons(Box::new(sfirst), Box::new(ssecond)))
        },
        CExpr::Car(val) => match substitute(val, match_exp, replace_with) {
            Ok(v) => Ok(CExpr::Car(Box::new(v))),
            Err(e) => Err(e),
        },
        CExpr::Cdr(val) => match substitute(val, match_exp, replace_with) {
            Ok(v) => Ok(CExpr::Cdr(Box::new(v))),
            Err(e) => Err(e),
        },
        CExpr::IsNull(val) => match substitute(val, match_exp, replace_with) {
            Ok(v) => Ok(CExpr::IsNull(Box::new(v))),
            Err(e) => Err(e),
        },
        CExpr::Null(_) => Ok(copy_cexpr(exp)),
        CExpr::Id(x) => {
            if *x == *match_exp {
                Ok(copy_cexpr(replace_with))
            } else {
                Ok(CExpr::Id(x.clone()))
            }
        },
        CExpr::Num(_) => Ok(copy_cexpr(exp)),
        CExpr::Bool(_) => Ok(copy_cexpr(exp)),
        CExpr::Str(_) => Ok(copy_cexpr(exp)),
    }
}

fn get_free_vars_array(exps: &Vec<CExpr>) -> (r: Result<Vec<String>, ClosureConvertError>)
    ensures
        r matches Ok(v) && strings_view(v@) == free_vars_seq(cexprs_view(exps@)),
    decreases exps, 1nat,
{
    let mut out: Vec<String> = Vec::new();
    let mut i: usize = 0;
    while i < exps.len()
        invariant
            i <= exps.len(),
            strings_view(out@) == free_vars_seq(cexprs_view(exps@.take(i as int))),
        decreases exps.len() - i,
    {
        let vars = match get_free_vars(&exps[i]) {
            Ok(v) => v,
            Err(e) => return Err(e),
        };
        let ghost prev = out@;
        out = concat_vectors(out, vars);
        proof {
            assert(exps@.take(i + 1).drop_last() == exps@.take(i as int));
            let v = cexprs_view(exps@.take(i + 1));
            assert(v.drop_last() == cexprs_view(exps@.take(i as int)));
            assert(strings_view(out@) =~= strings_view(prev) + strings_view(vars@));
        }
        i = i + 1;
    }
    assert(exps@.take(exps.len() as int) == exps@);
    Ok(out)
}

fn get_free_vars_bindings(bindings: &Vec<(String, CExpr)>) -> (r: Result<Vec<String>, ClosureConvertError>)
    ensures
        r matches Ok(v) && strings_view(v@) == free_vars_bindings(cbindings_view(bindings@)),
    decreases bindings, 1nat,
{
    let mut out: Vec<String> = Vec::new();
    let mut i: usize = 0;
    while i < bindings.len()
        invariant
            i <= bindings.len(),
            strings_view(out@) == free_vars_bindings(cbindings_view(bindings@.take(i as int))),
        decreases bindings.len() - i,
    {
        let vars = match get_free_vars(&bindings[i].1) {
            Ok(v) => v,
            Err(e) => return Err(e),
        };
        let ghost prev = out@;
        out = concat_vectors(out, vars);
        proof {
            assert(bindings@.take(i + 1).drop_last() == bindings@.take(i as int));
            let v = cbindings_view(bindings@.take(i + 1));
            assert(v.drop_last() == cbindings_view(bindings@.take(i as int)));
            assert(strings_view(out@) =~= strings_view(prev) + strings_view(vars@));
        }
        i = i + 1;
    }
    assert(bindings@.take(bindings.len() as int) == bindings@);
    Ok(out)
}

/// The free variables of `exp`, in order of occurrence and with repetitions.
fn get_free_vars(exp: &CExpr) -> (r: Result<Vec<String>, ClosureConvertError>)
    ensures
        r matches Ok(v) && strings_view(v@) == free_vars(exp@),
    decreases exp, 0nat,
{
    match exp {
        CExpr::Binop(_op, arg1, arg2) => {
            let vars1 = match get_free_vars(arg1) {
                Ok(v) => v,
                Err(e) => return Err(e),
            };
            let vars2 = match get_free_vars(arg2) {
                Ok(v) => v,
                Err(e) => return Err(e),
            };
            let r = concat_vectors(vars1, vars2);
            assert(strings_view(r@) =~= strings_view(vars1@) + strings_view(vars2@));
            Ok(r)
        },
        CExpr::If(pred, cons, alt) => {
            let vars1 = match get_free_vars(pred) {
                Ok(v) => v,
                Err(e) => return Err(e),
            };
            let vars2 = match get_free_vars(cons) {
                Ok(v) => v,
                Err(e) => return Err(e),
            };
            let vars3 = match get_free_vars(alt) {
                Ok(v) => v,
                Err(e) => return Err(e),
            };
            let r12 = concat_vectors(vars1, vars2);
            assert(strings_view(r12@) =~= strings_view(vars1@) + strings_view(vars2@));
            let r = concat_vectors(r12, vars3);
            assert(strings_view(r@) =~= strings_view(r12@) + strings_view(vars3@));
            Ok(r)
        },
        CExpr::Let(bindings, body) => {
            let binding_vars = cbinding_names(bindings);
            let body_vars = match get_free_vars(body) {
                Ok(v) => v,
                Err(e) => return Err(e),
            };
            Ok(retain_not_in(body_vars, &binding_vars))
        },
        CExpr::Lambda(params, _ret_type, body) => get_free_vars_lambda(params, body),
        CExpr::Closure(lambda, env) => {
            let vars1 = match get_free_vars(lambda) {
                Ok(v) => v,
                Err(e) => return Err(e),
            };
            let vars2 = match get_free_vars(env) {
                Ok(v) => v,
                Err(e) => return Err(e),
            };
            let r = concat_vectors(vars1, vars2);
            assert(strings_view(r@) =~= strings_view(vars1@) + strings_view(vars2@));
            Ok(r)
        },
        CExpr::ClosureApp(func, args) => {
            let vars1 = match get_free_vars(func) {
                Ok(v) => v,
                Err(e) => return Err(e),
            };
            let vars2 = match get_free_vars_array(args) {
                Ok(v) => v,
                Err(e) => return Err(e),
            };
            let r = concat_vectors(vars1, vars2);
            assert(strings_view(r@) =~= strings_view(vars1@) + strings_view(vars2@));
            Ok(r)
        },
        CExpr::Env(bindings) => get_free_vars_bindings(bindings),
        CExpr::EnvGet(env_name, _var) => {
            let mut r: Vec<String> = Vec::new();
            r.push(env_name.clone());
            assert(strings_view(r@) =~= seq![env_name@]);
            Ok(r)
        },
        CExpr::Begin(exps) => get_free_vars_array(exps),
        CExpr::SetBang(_var, val) => get_free_vars(val),
        CExpr::Cons(first, second) => {
            let vars1 = match get_free_vars(first) {
                Ok(v) => v,
                Err(e) => return Err(e),
            };
            let vars2 = match get_free_vars(second) {
                Ok(v) => v,
                Err(e) => return Err(e),
            };
            let r = concat_vectors(vars1, vars2);
            assert(strings_view(r@) =~= strings_view(vars1@) + strings_view(vars2@));
            Ok(r)
        },
        CExpr::Car(val) => get_free_vars(val),
        CExpr::Cdr(val) => get_free_vars(val),
        CExpr::IsNull(val) => get_free_vars(val),
        CExpr::Id(x) => {
            let mut r: Vec<String> = Vec::new();
            r.push(x.clone());
            assert(strings_view(r@) =~= seq![x@]);
            Ok(r)
        },
        _ => {
            let r: Vec<String> = Vec::new();
            assert(strings_view(r@) =~= Seq::<Seq<char>>::empty());
            Ok(r)
        },
    }
}

/// The free variables of a lambda body that its parameters do not bind.
fn get_free_vars_lambda(
    params: &Vec<(String, Type)>,
    body: &CExpr,
) -> (r: Result<Vec<String>, ClosureConvertError>)
    ensures
        r matches Ok(v) && strings_view(v@) == free_vars_lambda(named_types_view(params@), body@),
    decreases body, 1nat,
{
    let param_vars = param_names(params);
    let free_vars = match get_free_vars(body) {
        Ok(v) => v,
        Err(e) => return Err(e),
    };
    Ok(retain_not_in(free_vars, &param_vars))
}

/// Converts the values of a list of bindings, in order.
fn cc_bindings(
    bindings: &Vec<(String, Expr)>,
    env: &TypeEnv,
    gensym: &mut GensymCount,
) -> (r: Result<Vec<(String, CExpr)>, ClosureConvertError>)
    ensures
        ({
            let (sr, n) = cc_bindings_spec(expr_bindings_view(bindings@), old(gensym).count);
            &&& final(gensym).count == n
            &&& match r {
                Ok(v) => sr == Ok::<Seq<(Seq<char>, SpecCExpr)>, Seq<char>>(cbindings_view(v@)),
                Err(e) => sr == Err::<Seq<(Seq<char>, SpecCExpr)>, Seq<char>>(e@),
            }
        }),
    decreases bindings, 1nat,
{
    let ghost n0 = gensym.count;
    let mut out: Vec<(String, CExpr)> = Vec::new();
    let mut i: usize = 0;
    assert(bindings@.take(0) =~= Seq::<(String, Expr)>::empty());
    while i < bindings.len()
        invariant
            i <= bindings.len(),
            n0 == old(gensym).count,
            cc_bindings_spec(expr_bindings_view(bindings@.take(i as int)), n0) == (
                Ok::<Seq<(Seq<char>, SpecCExpr)>, Seq<char>>(cbindings_view(out@)),
                gensym.count,
            ),
        decreases bindings.len() - i,
    {
        let ghost v = expr_bindings_view(bindings@.take(i + 1));
        proof {
            assert(bindings@.take(i + 1).drop_last() == bindings@.take(i as int));
            assert(v.drop_last() == expr_bindings_view(bindings@.take(i as int)));
            assert(v.last() == (bindings@[i as int].0@, expr_view(bindings@[i as int].1)));
        }
        let c = match cc(&bindings[i].1, env, gensym) {
            Ok(c) => c,
            Err(e) => {
                proof {
                    lemma_expr_bindings_view(bindings@);
                    lemma_expr_bindings_view(bindings@.take(i + 1));
                    assert(v =~= expr_bindings_view(bindings@).take(i + 1));
                    lemma_cc_bindings_prefix(expr_bindings_view(bindings@), n0, i + 1);
                }
                return Err(e);
            },
        };
        let name = bindings[i].0.clone();
        proof {
            assert(out@.push((name, c)).drop_last() == out@);
        }
        out.push((name, c));
        i = i + 1;
    }
    assert(bindings@.take(bindings.len() as int) == bindings@);
    Ok(out)
}

/// Converts a list of expressions, in order.
fn cc_exprs(
    exps: &Vec<Expr>,
    env: &TypeEnv,
    gensym: &mut GensymCount,
) -> (r: Result<Vec<CExpr>, ClosureConvertError>)
    ensures
        ({
            let (sr, n) = cc_seq_spec(exprs_view(exps@), old(gensym).count);
            &&& final(gensym).count == n
            &&& match r {
                Ok(v) => sr == Ok::<Seq<SpecCExpr>, Seq<char>>(cexprs_view(v@)),
                Err(e) => sr == Err::<Seq<SpecCExpr>, Seq<char>>(e@),
            }
        }),
    decreases exps, 1nat,
{
    let ghost n0 = gensym.count;
    let mut out: Vec<CExpr> = Vec::new();
    let mut i: usize = 0;
    assert(exps@.take(0) =~= Seq::<Expr>::empty());
    while i < exps.len()
        invariant
            i <= exps.len(),
            n0 == old(gensym).count,
            cc_seq_spec(exprs_view(exps@.take(i as int)), n0) == (
                Ok::<Seq<SpecCExpr>, Seq<char>>(cexprs_view(out@)),
                gensym.count,
            ),
        decreases exps.len() - i,
    {
        let ghost v = exprs_view(exps@.take(i + 1));
        proof {
            assert(exps@.take(i + 1).drop_last() == exps@.take(i as int));
            assert(v.drop_last() == exprs_view(exps@.take(i as int)));
            assert(v.last() == expr_view(exps@[i as int]));
        }
        let c = match cc(&exps[i], env, gensym) {
            Ok(c) => c,
            Err(e) => {
                proof {
                    lemma_exprs_view(exps@);
                    lemma_exprs_view(exps@.take(i + 1));
                    assert(exprs_view(exps@.take(i + 1)) =~= exprs_view(exps@).take(i + 1));
                    lemma_cc_seq_prefix(exprs_view(exps@), n0, i + 1);
                }
                return Err(e);
            },
        };
        proof {
            assert(out@.push(c).drop_last() == out@);
        }
        out.push(c);
        i = i + 1;
    }
    assert(exps@.take(exps.len() as int) == exps@);
    Ok(out)
}

/// Converts a lambda into a closure: the lambda gets its environment as first
/// parameter, and its free variables are read from that environment.
fn cc_lambda(
    params: &Vec<(String, Type)>,
    ret_type: &Type,
    body: &Expr,
    env: &TypeEnv,
    gensym: &mut GensymCount,
) -> (r: Result<CExpr, ClosureConvertError>)
    ensures
        (cc_result_view(r), final(gensym).count) == cc_spec(
            SpecExpr::Lambda(named_types_view(params@), ret_type@, Box::new(body@)),
            old(gensym).count,
        ),
    decreases body, 1nat,
{
    let inner_env = env.add_bindings(copy_named_types(params));
    let cbody = match cc(body, &inner_env, gensym) {
        Ok(val) => val,
        Err(e) => return Err(e),
    };
    let free_vars = match get_free_vars_lambda(params, &cbody) {
        Ok(val) => val,
        Err(e) => return Err(e),
    };
    let ghost fv = strings_view(free_vars@);
    // Construct environment name
    let env_name: String = generate_env_name(gensym);
    // Add environment to beginning of parameter list
    let mut new_params = copy_named_types(params);
    let ghost old_params = new_params@;
    new_params.insert(0, (env_name.clone(), Type::Unknown));
    assert(named_types_view(new_params@) =~= seq![(env_name@, SpecType::Unknown)] + named_types_view(params@)) by {
        assert(new_params@ =~= seq![(env_name, Type::Unknown)] + old_params);
        assert(named_types_view(old_params) =~= named_types_view(params@));
    }
    // (x, Id(x)) (y, Id(y)) ...
    let mut env_contents: Vec<(String, CExpr)> = Vec::new();
    let mut i: usize = 0;
    while i < free_vars.len()
        invariant
            i <= free_vars.len(),
            fv == strings_view(free_vars@),
            cbindings_view(env_contents@) == env_bindings(fv.take(i as int)),
        decreases free_vars.len() - i,
    {
        let var = free_vars[i].clone();
        let id = CExpr::Id(free_vars[i].clone());
        let ghost prev = env_contents@;
        assert(fv[i as int] == free_vars@[i as int]@);
        env_contents.push((var, id));
        proof {
            assert(env_contents@.drop_last() == prev);
            assert(env_contents@.last() == (var, id));
            assert(cexpr_view(id) == SpecCExpr::Id(fv[i as int]));
            assert(cbindings_view(env_contents@) == cbindings_view(prev).push((fv[i as int], SpecCExpr::Id(fv[i as int]))));
            assert(fv.take(i + 1) =~= fv.take(i as int).push(fv[i as int]));
            assert(env_bindings(fv.take(i + 1)) =~= env_bindings(fv.take(i as int)).push((fv[i as int], SpecCExpr::Id(fv[i as int]))));
        }
        i = i + 1;
    }
    assert(fv.take(fv.len() as int) =~= fv);
    let env_exp = CExpr::Env(env_contents);
    let mut new_body: CExpr = match cc(body, env, gensym) {
        Ok(val) => val,
        Err(e) => return Err(e),
    };
    let ghost converted = new_body@;
    let mut j: usize = 0;
    while j < free_vars.len()
        invariant
            j <= free_vars.len(),
            fv == strings_view(free_vars@),
            new_body@ == subst_all(converted, fv.take(j as int), env_name@),
        decreases free_vars.len() - j,
    {
        let var = &free_vars[j];
        let replacement = CExpr::EnvGet(env_name.clone(), var.clone());
        new_body = match substitute(&new_body, var, &replacement) {
            Ok(val) => val,
            Err(e) => return Err(e),
        };
        proof {
            assert(fv.take(j + 1).drop_last() =~= fv.take(j as int));
        }
        j = j + 1;
    }
    assert(fv.take(fv.len() as int) =~= fv);
    let ghost params_view = named_types_view(new_params@);
    let ghost body_view = new_body@;
    let lambda = CExpr::Lambda(new_params, copy_type(ret_type), Box::new(new_body));
    assert(lambda@ == SpecCExpr::Lambda(params_view, ret_type@, Box::new(body_view)));
    assert(params_view == seq![(env_name@, SpecType::Unknown)] + named_types_view(params@));
    assert(body_view == subst_all(converted, fv, env_name@));
    assert(env_exp@ == SpecCExpr::Env(env_bindings(fv)));
    let result = CExpr::Closure(Box::new(lambda), Box::new(env_exp));
    assert(result@ == closure_of(named_types_view(params@), ret_type@, env_name@, fv, converted));
    Ok(result)
}

/// Closure conversion of `exp`, with names for environments drawn from `gensym`.
pub fn closure_convert(exp: &Expr, gensym: &mut GensymCount) -> (r: Result<CExpr, ClosureConvertError>)
    ensures
        (cc_result_view(r), final(gensym).count) == cc_spec(exp@, old(gensym).count),
{
    let env = TypeEnv::new();
    cc(exp, &env, gensym)
}

fn cc(exp: &Expr, env: &TypeEnv, gensym: &mut GensymCount) -> (r: Result<CExpr, ClosureConvertError>)
    ensures
        (cc_result_view(r), final(gensym).count) == cc_spec(exp@, old(gensym).count),
    decreases exp, 0nat,
{
    match exp {
        Expr::Num(x) => Ok(CExpr::Num(*x)),
        Expr::Bool(x) => Ok(CExpr::Bool(*x)),
        Expr::Str(x) => Ok(CExpr::Str(x.clone())),
        Expr::Id(x) => Ok(CExpr::Id(x.clone())),
        Expr::Binop(op, arg1, arg2) => {
            let carg1 = match cc(arg1, env, gensym) {
                Ok(v) => v,
                Err(e) => return Err(e),
            };
            let carg2 = match cc(arg2, env, gensym) {
                Ok(v) => v,
                Err(e) => return Err(e),
            };
            Ok(CExpr::Binop(*op, Box::new(carg1), Box::new(carg2)))
        },
        Expr::If(pred, cons, alt) => {
            let cpred = match cc(pred, env, gensym) {
                Ok(v) => v,
                Err(e) => return Err(e),
            };
            let ccons = match cc(cons, env, gensym) {
                Ok(v) => v,
                Err(e) => return Err(e),
            };
            let calt = match cc(alt, env, gensym) {
                Ok(v) => v,
                Err(e) => return Err(e),
            };
            Ok(CExpr::If(Box::new(cpred), Box::new(ccons), Box::new(calt)))
        },
        Expr::Let(bindings, body) => {
            let ghost sbs = expr_bindings_view(bindings@);
            let mut binding_type_map: Vec<(String, Type)> = Vec::new();
            let mut i: usize = 0;
            assert(named_types_view(binding_type_map@) =~= Seq::<(Seq<char>, SpecType)>::empty());
            assert(bindings@.take(0) =~= Seq::<(String, Expr)>::empty());
            #[verifier::loop_isolation(false)]
            while i < bindings.len()
                invariant
                    i <= bindings.len(),
                    sbs == expr_bindings_view(bindings@),
                    binding_types_of(Seq::empty(), expr_bindings_view(bindings@.take(i as int))) == Ok::<Seq<(Seq<char>, SpecType)>, Seq<char>>(named_types_view(binding_type_map@)),
                decreases bindings.len() - i,
            {
                let ghost v = expr_bindings_view(bindings@.take(i + 1));
                proof {
                    assert(bindings@.take(i + 1).drop_last() == bindings@.take(i as int));
                    assert(v.drop_last() == expr_bindings_view(bindings@.take(i as int)));
                    assert(v.last() == (bindings@[i as int].0@, expr_view(bindings@[i as int].1)));
                }
                match type_check(&bindings[i].1) {
                    Ok(exp_typ) => {
                        let name = bindings[i].0.clone();
                        let ghost prev = binding_type_map@;
                        binding_type_map.push((name, exp_typ));
                        proof {
                            assert(named_types_view(binding_type_map@) =~= named_types_view(prev).push((name@, exp_typ@)));
                        }
                    },
                    Err(e) => {
                        proof {
                            lemma_expr_bindings_view(bindings@);
                            lemma_expr_bindings_view(bindings@.take(i + 1));
                            assert(expr_bindings_view(bindings@.take(i + 1)) =~= sbs.take(i + 1));
                            lemma_binding_types_of_prefix(Seq::empty(), sbs, i + 1);
                        }
                        let message = String::from_str("Type checking error during closure conversion: ");
                        let message = message.concat(e.message().as_str());
                        return Err(ClosureConvertError(message));
                    },
                }
                i = i + 1;
            }
            assert(bindings@.take(bindings.len() as int) == bindings@);
            let cbindings = match cc_bindings(bindings, env, gensym) {
                Ok(v) => v,
                Err(e) => return Err(e),
            };
            let inner_env = env.add_bindings(binding_type_map);
            let cbody = match cc(body, &inner_env, gensym) {
                Ok(v) => v,
                Err(e) => return Err(e),
            };
            Ok(CExpr::Let(cbindings, Box::new(cbody)))
        },
        Expr::Lambda(params, ret_typ, body) => cc_lambda(params, ret_typ, body, env, gensym),
        Expr::Begin(exps) => {
            match cc_exprs(exps, env, gensym) {
                Ok(cexps) => Ok(CExpr::Begin(cexps)),
                Err(e) => Err(e),
            }
        },
        Expr::SetBang(sym, val) => {
            match cc(val, env, gensym) {
                Ok(cval) => Ok(CExpr::SetBang(sym.clone(), Box::new(cval))),
                Err(e) => Err(e),
            }
        },
        Expr::Cons(first, rest) => {
            let cfirst = match cc(first, env, gensym) {
                Ok(v) => v,
                Err(e) => return Err(e),
            };
            let crest = match cc(rest, env, gensym) {
                Ok(v) => v,
                Err(e) => return Err(e),
            };
            Ok(CExpr::Cons(Box::new(cfirst), Box::new(crest)))
        },
        Expr::Car(val) => match cc(val, env, gensym) {
            Ok(cval) => Ok(CExpr::Car(Box::new(cval))),
            Err(e) => Err(e),
        },
        Expr::Cdr(val) => match cc(val, env, gensym) {
            Ok(cval) => Ok(CExpr::Cdr(Box::new(cval))),
            Err(e) => Err(e),
        },
        Expr::IsNull(val) => match cc(val, env, gensym) {
            Ok(cval) => Ok(CExpr::IsNull(Box::new(cval))),
            Err(e) => Err(e),
        },
        Expr::Null(typ) => Ok(CExpr::Null(copy_type(typ))),
        Expr::FnApp(func, args) => {
            let cargs = match cc_exprs(args, env, gensym) {
                Ok(v) => v,
                Err(e) => return Err(e),
            };
            match cc(func, env, gensym) {
                Ok(cfunc) => Ok(CExpr::ClosureApp(Box::new(cfunc), cargs)),
                Err(e) => Err(e),
            }
        },
    }
}

} // verus!
