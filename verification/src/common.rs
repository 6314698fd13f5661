//! The source language: operators, types, expressions and typing environments,
//! each with a mathematical model that the contracts speak of.
use vstd::prelude::*;

verus! {

broadcast use vstd::std_specs::vec::group_vec_axioms;

/// Binary operators of the source language.
#[derive(Clone, Copy, Debug, PartialEq, Eq, Structural)]
pub enum BinOp {
    Add,
    Sub,
    Mul,
    Div,
    LessThan,
    Concat,
    And,
    Or,
}

/// Types of the source language.
#[derive(Debug, PartialEq)]
pub enum Type {
    Int,
    Bool,
    Str,
    List(Box<Type>),
    // parameter types, return type
    Func(Vec<Type>, Box<Type>),
    Unknown,
}

/// Mathematical model of a `Type`.
pub enum SpecType {
    Int,
    Bool,
    Str,
    List(Box<SpecType>),
    Func(Seq<SpecType>, Box<SpecType>),
    Unknown,
}

pub open spec fn type_view(t: Type) -> SpecType
    decreases t,
{
    match t {
        Type::Int => SpecType::Int,
        Type::Bool => SpecType::Bool,
        Type::Str => SpecType::Str,
        Type::List(elem) => SpecType::List(Box::new(type_view(*elem))),
        Type::Func(params, ret) => SpecType::Func(types_view(params@), Box::new(type_view(*ret))),
        Type::Unknown => SpecType::Unknown,
    }
}

pub open spec fn types_view(s: Seq<Type>) -> Seq<SpecType>
    decreases s,
{
    if s.len() == 0 {
        Seq::empty()
    } else {
        types_view(s.drop_last()).push(type_view(s.last()))
    }
}

impl View for Type {
    type V = SpecType;

    open spec fn view(&self) -> SpecType {
        type_view(*self)
    }
}

/// A binding of a name to a value, both by their models.
pub open spec fn named_type_view(b: (String, Type)) -> (Seq<char>, SpecType) {
    (b.0@, type_view(b.1))
}

pub open spec fn named_types_view(s: Seq<(String, Type)>) -> Seq<(Seq<char>, SpecType)> {
    s.map_values(|b: (String, Type)| named_type_view(b))
}

/// Expressions of the source language.
#[derive(Debug, PartialEq)]
pub enum Expr {
    Num(i64),
    Bool(bool),
    Str(String),
    Id(String),
    // operator, arg1, arg2
    Binop(BinOp, Box<Expr>, Box<Expr>),
    // predicate, consequent, alternate
    If(Box<Expr>, Box<Expr>, Box<Expr>),
    // variable bindings, body
    Let(Vec<(String, Expr)>, Box<Expr>),
    // parameter names and types, return type, body
    Lambda(Vec<(String, Type)>, Type, Box<Expr>),
    Begin(Vec<Expr>),
    SetBang(String, Box<Expr>),
    Cons(Box<Expr>, Box<Expr>),
    Car(Box<Expr>),
    Cdr(Box<Expr>),
    IsNull(Box<Expr>),
    Null(Type),
    // function, arguments
    FnApp(Box<Expr>, Vec<Expr>),
}

/// Mathematical model of an `Expr`.
pub enum SpecExpr {
    Num(i64),
    Bool(bool),
    Str(Seq<char>),
    Id(Seq<char>),
    Binop(BinOp, Box<SpecExpr>, Box<SpecExpr>),
    If(Box<SpecExpr>, Box<SpecExpr>, Box<SpecExpr>),
    Let(Seq<(Seq<char>, SpecExpr)>, Box<SpecExpr>),
    Lambda(Seq<(Seq<char>, SpecType)>, SpecType, Box<SpecExpr>),
    Begin(Seq<SpecExpr>),
    SetBang(Seq<char>, Box<SpecExpr>),
    Cons(Box<SpecExpr>, Box<SpecExpr>),
    Car(Box<SpecExpr>),
    Cdr(Box<SpecExpr>),
    IsNull(Box<SpecExpr>),
    Null(SpecType),
    FnApp(Box<SpecExpr>, Seq<SpecExpr>),
}

pub open spec fn expr_view(e: Expr) -> SpecExpr
    decreases e,
{
    match e {
        Expr::Num(x) => SpecExpr::Num(x),
        Expr::Bool(x) => SpecExpr::Bool(x),
        Expr::Str(x) => SpecExpr::Str(x@),
        Expr::Id(x) => SpecExpr::Id(x@),
        Expr::Binop(op, a, b) => SpecExpr::Binop(
            op,
            Box::new(expr_view(*a)),
            Box::new(expr_view(*b)),
        ),
        Expr::If(p, c, a) => SpecExpr::If(
            Box::new(expr_view(*p)),
            Box::new(expr_view(*c)),
            Box::new(expr_view(*a)),
        ),
        Expr::Let(bindings, body) => SpecExpr::Let(
            expr_bindings_view(bindings@),
            Box::new(expr_view(*body)),
        ),
        Expr::Lambda(params, ret, body) => SpecExpr::Lambda(
            named_types_view(params@),
            type_view(ret),
            Box::new(expr_view(*body)),
        ),
        Expr::Begin(exps) => SpecExpr::Begin(exprs_view(exps@)),
        Expr::SetBang(x, v) => SpecExpr::SetBang(x@, Box::new(expr_view(*v))),
        Expr::Cons(a, b) => SpecExpr::Cons(Box::new(expr_view(*a)), Box::new(expr_view(*b))),
        Expr::Car(a) => SpecExpr::Car(Box::new(expr_view(*a))),
        Expr::Cdr(a) => SpecExpr::Cdr(Box::new(expr_view(*a))),
        Expr::IsNull(a) => SpecExpr::IsNull(Box::new(expr_view(*a))),
        Expr::Null(t) => SpecExpr::Null(type_view(t)),
        Expr::FnApp(f, args) => SpecExpr::FnApp(Box::new(expr_view(*f)), exprs_view(args@)),
    }
}

pub open spec fn exprs_view(s: Seq<Expr>) -> Seq<SpecExpr>
    decreases s,
{
    if s.len() == 0 {
        Seq::empty()
    } else {
        exprs_view(s.drop_last()).push(expr_view(s.last()))
    }
}

pub open spec fn expr_bindings_view(s: Seq<(String, Expr)>) -> Seq<(Seq<char>, SpecExpr)>
    decreases s,
{
    if s.len() == 0 {
        Seq::empty()
    } else {
        expr_bindings_view(s.drop_last()).push((s.last().0@, expr_view(s.last().1)))
    }
}

impl View for Expr {
    type V = SpecExpr;

    open spec fn view(&self) -> SpecExpr {
        expr_view(*self)
    }
}

pub proof fn lemma_types_view(s: Seq<Type>)
    ensures
        types_view(s).len() == s.len(),
        forall|i: int| 0 <= i < s.len() ==> #[trigger] types_view(s)[i] == type_view(s[i]),
    decreases s.len(),
{
    if s.len() > 0 {
        lemma_types_view(s.drop_last());
    }
}

pub proof fn lemma_exprs_view(s: Seq<Expr>)
    ensures
        exprs_view(s).len() == s.len(),
        forall|i: int| 0 <= i < s.len() ==> #[trigger] exprs_view(s)[i] == expr_view(s[i]),
    decreases s.len(),
{
    if s.len() > 0 {
        lemma_exprs_view(s.drop_last());
    }
}

pub proof fn lemma_expr_bindings_view(s: Seq<(String, Expr)>)
    ensures
        expr_bindings_view(s).len() == s.len(),
        forall|i: int|
            0 <= i < s.len() ==> #[trigger] expr_bindings_view(s)[i] == (
                s[i].0@,
                expr_view(s[i].1),
            ),
    decreases s.len(),
{
    if s.len() > 0 {
        lemma_expr_bindings_view(s.drop_last());
    }
}

/// A copy of a type, equal to it by its model.
pub fn copy_type(t: &Type) -> (r: Type)
    ensures
        r@ == t@,
    decreases t,
{
    match t {
        Type::Int => Type::Int,
        Type::Bool => Type::Bool,
        Type::Str => Type::Str,
        Type::Unknown => Type::Unknown,
        Type::List(elem) => Type::List(Box::new(copy_type(elem))),
        Type::Func(params, ret) => {
            let mut out: Vec<Type> = Vec::new();
            let mut i: usize = 0;
            #[verifier::loop_isolation(false)]
            while i < params.len()
                invariant
                    i <= params.len(),
                    types_view(out@) == types_view(params@.take(i as int)),
                decreases params.len() - i,
            {
                let c = copy_type(&params[i]);
                proof {
                    assert(out@.push(c).drop_last() == out@);
                    assert(params@.take(i + 1).drop_last() == params@.take(i as int));
                }
                out.push(c);
                i = i + 1;
            }
            assert(params@.take(params.len() as int) == params@);
            Type::Func(out, Box::new(copy_type(ret)))
        },
    }
}

impl Clone for Type {
    fn clone(&self) -> (r: Type)
        ensures
            r@ == self@,
    {
        copy_type(self)
    }
}

/// A copy of a list of named types, equal to it by its model.
pub fn copy_named_types(v: &Vec<(String, Type)>) -> (r: Vec<(String, Type)>)
    ensures
        named_types_view(r@) == named_types_view(v@),
{
    let mut out: Vec<(String, Type)> = Vec::new();
    let mut i: usize = 0;
    while i < v.len()
        invariant
            i <= v.len(),
            out@.len() == i,
            forall|j: int| 0 <= j < i ==> named_type_view(#[trigger] out@[j]) == named_type_view(v@[j]),
        decreases v.len() - i,
    {
        let name = v[i].0.clone();
        let t = copy_type(&v[i].1);
        out.push((name, t));
        i = i + 1;
    }
    assert(named_types_view(out@) =~= named_types_view(v@));
    out
}

/// Decides whether two types are equal by their models.
pub fn type_eq(a: &Type, b: &Type) -> (r: bool)
    ensures
        r == (a@ == b@),
    decreases a,
{
    match (a, b) {
        (Type::Int, Type::Int) => true,
        (Type::Bool, Type::Bool) => true,
        (Type::Str, Type::Str) => true,
        (Type::Unknown, Type::Unknown) => true,
        (Type::List(x), Type::List(y)) => type_eq(x, y),
        (Type::Func(p1, r1), Type::Func(p2, r2)) => {
            proof {
                lemma_types_view(p1@);
                lemma_types_view(p2@);
            }
            if p1.len() != p2.len() {
                return false;
            }
            let mut i: usize = 0;
            #[verifier::loop_isolation(false)]
            while i < p1.len()
                invariant
                    i <= p1.len(),
                    p1.len() == p2.len(),
                    forall|j: int| 0 <= j < i ==> type_view(#[trigger] p1@[j]) == type_view(p2@[j]),
                decreases p1.len() - i,
            {
                if !type_eq(&p1[i], &p2[i]) {
                    assert(types_view(p1@)[i as int] != types_view(p2@)[i as int]);
                    return false;
                }
                i = i + 1;
            }
            assert(types_view(p1@) =~= types_view(p2@));
            type_eq(r1, r2)
        },
        _ => false,
    }
}

/// A typing environment: a list of bindings, where the last binding of a name
/// is the one in force.
#[derive(Debug)]
pub struct TypeEnv {
    pub bindings: Vec<(String, Type)>,
}

impl View for TypeEnv {
    type V = Seq<(Seq<char>, SpecType)>;

    open spec fn view(&self) -> Seq<(Seq<char>, SpecType)> {
        named_types_view(self.bindings@)
    }
}

/// The type bound to `x` in `env`: that of its last binding there.
pub open spec fn lookup_type(env: Seq<(Seq<char>, SpecType)>, x: Seq<char>) -> Option<SpecType>
    decreases env.len(),
{
    if env.len() == 0 {
        None
    } else if env.last().0 == x {
        Some(env.last().1)
    } else {
        lookup_type(env.drop_last(), x)
    }
}

pub open spec fn option_type_view(t: Option<Type>) -> Option<SpecType> {
    match t {
        Some(t) => Some(t@),
        None => None,
    }
}

impl Clone for TypeEnv {
    fn clone(&self) -> (r: TypeEnv)
        ensures
            r@ == self@,
    {
        TypeEnv { bindings: copy_named_types(&self.bindings) }
    }
}

impl TypeEnv {
    /// The empty environment.
    pub fn new() -> (env: TypeEnv)
        ensures
            env@ == Seq::<(Seq<char>, SpecType)>::empty(),
    {
        let env = TypeEnv { bindings: Vec::new() };
        assert(env@ =~= Seq::<(Seq<char>, SpecType)>::empty());
        env
    }

    /// This environment with one more binding, which shadows earlier ones of its name.
    pub fn add_binding(&self, binding: (String, Type)) -> (env: TypeEnv)
        ensures
            env@ == self@.push(named_type_view(binding)),
    {
        let mut bindings = copy_named_types(&self.bindings);
        let ghost before = bindings@;
        bindings.push(binding);
        proof {
            assert(named_types_view(bindings@) =~= named_types_view(before).push(
                named_type_view(binding),
            ));
        }
        TypeEnv { bindings }
    }

    /// This environment with the given bindings added in order.
    pub fn add_bindings(&self, new_bindings: Vec<(String, Type)>) -> (env: TypeEnv)
        ensures
            env@ == self@ + named_types_view(new_bindings@),
    {
        let mut bindings = copy_named_types(&self.bindings);
        let ghost start = bindings@;
        let mut i: usize = 0;
        while i < new_bindings.len()
            invariant
                i <= new_bindings.len(),
                named_types_view(bindings@) == named_types_view(start) + named_types_view(
                    new_bindings@.take(i as int),
                ),
            decreases new_bindings.len() - i,
        {
            let name = new_bindings[i].0.clone();
            let t = copy_type(&new_bindings[i].1);
            let ghost prev = bindings@;
            bindings.push((name, t));
            proof {
                assert(named_types_view(bindings@) =~= named_types_view(prev).push(
                    named_type_view((name, t)),
                ));
                assert(named_types_view(new_bindings@.take(i + 1)) =~= named_types_view(
                    new_bindings@.take(i as int),
                ).push(named_type_view(new_bindings@[i as int])));
            }
            i = i + 1;
        }
        assert(new_bindings@.take(new_bindings.len() as int) == new_bindings@);
        TypeEnv { bindings }
    }

    /// The type bound to `x`, if any.
    pub fn lookup(&self, x: &String) -> (r: Option<Type>)
        ensures
            option_type_view(r) == lookup_type(self@, x@),
    {
        let mut i: usize = self.bindings.len();
        assert(self@.take(i as int) =~= self@);
        while i > 0
            invariant
                i <= self.bindings.len(),
                lookup_type(self@, x@) == lookup_type(self@.take(i as int), x@),
            decreases i,
        {
            let ghost pre = self@.take(i as int);
            assert(pre.drop_last() =~= self@.take(i - 1));
            if self.bindings[i - 1].0 == *x {
                return Some(copy_type(&self.bindings[i - 1].1));
            }
            i = i - 1;
        }
        None
    }
}

} // verus!
