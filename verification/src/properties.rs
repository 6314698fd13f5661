//! Properties of closure conversion that hold for every input.
use vstd::prelude::*;
use crate::common::{SpecType, SpecExpr};
use crate::type_checker::binding_types_of;
use crate::gensym::env_name;
use crate::substitution::{
    free_env_names, free_env_names_seq, lemma_concat_contains, lemma_without_contains,
    subst_all_free_vars, lemma_env_bindings_free_vars,
};
use crate::closure_convert::{
    free_vars, free_vars_seq, free_vars_bindings, free_vars_lambda, without, binding_names,
    SpecCExpr, cc_spec, cc_seq_spec, cc_bindings_spec, type_error_message, subst, subst_seq,
    subst_bindings, subst_all, env_bindings, closure_of,
};

verus! {

/// Whether some `Let` in `e` (at any depth, the values of its bindings included)
/// has a binding whose value does not type check in the empty environment.
pub open spec fn has_ill_typed_binding(e: SpecExpr) -> bool
    decreases e,
{
    match e {
        SpecExpr::Num(_) => false,
        SpecExpr::Bool(_) => false,
        SpecExpr::Str(_) => false,
        SpecExpr::Id(_) => false,
        SpecExpr::Null(_) => false,
        SpecExpr::Binop(_, a, b) => has_ill_typed_binding(*a) || has_ill_typed_binding(*b),
        SpecExpr::If(p, c, a) => has_ill_typed_binding(*p) || has_ill_typed_binding(*c)
            || has_ill_typed_binding(*a),
        SpecExpr::Let(bs, body) => binding_types_of(Seq::empty(), bs) is Err
            || any_ill_typed_binding_values(bs) || has_ill_typed_binding(*body),
        SpecExpr::Lambda(_, _, body) => has_ill_typed_binding(*body),
        SpecExpr::Begin(es) => any_ill_typed_binding(es),
        SpecExpr::SetBang(_, v) => has_ill_typed_binding(*v),
        SpecExpr::Cons(a, b) => has_ill_typed_binding(*a) || has_ill_typed_binding(*b),
        SpecExpr::Car(a) => has_ill_typed_binding(*a),
        SpecExpr::Cdr(a) => has_ill_typed_binding(*a),
        SpecExpr::IsNull(a) => has_ill_typed_binding(*a),
        SpecExpr::FnApp(f, args) => has_ill_typed_binding(*f) || any_ill_typed_binding(args),
    }
}

pub open spec fn any_ill_typed_binding(es: Seq<SpecExpr>) -> bool
    decreases es,
{
    es.len() > 0 && (any_ill_typed_binding(es.drop_last()) || has_ill_typed_binding(es.last()))
}

pub open spec fn any_ill_typed_binding_values(bs: Seq<(Seq<char>, SpecExpr)>) -> bool
    decreases bs,
{
    bs.len() > 0 && (any_ill_typed_binding_values(bs.drop_last()) || has_ill_typed_binding(
        bs.last().1,
    ))
}

/// Whether `m` is the message of a closure-conversion error caused by a type error.
pub open spec fn is_type_error_message(m: Seq<char>) -> bool {
    exists|t: Seq<char>| #[trigger] type_error_message(t) == m
}

/// The converted result in the first component fails exactly where `fails` says,
/// and always with a type error message.
pub open spec fn fails_as<T>(r: Result<T, Seq<char>>, fails: bool) -> bool {
    &&& (r is Err <==> fails)
    &&& (r matches Err(m) ==> is_type_error_message(m))
}

proof fn lemma_cc_fails(e: SpecExpr, n: u64)
    ensures
        fails_as(cc_spec(e, n).0, has_ill_typed_binding(e)),
    decreases e,
{
    match e {
        SpecExpr::Binop(_, a, b) => {
            lemma_cc_fails(*a, n);
            lemma_cc_fails(*b, cc_spec(*a, n).1);
        },
        SpecExpr::If(p, c, a) => {
            lemma_cc_fails(*p, n);
            let n1 = cc_spec(*p, n).1;
            lemma_cc_fails(*c, n1);
            let n2 = cc_spec(*c, n1).1;
            lemma_cc_fails(*a, n2);
        },
        SpecExpr::Let(bs, body) => {
            if let Err(m) = binding_types_of(Seq::empty(), bs) {
                assert(type_error_message(m) == type_error_message(m));
            } else {
                lemma_cc_bindings_fails(bs, n);
                lemma_cc_fails(*body, cc_bindings_spec(bs, n).1);
            }
        },
        SpecExpr::Lambda(_, _, body) => {
            lemma_cc_fails(*body, n);
            let n1 = cc_spec(*body, n).1;
            lemma_cc_fails(*body, crate::gensym::next_count(n1));
        },
        SpecExpr::Begin(es) => {
            lemma_cc_seq_fails(es, n);
        },
        SpecExpr::SetBang(_, v) => {
            lemma_cc_fails(*v, n);
        },
        SpecExpr::Cons(a, b) => {
            lemma_cc_fails(*a, n);
            lemma_cc_fails(*b, cc_spec(*a, n).1);
        },
        SpecExpr::Car(a) => {
            lemma_cc_fails(*a, n);
        },
        SpecExpr::Cdr(a) => {
            lemma_cc_fails(*a, n);
        },
        SpecExpr::IsNull(a) => {
            lemma_cc_fails(*a, n);
        },
        SpecExpr::FnApp(f, args) => {
            lemma_cc_seq_fails(args, n);
            lemma_cc_fails(*f, cc_seq_spec(args, n).1);
        },
        _ => {},
    }
}

proof fn lemma_cc_seq_fails(es: Seq<SpecExpr>, n: u64)
    ensures
        fails_as(cc_seq_spec(es, n).0, any_ill_typed_binding(es)),
    decreases es,
{
    if es.len() > 0 {
        lemma_cc_seq_fails(es.drop_last(), n);
        lemma_cc_fails(es.last(), cc_seq_spec(es.drop_last(), n).1);
    }
}

proof fn lemma_cc_bindings_fails(bs: Seq<(Seq<char>, SpecExpr)>, n: u64)
    ensures
        fails_as(cc_bindings_spec(bs, n).0, any_ill_typed_binding_values(bs)),
    decreases bs,
{
    if bs.len() > 0 {
        lemma_cc_bindings_fails(bs.drop_last(), n);
        lemma_cc_fails(bs.last().1, cc_bindings_spec(bs.drop_last(), n).1);
    }
}

/// Closure conversion fails exactly when some `Let` in the input has a binding
/// whose value does not type check in the empty environment, whatever the name
/// counter; and then its message is a type-checking error message.
pub proof fn closure_convert_fails_iff_ill_typed_binding(e: SpecExpr, n: u64)
    ensures
        cc_spec(e, n).0 is Err <==> has_ill_typed_binding(e),
        cc_spec(e, n).0 matches Err(m) ==> exists|t: Seq<char>| #[trigger] type_error_message(t) == m,
{
    lemma_cc_fails(e, n);
}

/// Whether `s` is a name that the counter hands out for environments.
pub open spec fn is_env_name(s: Seq<char>) -> bool {
    exists|k: u64| #[trigger] env_name(k) == s
}

/// Whether every lambda in `c` stands as the lambda of a closure, takes the
/// closure's environment (of unknown type, under a generated environment name) as
/// its first parameter, and is paired with an `Env`; the bodies of such lambdas and
/// all other parts are of the same form.
pub open spec fn closures_well_formed(c: SpecCExpr) -> bool
    decreases c,
{
    match c {
        SpecCExpr::Binop(_, a, b) => closures_well_formed(*a) && closures_well_formed(*b),
        SpecCExpr::If(p, t, a) => closures_well_formed(*p) && closures_well_formed(*t)
            && closures_well_formed(*a),
        SpecCExpr::Let(bs, body) => closures_well_formed_bindings(bs) && closures_well_formed(
            *body,
        ),
        SpecCExpr::Lambda(_, _, _) => false,
        SpecCExpr::Closure(l, env) => {
            &&& match *l {
                SpecCExpr::Lambda(params, _, body) => {
                    &&& params.len() > 0
                    &&& params[0].1 == SpecType::Unknown
                    &&& is_env_name(params[0].0)
                    &&& closures_well_formed(*body)
                },
                _ => false,
            }
            &&& match *env {
                SpecCExpr::Env(bs) => closures_well_formed_bindings(bs),
                _ => false,
            }
        },
        SpecCExpr::ClosureApp(f, args) => closures_well_formed(*f) && closures_well_formed_seq(
            args,
        ),
        SpecCExpr::Env(bs) => closures_well_formed_bindings(bs),
        SpecCExpr::EnvGet(_, _) => true,
        SpecCExpr::Begin(es) => closures_well_formed_seq(es),
        SpecCExpr::SetBang(_, v) => closures_well_formed(*v),
        SpecCExpr::Cons(a, b) => closures_well_formed(*a) && closures_well_formed(*b),
        SpecCExpr::Car(a) => closures_well_formed(*a),
        SpecCExpr::Cdr(a) => closures_well_formed(*a),
        SpecCExpr::IsNull(a) => closures_well_formed(*a),
        SpecCExpr::Null(_) => true,
        SpecCExpr::Id(_) => true,
        SpecCExpr::Num(_) => true,
        SpecCExpr::Bool(_) => true,
        SpecCExpr::Str(_) => true,
    }
}

pub open spec fn closures_well_formed_seq(es: Seq<SpecCExpr>) -> bool
    decreases es,
{
    es.len() == 0 || (closures_well_formed_seq(es.drop_last()) && closures_well_formed(es.last()))
}

pub open spec fn closures_well_formed_bindings(bs: Seq<(Seq<char>, SpecCExpr)>) -> bool
    decreases bs,
{
    bs.len() == 0 || (closures_well_formed_bindings(bs.drop_last()) && closures_well_formed(
        bs.last().1,
    ))
}

proof fn lemma_subst_well_formed(e: SpecCExpr, x: Seq<char>, r: SpecCExpr)
    requires
        closures_well_formed(e),
        closures_well_formed(r),
    ensures
        closures_well_formed(subst(e, x, r)),
    decreases e,
{
    match e {
        SpecCExpr::Binop(_, a, b) => {
            lemma_subst_well_formed(*a, x, r);
            lemma_subst_well_formed(*b, x, r);
        },
        SpecCExpr::If(p, t, a) => {
            lemma_subst_well_formed(*p, x, r);
            lemma_subst_well_formed(*t, x, r);
            lemma_subst_well_formed(*a, x, r);
        },
        SpecCExpr::Let(bs, body) => {
            lemma_subst_bindings_well_formed(bs, x, r);
            lemma_subst_well_formed(*body, x, r);
        },
        SpecCExpr::Closure(l, env) => {
            if let SpecCExpr::Lambda(params, ret, body) = *l {
                lemma_subst_well_formed(*body, x, r);
                if !crate::closure_convert::binding_names(params).contains(x) {
                    assert(subst(*l, x, r) == SpecCExpr::Lambda(params, ret, Box::new(subst(*body, x, r))));
                }
            }
            if let SpecCExpr::Env(bs) = *env {
                lemma_subst_bindings_well_formed(bs, x, r);
                assert(subst(*env, x, r) == SpecCExpr::Env(subst_bindings(bs, x, r)));
            }
        },
        SpecCExpr::ClosureApp(f, args) => {
            lemma_subst_well_formed(*f, x, r);
            lemma_subst_seq_well_formed(args, x, r);
        },
        SpecCExpr::Env(bs) => {
            lemma_subst_bindings_well_formed(bs, x, r);
        },
        SpecCExpr::Begin(es) => {
            lemma_subst_seq_well_formed(es, x, r);
        },
        SpecCExpr::SetBang(_, v) => {
            lemma_subst_well_formed(*v, x, r);
        },
        SpecCExpr::Cons(a, b) => {
            lemma_subst_well_formed(*a, x, r);
            lemma_subst_well_formed(*b, x, r);
        },
        SpecCExpr::Car(a) => {
            lemma_subst_well_formed(*a, x, r);
        },
        SpecCExpr::Cdr(a) => {
            lemma_subst_well_formed(*a, x, r);
        },
        SpecCExpr::IsNull(a) => {
            lemma_subst_well_formed(*a, x, r);
        },
        _ => {},
    }
}

proof fn lemma_subst_seq_well_formed(es: Seq<SpecCExpr>, x: Seq<char>, r: SpecCExpr)
    requires
        closures_well_formed_seq(es),
        closures_well_formed(r),
    ensures
        closures_well_formed_seq(subst_seq(es, x, r)),
    decreases es,
{
    if es.len() > 0 {
        lemma_subst_seq_well_formed(es.drop_last(), x, r);
        lemma_subst_well_formed(es.last(), x, r);
        assert(subst_seq(es, x, r).drop_last() =~= subst_seq(es.drop_last(), x, r));
    }
}

proof fn lemma_subst_bindings_well_formed(bs: Seq<(Seq<char>, SpecCExpr)>, x: Seq<char>, r: SpecCExpr)
    requires
        closures_well_formed_bindings(bs),
        closures_well_formed(r),
    ensures
        closures_well_formed_bindings(subst_bindings(bs, x, r)),
    decreases bs,
{
    if bs.len() > 0 {
        lemma_subst_bindings_well_formed(bs.drop_last(), x, r);
        lemma_subst_well_formed(bs.last().1, x, r);
        assert(subst_bindings(bs, x, r).drop_last() =~= subst_bindings(bs.drop_last(), x, r));
    }
}

proof fn lemma_subst_all_well_formed(body: SpecCExpr, vars: Seq<Seq<char>>, name: Seq<char>)
    requires
        closures_well_formed(body),
    ensures
        closures_well_formed(subst_all(body, vars, name)),
    decreases vars.len(),
{
    if vars.len() > 0 {
        lemma_subst_all_well_formed(body, vars.drop_last(), name);
        lemma_subst_well_formed(
            subst_all(body, vars.drop_last(), name),
            vars.last(),
            SpecCExpr::EnvGet(name, vars.last()),
        );
    }
}

proof fn lemma_env_bindings_well_formed(vars: Seq<Seq<char>>)
    ensures
        closures_well_formed_bindings(env_bindings(vars)),
    decreases vars.len(),
{
    if vars.len() > 0 {
        lemma_env_bindings_well_formed(vars.drop_last());
        assert(env_bindings(vars).drop_last() =~= env_bindings(vars.drop_last()));
        assert(env_bindings(vars).last() == (vars.last(), SpecCExpr::Id(vars.last())));
        assert(closures_well_formed(SpecCExpr::Id(vars.last())));
    } else {
        assert(env_bindings(vars).len() == 0);
    }
}

proof fn lemma_cc_well_formed(e: SpecExpr, n: u64)
    ensures
        cc_spec(e, n).0 matches Ok(c) ==> closures_well_formed(c),
    decreases e,
{
    match e {
        SpecExpr::Binop(_, a, b) => {
            lemma_cc_well_formed(*a, n);
            lemma_cc_well_formed(*b, cc_spec(*a, n).1);
        },
        SpecExpr::If(p, c, a) => {
            lemma_cc_well_formed(*p, n);
            let n1 = cc_spec(*p, n).1;
            lemma_cc_well_formed(*c, n1);
            let n2 = cc_spec(*c, n1).1;
            lemma_cc_well_formed(*a, n2);
        },
        SpecExpr::Let(bs, body) => {
            lemma_cc_bindings_well_formed(bs, n);
            lemma_cc_well_formed(*body, cc_bindings_spec(bs, n).1);
        },
        SpecExpr::Lambda(params, ret, body) => {
            let n1 = cc_spec(*body, n).1;
            let n2 = crate::gensym::next_count(n1);
            lemma_cc_well_formed(*body, n2);
            if let Ok(nb) = cc_spec(*body, n2).0 {
                if let Ok(cbody) = cc_spec(*body, n).0 {
                    let name = crate::gensym::env_name(n1);
                    let vars = crate::closure_convert::free_vars_lambda(params, cbody);
                    lemma_subst_all_well_formed(nb, vars, name);
                    lemma_env_bindings_well_formed(vars);
                    assert((seq![(name, SpecType::Unknown)] + params)[0] == (name, SpecType::Unknown));
                    assert(env_name(n1) == name);
                    assert(closures_well_formed(closure_of(params, ret, name, vars, nb)));
                }
            }
        },
        SpecExpr::Begin(es) => {
            lemma_cc_seq_well_formed(es, n);
        },
        SpecExpr::SetBang(_, v) => {
            lemma_cc_well_formed(*v, n);
        },
        SpecExpr::Cons(a, b) => {
            lemma_cc_well_formed(*a, n);
            lemma_cc_well_formed(*b, cc_spec(*a, n).1);
        },
        SpecExpr::Car(a) => {
            lemma_cc_well_formed(*a, n);
        },
        SpecExpr::Cdr(a) => {
            lemma_cc_well_formed(*a, n);
        },
        SpecExpr::IsNull(a) => {
            lemma_cc_well_formed(*a, n);
        },
        SpecExpr::FnApp(f, args) => {
            lemma_cc_seq_well_formed(args, n);
            lemma_cc_well_formed(*f, cc_seq_spec(args, n).1);
        },
        _ => {},
    }
}

proof fn lemma_cc_seq_well_formed(es: Seq<SpecExpr>, n: u64)
    ensures
        cc_seq_spec(es, n).0 matches Ok(cs) ==> closures_well_formed_seq(cs),
    decreases es,
{
    if es.len() > 0 {
        lemma_cc_seq_well_formed(es.drop_last(), n);
        lemma_cc_well_formed(es.last(), cc_seq_spec(es.drop_last(), n).1);
        if let Ok(cs) = cc_seq_spec(es, n).0 {
            if let Ok(prev) = cc_seq_spec(es.drop_last(), n).0 {
                assert(cs.drop_last() =~= prev);
            }
        }
    }
}

proof fn lemma_cc_bindings_well_formed(bs: Seq<(Seq<char>, SpecExpr)>, n: u64)
    ensures
        cc_bindings_spec(bs, n).0 matches Ok(cbs) ==> closures_well_formed_bindings(cbs),
    decreases bs,
{
    if bs.len() > 0 {
        lemma_cc_bindings_well_formed(bs.drop_last(), n);
        lemma_cc_well_formed(bs.last().1, cc_bindings_spec(bs.drop_last(), n).1);
        if let Ok(cbs) = cc_bindings_spec(bs, n).0 {
            if let Ok(prev) = cc_bindings_spec(bs.drop_last(), n).0 {
                assert(cbs.drop_last() =~= prev);
            }
        }
    }
}

/// In the result of closure conversion no lambda stands alone: each is the lambda
/// of a closure, takes the closure's environment as its first parameter (of unknown
/// type, named by the counter), and is paired with an `Env`.
pub proof fn closure_convert_closes_every_lambda(e: SpecExpr, n: u64)
    ensures
        cc_spec(e, n).0 matches Ok(c) ==> closures_well_formed(c),
{
    lemma_cc_well_formed(e, n);
}

/// The free variables of a source expression, in order of occurrence and with
/// repetitions; a `Let` or a lambda takes out the names it binds.
pub open spec fn source_free_vars(e: SpecExpr) -> Seq<Seq<char>>
    decreases e,
{
    match e {
        SpecExpr::Id(x) => seq![x],
        SpecExpr::Binop(_, a, b) => source_free_vars(*a) + source_free_vars(*b),
        SpecExpr::If(p, c, a) => source_free_vars(*p) + source_free_vars(*c) + source_free_vars(*a),
        SpecExpr::Let(bs, body) => without(source_free_vars(*body), binding_names(bs)),
        SpecExpr::Lambda(params, _, body) => without(source_free_vars(*body), binding_names(params)),
        SpecExpr::Begin(es) => source_free_vars_seq(es),
        SpecExpr::SetBang(_, v) => source_free_vars(*v),
        SpecExpr::Cons(a, b) => source_free_vars(*a) + source_free_vars(*b),
        SpecExpr::Car(a) => source_free_vars(*a),
        SpecExpr::Cdr(a) => source_free_vars(*a),
        SpecExpr::IsNull(a) => source_free_vars(*a),
        SpecExpr::FnApp(f, args) => source_free_vars(*f) + source_free_vars_seq(args),
        _ => Seq::empty(),
    }
}

pub open spec fn source_free_vars_seq(es: Seq<SpecExpr>) -> Seq<Seq<char>>
    decreases es,
{
    if es.len() == 0 {
        Seq::empty()
    } else {
        source_free_vars_seq(es.drop_last()) + source_free_vars(es.last())
    }
}

proof fn lemma_cc_bindings_names(bs: Seq<(Seq<char>, SpecExpr)>, n: u64)
    ensures
        cc_bindings_spec(bs, n).0 matches Ok(cbs) ==> cbs.len() == bs.len() && forall|i: int|
            0 <= i < bs.len() ==> #[trigger] cbs[i].0 == bs[i].0,
    decreases bs.len(),
{
    if bs.len() > 0 {
        lemma_cc_bindings_names(bs.drop_last(), n);
    }
}

proof fn lemma_cc_bindings_binding_names(bs: Seq<(Seq<char>, SpecExpr)>, n: u64)
    ensures
        cc_bindings_spec(bs, n).0 matches Ok(cbs) ==> binding_names(cbs) == binding_names(bs),
{
    lemma_cc_bindings_names(bs, n);
    if let Ok(cbs) = cc_bindings_spec(bs, n).0 {
        assert(binding_names(cbs) =~= binding_names(bs));
    }
}

/// The closure made for a lambda reads no free variable through its lambda, and
/// its free variables are those of the converted body that the parameters do not bind.
proof fn lemma_closure_of_free(
    params: Seq<(Seq<char>, SpecType)>,
    ret: SpecType,
    name: Seq<char>,
    cbody: SpecCExpr,
    nb: SpecCExpr,
)
    requires
        free_vars(nb) == free_vars(cbody),
        free_env_names(nb).len() == 0,
    ensures
        ({
            let c = closure_of(params, ret, name, free_vars_lambda(params, cbody), nb);
            &&& c matches SpecCExpr::Closure(l, _) && free_vars(*l).len() == 0
            &&& free_vars(c) == free_vars_lambda(params, cbody)
            &&& free_env_names(c).len() == 0
        }),
{
    let fvl = free_vars_lambda(params, cbody);
    let qs = seq![(name, SpecType::Unknown)] + params;
    let body = subst_all(nb, fvl, name);
    let names = binding_names(qs);
    assert(names =~= seq![name] + binding_names(params));
    subst_all_free_vars(nb, fvl, name);
    lemma_env_bindings_free_vars(fvl);
    let l = without(free_vars(body), names);
    if l.len() > 0 {
        let w = l[0];
        assert(l.contains(w));
        lemma_without_contains(free_vars(body), names, w);
        lemma_concat_contains(seq![name], binding_names(params), w);
        assert(seq![name].contains(name) ==> seq![name][0] == name);
        assert(seq![name][0] == name);
        lemma_without_contains(free_vars(cbody), binding_names(params), w);
    }
    let le = without(free_env_names(body), names);
    if le.len() > 0 {
        let w = le[0];
        assert(le.contains(w));
        lemma_without_contains(free_env_names(body), names, w);
        lemma_concat_contains(seq![name], binding_names(params), w);
        assert(seq![name][0] == name);
        assert(seq![name].contains(name));
        assert(false);
    }
    let c = closure_of(params, ret, name, fvl, nb);
    if let SpecCExpr::Closure(lam, env) = c {
        assert(free_vars(*lam) == l);
        assert(free_vars(*env) == fvl);
        assert(free_vars(c) =~= fvl);
        assert(free_env_names(*lam) == le);
        assert(free_env_names(*env) == crate::substitution::free_env_names_bindings(env_bindings(fvl)));
        assert(le.len() == 0);
        assert(free_env_names(c) =~= Seq::<Seq<char>>::empty());
    }
}

proof fn lemma_cc_free(e: SpecExpr, n: u64)
    ensures
        cc_spec(e, n).0 matches Ok(c) ==> free_vars(c) == source_free_vars(e) && free_env_names(c).len() == 0,
    decreases e,
{
    match e {
        SpecExpr::Binop(_, a, b) => {
            lemma_cc_free(*a, n);
            lemma_cc_free(*b, cc_spec(*a, n).1);
        },
        SpecExpr::Cons(a, b) => {
            lemma_cc_free(*a, n);
            lemma_cc_free(*b, cc_spec(*a, n).1);
        },
        SpecExpr::If(p, c, a) => {
            lemma_cc_free(*p, n);
            let n1 = cc_spec(*p, n).1;
            lemma_cc_free(*c, n1);
            let n2 = cc_spec(*c, n1).1;
            lemma_cc_free(*a, n2);
        },
        SpecExpr::Let(bs, body) => {
            lemma_cc_bindings_binding_names(bs, n);
            lemma_cc_free(*body, cc_bindings_spec(bs, n).1);
            if let Ok(c) = cc_spec(e, n).0 {
                if let SpecCExpr::Let(cbs, cb) = c {
                    let fe = free_env_names(*cb);
                    assert(fe =~= Seq::<Seq<char>>::empty());
                    assert(without(fe, binding_names(cbs)) =~= Seq::<Seq<char>>::empty());
                }
            }
        },
        SpecExpr::Lambda(params, ret, body) => {
            let n1 = cc_spec(*body, n).1;
            let n2 = crate::gensym::next_count(n1);
            lemma_cc_free(*body, n);
            lemma_cc_free(*body, n2);
            if let Ok(nb) = cc_spec(*body, n2).0 {
                if let Ok(cbody) = cc_spec(*body, n).0 {
                    lemma_closure_of_free(params, ret, env_name(n1), cbody, nb);
                }
            }
        },
        SpecExpr::Begin(es) => {
            lemma_cc_seq_free(es, n);
        },
        SpecExpr::SetBang(_, v) => {
            lemma_cc_free(*v, n);
        },
        SpecExpr::Car(a) => {
            lemma_cc_free(*a, n);
        },
        SpecExpr::Cdr(a) => {
            lemma_cc_free(*a, n);
        },
        SpecExpr::IsNull(a) => {
            lemma_cc_free(*a, n);
        },
        SpecExpr::FnApp(f, args) => {
            lemma_cc_seq_free(args, n);
            lemma_cc_free(*f, cc_seq_spec(args, n).1);
        },
        _ => {},
    }
}

proof fn lemma_cc_seq_free(es: Seq<SpecExpr>, n: u64)
    ensures
        cc_seq_spec(es, n).0 matches Ok(cs) ==> free_vars_seq(cs) == source_free_vars_seq(es)
            && free_env_names_seq(cs).len() == 0,
    decreases es,
{
    if es.len() > 0 {
        lemma_cc_seq_free(es.drop_last(), n);
        lemma_cc_free(es.last(), cc_seq_spec(es.drop_last(), n).1);
        if let Ok(cs) = cc_seq_spec(es, n).0 {
            if let Ok(prev) = cc_seq_spec(es.drop_last(), n).0 {
                assert(cs.drop_last() =~= prev);
            }
        }
    }
}

/// Closure conversion keeps the free variables: those of the result are those of
/// the source expression, in the same order.
pub proof fn closure_convert_keeps_free_vars(e: SpecExpr, n: u64)
    ensures
        cc_spec(e, n).0 matches Ok(c) ==> free_vars(c) == source_free_vars(e),
{
    lemma_cc_free(e, n);
}

/// The closure built for a lambda is closed: its lambda has no free variable, and
/// the free variables of the closure are those of the first conversion of the body
/// that the parameters do not bind.
pub proof fn closure_of_lambda_is_closed(
    params: Seq<(Seq<char>, SpecType)>,
    ret: SpecType,
    body: SpecExpr,
    n: u64,
)
    ensures
        cc_spec(SpecExpr::Lambda(params, ret, Box::new(body)), n).0 matches Ok(c) ==> {
            &&& c matches SpecCExpr::Closure(l, _) && free_vars(*l).len() == 0
            &&& cc_spec(body, n).0 matches Ok(cbody) && free_vars(c) == free_vars_lambda(params, cbody)
        },
{
    let n1 = cc_spec(body, n).1;
    let n2 = crate::gensym::next_count(n1);
    lemma_cc_free(body, n);
    lemma_cc_free(body, n2);
    if let Ok(nb) = cc_spec(body, n2).0 {
        if let Ok(cbody) = cc_spec(body, n).0 {
            lemma_closure_of_free(params, ret, env_name(n1), cbody, nb);
        }
    }
}

/// Whether every value of an environment is an identifier or an environment read.
pub open spec fn env_values_are_reads(bs: Seq<(Seq<char>, SpecCExpr)>) -> bool
    decreases bs.len(),
{
    bs.len() == 0 || (env_values_are_reads(bs.drop_last()) && (bs.last().1 is Id
        || bs.last().1 is EnvGet))
}

/// Whether `c` is a converted form of `e`: the same tree, except that an identifier
/// `x` may have become a read `EnvGet(_, x)`, and that each lambda has become a
/// closure. The closure's lambda takes a generated environment name (of unknown type)
/// followed by the source parameters, keeps the return type and has a converted form
/// of the body; it is paired with an `Env` whose values are identifiers or reads.
pub open spec fn converted_from(e: SpecExpr, c: SpecCExpr) -> bool
    decreases e,
{
    match e {
        SpecExpr::Num(x) => c == SpecCExpr::Num(x),
        SpecExpr::Bool(x) => c == SpecCExpr::Bool(x),
        SpecExpr::Str(x) => c == SpecCExpr::Str(x),
        SpecExpr::Id(x) => c == SpecCExpr::Id(x) || (c matches SpecCExpr::EnvGet(_, k) && k == x),
        SpecExpr::Null(t) => c == SpecCExpr::Null(t),
        SpecExpr::Binop(op, a, b) => c matches SpecCExpr::Binop(cop, ca, cb) && cop == op
            && converted_from(*a, *ca) && converted_from(*b, *cb),
        SpecExpr::If(p, t, a) => c matches SpecCExpr::If(cp, ct, ca) && converted_from(*p, *cp)
            && converted_from(*t, *ct) && converted_from(*a, *ca),
        SpecExpr::Let(bs, body) => c matches SpecCExpr::Let(cbs, cb) && converted_bindings(bs, cbs)
            && converted_from(*body, *cb),
        SpecExpr::Lambda(params, ret, body) => c matches SpecCExpr::Closure(l, env) && (match *l {
            SpecCExpr::Lambda(qs, cret, cbody) => {
                &&& qs.len() > 0
                &&& qs[0].1 == SpecType::Unknown
                &&& is_env_name(qs[0].0)
                &&& qs.drop_first() == params
                &&& cret == ret
                &&& converted_from(*body, *cbody)
            },
            _ => false,
        }) && (match *env {
            SpecCExpr::Env(bs) => env_values_are_reads(bs),
            _ => false,
        }),
        SpecExpr::Begin(es) => c matches SpecCExpr::Begin(cs) && converted_seq(es, cs),
        SpecExpr::SetBang(x, v) => c matches SpecCExpr::SetBang(y, cv) && y == x && converted_from(
            *v,
            *cv,
        ),
        SpecExpr::Cons(a, b) => c matches SpecCExpr::Cons(ca, cb) && converted_from(*a, *ca)
            && converted_from(*b, *cb),
        SpecExpr::Car(a) => c matches SpecCExpr::Car(ca) && converted_from(*a, *ca),
        SpecExpr::Cdr(a) => c matches SpecCExpr::Cdr(ca) && converted_from(*a, *ca),
        SpecExpr::IsNull(a) => c matches SpecCExpr::IsNull(ca) && converted_from(*a, *ca),
        SpecExpr::FnApp(f, args) => c matches SpecCExpr::ClosureApp(cf, cargs) && converted_from(
            *f,
            *cf,
        ) && converted_seq(args, cargs),
    }
}

pub open spec fn converted_seq(es: Seq<SpecExpr>, cs: Seq<SpecCExpr>) -> bool
    decreases es,
{
    es.len() == cs.len() && (es.len() == 0 || (converted_seq(es.drop_last(), cs.drop_last())
        && converted_from(es.last(), cs.last())))
}

pub open spec fn converted_bindings(
    bs: Seq<(Seq<char>, SpecExpr)>,
    cbs: Seq<(Seq<char>, SpecCExpr)>,
) -> bool
    decreases bs,
{
    bs.len() == cbs.len() && (bs.len() == 0 || (converted_bindings(bs.drop_last(), cbs.drop_last())
        && bs.last().0 == cbs.last().0 && converted_from(bs.last().1, cbs.last().1)))
}

/// The number of lambdas in a source expression.
pub open spec fn count_lambdas(e: SpecExpr) -> nat
    decreases e,
{
    match e {
        SpecExpr::Binop(_, a, b) => count_lambdas(*a) + count_lambdas(*b),
        SpecExpr::If(p, t, a) => count_lambdas(*p) + count_lambdas(*t) + count_lambdas(*a),
        SpecExpr::Let(bs, body) => count_lambdas_bindings(bs) + count_lambdas(*body),
        SpecExpr::Lambda(_, _, body) => 1 + count_lambdas(*body),
        SpecExpr::Begin(es) => count_lambdas_seq(es),
        SpecExpr::SetBang(_, v) => count_lambdas(*v),
        SpecExpr::Cons(a, b) => count_lambdas(*a) + count_lambdas(*b),
        SpecExpr::Car(a) => count_lambdas(*a),
        SpecExpr::Cdr(a) => count_lambdas(*a),
        SpecExpr::IsNull(a) => count_lambdas(*a),
        SpecExpr::FnApp(f, args) => count_lambdas(*f) + count_lambdas_seq(args),
        _ => 0,
    }
}

pub open spec fn count_lambdas_seq(es: Seq<SpecExpr>) -> nat
    decreases es,
{
    if es.len() == 0 {
        0
    } else {
        count_lambdas_seq(es.drop_last()) + count_lambdas(es.last())
    }
}

pub open spec fn count_lambdas_bindings(bs: Seq<(Seq<char>, SpecExpr)>) -> nat
    decreases bs,
{
    if bs.len() == 0 {
        0
    } else {
        count_lambdas_bindings(bs.drop_last()) + count_lambdas(bs.last().1)
    }
}

/// The number of closures in a converted expression.
pub open spec fn count_closures(c: SpecCExpr) -> nat
    decreases c,
{
    match c {
        SpecCExpr::Binop(_, a, b) => count_closures(*a) + count_closures(*b),
        SpecCExpr::If(p, t, a) => count_closures(*p) + count_closures(*t) + count_closures(*a),
        SpecCExpr::Let(bs, body) => count_closures_bindings(bs) + count_closures(*body),
        SpecCExpr::Lambda(_, _, body) => count_closures(*body),
        SpecCExpr::Closure(l, env) => 1 + count_closures(*l) + count_closures(*env),
        SpecCExpr::ClosureApp(f, args) => count_closures(*f) + count_closures_seq(args),
        SpecCExpr::Env(bs) => count_closures_bindings(bs),
        SpecCExpr::Begin(es) => count_closures_seq(es),
        SpecCExpr::SetBang(_, v) => count_closures(*v),
        SpecCExpr::Cons(a, b) => count_closures(*a) + count_closures(*b),
        SpecCExpr::Car(a) => count_closures(*a),
        SpecCExpr::Cdr(a) => count_closures(*a),
        SpecCExpr::IsNull(a) => count_closures(*a),
        _ => 0,
    }
}

pub open spec fn count_closures_seq(es: Seq<SpecCExpr>) -> nat
    decreases es,
{
    if es.len() == 0 {
        0
    } else {
        count_closures_seq(es.drop_last()) + count_closures(es.last())
    }
}

pub open spec fn count_closures_bindings(bs: Seq<(Seq<char>, SpecCExpr)>) -> nat
    decreases bs,
{
    if bs.len() == 0 {
        0
    } else {
        count_closures_bindings(bs.drop_last()) + count_closures(bs.last().1)
    }
}

proof fn lemma_reads_count(bs: Seq<(Seq<char>, SpecCExpr)>)
    requires
        env_values_are_reads(bs),
    ensures
        count_closures_bindings(bs) == 0,
    decreases bs.len(),
{
    if bs.len() > 0 {
        lemma_reads_count(bs.drop_last());
        assert(count_closures(bs.last().1) == 0);
    }
}

proof fn lemma_subst_reads(bs: Seq<(Seq<char>, SpecCExpr)>, x: Seq<char>, n: Seq<char>)
    requires
        env_values_are_reads(bs),
    ensures
        env_values_are_reads(subst_bindings(bs, x, SpecCExpr::EnvGet(n, x))),
    decreases bs.len(),
{
    if bs.len() > 0 {
        lemma_subst_reads(bs.drop_last(), x, n);
        let s = subst_bindings(bs, x, SpecCExpr::EnvGet(n, x));
        assert(s.drop_last() =~= subst_bindings(bs.drop_last(), x, SpecCExpr::EnvGet(n, x)));
        let v = subst(bs.last().1, x, SpecCExpr::EnvGet(n, x));
        assert(v is Id || v is EnvGet);
        assert(s.last().1 == v);
    }
}

proof fn lemma_env_bindings_reads(vars: Seq<Seq<char>>)
    ensures
        env_values_are_reads(env_bindings(vars)),
    decreases vars.len(),
{
    if vars.len() > 0 {
        lemma_env_bindings_reads(vars.drop_last());
        assert(env_bindings(vars).drop_last() =~= env_bindings(vars.drop_last()));
        assert(env_bindings(vars).last() == (vars.last(), SpecCExpr::Id(vars.last())));
    } else {
        assert(env_bindings(vars).len() == 0);
    }
}

proof fn lemma_converted_count(e: SpecExpr, c: SpecCExpr)
    requires
        converted_from(e, c),
    ensures
        count_closures(c) == count_lambdas(e),
    decreases e,
{
    match e {
        SpecExpr::Binop(_, a, b) => {
            if let SpecCExpr::Binop(_, ca, cb) = c {
                lemma_converted_count(*a, *ca);
                lemma_converted_count(*b, *cb);
            }
        },
        SpecExpr::Cons(a, b) => {
            if let SpecCExpr::Cons(ca, cb) = c {
                lemma_converted_count(*a, *ca);
                lemma_converted_count(*b, *cb);
            }
        },
        SpecExpr::If(p, t, a) => {
            if let SpecCExpr::If(cp, ct, ca) = c {
                lemma_converted_count(*p, *cp);
                lemma_converted_count(*t, *ct);
                lemma_converted_count(*a, *ca);
            }
        },
        SpecExpr::Let(bs, body) => {
            if let SpecCExpr::Let(cbs, cb) = c {
                lemma_converted_bindings_count(bs, cbs);
                lemma_converted_count(*body, *cb);
            }
        },
        SpecExpr::Lambda(_, _, body) => {
            if let SpecCExpr::Closure(l, env) = c {
                if let SpecCExpr::Lambda(_, _, cbody) = *l {
                    lemma_converted_count(*body, *cbody);
                    assert(count_closures(*l) == count_closures(*cbody));
                }
                if let SpecCExpr::Env(bs) = *env {
                    lemma_reads_count(bs);
                    assert(count_closures(*env) == 0);
                }
            }
        },
        SpecExpr::Begin(es) => {
            if let SpecCExpr::Begin(cs) = c {
                lemma_converted_seq_count(es, cs);
            }
        },
        SpecExpr::SetBang(_, v) => {
            if let SpecCExpr::SetBang(_, cv) = c {
                lemma_converted_count(*v, *cv);
            }
        },
        SpecExpr::Car(a) => {
            if let SpecCExpr::Car(ca) = c {
                lemma_converted_count(*a, *ca);
            }
        },
        SpecExpr::Cdr(a) => {
            if let SpecCExpr::Cdr(ca) = c {
                lemma_converted_count(*a, *ca);
            }
        },
        SpecExpr::IsNull(a) => {
            if let SpecCExpr::IsNull(ca) = c {
                lemma_converted_count(*a, *ca);
            }
        },
        SpecExpr::FnApp(f, args) => {
            if let SpecCExpr::ClosureApp(cf, cargs) = c {
                lemma_converted_count(*f, *cf);
                lemma_converted_seq_count(args, cargs);
            }
        },
        _ => {},
    }
}

proof fn lemma_converted_seq_count(es: Seq<SpecExpr>, cs: Seq<SpecCExpr>)
    requires
        converted_seq(es, cs),
    ensures
        count_closures_seq(cs) == count_lambdas_seq(es),
    decreases es,
{
    if es.len() > 0 {
        lemma_converted_seq_count(es.drop_last(), cs.drop_last());
        lemma_converted_count(es.last(), cs.last());
    }
}

proof fn lemma_converted_bindings_count(bs: Seq<(Seq<char>, SpecExpr)>, cbs: Seq<(Seq<char>, SpecCExpr)>)
    requires
        converted_bindings(bs, cbs),
    ensures
        count_closures_bindings(cbs) == count_lambdas_bindings(bs),
    decreases bs,
{
    if bs.len() > 0 {
        lemma_converted_bindings_count(bs.drop_last(), cbs.drop_last());
        lemma_converted_count(bs.last().1, cbs.last().1);
    }
}

proof fn lemma_subst_converted(e: SpecExpr, c: SpecCExpr, x: Seq<char>, n: Seq<char>)
    requires
        converted_from(e, c),
    ensures
        converted_from(e, subst(c, x, SpecCExpr::EnvGet(n, x))),
    decreases e,
{
    let r = SpecCExpr::EnvGet(n, x);
    match e {
        SpecExpr::Binop(_, a, b) => {
            if let SpecCExpr::Binop(_, ca, cb) = c {
                lemma_subst_converted(*a, *ca, x, n);
                lemma_subst_converted(*b, *cb, x, n);
            }
        },
        SpecExpr::Cons(a, b) => {
            if let SpecCExpr::Cons(ca, cb) = c {
                lemma_subst_converted(*a, *ca, x, n);
                lemma_subst_converted(*b, *cb, x, n);
            }
        },
        SpecExpr::If(p, t, a) => {
            if let SpecCExpr::If(cp, ct, ca) = c {
                lemma_subst_converted(*p, *cp, x, n);
                lemma_subst_converted(*t, *ct, x, n);
                lemma_subst_converted(*a, *ca, x, n);
            }
        },
        SpecExpr::Let(bs, body) => {
            if let SpecCExpr::Let(cbs, cb) = c {
                lemma_subst_converted_bindings(bs, cbs, x, n);
                lemma_subst_converted(*body, *cb, x, n);
            }
        },
        SpecExpr::Lambda(_, _, body) => {
            if let SpecCExpr::Closure(l, env) = c {
                if let SpecCExpr::Lambda(qs, cret, cbody) = *l {
                    lemma_subst_converted(*body, *cbody, x, n);
                    if !binding_names(qs).contains(x) {
                        assert(subst(*l, x, r) == SpecCExpr::Lambda(qs, cret, Box::new(subst(*cbody, x, r))));
                    }
                }
                if let SpecCExpr::Env(bs) = *env {
                    lemma_subst_reads(bs, x, n);
                    assert(subst(*env, x, r) == SpecCExpr::Env(subst_bindings(bs, x, r)));
                }
            }
        },
        SpecExpr::Begin(es) => {
            if let SpecCExpr::Begin(cs) = c {
                lemma_subst_converted_seq(es, cs, x, n);
            }
        },
        SpecExpr::SetBang(_, v) => {
            if let SpecCExpr::SetBang(_, cv) = c {
                lemma_subst_converted(*v, *cv, x, n);
            }
        },
        SpecExpr::Car(a) => {
            if let SpecCExpr::Car(ca) = c {
                lemma_subst_converted(*a, *ca, x, n);
            }
        },
        SpecExpr::Cdr(a) => {
            if let SpecCExpr::Cdr(ca) = c {
                lemma_subst_converted(*a, *ca, x, n);
            }
        },
        SpecExpr::IsNull(a) => {
            if let SpecCExpr::IsNull(ca) = c {
                lemma_subst_converted(*a, *ca, x, n);
            }
        },
        SpecExpr::FnApp(f, args) => {
            if let SpecCExpr::ClosureApp(cf, cargs) = c {
                lemma_subst_converted(*f, *cf, x, n);
                lemma_subst_converted_seq(args, cargs, x, n);
            }
        },
        _ => {},
    }
}

proof fn lemma_subst_converted_seq(es: Seq<SpecExpr>, cs: Seq<SpecCExpr>, x: Seq<char>, n: Seq<char>)
    requires
        converted_seq(es, cs),
    ensures
        converted_seq(es, subst_seq(cs, x, SpecCExpr::EnvGet(n, x))),
    decreases es,
{
    let r = SpecCExpr::EnvGet(n, x);
    if es.len() > 0 {
        lemma_subst_converted_seq(es.drop_last(), cs.drop_last(), x, n);
        lemma_subst_converted(es.last(), cs.last(), x, n);
        assert(subst_seq(cs, x, r).drop_last() =~= subst_seq(cs.drop_last(), x, r));
    } else {
        assert(subst_seq(cs, x, r).len() == 0);
    }
}

proof fn lemma_subst_converted_bindings(
    bs: Seq<(Seq<char>, SpecExpr)>,
    cbs: Seq<(Seq<char>, SpecCExpr)>,
    x: Seq<char>,
    n: Seq<char>,
)
    requires
        converted_bindings(bs, cbs),
    ensures
        converted_bindings(bs, subst_bindings(cbs, x, SpecCExpr::EnvGet(n, x))),
    decreases bs,
{
    let r = SpecCExpr::EnvGet(n, x);
    if bs.len() > 0 {
        lemma_subst_converted_bindings(bs.drop_last(), cbs.drop_last(), x, n);
        lemma_subst_converted(bs.last().1, cbs.last().1, x, n);
        assert(subst_bindings(cbs, x, r).drop_last() =~= subst_bindings(cbs.drop_last(), x, r));
    } else {
        assert(subst_bindings(cbs, x, r).len() == 0);
    }
}

proof fn lemma_subst_all_converted(e: SpecExpr, c: SpecCExpr, vars: Seq<Seq<char>>, name: Seq<char>)
    requires
        converted_from(e, c),
    ensures
        converted_from(e, subst_all(c, vars, name)),
    decreases vars.len(),
{
    if vars.len() > 0 {
        lemma_subst_all_converted(e, c, vars.drop_last(), name);
        lemma_subst_converted(e, subst_all(c, vars.drop_last(), name), vars.last(), name);
    }
}

proof fn lemma_cc_converted(e: SpecExpr, n: u64)
    ensures
        cc_spec(e, n).0 matches Ok(c) ==> converted_from(e, c),
    decreases e,
{
    match e {
        SpecExpr::Binop(_, a, b) => {
            lemma_cc_converted(*a, n);
            lemma_cc_converted(*b, cc_spec(*a, n).1);
        },
        SpecExpr::Cons(a, b) => {
            lemma_cc_converted(*a, n);
            lemma_cc_converted(*b, cc_spec(*a, n).1);
        },
        SpecExpr::If(p, c, a) => {
            lemma_cc_converted(*p, n);
            let n1 = cc_spec(*p, n).1;
            lemma_cc_converted(*c, n1);
            let n2 = cc_spec(*c, n1).1;
            lemma_cc_converted(*a, n2);
        },
        SpecExpr::Let(bs, body) => {
            lemma_cc_bindings_converted(bs, n);
            lemma_cc_converted(*body, cc_bindings_spec(bs, n).1);
        },
        SpecExpr::Lambda(params, ret, body) => {
            let n1 = cc_spec(*body, n).1;
            let n2 = crate::gensym::next_count(n1);
            lemma_cc_converted(*body, n2);
            if let Ok(nb) = cc_spec(*body, n2).0 {
                if let Ok(cbody) = cc_spec(*body, n).0 {
                    let name = env_name(n1);
                    let vars = free_vars_lambda(params, cbody);
                    lemma_subst_all_converted(*body, nb, vars, name);
                    lemma_env_bindings_reads(vars);
                    let qs = seq![(name, SpecType::Unknown)] + params;
                    assert(qs[0] == (name, SpecType::Unknown));
                    assert(qs.drop_first() =~= params);
                    assert(env_name(n1) == name);
                    assert(converted_from(e, closure_of(params, ret, name, vars, nb)));
                }
            }
        },
        SpecExpr::Begin(es) => {
            lemma_cc_seq_converted(es, n);
        },
        SpecExpr::SetBang(_, v) => {
            lemma_cc_converted(*v, n);
        },
        SpecExpr::Car(a) => {
            lemma_cc_converted(*a, n);
        },
        SpecExpr::Cdr(a) => {
            lemma_cc_converted(*a, n);
        },
        SpecExpr::IsNull(a) => {
            lemma_cc_converted(*a, n);
        },
        SpecExpr::FnApp(f, args) => {
            lemma_cc_seq_converted(args, n);
            lemma_cc_converted(*f, cc_seq_spec(args, n).1);
        },
        _ => {},
    }
}

proof fn lemma_cc_seq_converted(es: Seq<SpecExpr>, n: u64)
    ensures
        cc_seq_spec(es, n).0 matches Ok(cs) ==> converted_seq(es, cs),
    decreases es,
{
    if es.len() > 0 {
        lemma_cc_seq_converted(es.drop_last(), n);
        lemma_cc_converted(es.last(), cc_seq_spec(es.drop_last(), n).1);
        if let Ok(cs) = cc_seq_spec(es, n).0 {
            if let Ok(prev) = cc_seq_spec(es.drop_last(), n).0 {
                assert(cs.drop_last() =~= prev);
            }
        }
    }
}

proof fn lemma_cc_bindings_converted(bs: Seq<(Seq<char>, SpecExpr)>, n: u64)
    ensures
        cc_bindings_spec(bs, n).0 matches Ok(cbs) ==> converted_bindings(bs, cbs),
    decreases bs,
{
    if bs.len() > 0 {
        lemma_cc_bindings_converted(bs.drop_last(), n);
        lemma_cc_converted(bs.last().1, cc_bindings_spec(bs.drop_last(), n).1);
        if let Ok(cbs) = cc_bindings_spec(bs, n).0 {
            if let Ok(prev) = cc_bindings_spec(bs.drop_last(), n).0 {
                assert(cbs.drop_last() =~= prev);
            }
        }
    }
}

/// The result of closure conversion is a converted form of the source: each lambda
/// has become one closure, whose lambda takes a generated environment name followed
/// by the source parameters, so that there are as many closures as source lambdas.
pub proof fn closure_convert_one_closure_per_lambda(e: SpecExpr, n: u64)
    ensures
        cc_spec(e, n).0 matches Ok(c) ==> converted_from(e, c) && count_closures(c) == count_lambdas(e),
{
    lemma_cc_converted(e, n);
    if let Ok(c) = cc_spec(e, n).0 {
        lemma_converted_count(e, c);
    }
}

} // verus!
