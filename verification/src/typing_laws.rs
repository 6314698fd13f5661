//! What the type checker does, stated over the types of the parts of an expression.
use vstd::prelude::*;
use crate::common::{BinOp, SpecType, SpecExpr, lookup_type};
use crate::closure_convert::binding_names;
use crate::type_checker::{type_of, types_of, binding_types_of, param_types};

verus! {

/// A list types exactly when each of its expressions types, and then its types are
/// theirs, position by position.
pub proof fn types_of_elementwise(env: Seq<(Seq<char>, SpecType)>, es: Seq<SpecExpr>)
    ensures
        types_of(env, es) matches Ok(ts) ==> ts.len() == es.len() && forall|i: int|
            0 <= i < es.len() ==> #[trigger] type_of(env, es[i]) == Ok::<SpecType, Seq<char>>(ts[i]),
        (forall|i: int| 0 <= i < es.len() ==> #[trigger] type_of(env, es[i]) is Ok) ==> types_of(
            env,
            es,
        ) is Ok,
    decreases es.len(),
{
    if es.len() > 0 {
        types_of_elementwise(env, es.drop_last());
        if forall|i: int| 0 <= i < es.len() ==> #[trigger] type_of(env, es[i]) is Ok {
            assert forall|i: int| 0 <= i < es.drop_last().len() implies #[trigger] type_of(
                env,
                es.drop_last()[i],
            ) is Ok by {
                assert(es.drop_last()[i] == es[i]);
            }
            assert(type_of(env, es[es.len() - 1]) is Ok);
        }
        if let Ok(ts) = types_of(env, es) {
            if let Ok(prev) = types_of(env, es.drop_last()) {
                assert forall|i: int| 0 <= i < es.len() implies #[trigger] type_of(env, es[i])
                    == Ok::<SpecType, Seq<char>>(ts[i]) by {
                    if i < es.len() - 1 {
                        assert(es.drop_last()[i] == es[i]);
                    }
                }
            }
        }
    }
}

/// An application types exactly when the function has a function type whose
/// parameters match the arguments in number and, position by position, in type;
/// its type is then the function's return type.
pub proof fn application_typing(env: Seq<(Seq<char>, SpecType)>, f: SpecExpr, args: Seq<SpecExpr>)
    ensures
        type_of(env, SpecExpr::FnApp(Box::new(f), args)) matches Ok(t) ==> (type_of(env, f) matches Ok(
            SpecType::Func(ps, r),
        ) && t == *r && ps.len() == args.len() && forall|i: int|
            0 <= i < args.len() ==> #[trigger] type_of(env, args[i]) == Ok::<SpecType, Seq<char>>(
                ps[i],
            )),
        type_of(env, f) matches Ok(SpecType::Func(ps, r)) ==> ((ps.len() == args.len() && forall|i: int|
            0 <= i < args.len() ==> #[trigger] type_of(env, args[i]) == Ok::<SpecType, Seq<char>>(
                ps[i],
            )) ==> type_of(env, SpecExpr::FnApp(Box::new(f), args)) == Ok::<SpecType, Seq<char>>(
            *r,
        )),
{
    types_of_elementwise(env, args);
    if let Ok(SpecType::Func(ps, r)) = type_of(env, f) {
        if ps.len() == args.len() && forall|i: int|
            0 <= i < args.len() ==> #[trigger] type_of(env, args[i]) == Ok::<SpecType, Seq<char>>(
                ps[i],
            ) {
            assert forall|i: int| 0 <= i < args.len() implies #[trigger] type_of(env, args[i]) is Ok by {
                assert(type_of(env, args[i]) == Ok::<SpecType, Seq<char>>(ps[i]));
            }
            if let Ok(ts) = types_of(env, args) {
                assert(ts.len() == args.len());
                assert forall|i: int| 0 <= i < ts.len() implies ts[i] == ps[i] by {
                    assert(type_of(env, args[i]) == Ok::<SpecType, Seq<char>>(ts[i]));
                    assert(type_of(env, args[i]) == Ok::<SpecType, Seq<char>>(ps[i]));
                }
                assert(ts =~= ps);
            }
        }
    }
}

/// A binary operation types exactly when both operands have the types the operator
/// needs: integers for arithmetic and `<`, strings for `concat`, booleans for `and`
/// and `or`; its type is then integer, boolean, string and boolean respectively.
pub proof fn binop_typing(env: Seq<(Seq<char>, SpecType)>, op: BinOp, a: SpecExpr, b: SpecExpr)
    ensures
        ({
            let r = type_of(env, SpecExpr::Binop(op, Box::new(a), Box::new(b)));
            let ta = type_of(env, a);
            let tb = type_of(env, b);
            &&& (op is Add || op is Sub || op is Mul || op is Div) ==> (r is Ok <==> (ta
                == Ok::<SpecType, Seq<char>>(SpecType::Int) && tb == Ok::<SpecType, Seq<char>>(
                SpecType::Int))) && (r is Ok ==> r == Ok::<SpecType, Seq<char>>(SpecType::Int))
            &&& op is LessThan ==> (r is Ok <==> (ta == Ok::<SpecType, Seq<char>>(SpecType::Int)
                && tb == Ok::<SpecType, Seq<char>>(SpecType::Int))) && (r is Ok ==> r == Ok::<
                SpecType,
                Seq<char>,
            >(SpecType::Bool))
            &&& op is Concat ==> (r is Ok <==> (ta == Ok::<SpecType, Seq<char>>(SpecType::Str)
                && tb == Ok::<SpecType, Seq<char>>(SpecType::Str))) && (r is Ok ==> r == Ok::<
                SpecType,
                Seq<char>,
            >(SpecType::Str))
            &&& (op is And || op is Or) ==> (r is Ok <==> (ta == Ok::<SpecType, Seq<char>>(
                SpecType::Bool) && tb == Ok::<SpecType, Seq<char>>(SpecType::Bool))) && (r is Ok
                ==> r == Ok::<SpecType, Seq<char>>(SpecType::Bool))
        }),
{
}

/// A non-empty `begin` types exactly when each of its expressions types, and it
/// then has the type of its last expression; an empty one does not type.
pub proof fn begin_typing(env: Seq<(Seq<char>, SpecType)>, es: Seq<SpecExpr>)
    ensures
        es.len() == 0 ==> type_of(env, SpecExpr::Begin(es)) is Err,
        es.len() > 0 ==> (type_of(env, SpecExpr::Begin(es)) is Ok <==> forall|i: int|
            0 <= i < es.len() ==> #[trigger] type_of(env, es[i]) is Ok),
        es.len() > 0 && (forall|i: int| 0 <= i < es.len() ==> #[trigger] type_of(env, es[i]) is Ok)
            ==> type_of(env, SpecExpr::Begin(es)) == type_of(env, es[es.len() - 1]),
{
    types_of_elementwise(env, es);
    if es.len() > 0 {
        if let Ok(ts) = types_of(env, es) {
            assert(type_of(env, es[es.len() - 1]) == Ok::<SpecType, Seq<char>>(ts[es.len() - 1]));
        } else {
            if forall|i: int| 0 <= i < es.len() ==> #[trigger] type_of(env, es[i]) is Ok {
                assert(types_of(env, es) is Ok);
            }
        }
    }
}

/// The list operations: `null` of a type is a list of it; `null?` needs a list
/// and gives a boolean; `car` of a list of `t` is a `t`; `cdr` of a list is a list of
/// the same type; `cons` of a `t` onto a list of `t` is a list of `t`. Nothing else types.
pub proof fn list_typing(env: Seq<(Seq<char>, SpecType)>, a: SpecExpr, l: SpecExpr, t: SpecType)
    ensures
        type_of(env, SpecExpr::Null(t)) == Ok::<SpecType, Seq<char>>(SpecType::List(Box::new(t))),
        type_of(env, SpecExpr::IsNull(Box::new(l))) is Ok <==> type_of(env, l) matches Ok(
            SpecType::List(_),
        ),
        type_of(env, SpecExpr::IsNull(Box::new(l))) is Ok ==> type_of(env, SpecExpr::IsNull(Box::new(l)))
            == Ok::<SpecType, Seq<char>>(SpecType::Bool),
        type_of(env, SpecExpr::Car(Box::new(l))) == Ok::<SpecType, Seq<char>>(t) <==> type_of(env, l)
            == Ok::<SpecType, Seq<char>>(SpecType::List(Box::new(t))),
        type_of(env, SpecExpr::Car(Box::new(l))) is Ok ==> type_of(env, l) matches Ok(SpecType::List(_)),
        type_of(env, SpecExpr::Cdr(Box::new(l))) == Ok::<SpecType, Seq<char>>(t) <==> (t is List
            && type_of(env, l) == Ok::<SpecType, Seq<char>>(t)),
        type_of(env, SpecExpr::Cdr(Box::new(l))) is Ok ==> type_of(env, l) matches Ok(SpecType::List(_)),
        type_of(env, SpecExpr::Cons(Box::new(a), Box::new(l))) == Ok::<SpecType, Seq<char>>(
            SpecType::List(Box::new(t)),
        ) <==> (type_of(env, a) == Ok::<SpecType, Seq<char>>(t) && type_of(env, l) == Ok::<
            SpecType,
            Seq<char>,
        >(SpecType::List(Box::new(t)))),
        type_of(env, SpecExpr::Cons(Box::new(a), Box::new(l))) is Ok ==> type_of(env, SpecExpr::Cons(Box::new(a), Box::new(l))) matches Ok(SpecType::List(_)),
{
}

/// Looking a name up in `env` followed by `more` finds its binding in `more` if it
/// has one there, and otherwise its binding in `env`.
pub proof fn lookup_in_extended_env(
    env: Seq<(Seq<char>, SpecType)>,
    more: Seq<(Seq<char>, SpecType)>,
    x: Seq<char>,
)
    ensures
        lookup_type(env + more, x) == (match lookup_type(more, x) {
            Some(t) => Some(t),
            None => lookup_type(env, x),
        }),
        lookup_type(more, x) is Some <==> binding_names(more).contains(x),
    decreases more.len(),
{
    if more.len() == 0 {
        assert(env + more =~= env);
        assert(binding_names(more).len() == 0);
    } else {
        lookup_in_extended_env(env, more.drop_last(), x);
        assert((env + more).drop_last() =~= env + more.drop_last());
        assert((env + more).last() == more.last());
        let names = binding_names(more);
        assert(names.drop_last() =~= binding_names(more.drop_last()));
        assert(names.last() == more.last().0);
        if binding_names(more.drop_last()).contains(x) {
            let i = choose|i: int| 0 <= i < binding_names(more.drop_last()).len() && binding_names(more.drop_last())[i] == x;
            assert(names[i] == x);
        }
        if names.contains(x) {
            let i = choose|i: int| 0 <= i < names.len() && names[i] == x;
            if i < names.len() - 1 {
                assert(binding_names(more.drop_last())[i] == x);
            }
        }
    }
}

/// Whether two environments bind every name outside `names` alike.
pub open spec fn agree_outside(
    env1: Seq<(Seq<char>, SpecType)>,
    env2: Seq<(Seq<char>, SpecType)>,
    names: Seq<Seq<char>>,
) -> bool {
    forall|x: Seq<char>| !names.contains(x) ==> #[trigger] lookup_type(env1, x) == lookup_type(env2, x)
}

proof fn lemma_agree_extend(
    env1: Seq<(Seq<char>, SpecType)>,
    env2: Seq<(Seq<char>, SpecType)>,
    more: Seq<(Seq<char>, SpecType)>,
)
    requires
        agree_outside(env1, env2, Seq::empty()),
    ensures
        agree_outside(env1 + more, env2 + more, Seq::empty()),
{
    assert forall|x: Seq<char>| !Seq::<Seq<char>>::empty().contains(x) implies #[trigger] lookup_type(env1 + more, x) == lookup_type(env2 + more, x) by {
        lookup_in_extended_env(env1, more, x);
        lookup_in_extended_env(env2, more, x);
        assert(!Seq::<Seq<char>>::empty().contains(x));
    }
}

/// Environments that bind every name alike give every expression the same type.
pub proof fn typing_depends_only_on_lookup(
    env1: Seq<(Seq<char>, SpecType)>,
    env2: Seq<(Seq<char>, SpecType)>,
    e: SpecExpr,
)
    requires
        agree_outside(env1, env2, Seq::empty()),
    ensures
        type_of(env1, e) == type_of(env2, e),
    decreases e,
{
    assert forall|x: Seq<char>| #[trigger] lookup_type(env1, x) == lookup_type(env2, x) by {
        assert(!Seq::<Seq<char>>::empty().contains(x));
    }
    match e {
        SpecExpr::Binop(_, a, b) => {
            typing_depends_only_on_lookup(env1, env2, *a);
            typing_depends_only_on_lookup(env1, env2, *b);
        },
        SpecExpr::Cons(a, b) => {
            typing_depends_only_on_lookup(env1, env2, *a);
            typing_depends_only_on_lookup(env1, env2, *b);
        },
        SpecExpr::If(p, c, a) => {
            typing_depends_only_on_lookup(env1, env2, *p);
            typing_depends_only_on_lookup(env1, env2, *c);
            typing_depends_only_on_lookup(env1, env2, *a);
        },
        SpecExpr::Let(bs, body) => {
            lemma_bindings_depend_only_on_lookup(env1, env2, bs);
            if let Ok(bound) = binding_types_of(env1, bs) {
                lemma_agree_extend(env1, env2, bound);
                typing_depends_only_on_lookup(env1 + bound, env2 + bound, *body);
            }
        },
        SpecExpr::Lambda(params, _, body) => {
            lemma_agree_extend(env1, env2, params);
            typing_depends_only_on_lookup(env1 + params, env2 + params, *body);
        },
        SpecExpr::Begin(es) => {
            lemma_seq_depends_only_on_lookup(env1, env2, es);
        },
        SpecExpr::SetBang(_, v) => {
            typing_depends_only_on_lookup(env1, env2, *v);
        },
        SpecExpr::Car(a) => {
            typing_depends_only_on_lookup(env1, env2, *a);
        },
        SpecExpr::Cdr(a) => {
            typing_depends_only_on_lookup(env1, env2, *a);
        },
        SpecExpr::IsNull(a) => {
            typing_depends_only_on_lookup(env1, env2, *a);
        },
        SpecExpr::FnApp(f, args) => {
            typing_depends_only_on_lookup(env1, env2, *f);
            lemma_seq_depends_only_on_lookup(env1, env2, args);
        },
        _ => {},
    }
}

proof fn lemma_seq_depends_only_on_lookup(
    env1: Seq<(Seq<char>, SpecType)>,
    env2: Seq<(Seq<char>, SpecType)>,
    es: Seq<SpecExpr>,
)
    requires
        agree_outside(env1, env2, Seq::empty()),
    ensures
        types_of(env1, es) == types_of(env2, es),
    decreases es,
{
    if es.len() > 0 {
        lemma_seq_depends_only_on_lookup(env1, env2, es.drop_last());
        typing_depends_only_on_lookup(env1, env2, es.last());
    }
}

proof fn lemma_bindings_depend_only_on_lookup(
    env1: Seq<(Seq<char>, SpecType)>,
    env2: Seq<(Seq<char>, SpecType)>,
    bs: Seq<(Seq<char>, SpecExpr)>,
)
    requires
        agree_outside(env1, env2, Seq::empty()),
    ensures
        binding_types_of(env1, bs) == binding_types_of(env2, bs),
    decreases bs,
{
    if bs.len() > 0 {
        lemma_bindings_depend_only_on_lookup(env1, env2, bs.drop_last());
        typing_depends_only_on_lookup(env1, env2, bs.last().1);
    }
}

/// The parameters of a lambda are the innermost bindings in its body: what the
/// enclosing environment binds a parameter's name to makes no difference to the
/// lambda's type. A lambda that types has the function type from its parameter
/// types to its declared return type.
pub proof fn lambda_parameters_shadow_outer_bindings(
    env1: Seq<(Seq<char>, SpecType)>,
    env2: Seq<(Seq<char>, SpecType)>,
    params: Seq<(Seq<char>, SpecType)>,
    ret: SpecType,
    body: SpecExpr,
)
    requires
        agree_outside(env1, env2, binding_names(params)),
    ensures
        type_of(env1, SpecExpr::Lambda(params, ret, Box::new(body))) == type_of(
            env2,
            SpecExpr::Lambda(params, ret, Box::new(body)),
        ),
        type_of(env1, SpecExpr::Lambda(params, ret, Box::new(body))) is Ok ==> type_of(
            env1,
            SpecExpr::Lambda(params, ret, Box::new(body)),
        ) == Ok::<SpecType, Seq<char>>(SpecType::Func(param_types(params), Box::new(ret))),
{
    assert forall|x: Seq<char>| !Seq::<Seq<char>>::empty().contains(x) implies #[trigger] lookup_type(env1 + params, x) == lookup_type(env2 + params, x) by {
        lookup_in_extended_env(env1, params, x);
        lookup_in_extended_env(env2, params, x);
        if !binding_names(params).contains(x) {
            assert(lookup_type(env1, x) == lookup_type(env2, x));
        }
    }
    typing_depends_only_on_lookup(env1 + params, env2 + params, body);
}

/// An outer binding of a name that a lambda takes as a parameter makes no difference
/// to the lambda's type: inside the body the parameter is in force.
pub proof fn outer_binding_of_parameter_is_shadowed(
    env: Seq<(Seq<char>, SpecType)>,
    x: Seq<char>,
    s: SpecType,
    params: Seq<(Seq<char>, SpecType)>,
    ret: SpecType,
    body: SpecExpr,
)
    requires
        binding_names(params).contains(x),
    ensures
        type_of(env.push((x, s)), SpecExpr::Lambda(params, ret, Box::new(body))) == type_of(
            env,
            SpecExpr::Lambda(params, ret, Box::new(body)),
        ),
{
    assert forall|y: Seq<char>| !binding_names(params).contains(y) implies #[trigger] lookup_type(
        env.push((x, s)),
        y,
    ) == lookup_type(env, y) by {
        assert(env.push((x, s)).drop_last() =~= env);
    }
    lambda_parameters_shadow_outer_bindings(env.push((x, s)), env, params, ret, body);
}

/// A lambda whose body is one of its parameters types exactly when the last
/// parameter of that name is declared with the return type, whatever the enclosing
/// environment binds the name to.
pub proof fn parameter_reference_typing(
    env: Seq<(Seq<char>, SpecType)>,
    params: Seq<(Seq<char>, SpecType)>,
    ret: SpecType,
    x: Seq<char>,
)
    requires
        binding_names(params).contains(x),
    ensures
        type_of(env, SpecExpr::Lambda(params, ret, Box::new(SpecExpr::Id(x)))) is Ok <==> lookup_type(
            params,
            x,
        ) == Some(ret),
{
    lookup_in_extended_env(env, params, x);
    let body = SpecExpr::Id(x);
    assert(type_of(env + params, body) == Ok::<SpecType, Seq<char>>(lookup_type(params, x)->0));
    assert(*Box::new(body) == body);
}

/// A name is bound to the type of its innermost binding; a binding of another name
/// makes no difference to it.
pub proof fn innermost_binding_in_force(
    env: Seq<(Seq<char>, SpecType)>,
    x: Seq<char>,
    y: Seq<char>,
    t: SpecType,
)
    ensures
        type_of(env.push((x, t)), SpecExpr::Id(x)) == Ok::<SpecType, Seq<char>>(t),
        x != y ==> type_of(env.push((x, t)), SpecExpr::Id(y)) == type_of(env, SpecExpr::Id(y)),
{
    assert(env.push((x, t)).drop_last() =~= env);
}

/// The values of a `let` are each typed in the enclosing environment, and the names
/// they bind are bound, in order, to those types.
pub proof fn let_bindings_typing(env: Seq<(Seq<char>, SpecType)>, bs: Seq<(Seq<char>, SpecExpr)>)
    ensures
        binding_types_of(env, bs) matches Ok(bound) ==> bound.len() == bs.len() && forall|i: int|
            0 <= i < bs.len() ==> (#[trigger] bound[i]).0 == bs[i].0 && type_of(env, bs[i].1) == Ok::<
                SpecType,
                Seq<char>,
            >(bound[i].1),
        (forall|i: int| 0 <= i < bs.len() ==> #[trigger] type_of(env, bs[i].1) is Ok)
            ==> binding_types_of(env, bs) is Ok,
    decreases bs.len(),
{
    if bs.len() > 0 {
        let_bindings_typing(env, bs.drop_last());
        if forall|i: int| 0 <= i < bs.len() ==> #[trigger] type_of(env, bs[i].1) is Ok {
            assert forall|i: int| 0 <= i < bs.drop_last().len() implies #[trigger] type_of(
                env,
                bs.drop_last()[i].1,
            ) is Ok by {
                assert(bs.drop_last()[i] == bs[i]);
            }
            assert(type_of(env, bs[bs.len() - 1].1) is Ok);
        }
        if let Ok(bound) = binding_types_of(env, bs) {
            assert forall|i: int| 0 <= i < bs.len() implies (#[trigger] bound[i]).0 == bs[i].0
                && type_of(env, bs[i].1) == Ok::<SpecType, Seq<char>>(bound[i].1) by {
                if i < bs.len() - 1 {
                    assert(bs.drop_last()[i] == bs[i]);
                }
            }
        }
    }
}

/// The names a `let` binds are the innermost bindings in its body: where two
/// environments bind every other name alike and give the values the same types,
/// the `let` has the same type in both.
pub proof fn let_bindings_shadow_outer_bindings(
    env1: Seq<(Seq<char>, SpecType)>,
    env2: Seq<(Seq<char>, SpecType)>,
    bs: Seq<(Seq<char>, SpecExpr)>,
    body: SpecExpr,
)
    requires
        agree_outside(env1, env2, binding_names(bs)),
        binding_types_of(env1, bs) == binding_types_of(env2, bs),
    ensures
        type_of(env1, SpecExpr::Let(bs, Box::new(body))) == type_of(
            env2,
            SpecExpr::Let(bs, Box::new(body)),
        ),
{
    if let Ok(bound) = binding_types_of(env1, bs) {
        let_bindings_typing(env1, bs);
        assert(binding_names(bound) =~= binding_names(bs));
        assert forall|x: Seq<char>| !Seq::<Seq<char>>::empty().contains(x) implies #[trigger] lookup_type(env1 + bound, x) == lookup_type(env2 + bound, x) by {
            lookup_in_extended_env(env1, bound, x);
            lookup_in_extended_env(env2, bound, x);
            if !binding_names(bs).contains(x) {
                assert(lookup_type(env1, x) == lookup_type(env2, x));
            }
        }
        typing_depends_only_on_lookup(env1 + bound, env2 + bound, body);
    }
}

/// A conditional types exactly when its condition is a boolean and both branches
/// type alike; it then has the branches' type.
pub proof fn if_typing(env: Seq<(Seq<char>, SpecType)>, p: SpecExpr, c: SpecExpr, a: SpecExpr)
    ensures
        type_of(env, SpecExpr::If(Box::new(p), Box::new(c), Box::new(a))) is Ok <==> (type_of(env, p)
            == Ok::<SpecType, Seq<char>>(SpecType::Bool) && type_of(env, c) is Ok && type_of(env, c)
            == type_of(env, a)),
        type_of(env, SpecExpr::If(Box::new(p), Box::new(c), Box::new(a))) is Ok ==> type_of(
            env,
            SpecExpr::If(Box::new(p), Box::new(c), Box::new(a)),
        ) == type_of(env, c),
{
}

/// An assignment types exactly when the name is bound and the value has the name's
/// type; it then has that type.
pub proof fn set_typing(env: Seq<(Seq<char>, SpecType)>, x: Seq<char>, v: SpecExpr)
    ensures
        type_of(env, SpecExpr::SetBang(x, Box::new(v))) is Ok <==> (lookup_type(env, x) matches Some(
            t,
        ) && type_of(env, v) == Ok::<SpecType, Seq<char>>(t)),
        type_of(env, SpecExpr::SetBang(x, Box::new(v))) is Ok ==> type_of(
            env,
            SpecExpr::SetBang(x, Box::new(v)),
        ) == type_of(env, v),
{
}

} // verus!
